use vstd::arithmetic::div_mod::{lemma_add_mod_noop_right, lemma_fundamental_div_mod};
use vstd::prelude::*;

verus! {

/// Width of the framebuffer in pixels.
pub const SCREEN_WIDTH: usize = 64;

/// Height of the framebuffer in pixels.
pub const SCREEN_HEIGHT: usize = 32;

/// Number of pixels in the framebuffer.
pub const PIXEL_COUNT: usize = 2048;

/// Where the pixel at column `x`, row `y` lies, both wrapped around the screen.
#[verifier::opaque]
pub open spec fn pixel_index(x: nat, y: nat) -> int {
    ((y % (SCREEN_HEIGHT as nat)) * (SCREEN_WIDTH as nat) + (x % (SCREEN_WIDTH as nat))) as int
}

/// Bit `b` of a sprite row, counted from the most significant (leftmost) bit.
pub open spec fn sprite_bit(byte: u8, b: nat) -> bool {
    b <= 7 && (byte >> ((7 - b) as u8)) & 1u8 == 1u8
}

/// The pixels that the first `k` bits of a sprite row drawn at column `x0`
/// of row `y` toggle, left to right.
pub open spec fn row_hits(byte: u8, x0: nat, y: nat, k: nat) -> Seq<int>
    decreases k,
{
    if k == 0 {
        Seq::empty()
    } else {
        let prev = row_hits(byte, x0, y, (k - 1) as nat);
        if sprite_bit(byte, (k - 1) as nat) {
            prev.push(pixel_index((x0 + k - 1) as nat, y))
        } else {
            prev
        }
    }
}

/// The pixels that a sprite drawn at `(x0, y0)` toggles, in drawing order:
/// rows top to bottom, each row left to right.
pub open spec fn sprite_hits(rows: Seq<u8>, x0: nat, y0: nat) -> Seq<int>
    decreases rows.len(),
{
    if rows.len() == 0 {
        Seq::empty()
    } else {
        sprite_hits(rows.drop_last(), x0, y0) + row_hits(rows.last(), x0, (y0 + rows.len() - 1) as nat, 8)
    }
}

/// `px` after each pixel of `hits` has been flipped in turn.
pub open spec fn toggled(px: Seq<bool>, hits: Seq<int>) -> Seq<bool>
    decreases hits.len(),
{
    if hits.len() == 0 {
        px
    } else {
        let p = toggled(px, hits.drop_last());
        p.update(hits.last(), !p[hits.last()])
    }
}

/// Whether flipping the pixels of `hits` in turn ever turns a lit pixel off.
pub open spec fn collides(px: Seq<bool>, hits: Seq<int>) -> bool
    decreases hits.len(),
{
    if hits.len() == 0 {
        false
    } else {
        collides(px, hits.drop_last()) || toggled(px, hits.drop_last())[hits.last()]
    }
}

/// How many times pixel `p` occurs in `hits`.
pub open spec fn hit_count(hits: Seq<int>, p: int) -> nat
    decreases hits.len(),
{
    if hits.len() == 0 {
        0
    } else {
        hit_count(hits.drop_last(), p) + if hits.last() == p { 1nat } else { 0nat }
    }
}

proof fn lemma_pixel_index_on_screen(x: nat, y: nat)
    ensures
        0 <= pixel_index(x, y) < PIXEL_COUNT,
{
    reveal(pixel_index);
    assert(y % 32 < 32);
    assert(x % 64 < 64);
}

/// Every pixel that the bits of a sprite row toggle lies on the screen.
proof fn lemma_row_hits_on_screen(byte: u8, x0: nat, y: nat, k: nat)
    ensures
        forall|j: int|
            0 <= j < row_hits(byte, x0, y, k).len() ==> 0 <= #[trigger] row_hits(byte, x0, y, k)[j]
                < PIXEL_COUNT,
    decreases k,
{
    if k > 0 {
        let prev = row_hits(byte, x0, y, (k - 1) as nat);
        lemma_row_hits_on_screen(byte, x0, y, (k - 1) as nat);
        lemma_pixel_index_on_screen((x0 + k - 1) as nat, y);
        let cur = row_hits(byte, x0, y, k);
        assert forall|j: int| 0 <= j < cur.len() implies 0 <= #[trigger] cur[j] < PIXEL_COUNT by {
            if j < prev.len() {
                assert(cur[j] == prev[j]);
            }
        }
    }
}

/// Every pixel that a sprite toggles lies on the screen.
proof fn lemma_sprite_hits_on_screen(rows: Seq<u8>, x0: nat, y0: nat)
    ensures
        forall|j: int|
            0 <= j < sprite_hits(rows, x0, y0).len() ==> 0 <= #[trigger] sprite_hits(rows, x0, y0)[j]
                < PIXEL_COUNT,
    decreases rows.len(),
{
    if rows.len() > 0 {
        lemma_sprite_hits_on_screen(rows.drop_last(), x0, y0);
        lemma_row_hits_on_screen(rows.last(), x0, (y0 + rows.len() - 1) as nat, 8);
        let a = sprite_hits(rows.drop_last(), x0, y0);
        let b = row_hits(rows.last(), x0, (y0 + rows.len() - 1) as nat, 8);
        let cur = sprite_hits(rows, x0, y0);
        assert(cur == a + b);
        assert forall|j: int| 0 <= j < cur.len() implies 0 <= #[trigger] cur[j] < PIXEL_COUNT by {
            if j < a.len() {
                assert(cur[j] == a[j]);
            } else {
                assert(cur[j] == b[j - a.len()]);
            }
        }
    }
}

/// Flipping the pixels of `hits` in turn leaves a pixel flipped exactly when
/// it occurs an odd number of times in `hits`.
proof fn lemma_toggled_pointwise(px: Seq<bool>, hits: Seq<int>, p: int)
    requires
        forall|j: int| 0 <= j < hits.len() ==> 0 <= #[trigger] hits[j] < px.len(),
        0 <= p < px.len(),
    ensures
        toggled(px, hits).len() == px.len(),
        toggled(px, hits)[p] == (px[p] != (hit_count(hits, p) % 2 == 1)),
    decreases hits.len(),
{
    if hits.len() > 0 {
        let rest = hits.drop_last();
        assert forall|j: int| 0 <= j < rest.len() implies 0 <= #[trigger] rest[j] < px.len() by {
            assert(rest[j] == hits[j]);
        }
        assert(0 <= hits[hits.len() - 1] < px.len());
        lemma_toggled_pointwise(px, rest, p);
    }
}

/// Drawing the same sprite at the same place twice restores every pixel.
pub proof fn lemma_blit_twice_restores(px: Seq<bool>, sprite: Seq<u8>, x: u8, y: u8)
    requires
        px.len() == PIXEL_COUNT,
    ensures
        toggled(toggled(px, sprite_hits(sprite, x as nat, y as nat)), sprite_hits(sprite, x as nat, y as nat))
            == px,
{
    let hits = sprite_hits(sprite, x as nat, y as nat);
    lemma_sprite_hits_on_screen(sprite, x as nat, y as nat);
    let once = toggled(px, hits);
    assert(once.len() == px.len()) by {
        lemma_toggled_pointwise(px, hits, 0);
    }
    assert forall|p: int| 0 <= p < px.len() implies #[trigger] toggled(once, hits)[p] == px[p] by {
        lemma_toggled_pointwise(px, hits, p);
        lemma_toggled_pointwise(once, hits, p);
    }
    assert(toggled(once, hits).len() == px.len()) by {
        lemma_toggled_pointwise(once, hits, 0);
    }
    assert(toggled(once, hits) =~= px);
}

/// The number whose binary digits, most significant first, are the first
/// `n` of `bits`.
pub open spec fn pack_bits(bits: Seq<bool>, n: nat) -> nat
    decreases n,
{
    if n == 0 {
        0
    } else {
        pack_bits(bits, (n - 1) as nat) * 2 + if bits[n - 1] { 1nat } else { 0nat }
    }
}

/// The screen packed eight pixels to a byte, leftmost pixel in the most
/// significant bit, row by row.
pub open spec fn packed_pixels(px: Seq<bool>) -> Seq<u8> {
    Seq::new(
        (PIXEL_COUNT / 8) as nat,
        |k: int| pack_bits(px.subrange(8 * k, 8 * k + 8), 8) as u8,
    )
}

proof fn lemma_pack_bits_bound(bits: Seq<bool>, n: nat)
    ensures
        pack_bits(bits, n) < vstd::arithmetic::power2::pow2(n),
    decreases n,
{
    vstd::arithmetic::power2::lemma2_to64();
    if n > 0 {
        lemma_pack_bits_bound(bits, (n - 1) as nat);
        vstd::arithmetic::power2::lemma_pow2_unfold(n);
    }
}

/// No pixel occurs twice in `hits`.
pub open spec fn no_repeats(hits: Seq<int>) -> bool {
    forall|i: int, j: int| 0 <= i < j < hits.len() ==> hits[i] != hits[j]
}

/// Two numbers less than the modulus apart leave different remainders.
proof fn lemma_mod_apart(a: int, d: int, m: int)
    requires
        a >= 0,
        0 < d < m,
        m == 32 || m == 64,
    ensures
        (a + d) % m != a % m,
{
    lemma_fundamental_div_mod(a, m);
    lemma_fundamental_div_mod(a + d, m);
    if m == 32 {
        assert((a + d) % 32 != a % 32);
    } else {
        assert((a + d) % 64 != a % 64);
    }
}

/// A pixel index determines the wrapped column and row.
proof fn lemma_pixel_index_parts(x1: nat, y1: nat, x2: nat, y2: nat)
    requires
        pixel_index(x1, y1) == pixel_index(x2, y2),
    ensures
        x1 % 64 == x2 % 64,
        y1 % 32 == y2 % 32,
{
    reveal(pixel_index);
}

/// Pixel `p` is the one that a set bit among the first `k` of a sprite row
/// drawn at column `x0` of row `y` lands on.
spec fn from_row_bit(byte: u8, x0: nat, y: nat, k: nat, p: int) -> bool {
    exists|b: nat| b < k && sprite_bit(byte, b) && p == pixel_index(x0 + b, y)
}

/// Pixel `p` is the one that a set bit of some row of a sprite drawn at
/// `(x0, y0)` lands on.
spec fn from_sprite_bit(rows: Seq<u8>, x0: nat, y0: nat, p: int) -> bool {
    exists|r: nat, b: nat| r < rows.len() && b < 8 && sprite_bit(rows[r as int], b) && p == pixel_index(x0 + b, y0 + r)
}

/// Each pixel a sprite row toggles comes from one of its set bits.
proof fn lemma_row_hits_sound(byte: u8, x0: nat, y: nat, k: nat)
    ensures
        forall|j: int|
            0 <= j < row_hits(byte, x0, y, k).len() ==> from_row_bit(
                byte,
                x0,
                y,
                k,
                #[trigger] row_hits(byte, x0, y, k)[j],
            ),
    decreases k,
{
    if k > 0 {
        let k1 = (k - 1) as nat;
        lemma_row_hits_sound(byte, x0, y, k1);
        let prev = row_hits(byte, x0, y, k1);
        let cur = row_hits(byte, x0, y, k);
        assert forall|j: int| 0 <= j < cur.len() implies from_row_bit(byte, x0, y, k, #[trigger] cur[j]) by {
            if j < prev.len() {
                assert(cur[j] == prev[j]);
                assert(from_row_bit(byte, x0, y, k1, prev[j]));
                let b = choose|b: nat| b < k1 && sprite_bit(byte, b) && prev[j] == pixel_index(x0 + b, y);
                assert(b < k && sprite_bit(byte, b) && cur[j] == pixel_index(x0 + b, y));
            } else {
                assert(k1 < k && sprite_bit(byte, k1) && cur[j] == pixel_index(x0 + k1, y));
            }
        }
    }
}

/// Each set bit of a sprite row toggles its pixel.
proof fn lemma_row_hits_complete(byte: u8, x0: nat, y: nat, k: nat)
    ensures
        forall|b: nat|
            b < k && #[trigger] sprite_bit(byte, b) ==> exists|j: int|
                0 <= j < row_hits(byte, x0, y, k).len() && row_hits(byte, x0, y, k)[j]
                    == pixel_index(x0 + b, y),
    decreases k,
{
    if k > 0 {
        let k1 = (k - 1) as nat;
        lemma_row_hits_complete(byte, x0, y, k1);
        let prev = row_hits(byte, x0, y, k1);
        let cur = row_hits(byte, x0, y, k);
        assert forall|b: nat| b < k && #[trigger] sprite_bit(byte, b) implies exists|j: int|
            0 <= j < cur.len() && cur[j] == pixel_index(x0 + b, y) by {
            if b == k1 {
                assert(cur[prev.len() as int] == pixel_index(x0 + k1, y));
            } else {
                let j = choose|j: int| 0 <= j < prev.len() && prev[j] == pixel_index(x0 + b, y);
                assert(cur[j] == prev[j]);
            }
        }
    }
}

/// No pixel is toggled twice by one sprite row.
proof fn lemma_row_hits_no_repeats(byte: u8, x0: nat, y: nat, k: nat)
    requires
        k <= 8,
    ensures
        no_repeats(row_hits(byte, x0, y, k)),
    decreases k,
{
    if k > 0 {
        let k1 = (k - 1) as nat;
        lemma_row_hits_no_repeats(byte, x0, y, k1);
        lemma_row_hits_sound(byte, x0, y, k1);
        let prev = row_hits(byte, x0, y, k1);
        let cur = row_hits(byte, x0, y, k);
        let p = pixel_index(x0 + k1, y);
        if sprite_bit(byte, k1) {
            assert(cur == prev.push(p));
            assert forall|j: int| 0 <= j < prev.len() implies prev[j] != p by {
                assert(from_row_bit(byte, x0, y, k1, prev[j]));
                let b = choose|b: nat| b < k1 && sprite_bit(byte, b) && prev[j] == pixel_index(x0 + b, y);
                if prev[j] == p {
                    lemma_pixel_index_parts(x0 + b, y, x0 + k1, y);
                    lemma_mod_apart((x0 + b) as int, k1 - b, 64);
                }
            }
            assert forall|i: int, j: int| 0 <= i < j < cur.len() implies cur[i] != cur[j] by {
                assert(cur[i] == prev[i]);
                if j < prev.len() {
                    assert(cur[j] == prev[j]);
                }
            }
        }
    }
}

/// Each pixel a sprite toggles comes from a set bit of one of its rows.
proof fn lemma_sprite_hits_sound(rows: Seq<u8>, x0: nat, y0: nat)
    ensures
        forall|j: int|
            0 <= j < sprite_hits(rows, x0, y0).len() ==> from_sprite_bit(
                rows,
                x0,
                y0,
                #[trigger] sprite_hits(rows, x0, y0)[j],
            ),
    decreases rows.len(),
{
    if rows.len() > 0 {
        let n1 = (rows.len() - 1) as nat;
        let init = rows.drop_last();
        lemma_sprite_hits_sound(init, x0, y0);
        lemma_row_hits_sound(rows.last(), x0, y0 + n1, 8);
        let a = sprite_hits(init, x0, y0);
        let last = row_hits(rows.last(), x0, y0 + n1, 8);
        let cur = sprite_hits(rows, x0, y0);
        assert(cur == a + last);
        assert forall|j: int| 0 <= j < cur.len() implies from_sprite_bit(rows, x0, y0, #[trigger] cur[j]) by {
            if j < a.len() {
                assert(cur[j] == a[j]);
                assert(from_sprite_bit(init, x0, y0, a[j]));
                let (r, b) = choose|r: nat, b: nat|
                    r < init.len() && b < 8 && sprite_bit(init[r as int], b)
                        && a[j] == pixel_index(x0 + b, y0 + r);
                assert(rows[r as int] == init[r as int]);
                assert(r < rows.len() && b < 8 && sprite_bit(rows[r as int], b)
                    && cur[j] == pixel_index(x0 + b, y0 + r));
            } else {
                assert(cur[j] == last[j - a.len()]);
                assert(from_row_bit(rows.last(), x0, y0 + n1, 8, last[j - a.len()]));
                let b = choose|b: nat|
                    b < 8 && sprite_bit(rows.last(), b) && last[j - a.len()] == pixel_index(x0 + b, y0 + n1);
                assert(rows[n1 as int] == rows.last());
                assert(n1 < rows.len() && b < 8 && sprite_bit(rows[n1 as int], b)
                    && cur[j] == pixel_index(x0 + b, y0 + n1));
            }
        }
    }
}

/// Each set bit of each row of a sprite toggles its pixel.
proof fn lemma_sprite_hits_complete(rows: Seq<u8>, x0: nat, y0: nat)
    ensures
        forall|r: nat, b: nat|
            r < rows.len() && b < 8 && #[trigger] sprite_bit(rows[r as int], b) ==> exists|j: int|
                0 <= j < sprite_hits(rows, x0, y0).len() && sprite_hits(rows, x0, y0)[j]
                    == pixel_index(x0 + b, y0 + r),
    decreases rows.len(),
{
    if rows.len() > 0 {
        let n1 = (rows.len() - 1) as nat;
        let init = rows.drop_last();
        lemma_sprite_hits_complete(init, x0, y0);
        lemma_row_hits_complete(rows.last(), x0, y0 + n1, 8);
        let a = sprite_hits(init, x0, y0);
        let last = row_hits(rows.last(), x0, y0 + n1, 8);
        let cur = sprite_hits(rows, x0, y0);
        assert(cur == a + last);
        assert forall|r: nat, b: nat| r < rows.len() && b < 8 && #[trigger] sprite_bit(rows[r as int], b)
            implies exists|j: int| 0 <= j < cur.len() && cur[j] == pixel_index(x0 + b, y0 + r) by {
            if r < n1 {
                assert(rows[r as int] == init[r as int]);
                let j = choose|j: int| 0 <= j < a.len() && a[j] == pixel_index(x0 + b, y0 + r);
                assert(cur[j] == a[j]);
            } else {
                assert(rows[r as int] == rows.last());
                let j = choose|j: int| 0 <= j < last.len() && last[j] == pixel_index(x0 + b, y0 + n1);
                assert(cur[a.len() + j] == last[j]);
            }
        }
    }
}

/// A sprite of at most 32 rows toggles no pixel twice.
proof fn lemma_sprite_hits_no_repeats(rows: Seq<u8>, x0: nat, y0: nat)
    requires
        rows.len() <= SCREEN_HEIGHT,
    ensures
        no_repeats(sprite_hits(rows, x0, y0)),
    decreases rows.len(),
{
    if rows.len() > 0 {
        let n1 = (rows.len() - 1) as nat;
        let init = rows.drop_last();
        lemma_sprite_hits_no_repeats(init, x0, y0);
        lemma_sprite_hits_sound(init, x0, y0);
        lemma_row_hits_sound(rows.last(), x0, y0 + n1, 8);
        lemma_row_hits_no_repeats(rows.last(), x0, y0 + n1, 8);
        let a = sprite_hits(init, x0, y0);
        let last = row_hits(rows.last(), x0, y0 + n1, 8);
        let cur = sprite_hits(rows, x0, y0);
        assert(cur == a + last);
        assert forall|i: int, j: int| 0 <= i < j < cur.len() implies cur[i] != cur[j] by {
            if j < a.len() {
                assert(cur[i] == a[i] && cur[j] == a[j]);
            } else if i >= a.len() {
                assert(cur[i] == last[i - a.len()] && cur[j] == last[j - a.len()]);
            } else {
                assert(cur[i] == a[i] && cur[j] == last[j - a.len()]);
                assert(from_sprite_bit(init, x0, y0, a[i]));
                assert(from_row_bit(rows.last(), x0, y0 + n1, 8, last[j - a.len()]));
                let (r, b) = choose|r: nat, b: nat|
                    r < init.len() && b < 8 && sprite_bit(init[r as int], b)
                        && a[i] == pixel_index(x0 + b, y0 + r);
                let b2 = choose|b2: nat|
                    b2 < 8 && sprite_bit(rows.last(), b2) && last[j - a.len()] == pixel_index(x0 + b2, y0 + n1);
                if cur[i] == cur[j] {
                    lemma_pixel_index_parts(x0 + b, y0 + r, x0 + b2, y0 + n1);
                    lemma_mod_apart((y0 + r) as int, n1 - r, 32);
                }
            }
        }
    }
}

/// A pixel that occurs nowhere in `hits` is counted zero times.
proof fn lemma_hit_count_absent(hits: Seq<int>, p: int)
    requires
        forall|j: int| 0 <= j < hits.len() ==> hits[j] != p,
    ensures
        hit_count(hits, p) == 0,
    decreases hits.len(),
{
    if hits.len() > 0 {
        lemma_hit_count_absent(hits.drop_last(), p);
    }
}

/// When no pixel repeats, flipping them in turn turns a lit pixel off
/// exactly when one of them was lit to begin with.
proof fn lemma_collides_without_repeats(px: Seq<bool>, hits: Seq<int>)
    requires
        no_repeats(hits),
        forall|j: int| 0 <= j < hits.len() ==> 0 <= #[trigger] hits[j] < px.len(),
    ensures
        collides(px, hits) <==> exists|j: int| 0 <= j < hits.len() && #[trigger] px[hits[j]],
    decreases hits.len(),
{
    if hits.len() > 0 {
        let rest = hits.drop_last();
        let p = hits.last();
        assert forall|j: int| 0 <= j < rest.len() implies 0 <= #[trigger] rest[j] < px.len() by {
            assert(rest[j] == hits[j]);
        }
        assert forall|i: int, j: int| 0 <= i < j < rest.len() implies rest[i] != rest[j] by {
            assert(rest[i] == hits[i] && rest[j] == hits[j]);
        }
        lemma_collides_without_repeats(px, rest);
        assert forall|j: int| 0 <= j < rest.len() implies rest[j] != p by {
            assert(rest[j] == hits[j]);
        }
        lemma_hit_count_absent(rest, p);
        lemma_toggled_pointwise(px, rest, p);
        if exists|j: int| 0 <= j < hits.len() && #[trigger] px[hits[j]] {
            let j = choose|j: int| 0 <= j < hits.len() && #[trigger] px[hits[j]];
            if j < rest.len() {
                assert(px[rest[j]]);
            }
        }
        if exists|j: int| 0 <= j < rest.len() && #[trigger] px[rest[j]] {
            let j = choose|j: int| 0 <= j < rest.len() && #[trigger] px[rest[j]];
            assert(px[hits[j]]);
        }
    }
}

/// For a sprite of at most 32 rows, drawing reports a collision exactly when
/// some set bit of the sprite lands on a pixel that was already lit.
pub proof fn lemma_collision_iff_lit_under_set_bit(px: Seq<bool>, sprite: Seq<u8>, x: u8, y: u8)
    requires
        px.len() == PIXEL_COUNT,
        sprite.len() <= SCREEN_HEIGHT,
    ensures
        collides(px, sprite_hits(sprite, x as nat, y as nat)) <==> exists|r: nat, b: nat|
            r < sprite.len() && b < 8 && #[trigger] sprite_bit(sprite[r as int], b) && px[pixel_index(
                x as nat + b,
                y as nat + r,
            )],
{
    let hits = sprite_hits(sprite, x as nat, y as nat);
    lemma_sprite_hits_on_screen(sprite, x as nat, y as nat);
    lemma_sprite_hits_sound(sprite, x as nat, y as nat);
    lemma_sprite_hits_complete(sprite, x as nat, y as nat);
    lemma_sprite_hits_no_repeats(sprite, x as nat, y as nat);
    lemma_collides_without_repeats(px, hits);
    if exists|j: int| 0 <= j < hits.len() && #[trigger] px[hits[j]] {
        let j = choose|j: int| 0 <= j < hits.len() && #[trigger] px[hits[j]];
        assert(from_sprite_bit(sprite, x as nat, y as nat, hits[j]));
        let (r, b) = choose|r: nat, b: nat|
            r < sprite.len() && b < 8 && sprite_bit(sprite[r as int], b) && hits[j] == pixel_index(
                x as nat + b,
                y as nat + r,
            );
        assert(sprite_bit(sprite[r as int], b) && px[pixel_index(x as nat + b, y as nat + r)]);
    }
    if exists|r: nat, b: nat|
        r < sprite.len() && b < 8 && #[trigger] sprite_bit(sprite[r as int], b) && px[pixel_index(
            x as nat + b,
            y as nat + r,
        )] {
        let (r, b) = choose|r: nat, b: nat|
            r < sprite.len() && b < 8 && #[trigger] sprite_bit(sprite[r as int], b) && px[pixel_index(
                x as nat + b,
                y as nat + r,
            )];
        let j = choose|j: int| 0 <= j < hits.len() && hits[j] == pixel_index(x as nat + b, y as nat + r);
        assert(px[hits[j]]);
    }
}

/// A 64 by 32 grid of one-bit pixels, row by row.
pub struct Screen {
    pixels: Vec<bool>,
}

impl Screen {
    /// The pixels, row by row: the pixel at `(x, y)` is at `y * 64 + x`.
    pub closed spec fn view(&self) -> Seq<bool> {
        self.pixels@
    }

    pub open spec fn wf(&self) -> bool {
        self@.len() == PIXEL_COUNT
    }

    fn blank() -> (r: Vec<bool>)
        ensures
            r@ == Seq::new(PIXEL_COUNT as nat, |i: int| false),
    {
        let mut px: Vec<bool> = Vec::new();
        let mut k: usize = 0;
        while k < PIXEL_COUNT
            invariant
                k <= PIXEL_COUNT,
                px@ == Seq::new(k as nat, |i: int| false),
            decreases PIXEL_COUNT - k,
        {
            px.push(false);
            k = k + 1;
            assert(px@ =~= Seq::new(k as nat, |i: int| false));
        }
        px
    }

    /// A screen with every pixel off.
    pub fn init() -> (r: Self)
        ensures
            r.wf(),
            r@ == Seq::new(PIXEL_COUNT as nat, |i: int| false),
    {
        Screen { pixels: Self::blank() }
    }

    /// Bit `idx` of `byte`, counted from the most significant bit; 0 past bit 7.
    fn bit(byte: &u8, idx: usize) -> (r: u8)
        ensures
            r == (if sprite_bit(*byte, idx as nat) { 1u8 } else { 0u8 }),
    {
        if idx > 7 {
            return 0;
        }
        let shift: u8 = 7 - idx as u8;
        let b = *byte;
        let r = (b >> shift) & 1u8;
        assert(r == 0u8 || r == 1u8) by (bit_vector)
            requires
                r == (b >> shift) & 1u8,
        ;
        r
    }

    /// Whether the pixel at column `x`, row `y` is lit.
    pub fn pixel(&self, x: usize, y: usize) -> (r: bool)
        requires
            self.wf(),
            x < SCREEN_WIDTH,
            y < SCREEN_HEIGHT,
        ensures
            r == self@[y * SCREEN_WIDTH + x],
    {
        self.pixels[y * SCREEN_WIDTH + x]
    }

    /// XORs `sprite` onto the screen with its top-left corner at `left_top`
    /// (column, row), wrapping on both axes. Returns whether a lit pixel was
    /// turned off.
    pub fn blit_sprite(&mut self, sprite: &[u8], left_top: (u8, u8)) -> (r: bool)
        requires
            old(self).wf(),
        ensures
            final(self).wf(),
            final(self)@ == toggled(old(self)@, sprite_hits(sprite@, left_top.0 as nat, left_top.1 as nat)),
            r == collides(old(self)@, sprite_hits(sprite@, left_top.0 as nat, left_top.1 as nat)),
    {
        let (left, top) = left_top;
        let ghost x0 = left as nat;
        let ghost y0 = top as nat;
        let ghost before = self@;
        let mut overlap = false;
        let mut dy: usize = 0;
        while dy < sprite.len()
            invariant
                dy <= sprite@.len(),
                self.wf(),
                before.len() == PIXEL_COUNT,
                x0 == left,
                y0 == top,
                self@ == toggled(before, sprite_hits(sprite@.subrange(0, dy as int), x0, y0)),
                overlap == collides(before, sprite_hits(sprite@.subrange(0, dy as int), x0, y0)),
            decreases sprite@.len() - dy,
        {
            let line = sprite[dy];
            let y: usize = (top as usize + dy % SCREEN_HEIGHT) % SCREEN_HEIGHT;
            proof {
                lemma_add_mod_noop_right(top as int, dy as int, SCREEN_HEIGHT as int);
            }
            let ghost done = sprite_hits(sprite@.subrange(0, dy as int), x0, y0);
            let mut dx: usize = 0;
            while dx < 8
                invariant
                    dx <= 8,
                    dy < sprite@.len(),
                    line == sprite@[dy as int],
                    y == (y0 + dy) % (SCREEN_HEIGHT as int),
                    self.wf(),
                    x0 == left,
                    y0 == top,
                    self@ == toggled(before, done + row_hits(line, x0, (y0 + dy) as nat, dx as nat)),
                    overlap == collides(before, done + row_hits(line, x0, (y0 + dy) as nat, dx as nat)),
                decreases 8 - dx,
            {
                let ghost hits = done + row_hits(line, x0, (y0 + dy) as nat, dx as nat);
                let x: usize = (left as usize + dx) % SCREEN_WIDTH;
                let idx: usize = y * SCREEN_WIDTH + x;
                if Self::bit(&line, dx) == 1 {
                    assert(idx == pixel_index((x0 + dx) as nat, (y0 + dy) as nat)) by {
                        reveal(pixel_index);
                    }
                    let ghost next = row_hits(line, x0, (y0 + dy) as nat, (dx + 1) as nat);
                    assert(done + next =~= hits.push(idx as int));
                    assert(hits.push(idx as int).drop_last() =~= hits);
                    if self.pixels[idx] {
                        overlap = true;
                    }
                    let lit = self.pixels[idx];
                    self.pixels[idx] = !lit;
                } else {
                    assert(done + row_hits(line, x0, (y0 + dy) as nat, (dx + 1) as nat) == hits);
                }
                dx = dx + 1;
            }
            let ghost upto = sprite@.subrange(0, dy + 1);
            assert(upto.drop_last() =~= sprite@.subrange(0, dy as int));
            dy = dy + 1;
        }
        assert(sprite@.subrange(0, sprite@.len() as int) =~= sprite@);
        overlap
    }

    /// The pixels packed eight to a byte, 256 bytes in all.
    pub fn packed(&self) -> (r: Vec<u8>)
        requires
            self.wf(),
        ensures
            r@ == packed_pixels(self@),
    {
        let mut out: Vec<u8> = Vec::new();
        let mut k: usize = 0;
        while k < PIXEL_COUNT / 8
            invariant
                k <= PIXEL_COUNT / 8,
                self.wf(),
                out@ =~= packed_pixels(self@).subrange(0, k as int),
            decreases PIXEL_COUNT / 8 - k,
        {
            let ghost bits = self@.subrange(8 * k, 8 * k + 8);
            let mut byte: u8 = 0;
            let mut b: usize = 0;
            while b < 8
                invariant
                    b <= 8,
                    k < PIXEL_COUNT / 8,
                    self.wf(),
                    bits == self@.subrange(8 * k, 8 * k + 8),
                    byte as nat == pack_bits(bits, b as nat),
                decreases 8 - b,
            {
                proof {
                    lemma_pack_bits_bound(bits, (b + 1) as nat);
                    vstd::arithmetic::power2::lemma2_to64();
                    if b + 1 < 8 {
                        vstd::arithmetic::power2::lemma_pow2_strictly_increases((b + 1) as nat, 8);
                    }
                }
                let lit = self.pixels[8 * k + b];
                assert(lit == bits[b as int]);
                byte = byte * 2 + if lit { 1u8 } else { 0u8 };
                b = b + 1;
            }
            out.push(byte);
            k = k + 1;
        }
        out
    }

    /// Turns every pixel off.
    pub fn clear(&mut self)
        requires
            old(self).wf(),
        ensures
            final(self).wf(),
            final(self)@ == Seq::new(PIXEL_COUNT as nat, |i: int| false),
    {
        self.pixels = Self::blank();
    }
}

} // verus!
