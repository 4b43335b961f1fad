//! The 64x32 monochrome display buffer.
//!
//! Pixels are stored row-major: pixel `(px, py)` lives at index
//! `py * 64 + px`.  The buffer is cleared to all-off and mutated only by
//! XOR-drawing sprites: a sprite is a sequence of at most 32 bytes, one
//! row per byte, 8 pixels per byte read most-significant bit first.  An
//! on bit toggles its target pixel (wrapping at both edges); an off bit
//! leaves the pixel untouched.  The draw reports a collision when some
//! on bit lands on a pixel that was already on.

use vstd::prelude::*;

verus! {

/// The all-off display contents.
pub open spec fn blank() -> Seq<bool> {
    Seq::new(2048, |i: int| false)
}

/// Whether bit `c` (counted from the most significant bit) of a sprite
/// row byte is on.
pub open spec fn bit_of(byte: u8, c: int) -> bool {
    (byte >> ((7 - c) as u8)) & 1 == 1
}

/// Whether the sprite `rows`, drawn with its top-left corner at the
/// wrapped origin `(x0, y0)`, toggles pixel `(px, py)`.  The sprite bit
/// responsible for `(px, py)`, if any, sits at row `(py - y0) mod 32`
/// and column `(px - x0) mod 64`.
pub open spec fn sprite_covers(rows: Seq<u8>, x0: int, y0: int, px: int, py: int) -> bool {
    let r = (py - y0 + 32) % 32;
    let c = (px - x0 + 64) % 64;
    r < rows.len() && c < 8 && bit_of(rows[r], c)
}

/// The display contents after XOR-drawing the sprite `rows` at wrapped
/// origin `(x0, y0)` on contents `d`: covered pixels toggle, all other
/// pixels keep their state.
pub open spec fn draw_disp(d: Seq<bool>, rows: Seq<u8>, x0: int, y0: int) -> Seq<bool> {
    Seq::new(2048, |i: int| d[i] != sprite_covers(rows, x0, y0, i % 64, i / 64))
}

/// Whether drawing the sprite `rows` at wrapped origin `(x0, y0)` on
/// contents `d` collides: some on bit of the sprite lands on a pixel
/// that `d` already has on.
pub open spec fn draw_collides(d: Seq<bool>, rows: Seq<u8>, x0: int, y0: int) -> bool {
    exists|r: int, c: int|
        #![trigger bit_of(rows[r], c)]
        0 <= r < rows.len() && 0 <= c < 8 && bit_of(rows[r], c)
            && d[((y0 + r) % 32) * 64 + (x0 + c) % 64]
}

/// Like [`sprite_covers`], restricted to the sprite bits already
/// processed by the drawing loops: rows before `rl`, and on row `rl`
/// itself only columns before `cl`.
spec fn covers_upto(rows: Seq<u8>, x0: int, y0: int, px: int, py: int, rl: int, cl: int) -> bool {
    let r = (py - y0 + 32) % 32;
    let c = (px - x0 + 64) % 64;
    r < rows.len() && c < 8 && bit_of(rows[r], c) && (r < rl || (r == rl && c < cl))
}

/// Like [`draw_collides`], restricted to the sprite bits already
/// processed by the drawing loops.
spec fn collides_upto(d: Seq<bool>, rows: Seq<u8>, x0: int, y0: int, rl: int, cl: int) -> bool {
    exists|r: int, c: int|
        #![trigger bit_of(rows[r], c)]
        0 <= r < rows.len() && 0 <= c < 8 && (r < rl || (r == rl && c < cl)) && bit_of(rows[r], c)
            && d[((y0 + r) % 32) * 64 + (x0 + c) % 64]
}

/// The drawing loops' main invariant: `pix` is `d` with exactly the
/// already-processed sprite bits applied.
spec fn partial_drawn(
    pix: Seq<bool>,
    d: Seq<bool>,
    rows: Seq<u8>,
    x0: int,
    y0: int,
    rl: int,
    cl: int,
) -> bool {
    forall|px: int, py: int|
        #![trigger covers_upto(rows, x0, y0, px, py, rl, cl)]
        0 <= px < 64 && 0 <= py < 32 ==> pix[py * 64 + px] == (d[py * 64 + px] != covers_upto(
            rows,
            x0,
            y0,
            px,
            py,
            rl,
            cl,
        ))
}

/// A pixel determines the sprite bit that could have toggled it: row
/// `(py - y0) mod 32` is `r` exactly when `py` is the wrapped target of
/// row `r`.
proof fn lemma_wrap_unique_32(y0: int, r: int, py: int)
    requires
        0 <= y0 < 32,
        0 <= r < 32,
        0 <= py < 32,
    ensures
        ((py - y0 + 32) % 32 == r) <==> (py == (y0 + r) % 32),
{
    if py - y0 + 32 < 32 {
        assert((py - y0 + 32) % 32 == py - y0 + 32);
    } else {
        assert((py - y0 + 32) % 32 == py - y0);
    }
    if y0 + r < 32 {
        assert((y0 + r) % 32 == y0 + r);
    } else {
        assert((y0 + r) % 32 == y0 + r - 32);
    }
}

/// Column counterpart of [`lemma_wrap_unique_32`].
proof fn lemma_wrap_unique_64(x0: int, c: int, px: int)
    requires
        0 <= x0 < 64,
        0 <= c < 64,
        0 <= px < 64,
    ensures
        ((px - x0 + 64) % 64 == c) <==> (px == (x0 + c) % 64),
{
    if px - x0 + 64 < 64 {
        assert((px - x0 + 64) % 64 == px - x0 + 64);
    } else {
        assert((px - x0 + 64) % 64 == px - x0);
    }
    if x0 + c < 64 {
        assert((x0 + c) % 64 == x0 + c);
    } else {
        assert((x0 + c) % 64 == x0 + c - 64);
    }
}

/// Processing one more sprite bit extends the collision account by that
/// bit alone.
proof fn lemma_collides_step(d: Seq<bool>, rows: Seq<u8>, x0: int, y0: int, r: int, c: int)
    requires
        0 <= r < rows.len(),
        0 <= c < 8,
    ensures
        collides_upto(d, rows, x0, y0, r, c + 1) == (collides_upto(d, rows, x0, y0, r, c) || (
        bit_of(rows[r], c) && d[((y0 + r) % 32) * 64 + (x0 + c) % 64])),
{
    if collides_upto(d, rows, x0, y0, r, c + 1) {
        let (r2, c2) = choose|r2: int, c2: int|
            #![trigger bit_of(rows[r2], c2)]
            0 <= r2 < rows.len() && 0 <= c2 < 8 && (r2 < r || (r2 == r && c2 < c + 1)) && bit_of(
                rows[r2],
                c2,
            ) && d[((y0 + r2) % 32) * 64 + (x0 + c2) % 64];
        if r2 == r && c2 == c {
        } else {
            assert(collides_upto(d, rows, x0, y0, r, c));
        }
    }
    if collides_upto(d, rows, x0, y0, r, c) {
        let (r2, c2) = choose|r2: int, c2: int|
            #![trigger bit_of(rows[r2], c2)]
            0 <= r2 < rows.len() && 0 <= c2 < 8 && (r2 < r || (r2 == r && c2 < c)) && bit_of(
                rows[r2],
                c2,
            ) && d[((y0 + r2) % 32) * 64 + (x0 + c2) % 64];
        assert(collides_upto(d, rows, x0, y0, r, c + 1));
    }
    if bit_of(rows[r], c) && d[((y0 + r) % 32) * 64 + (x0 + c) % 64] {
        assert(collides_upto(d, rows, x0, y0, r, c + 1));
    }
}

/// Finishing a row of sprite bits is the same as standing at the start
/// of the next row.
proof fn lemma_collides_row_end(d: Seq<bool>, rows: Seq<u8>, x0: int, y0: int, r: int)
    ensures
        collides_upto(d, rows, x0, y0, r, 8) == collides_upto(d, rows, x0, y0, r + 1, 0),
{
    if collides_upto(d, rows, x0, y0, r, 8) {
        let (r2, c2) = choose|r2: int, c2: int|
            #![trigger bit_of(rows[r2], c2)]
            0 <= r2 < rows.len() && 0 <= c2 < 8 && (r2 < r || (r2 == r && c2 < 8)) && bit_of(
                rows[r2],
                c2,
            ) && d[((y0 + r2) % 32) * 64 + (x0 + c2) % 64];
        assert(collides_upto(d, rows, x0, y0, r + 1, 0));
    }
    if collides_upto(d, rows, x0, y0, r + 1, 0) {
        let (r2, c2) = choose|r2: int, c2: int|
            #![trigger bit_of(rows[r2], c2)]
            0 <= r2 < rows.len() && 0 <= c2 < 8 && (r2 < r + 1 || (r2 == r + 1 && c2 < 0)) && bit_of(
                rows[r2],
                c2,
            ) && d[((y0 + r2) % 32) * 64 + (x0 + c2) % 64];
        assert(collides_upto(d, rows, x0, y0, r, 8));
    }
}

/// Having processed every row, the partial collision account is the full
/// one.
proof fn lemma_collides_full(d: Seq<bool>, rows: Seq<u8>, x0: int, y0: int)
    ensures
        collides_upto(d, rows, x0, y0, rows.len() as int, 0) == draw_collides(d, rows, x0, y0),
{
    if collides_upto(d, rows, x0, y0, rows.len() as int, 0) {
        let (r2, c2) = choose|r2: int, c2: int|
            #![trigger bit_of(rows[r2], c2)]
            0 <= r2 < rows.len() && 0 <= c2 < 8 && (r2 < rows.len() || (r2 == rows.len() && c2 < 0))
                && bit_of(rows[r2], c2) && d[((y0 + r2) % 32) * 64 + (x0 + c2) % 64];
        assert(draw_collides(d, rows, x0, y0));
    }
    if draw_collides(d, rows, x0, y0) {
        let (r2, c2) = choose|r2: int, c2: int|
            #![trigger bit_of(rows[r2], c2)]
            0 <= r2 < rows.len() && 0 <= c2 < 8 && bit_of(rows[r2], c2) && d[((y0 + r2) % 32) * 64 + (
            x0 + c2) % 64];
        assert(collides_upto(d, rows, x0, y0, rows.len() as int, 0));
    }
}

/// An on sprite bit toggles exactly its wrapped target pixel.
proof fn lemma_drawn_pixel(d: Seq<bool>, rows: Seq<u8>, x0: int, y0: int, r: int, c: int)
    requires
        rows.len() <= 32,
        0 <= x0 < 64,
        0 <= y0 < 32,
        0 <= r < rows.len(),
        0 <= c < 8,
        bit_of(rows[r], c),
    ensures
        draw_disp(d, rows, x0, y0)[((y0 + r) % 32) * 64 + (x0 + c) % 64] == !d[((y0 + r) % 32) * 64
            + (x0 + c) % 64],
{
    let py = (y0 + r) % 32;
    let px = (x0 + c) % 64;
    let i = py * 64 + px;
    assert(0 <= px < 64 && 0 <= py < 32);
    assert(i % 64 == px && i / 64 == py);
    lemma_wrap_unique_32(y0, r, py);
    lemma_wrap_unique_64(x0, c, px);
    assert(sprite_covers(rows, x0, y0, px, py));
}

/// XOR involution: drawing the same sprite twice at the same origin,
/// with no change in between, restores the display to its content
/// before the first draw; and the second draw collides exactly where an
/// on sprite bit found its pixel off before the first draw (the first
/// draw turned those pixels on).
pub proof fn lemma_draw_twice_restores(d: Seq<bool>, rows: Seq<u8>, x0: int, y0: int)
    requires
        d.len() == 2048,
        rows.len() <= 32,
        0 <= x0 < 64,
        0 <= y0 < 32,
    ensures
        draw_disp(draw_disp(d, rows, x0, y0), rows, x0, y0) == d,
        draw_collides(draw_disp(d, rows, x0, y0), rows, x0, y0) == exists|r: int, c: int|
            #![trigger bit_of(rows[r], c)]
            0 <= r < rows.len() && 0 <= c < 8 && bit_of(rows[r], c) && !d[((y0 + r) % 32) * 64 + (x0
                + c) % 64],
{
    let d1 = draw_disp(d, rows, x0, y0);
    assert forall|i: int| 0 <= i < 2048 implies draw_disp(d1, rows, x0, y0)[i] == d[i] by {
        assert(d1[i] == (d[i] != sprite_covers(rows, x0, y0, i % 64, i / 64)));
    }
    assert(draw_disp(d1, rows, x0, y0) =~= d);
    if draw_collides(d1, rows, x0, y0) {
        let (r2, c2) = choose|r2: int, c2: int|
            #![trigger bit_of(rows[r2], c2)]
            0 <= r2 < rows.len() && 0 <= c2 < 8 && bit_of(rows[r2], c2) && d1[((y0 + r2) % 32) * 64
                + (x0 + c2) % 64];
        lemma_drawn_pixel(d, rows, x0, y0, r2, c2);
        assert(!d[((y0 + r2) % 32) * 64 + (x0 + c2) % 64]);
    }
    if exists|r2: int, c2: int|
        #![trigger bit_of(rows[r2], c2)]
        0 <= r2 < rows.len() && 0 <= c2 < 8 && bit_of(rows[r2], c2) && !d[((y0 + r2) % 32) * 64 + (
        x0 + c2) % 64] {
        let (r2, c2) = choose|r2: int, c2: int|
            #![trigger bit_of(rows[r2], c2)]
            0 <= r2 < rows.len() && 0 <= c2 < 8 && bit_of(rows[r2], c2) && !d[((y0 + r2) % 32) * 64
                + (x0 + c2) % 64];
        lemma_drawn_pixel(d, rows, x0, y0, r2, c2);
        assert(d1[((y0 + r2) % 32) * 64 + (x0 + c2) % 64]);
        assert(draw_collides(d1, rows, x0, y0));
    }
}

/// The display buffer.
pub struct Display {
    pixels: Vec<bool>,
}

impl View for Display {
    type V = Seq<bool>;

    closed spec fn view(&self) -> Seq<bool> {
        self.pixels@
    }
}

/// A fresh all-off pixel vector.
fn blank_pixels() -> (v: Vec<bool>)
    ensures
        v@ == blank(),
{
    let mut v: Vec<bool> = Vec::new();
    let mut i: usize = 0;
    while i < 2048
        invariant
            i <= 2048,
            v@.len() == i,
            forall|j: int| 0 <= j < i ==> !v@[j],
        decreases 2048 - i,
    {
        v.push(false);
        i += 1;
    }
    proof {
        assert(v@ =~= blank());
    }
    v
}

impl Display {
    /// Structural invariant: exactly 64 * 32 pixels.
    pub open spec fn wf(self) -> bool {
        self@.len() == 2048
    }

    /// A display with every pixel off.
    pub fn new() -> (d: Display)
        ensures
            d.wf(),
            d@ == blank(),
    {
        Display { pixels: blank_pixels() }
    }

    /// Turn every pixel off.
    pub fn clear(&mut self)
        ensures
            final(self).wf(),
            final(self)@ == blank(),
    {
        self.pixels = blank_pixels();
    }

    /// Read one pixel.
    pub fn get(&self, px: usize, py: usize) -> (on: bool)
        requires
            self.wf(),
            px < 64,
            py < 32,
        ensures
            on == self@[py * 64 + px],
    {
        self.pixels[py * 64 + px]
    }

    /// XOR-draw the sprite `rows` with its origin at `(x0, y0)`: each on
    /// bit toggles its (wrapped) target pixel, each off bit leaves its
    /// pixel untouched.  Returns whether some on bit landed on a pixel
    /// that was already on.
    pub fn draw_sprite(&mut self, x0: u8, y0: u8, rows: &Vec<u8>) -> (coll: bool)
        requires
            old(self).wf(),
            x0 < 64,
            y0 < 32,
            rows@.len() <= 32,
        ensures
            final(self).wf(),
            final(self)@ == draw_disp(old(self)@, rows@, x0 as int, y0 as int),
            coll == draw_collides(old(self)@, rows@, x0 as int, y0 as int),
    {
        let ghost d0 = self.pixels@;
        let ghost x0i = x0 as int;
        let ghost y0i = y0 as int;
        let mut coll = false;
        let mut r: usize = 0;
        while r < rows.len()
            invariant
                r <= rows@.len(),
                rows@.len() <= 32,
                x0 < 64,
                y0 < 32,
                x0i == x0 as int,
                y0i == y0 as int,
                d0.len() == 2048,
                self.pixels@.len() == 2048,
                partial_drawn(self.pixels@, d0, rows@, x0i, y0i, r as int, 0),
                coll == collides_upto(d0, rows@, x0i, y0i, r as int, 0),
            decreases rows@.len() - r,
        {
            let byte = rows[r];
            let mut c: usize = 0;
            while c < 8
                invariant
                    c <= 8,
                    r < rows@.len(),
                    rows@.len() <= 32,
                    byte == rows@[r as int],
                    x0 < 64,
                    y0 < 32,
                    x0i == x0 as int,
                    y0i == y0 as int,
                    d0.len() == 2048,
                    self.pixels@.len() == 2048,
                    partial_drawn(self.pixels@, d0, rows@, x0i, y0i, r as int, c as int),
                    coll == collides_upto(d0, rows@, x0i, y0i, r as int, c as int),
                decreases 8 - c,
            {
                let ghost ri = r as int;
                let ghost ci = c as int;
                let sh: u8 = 7 - (c as u8);
                let bitv: u8 = (byte >> sh) & 1;
                proof {
                    assert(sh == (7 - ci) as u8);
                }
                if bitv == 1 {
                    let px: usize = (x0 as usize + c) % 64;
                    let py: usize = (y0 as usize + r) % 32;
                    let idx: usize = py * 64 + px;
                    let cur = self.pixels[idx];
                    let ghost pre = self.pixels@;
                    if cur {
                        coll = true;
                    }
                    self.pixels.set(idx, !cur);
                    proof {
                        assert(bit_of(rows@[ri], ci));
                        lemma_wrap_unique_32(y0i, ri, py as int);
                        lemma_wrap_unique_64(x0i, ci, px as int);
                        // The target pixel was still untouched, so `cur`
                        // is its original state.
                        assert(!covers_upto(rows@, x0i, y0i, px as int, py as int, ri, ci));
                        assert(cur == d0[idx as int]);
                        lemma_collides_step(d0, rows@, x0i, y0i, ri, ci);
                        assert forall|px2: int, py2: int|
                            #![trigger covers_upto(rows@, x0i, y0i, px2, py2, ri, ci + 1)]
                            0 <= px2 < 64 && 0 <= py2 < 32 implies self.pixels@[py2 * 64 + px2] == (
                        d0[py2 * 64 + px2] != covers_upto(
                            rows@,
                            x0i,
                            y0i,
                            px2,
                            py2,
                            ri,
                            ci + 1,
                        )) by {
                            lemma_wrap_unique_32(y0i, ri, py2);
                            lemma_wrap_unique_64(x0i, ci, px2);
                            assert(covers_upto(rows@, x0i, y0i, px2, py2, ri, ci) == (covers_upto(
                                rows@,
                                x0i,
                                y0i,
                                px2,
                                py2,
                                ri,
                                ci + 1,
                            ) && !(px2 == px as int && py2 == py as int)));
                            if px2 == px as int && py2 == py as int {
                                assert(py2 * 64 + px2 == idx as int);
                            } else {
                                assert(py2 * 64 + px2 != idx as int);
                                assert(self.pixels@[py2 * 64 + px2] == pre[py2 * 64 + px2]);
                            }
                        }
                    }
                } else {
                    proof {
                        assert(!bit_of(rows@[ri], ci));
                        lemma_collides_step(d0, rows@, x0i, y0i, ri, ci);
                        assert forall|px2: int, py2: int|
                            #![trigger covers_upto(rows@, x0i, y0i, px2, py2, ri, ci + 1)]
                            0 <= px2 < 64 && 0 <= py2 < 32 implies self.pixels@[py2 * 64 + px2] == (
                        d0[py2 * 64 + px2] != covers_upto(
                            rows@,
                            x0i,
                            y0i,
                            px2,
                            py2,
                            ri,
                            ci + 1,
                        )) by {
                            assert(covers_upto(rows@, x0i, y0i, px2, py2, ri, ci + 1)
                                == covers_upto(rows@, x0i, y0i, px2, py2, ri, ci));
                        }
                    }
                }
                c += 1;
            }
            proof {
                lemma_collides_row_end(d0, rows@, x0i, y0i, r as int);
                assert forall|px2: int, py2: int|
                    #![trigger covers_upto(rows@, x0i, y0i, px2, py2, r as int + 1, 0)]
                    0 <= px2 < 64 && 0 <= py2 < 32 implies self.pixels@[py2 * 64 + px2] == (d0[py2
                    * 64 + px2] != covers_upto(rows@, x0i, y0i, px2, py2, r as int + 1, 0)) by {
                    assert(covers_upto(rows@, x0i, y0i, px2, py2, r as int + 1, 0) == covers_upto(
                        rows@,
                        x0i,
                        y0i,
                        px2,
                        py2,
                        r as int,
                        8,
                    ));
                }
            }
            r += 1;
        }
        proof {
            lemma_collides_full(d0, rows@, x0i, y0i);
            assert forall|i: int| 0 <= i < 2048 implies self.pixels@[i] == draw_disp(
                d0,
                rows@,
                x0i,
                y0i,
            )[i] by {
                let px2 = i % 64;
                let py2 = i / 64;
                assert(0 <= px2 < 64 && 0 <= py2 < 32);
                assert(py2 * 64 + px2 == i);
                assert(self.pixels@[py2 * 64 + px2] == (d0[py2 * 64 + px2] != covers_upto(
                    rows@,
                    x0i,
                    y0i,
                    px2,
                    py2,
                    rows@.len() as int,
                    0,
                )));
                assert(covers_upto(rows@, x0i, y0i, px2, py2, rows@.len() as int, 0)
                    == sprite_covers(rows@, x0i, y0i, px2, py2));
            }
            assert(self.pixels@ =~= draw_disp(d0, rows@, x0i, y0i));
        }
        coll
    }
}

} // verus!
