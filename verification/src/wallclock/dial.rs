//! Round dials drawn with integer arithmetic only.
//!
//! A hand at position `p` of [`TURN`] needs a sine and a cosine. They are found
//! by CORDIC: a fixed sequence of rotations by `atan(2^-i)`, each applied with a
//! shift and an add, starting from a vector pre-scaled by the inverse of the
//! CORDIC gain. Angles are measured in units of `1 / (SCALE * TURN)` of a turn.
//!
//! The drawing surface is a braille canvas: every character cell holds a 2 x 4
//! grid of dots, so a `w x h` canvas is a `2w x 4h` field of square dots.
use vstd::prelude::*;

use crate::text::push_char;

verus! {

/// Fixed-point scale of the CORDIC results; a power of two so shifts are exact.
pub const SCALE: i64 = 65536;

/// The number of stops around a dial: one turn.
pub const TURN: i64 = 3125;

/// `atan(2^-i)` for `i` in `0..16`, as a fraction of a turn scaled by
/// `SCALE * TURN`. The first entry is exactly an eighth of a turn.
pub const ATAN: [i64; 16] = [
    25_600_000, 15_112_562, 7_985_063, 4_053_343, 2_034_537, 1_018_260, 509_254, 254_643,
    127_323, 63_662, 31_831, 15_915, 7_958, 3_979, 1_989, 995,
];

/// The inverse of the CORDIC gain, scaled: `SCALE / K` with `K` about 1.6467602.
pub const INV_GAIN: i64 = 39_797;

/// One CORDIC rotation at step `i`: turn towards the remaining `angle` by
/// `atan(2^-i)`, and take that step off the angle.
pub open spec fn rotate(x: i64, y: i64, angle: i64, i: u32) -> (i64, i64, i64) {
    let step = ATAN@[i as int];
    if angle >= 0 {
        ((x - (y >> i)) as i64, (y + (x >> i)) as i64, (angle - step) as i64)
    } else {
        ((x + (y >> i)) as i64, (y - (x >> i)) as i64, (angle + step) as i64)
    }
}

/// The vector that the rotations from step `i` to the last leave behind.
pub open spec fn cordic_from(x: i64, y: i64, angle: i64, i: u32) -> (i64, i64)
    decreases 16 - i,
{
    if i >= 16 {
        (x, y)
    } else {
        let (nx, ny, na) = rotate(x, y, angle, i);
        cordic_from(nx, ny, na, (i + 1) as u32)
    }
}

/// The quadrant (0 to 3, clockwise from straight up) that stop `p` lies in.
pub open spec fn quadrant_of(p: int) -> int {
    (p * 4) / (TURN as int)
}

/// How far past the start of its quadrant stop `p` lies, in stops.
pub open spec fn within_quadrant(p: int) -> int {
    p - quadrant_of(p) * (TURN as int) / 4
}

/// Up and right components of the hand at `position`, scaled by `SCALE`:
/// CORDIC on the angle within the quadrant, then turned by whole quarters.
pub open spec fn spec_cos_sin(position: u32) -> (i64, i64) {
    let p = position as int % (TURN as int);
    let (x, y) = cordic_from(INV_GAIN, 0, (within_quadrant(p) * SCALE) as i64, 0);
    let q = quadrant_of(p);
    if q == 0 {
        (x, y)
    } else if q == 1 {
        ((-y) as i64, x)
    } else if q == 2 {
        ((-x) as i64, (-y) as i64)
    } else {
        (y, (-x) as i64)
    }
}

/// The doubling bound on the vector's components during the rotations.
pub open spec fn growth(i: nat) -> int
    decreases i,
{
    if i == 0 {
        1
    } else {
        2 * growth((i - 1) as nat)
    }
}

/// The largest a component can be: `INV_GAIN` doubled once per step.
pub open spec fn component_bound() -> int {
    INV_GAIN * 65536
}

proof fn lemma_growth(i: nat)
    requires
        i <= 16,
    ensures
        1 <= growth(i) <= growth(16),
        growth(16) == 65536,
    decreases 16 - i,
{
    reveal_with_fuel(growth, 17);
    if i < 16 {
        lemma_growth(i + 1);
    }
}

proof fn lemma_scaled(a: int, b: int)
    by (nonlinear_arith)
    requires
        -component_bound() <= a <= component_bound(),
        0 <= b < 0x8000_0000,
    ensures
        -0x7000_0000_0000_0000 <= a * b <= 0x7000_0000_0000_0000,
        -0x10_0000_0000_0000 <= trunc_div(a * b, SCALE as int) <= 0x10_0000_0000_0000,
{
    assert(component_bound() == 2_608_136_192);
}

proof fn lemma_shr_bound(y: i64, i: u32, b: i64)
    requires
        0 <= b,
        -b <= y <= b,
        i < 64,
    ensures
        -b <= (y >> i) <= b,
{
    assert(0 <= b && -b <= y && y <= b && i < 64 ==> -b <= (y >> i) && (y >> i) <= b)
        by (bit_vector);
}

/// Cosine and sine of `position / TURN` of a turn, scaled by [`SCALE`], in the
/// clock's convention: position 0 is straight up and the hand runs clockwise,
/// so the first component is the upward one and the second the rightward one.
pub fn cos_sin(position: u32) -> (r: (i64, i64))
    ensures
        r == spec_cos_sin(position),
        -component_bound() <= r.0 <= component_bound(),
        -component_bound() <= r.1 <= component_bound(),
{
    let p: i64 = (position as i64) % TURN;
    let quadrant: i64 = (p * 4) / TURN;
    let within: i64 = p - quadrant * TURN / 4;
    assert(0 <= within < 782);
    let angle0: i64 = within * SCALE;
    let mut angle: i64 = angle0;
    let mut x: i64 = INV_GAIN;
    let mut y: i64 = 0;
    let mut i: u32 = 0;
    let ghost mut bound: int = INV_GAIN as int;
    proof {
        lemma_growth(0);
    }
    while i < 16
        invariant
            i <= 16,
            cordic_from(x, y, angle, i) == cordic_from(INV_GAIN, 0, angle0, 0),
            bound == INV_GAIN * growth(i as nat),
            -bound <= x <= bound,
            -bound <= y <= bound,
            -52_000_000 - 25_600_000 * i <= angle <= 52_000_000 + 25_600_000 * i,
        decreases 16 - i,
    {
        proof {
            lemma_growth(i as nat);
            lemma_growth((i + 1) as nat);
            lemma_shr_bound(x, i, bound as i64);
            lemma_shr_bound(y, i, bound as i64);
        }
        let step: i64 = ATAN[i as usize];
        assert(0 < step <= 25_600_000);
        if angle >= 0 {
            let nx: i64 = x - (y >> i);
            let ny: i64 = y + (x >> i);
            x = nx;
            y = ny;
            angle = angle - step;
        } else {
            let nx: i64 = x + (y >> i);
            let ny: i64 = y - (x >> i);
            x = nx;
            y = ny;
            angle = angle + step;
        }
        i = i + 1;
        proof {
            bound = 2 * bound;
        }
    }
    proof {
        lemma_growth(16);
    }
    if quadrant == 0 {
        (x, y)
    } else if quadrant == 1 {
        (-y, x)
    } else if quadrant == 2 {
        (-x, -y)
    } else {
        (y, -x)
    }
}

/// A dial has `TURN` stops: a whole turn more lands on the same place.
pub proof fn lemma_cos_sin_turn(position: u32)
    requires
        position + TURN <= u32::MAX,
    ensures
        spec_cos_sin((position + TURN) as u32) == spec_cos_sin(position),
{
    assert(((position + TURN) as u32) as int % 3125 == position as int % 3125);
}


/// The bit of a braille cell for the dot in row `y` (0 to 3) and column `x`
/// (0 or 1) of that cell, in Unicode braille order.
pub const DOT_BITS: [[u8; 2]; 4] = [[0x01, 0x08], [0x02, 0x10], [0x04, 0x20], [0x40, 0x80]];

/// Truncating integer division, as Rust's `/` computes it for a positive divisor.
pub open spec fn trunc_div(a: int, b: int) -> int {
    if a >= 0 {
        a / b
    } else {
        -((-a) / b)
    }
}

/// The cells after lighting the dot at dot-coordinates `(x, y)` of a
/// `cols x rows` canvas; a dot off the canvas changes nothing.
pub open spec fn lit(dots: Seq<u8>, cols: int, rows: int, x: int, y: int) -> Seq<u8> {
    if x < 0 || y < 0 || x / 2 >= cols || y / 4 >= rows {
        dots
    } else {
        let k = (y / 4) * cols + x / 2;
        dots.update(k, dots[k] | DOT_BITS@[y % 4]@[x % 2])
    }
}

/// The cells after lighting each of `points` in turn.
pub open spec fn lit_all(dots: Seq<u8>, cols: int, rows: int, points: Seq<(int, int)>) -> Seq<u8>
    decreases points.len(),
{
    if points.len() == 0 {
        dots
    } else {
        let (x, y) = points.last();
        lit(lit_all(dots, cols, rows, points.drop_last()), cols, rows, x, y)
    }
}

/// The point at `r` dots from `(cx, cy)` in the direction of `(c, s)`.
pub open spec fn along(cx: int, cy: int, cs: (i64, i64), r: int) -> (int, int) {
    (cx + trunc_div(cs.1 * r, SCALE as int), cy - trunc_div(cs.0 * r, SCALE as int))
}

/// The radius of the dial a `cols x rows` canvas holds, in dots.
pub open spec fn dial_radius(cols: int, rows: int) -> int {
    (if cols <= 2 * rows { cols } else { 2 * rows }) - 1
}

/// The rim: `8 * radius` points spaced evenly round the circle.
pub open spec fn rim_points(cols: int, rows: int) -> Seq<(int, int)> {
    let radius = dial_radius(cols, rows);
    let steps = radius * 8;
    Seq::new(
        steps as nat,
        |i: int| along(cols, 2 * rows, spec_cos_sin((i * TURN / steps) as u32), radius),
    )
}

/// The hand: the points from the centre out to just short of the rim.
pub open spec fn hand_points(cols: int, rows: int, position: u32) -> Seq<(int, int)> {
    let radius = dial_radius(cols, rows);
    Seq::new(radius as nat, |r: int| along(cols, 2 * rows, spec_cos_sin(position), r))
}

/// Every dot a dial draws, rim first; none where the radius is under 3.
pub open spec fn dial_points(cols: int, rows: int, position: u32) -> Seq<(int, int)> {
    if dial_radius(cols, rows) < 3 {
        Seq::empty()
    } else {
        rim_points(cols, rows) + hand_points(cols, rows, position)
    }
}

/// A canvas with no room for a radius of 3 is left as it was by a dial.
pub proof fn lemma_no_room_draws_nothing(dots: Seq<u8>, cols: int, rows: int, position: u32)
    requires
        dial_radius(cols, rows) < 3,
    ensures
        lit_all(dots, cols, rows, dial_points(cols, rows, position)) == dots,
{
}

/// The braille character for a cell with the dots `bits`.
pub open spec fn braille(bits: u8) -> char {
    (0x2800 + bits) as char
}

/// `char::from_u32`: the character with that scalar value, or `None` for a
/// surrogate or a value past `0x10FFFF`, as its documentation states.
#[verifier::external_body]
fn char_from_u32(i: u32) -> (r: Option<char>)
    ensures
        (0xD800 <= i <= 0xDFFF || i > 0x10FFFF) ==> r is None,
        !(0xD800 <= i <= 0xDFFF || i > 0x10FFFF) ==> r == Some(i as char),
{
    char::from_u32(i)
}

/// A grid of braille dots, `cols` characters wide and `rows` tall.
pub struct Canvas {
    cols: usize,
    rows: usize,
    dots: Vec<u8>,
}

impl Canvas {
    /// Width in characters.
    pub closed spec fn width(&self) -> nat {
        self.cols as nat
    }

    /// Height in characters.
    pub closed spec fn height(&self) -> nat {
        self.rows as nat
    }

    /// The dot bits of every cell, row by row.
    pub closed spec fn cells(&self) -> Seq<u8> {
        self.dots@
    }

    /// One byte of dots per cell.
    pub closed spec fn wf(&self) -> bool {
        self.dots@.len() == self.cols * self.rows
    }

    /// A blank canvas `cols` characters wide and `rows` tall.
    pub fn new(cols: usize, rows: usize) -> (c: Canvas)
        requires
            cols * rows <= usize::MAX,
        ensures
            c.wf(),
            c.width() == cols,
            c.height() == rows,
            c.cells() == Seq::new((cols * rows) as nat, |_i: int| 0u8),
    {
        let n: usize = cols * rows;
        let mut dots: Vec<u8> = Vec::new();
        let mut i: usize = 0;
        while i < n
            invariant
                i <= n,
                dots@ == Seq::new(i as nat, |_i: int| 0u8),
            decreases n - i,
        {
            dots.push(0);
            i = i + 1;
            assert(dots@ =~= Seq::new(i as nat, |_i: int| 0u8));
        }
        Canvas { cols, rows, dots }
    }

    /// Light the dot at dot-coordinates `(x, y)`, ignoring anything off-canvas.
    pub fn set(&mut self, x: i64, y: i64)
        requires
            old(self).wf(),
        ensures
            final(self).wf(),
            final(self).width() == old(self).width(),
            final(self).height() == old(self).height(),
            final(self).cells() == lit(
                old(self).cells(),
                old(self).width() as int,
                old(self).height() as int,
                x as int,
                y as int,
            ),
    {
        if x < 0 || y < 0 {
            return;
        }
        let qx: i64 = x / 2;
        let qy: i64 = y / 4;
        if qx as u64 >= self.cols as u64 || qy as u64 >= self.rows as u64 {
            return;
        }
        let cx = qx as usize;
        let cy = qy as usize;
        assert(cy * self.cols + cx < self.rows * self.cols) by (nonlinear_arith)
            requires
                cy < self.rows,
                cx < self.cols,
        {
            assert(cy * self.cols + cx < (cy + 1) * self.cols);
            assert((cy + 1) * self.cols <= self.rows * self.cols);
        }
        assert(self.rows * self.cols == self.cols * self.rows) by (nonlinear_arith);
        assert(self.dots@.len() == self.dots.len());
        let k: usize = cy * self.cols + cx;
        let bit: u8 = DOT_BITS[(y % 4) as usize][(x % 2) as usize];
        let old_bits: u8 = self.dots[k];
        self.dots.set(k, old_bits | bit);
    }

    /// Draw the rim of a dial and one hand at `position`.
    ///
    /// The dial is centred on the canvas with the largest radius that fits; the
    /// rim is `8 * radius` evenly spaced dots and the hand the dots from the
    /// centre outwards. A canvas with room for less than a radius of 3 is left
    /// as it was.
    pub fn dial(&mut self, position: u32)
        requires
            old(self).wf(),
            old(self).width() <= 0x4000_0000_0000_0000,
            old(self).height() <= 0x2000_0000_0000_0000,
            dial_radius(old(self).width() as int, old(self).height() as int) < 0x8000_0000,
        ensures
            final(self).wf(),
            final(self).width() == old(self).width(),
            final(self).height() == old(self).height(),
            final(self).cells() == lit_all(
                old(self).cells(),
                old(self).width() as int,
                old(self).height() as int,
                dial_points(old(self).width() as int, old(self).height() as int, position),
            ),
    {
        let ghost w = self.width() as int;
        let ghost h = self.height() as int;
        let ghost start = self.cells();
        let cx: i64 = self.cols as i64;
        let cy: i64 = self.rows as i64 * 2;
        let radius: i64 = if cx <= cy {
            cx
        } else {
            cy
        } - 1;
        if radius < 3 {
            assert(lit_all(start, w, h, Seq::empty()) == start);
            return;
        }
        let steps: i64 = radius * 8;
        let ghost rim = rim_points(w, h);
        let mut i: i64 = 0;
        while i < steps
            invariant
                0 <= i <= steps,
                steps == radius * 8,
                3 <= radius < 0x8000_0000,
                radius == dial_radius(w, h),
                cx == w,
                cy == 2 * h,
                w <= 0x4000_0000_0000_0000,
                h <= 0x2000_0000_0000_0000,
                rim == rim_points(w, h),
                self.wf(),
                self.width() == w,
                self.height() == h,
                self.cells() == lit_all(start, w, h, rim.take(i as int)),
            decreases steps - i,
        {
            let p: u32 = (i as u64 * TURN as u64 / steps as u64) as u32;
            let (c, s) = cos_sin(p);
            proof {
                lemma_scaled(s as int, radius as int);
            }
            proof {
                lemma_scaled(c as int, radius as int);
            }
            let px: i64 = cx + s * radius / SCALE;
            let py: i64 = cy - c * radius / SCALE;
            assert((px as int, py as int) == rim[i as int]);
            self.set(px, py);
            assert(rim.take(i + 1).drop_last() =~= rim.take(i as int));
            i = i + 1;
        }
        assert(rim.take(steps as int) =~= rim);
        let (c, s) = cos_sin(position);
        let ghost hand = hand_points(w, h, position);
        let mut r: i64 = 0;
        while r < radius
            invariant
                0 <= r <= radius,
                3 <= radius < 0x8000_0000,
                radius == dial_radius(w, h),
                cx == w,
                cy == 2 * h,
                w <= 0x4000_0000_0000_0000,
                h <= 0x2000_0000_0000_0000,
                (c, s) == spec_cos_sin(position),
                -component_bound() <= s <= component_bound(),
                -component_bound() <= c <= component_bound(),
                hand == hand_points(w, h, position),
                self.wf(),
                self.width() == w,
                self.height() == h,
                self.cells() == lit_all(start, w, h, rim + hand.take(r as int)),
            decreases radius - r,
        {
            proof {
                lemma_scaled(s as int, r as int);
            }
            proof {
                lemma_scaled(c as int, r as int);
            }
            let px: i64 = cx + s * r / SCALE;
            let py: i64 = cy - c * r / SCALE;
            assert((px as int, py as int) == hand[r as int]);
            self.set(px, py);
            assert((rim + hand.take(r + 1)).drop_last() =~= rim + hand.take(r as int));
            assert((rim + hand.take(r + 1)).last() == hand[r as int]);
            r = r + 1;
        }
        assert(hand.take(radius as int) =~= hand);
    }

    /// The canvas as lines of braille, top to bottom.
    pub fn lines(&self) -> (out: Vec<String>)
        requires
            self.wf(),
        ensures
            out@.len() == self.height(),
            forall|r: int|
                0 <= r < self.height() ==> #[trigger] out@[r]@ == row_chars(
                    self.cells(),
                    self.width() as int,
                    r,
                ),
    {
        let mut out: Vec<String> = Vec::new();
        let mut r: usize = 0;
        assert(self.dots@.len() == self.dots.len());
        while r < self.rows
            invariant
                r <= self.rows,
                self.wf(),
                self.dots@.len() <= usize::MAX,
                out@.len() == r,
                forall|q: int|
                    0 <= q < r ==> #[trigger] out@[q]@ == row_chars(
                        self.cells(),
                        self.width() as int,
                        q,
                    ),
            decreases self.rows - r,
        {
            let mut line = String::new();
            let mut c: usize = 0;
            while c < self.cols
                invariant
                    r < self.rows,
                    c <= self.cols,
                    self.wf(),
                    self.dots@.len() <= usize::MAX,
                    line@ == row_chars(self.cells(), self.width() as int, r as int).take(c as int),
                decreases self.cols - c,
            {
                assert(r * self.cols + c < self.rows * self.cols) by (nonlinear_arith)
                    requires
                        r < self.rows,
                        c < self.cols,
                {
                    assert(r * self.cols + c < (r + 1) * self.cols);
                    assert((r + 1) * self.cols <= self.rows * self.cols);
                }
                assert(self.rows * self.cols == self.cols * self.rows) by (nonlinear_arith);
                let bits: u8 = self.dots[r * self.cols + c];
                let ch = match char_from_u32(0x2800 + bits as u32) {
                    Some(ch) => ch,
                    None => ' ',
                };
                push_char(&mut line, ch);
                assert(line@ =~= row_chars(self.cells(), self.width() as int, r as int).take(
                    c + 1,
                ));
                c = c + 1;
            }
            assert(line@ =~= row_chars(self.cells(), self.width() as int, r as int));
            out.push(line);
            r = r + 1;
        }
        out
    }
}

/// The characters of row `r` of a canvas `cols` cells wide.
pub open spec fn row_chars(cells: Seq<u8>, cols: int, r: int) -> Seq<char> {
    Seq::new(cols as nat, |c: int| braille(cells[r * cols + c]))
}

} // verus!
