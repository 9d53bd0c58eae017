//! Laying out a number that is drawn digit by digit.

use vstd::prelude::*;

verus! {

/// A colour that a number is tinted with, by what it tells.
#[derive(Debug, Copy, Clone, PartialEq, Eq, Structural)]
pub enum Tint {
    /// A hiscore better than the record.
    Better,
    /// A hiscore worse than the record.
    Worse,
    /// A level that was solved after help was asked for.
    Helped,
}

/// How a number is to be shown.
#[derive(Debug, Copy, Clone, PartialEq, Eq, Structural)]
pub struct TextParams {
    /// Number of places, for numbers that are aligned to the right or have
    /// leading zeroes; 0 for as many as the number has digits.
    pub width: u8,
    /// Places in front of the number hold zeroes.
    pub leading_zeroes: bool,
    /// Places in front of the number are left empty.
    pub right_align: bool,
    /// Tint, if any.
    pub color: Option<Tint>,
}

impl TextParams {
    /// Parameters for a plain number.
    pub fn new() -> (p: TextParams)
        ensures
            p == (TextParams { width: 0, leading_zeroes: false, right_align: false, color: None }),
    {
        TextParams { width: 0, leading_zeroes: false, right_align: false, color: None }
    }

    /// The parameters with `w` places.
    pub fn with_width(self, w: u8) -> (p: TextParams)
        ensures
            p == (TextParams { width: w, ..self }),
    {
        TextParams { width: w, ..self }
    }

    /// The parameters with the number aligned to the right.
    pub fn with_right_align(self) -> (p: TextParams)
        ensures
            p == (TextParams { right_align: true, ..self }),
    {
        TextParams { right_align: true, ..self }
    }

    /// The parameters with leading zeroes.
    pub fn with_leading_zeroes(self) -> (p: TextParams)
        ensures
            p == (TextParams { leading_zeroes: true, ..self }),
    {
        TextParams { leading_zeroes: true, ..self }
    }

    /// The parameters with a tint.
    pub fn with_color(self, c: Tint) -> (p: TextParams)
        ensures
            p == (TextParams { color: Some(c), ..self }),
    {
        TextParams { color: Some(c), ..self }
    }
}

/// The decimal digits of `n` as numbers, without leading zeroes.
pub open spec fn digits_of(n: nat) -> Seq<u32>
    decreases n,
{
    if n < 10 {
        seq![n as u32]
    } else {
        digits_of(n / 10).push((n % 10) as u32)
    }
}

/// The digits that are drawn for `n`: its own, with zeroes in front up to
/// the width if leading zeroes are asked for.
pub open spec fn shown_digits(n: nat, param: TextParams) -> Seq<u32> {
    let d = digits_of(n);
    if param.width != 0 && param.leading_zeroes && d.len() < param.width {
        Seq::new((param.width - d.len()) as nat, |i: int| 0u32) + d
    } else {
        d
    }
}

/// Number of places that are left empty in front of the digits: those that
/// the digits do not fill, for a number aligned to the right.
pub open spec fn places_skipped(n: nat, param: TextParams) -> int {
    let d = shown_digits(n, param);
    if param.width != 0 && param.right_align && d.len() < param.width {
        param.width - d.len()
    } else {
        0
    }
}

/// A number has at most ten digits if it fits in 32 bits.
pub proof fn lemma_digits_of_len(n: nat)
    ensures
        digits_of(n).len() >= 1,
        n <= u32::MAX ==> digits_of(n).len() <= 10,
        forall|i: int| 0 <= i < digits_of(n).len() ==> digits_of(n)[i] <= 9,
    decreases n,
{
    reveal_with_fuel(digits_of, 11);
    if n >= 10 {
        lemma_digits_of_len(n / 10);
    }
}

/// A digit and the place where it is drawn.
#[derive(Debug, Copy, Clone, PartialEq, Eq, Structural)]
pub struct Glyph {
    /// The digit, 0 to 9.
    pub digit: u32,
    /// Distance of the digit's left edge from the start, in pixels.
    pub x: u64,
}

/// The digits of a sheet of ten digits, all of one size.
pub struct TextNumber {
    /// Width of a digit in pixels.
    pub digit_w: u32,
    /// Height of a digit in pixels.
    pub digit_h: u32,
}

impl TextNumber {
    /// Takes the size of a digit from the size of a sheet that holds the ten
    /// digits side by side.
    pub fn new(sheet_width: u32, sheet_height: u32) -> (t: TextNumber)
        ensures
            t.digit_w == sheet_width / 10,
            t.digit_h == sheet_height,
    {
        TextNumber { digit_w: sheet_width / 10, digit_h: sheet_height }
    }

    /// Width and height of a digit.
    pub fn digit_size(&self) -> (s: (u32, u32))
        ensures
            s == (self.digit_w, self.digit_h),
    {
        (self.digit_w, self.digit_h)
    }

    /// Lays out the number `n`: its digits from the left, each with the
    /// distance of its left edge from the start. Places that a number
    /// aligned to the right leaves empty come first.
    pub fn draw(&self, n: u32, param: &TextParams) -> (glyphs: Vec<Glyph>)
        ensures
            glyphs@.len() == shown_digits(n as nat, *param).len(),
            forall|i: int|
                0 <= i < glyphs@.len() ==> (#[trigger] glyphs@[i]).digit == shown_digits(
                    n as nat,
                    *param,
                )[i] && glyphs@[i].x == (places_skipped(n as nat, *param) + i) * self.digit_w,
    {
        let mut d: Vec<u32> = Vec::new();
        if n == 0 {
            d.push(0);
        } else {
            let mut rest: u32 = n;
            while rest > 0
                invariant
                    rest == 0 ==> d@ == digits_of(n as nat),
                    rest > 0 ==> digits_of(n as nat) == digits_of(rest as nat) + d@,
                    n > 0,
                decreases rest,
            {
                let m: u32 = rest % 10;
                let ghost before = d@;
                d.insert(0, m);
                assert(d@ =~= seq![m] + before);
                proof {
                    if rest >= 10 {
                        assert(digits_of(rest as nat) == digits_of((rest / 10) as nat).push(m));
                        assert(digits_of((rest / 10) as nat).push(m) + before =~= digits_of(
                            (rest / 10) as nat,
                        ) + d@);
                    } else {
                        assert(digits_of(rest as nat) =~= seq![m]);
                    }
                }
                rest = rest / 10;
            }
        }
        proof {
            lemma_digits_of_len(n as nat);
        }
        let width: usize = param.width as usize;
        if param.width != 0 && param.leading_zeroes {
            let ghost own = d@;
            while d.len() < width
                invariant
                    own == digits_of(n as nat),
                    width == param.width,
                    d@.len() <= width || d@ == own,
                    d@ =~= Seq::new((d@.len() - own.len()) as nat, |i: int| 0u32) + own,
                decreases width - d.len(),
            {
                let ghost before = d@;
                d.insert(0, 0);
                assert(d@ =~= seq![0u32] + before);
            }
        }
        assert(d@ =~= shown_digits(n as nat, *param));
        let mut skip: usize = 0;
        if param.width != 0 && param.right_align && d.len() < width {
            skip = width - d.len();
        }
        let mut glyphs: Vec<Glyph> = Vec::new();
        let mut i: usize = 0;
        while i < d.len()
            invariant
                i <= d@.len(),
                d@.len() <= 255,
                skip + d@.len() <= 255,
                glyphs@.len() == i,
                forall|k: int|
                    0 <= k < i ==> (#[trigger] glyphs@[k]).digit == d@[k] && glyphs@[k].x == (skip
                        + k) * self.digit_w,
            decreases d@.len() - i,
        {
            let place: u64 = (skip + i) as u64;
            let width: u64 = self.digit_w as u64;
            assert(place * width <= 255 * 0xffff_ffff) by (nonlinear_arith)
                requires
                    place <= 255,
                    width <= 0xffff_ffff,
            ;
            glyphs.push(Glyph { digit: d[i], x: place * width });
            i = i + 1;
        }
        glyphs
    }
}

} // verus!
