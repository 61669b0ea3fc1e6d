//! The draw-mode driver: a closed set of mutually exclusive modes, and the
//! assembly of one frame of pixels per iteration. The driver itself is
//! stateless across iterations but for the caller's monotonically increasing
//! iteration counter; the surrounding program owns the loop and the
//! transport, and hands each finished frame to the session layer.

use vstd::prelude::*;

use crate::error::PxError;
use crate::generators::{
    blend, formula_channel, formula_color, formula_eval, positional_pattern_color, random_color,
    slice_color, spec_positional_color, spec_slice_color,
};
use crate::pixel::{Color, Pixel};
use vstd::arithmetic::div_mod::lemma_fundamental_div_mod_converse;

verus! {

/// The drawing modes, resolved once at configuration time. The formula
/// pattern carries its four channel expressions; every other mode needs no
/// parameter.
#[derive(Clone, Debug)]
pub enum DrawMode {
    /// Every pixel random, alpha included.
    Noise,
    /// One random opaque color for the whole frame.
    Fill,
    /// Per pixel, the average of a random color and the frame's background.
    Blend,
    /// Per pixel, the four user formulas evaluated at (x, y, iteration).
    PatternFormula { red: String, green: String, blue: String, alpha: String },
    /// Per pixel, the built-in animating gradient.
    PatternPositional,
    /// One-shot diagonal grey bands.
    Slice,
    /// One-shot canvas snapshot; frames are read, not generated.
    Capture,
    /// One-shot replay of a stored pixel sequence; frames come from storage.
    Replay,
}

impl DrawMode {
    /// Whether the driver generates this mode's frames itself (as opposed to
    /// reading them from the server or from storage).
    pub open spec fn spec_generates_frame(&self) -> bool {
        !(self is Capture) && !(self is Replay)
    }

    pub fn generates_frame(&self) -> (b: bool)
        ensures
            b == self.spec_generates_frame(),
    {
        match self {
            DrawMode::Capture => false,
            DrawMode::Replay => false,
            _ => true,
        }
    }

    /// Whether the mode runs frame after frame until interrupted, as opposed
    /// to drawing once and terminating.
    pub open spec fn spec_is_live(&self) -> bool {
        self is Noise || self is Fill || self is Blend || self is PatternFormula
            || self is PatternPositional
    }

    pub fn is_live(&self) -> (b: bool)
        ensures
            b == self.spec_is_live(),
    {
        match self {
            DrawMode::Noise => true,
            DrawMode::Fill => true,
            DrawMode::Blend => true,
            DrawMode::PatternFormula { .. } => true,
            DrawMode::PatternPositional => true,
            _ => false,
        }
    }
}

/// A frame covers the whole canvas in column-major order: pixel `i` sits at
/// column `i / h`, row `i % h`.
pub open spec fn frame_coords_ok(f: Seq<Pixel>, w: u16, h: u16) -> bool {
    f.len() == (w as int) * (h as int) && (forall|i: int|
        0 <= i < f.len() ==> (#[trigger] f[i]).x == i / (h as int) && f[i].y == i % (h as int))
}

/// Every pixel of the frame carries the slice color of its own coordinates.
pub open spec fn slice_frame(f: Seq<Pixel>) -> bool {
    forall|i: int|
        0 <= i < f.len() ==> (#[trigger] f[i]).color == spec_slice_color(f[i].x, f[i].y)
}

/// Every pixel of the frame carries the positional-pattern color of its own
/// coordinates at the given iteration.
pub open spec fn positional_frame(f: Seq<Pixel>, iteration: u32) -> bool {
    forall|i: int|
        0 <= i < f.len() ==> (#[trigger] f[i]).color == spec_positional_color(
            f[i].x,
            f[i].y,
            iteration,
        )
}

/// Every pixel of the frame carries the same color.
pub open spec fn const_frame(f: Seq<Pixel>, c: Color) -> bool {
    forall|i: int| 0 <= i < f.len() ==> (#[trigger] f[i]).color == c
}

/// Every pixel of the frame carries the four formula channels evaluated at
/// its own coordinates.
pub open spec fn formula_frame(
    f: Seq<Pixel>,
    red: Seq<char>,
    green: Seq<char>,
    blue: Seq<char>,
    alpha: Seq<char>,
    iteration: u32,
) -> bool {
    forall|i: int|
        0 <= i < f.len() ==> {
            let p = #[trigger] f[i];
            formula_channel(red, p.x, p.y, iteration) is Some && formula_channel(
                green,
                p.x,
                p.y,
                iteration,
            ) is Some && formula_channel(blue, p.x, p.y, iteration) is Some && formula_channel(
                alpha,
                p.x,
                p.y,
                iteration,
            ) is Some && p.color == (Color {
                r: formula_channel(red, p.x, p.y, iteration).unwrap(),
                g: formula_channel(green, p.x, p.y, iteration).unwrap(),
                b: formula_channel(blue, p.x, p.y, iteration).unwrap(),
                a: formula_channel(alpha, p.x, p.y, iteration).unwrap(),
            })
        }
}

/// Appending the pixel for the next coordinate keeps the column-major
/// layout.
proof fn lemma_push_coords(f: Seq<Pixel>, p: Pixel, h: u16, x: u16, y: u16)
    requires
        h > 0,
        y < h,
        f.len() == (x as int) * (h as int) + (y as int),
        forall|i: int|
            0 <= i < f.len() ==> (#[trigger] f[i]).x == i / (h as int) && f[i].y == i % (h as int),
        p.x == x,
        p.y == y,
    ensures
        forall|i: int|
            0 <= i < f.push(p).len() ==> (#[trigger] f.push(p)[i]).x == i / (h as int) && f.push(
                p,
            )[i].y == i % (h as int),
{
    let f2 = f.push(p);
    assert forall|i: int| 0 <= i < f2.len() implies (#[trigger] f2[i]).x == i / (h as int)
        && f2[i].y == i % (h as int) by {
        if i < f.len() {
            assert(f2[i] == f[i]);
        } else {
            assert(f2[i] == p);
            lemma_fundamental_div_mod_converse(i, h as int, x as int, y as int);
        }
    }
}

/// One finished column means the length advances by a whole column.
proof fn lemma_column_done(x: u16, h: u16)
    ensures
        (x as int) * (h as int) + (h as int) == ((x as int) + 1) * (h as int),
{
    assert((x as int) * (h as int) + (h as int) == ((x as int) + 1) * (h as int))
        by (nonlinear_arith);
}

/// The slice frame: one-shot diagonal grey bands over the whole canvas.
fn frame_slice(w: u16, h: u16) -> (f: Vec<Pixel>)
    ensures
        frame_coords_ok(f@, w, h),
        slice_frame(f@),
{
    let mut f: Vec<Pixel> = Vec::new();
    let mut x: u16 = 0;
    while x < w
        invariant
            x <= w,
            f@.len() == (x as int) * (h as int),
            forall|i: int|
                0 <= i < f@.len() ==> (#[trigger] f@[i]).x == i / (h as int) && f@[i].y == i % (
                h as int),
            slice_frame(f@),
        decreases w - x,
    {
        let mut y: u16 = 0;
        while y < h
            invariant
                x < w,
                y <= h,
                f@.len() == (x as int) * (h as int) + (y as int),
                forall|i: int|
                    0 <= i < f@.len() ==> (#[trigger] f@[i]).x == i / (h as int) && f@[i].y == i % (
                    h as int),
                slice_frame(f@),
            decreases h - y,
        {
            let p = Pixel::new(x, y, slice_color(x, y));
            proof {
                lemma_push_coords(f@, p, h, x, y);
            }
            f.push(p);
            y = y + 1;
        }
        proof {
            lemma_column_done(x, h);
        }
        x = x + 1;
    }
    f
}

/// The positional-pattern frame for one iteration.
fn frame_positional(w: u16, h: u16, iteration: u32) -> (f: Vec<Pixel>)
    ensures
        frame_coords_ok(f@, w, h),
        positional_frame(f@, iteration),
{
    let mut f: Vec<Pixel> = Vec::new();
    let mut x: u16 = 0;
    while x < w
        invariant
            x <= w,
            f@.len() == (x as int) * (h as int),
            forall|i: int|
                0 <= i < f@.len() ==> (#[trigger] f@[i]).x == i / (h as int) && f@[i].y == i % (
                h as int),
            positional_frame(f@, iteration),
        decreases w - x,
    {
        let mut y: u16 = 0;
        while y < h
            invariant
                x < w,
                y <= h,
                f@.len() == (x as int) * (h as int) + (y as int),
                forall|i: int|
                    0 <= i < f@.len() ==> (#[trigger] f@[i]).x == i / (h as int) && f@[i].y == i % (
                    h as int),
                positional_frame(f@, iteration),
            decreases h - y,
        {
            let p = Pixel::new(x, y, positional_pattern_color(x, y, iteration));
            proof {
                lemma_push_coords(f@, p, h, x, y);
            }
            f.push(p);
            y = y + 1;
        }
        proof {
            lemma_column_done(x, h);
        }
        x = x + 1;
    }
    f
}

/// A frame of one shared color.
fn frame_const(w: u16, h: u16, c: Color) -> (f: Vec<Pixel>)
    ensures
        frame_coords_ok(f@, w, h),
        const_frame(f@, c),
{
    let mut f: Vec<Pixel> = Vec::new();
    let mut x: u16 = 0;
    while x < w
        invariant
            x <= w,
            f@.len() == (x as int) * (h as int),
            forall|i: int|
                0 <= i < f@.len() ==> (#[trigger] f@[i]).x == i / (h as int) && f@[i].y == i % (
                h as int),
            const_frame(f@, c),
        decreases w - x,
    {
        let mut y: u16 = 0;
        while y < h
            invariant
                x < w,
                y <= h,
                f@.len() == (x as int) * (h as int) + (y as int),
                forall|i: int|
                    0 <= i < f@.len() ==> (#[trigger] f@[i]).x == i / (h as int) && f@[i].y == i % (
                    h as int),
                const_frame(f@, c),
            decreases h - y,
        {
            let p = Pixel::new(x, y, c);
            proof {
                lemma_push_coords(f@, p, h, x, y);
            }
            f.push(p);
            y = y + 1;
        }
        proof {
            lemma_column_done(x, h);
        }
        x = x + 1;
    }
    f
}

/// The noise frame: every pixel freshly random.
fn frame_noise(w: u16, h: u16) -> (f: Vec<Pixel>)
    ensures
        frame_coords_ok(f@, w, h),
{
    let mut f: Vec<Pixel> = Vec::new();
    let mut x: u16 = 0;
    while x < w
        invariant
            x <= w,
            f@.len() == (x as int) * (h as int),
            forall|i: int|
                0 <= i < f@.len() ==> (#[trigger] f@[i]).x == i / (h as int) && f@[i].y == i % (
                h as int),
        decreases w - x,
    {
        let mut y: u16 = 0;
        while y < h
            invariant
                x < w,
                y <= h,
                f@.len() == (x as int) * (h as int) + (y as int),
                forall|i: int|
                    0 <= i < f@.len() ==> (#[trigger] f@[i]).x == i / (h as int) && f@[i].y == i % (
                    h as int),
            decreases h - y,
        {
            let p = Pixel::new(x, y, random_color(true));
            proof {
                lemma_push_coords(f@, p, h, x, y);
            }
            f.push(p);
            y = y + 1;
        }
        proof {
            lemma_column_done(x, h);
        }
        x = x + 1;
    }
    f
}

/// The blend frame: every pixel the average of a fresh random color and the
/// shared opaque background, so the blended alpha is at least 127.
fn frame_blend(w: u16, h: u16, background: Color) -> (f: Vec<Pixel>)
    requires
        background.a == 255,
    ensures
        frame_coords_ok(f@, w, h),
        forall|i: int| 0 <= i < f@.len() ==> (#[trigger] f@[i]).color.a >= 127,
{
    let mut f: Vec<Pixel> = Vec::new();
    let mut x: u16 = 0;
    while x < w
        invariant
            x <= w,
            f@.len() == (x as int) * (h as int),
            forall|i: int|
                0 <= i < f@.len() ==> (#[trigger] f@[i]).x == i / (h as int) && f@[i].y == i % (
                h as int),
            forall|i: int| 0 <= i < f@.len() ==> (#[trigger] f@[i]).color.a >= 127,
            background.a == 255,
        decreases w - x,
    {
        let mut y: u16 = 0;
        while y < h
            invariant
                x < w,
                y <= h,
                f@.len() == (x as int) * (h as int) + (y as int),
                forall|i: int|
                    0 <= i < f@.len() ==> (#[trigger] f@[i]).x == i / (h as int) && f@[i].y == i % (
                    h as int),
                forall|i: int| 0 <= i < f@.len() ==> (#[trigger] f@[i]).color.a >= 127,
                background.a == 255,
            decreases h - y,
        {
            let p = Pixel::new(x, y, blend(random_color(true), background));
            proof {
                lemma_push_coords(f@, p, h, x, y);
            }
            f.push(p);
            y = y + 1;
        }
        proof {
            lemma_column_done(x, h);
        }
        x = x + 1;
    }
    f
}

/// The formula frame: the four user expressions evaluated at every
/// coordinate, or the first evaluation failure.
fn frame_formula(
    w: u16,
    h: u16,
    iteration: u32,
    red: &str,
    green: &str,
    blue: &str,
    alpha: &str,
) -> (r: Result<Vec<Pixel>, PxError>)
    ensures
        r matches Ok(f) ==> frame_coords_ok(f@, w, h) && formula_frame(
            f@,
            red@,
            green@,
            blue@,
            alpha@,
            iteration,
        ),
        r matches Err(e) ==> e matches PxError::FormulaEvaluation { .. } && (exists|
            xx: u16,
            yy: u16,
        |
            xx < w && yy < h && (#[trigger] formula_eval(red@, xx, yy, iteration) is None
                || formula_eval(green@, xx, yy, iteration) is None || formula_eval(
                blue@,
                xx,
                yy,
                iteration,
            ) is None || formula_eval(alpha@, xx, yy, iteration) is None)),
{
    let mut f: Vec<Pixel> = Vec::new();
    let mut x: u16 = 0;
    while x < w
        invariant
            x <= w,
            f@.len() == (x as int) * (h as int),
            forall|i: int|
                0 <= i < f@.len() ==> (#[trigger] f@[i]).x == i / (h as int) && f@[i].y == i % (
                h as int),
            formula_frame(f@, red@, green@, blue@, alpha@, iteration),
        decreases w - x,
    {
        let mut y: u16 = 0;
        while y < h
            invariant
                x < w,
                y <= h,
                f@.len() == (x as int) * (h as int) + (y as int),
                forall|i: int|
                    0 <= i < f@.len() ==> (#[trigger] f@[i]).x == i / (h as int) && f@[i].y == i % (
                    h as int),
                formula_frame(f@, red@, green@, blue@, alpha@, iteration),
            decreases h - y,
        {
            let c = match formula_color(x, y, iteration, red, green, blue, alpha) {
                Ok(c) => c,
                Err(e) => {
                    return Err(e);
                },
            };
            let p = Pixel::new(x, y, c);
            proof {
                lemma_push_coords(f@, p, h, x, y);
            }
            f.push(p);
            y = y + 1;
        }
        proof {
            lemma_column_done(x, h);
        }
        x = x + 1;
    }
    Ok(f)
}

/// Assembles the frame of one iteration of a frame-generating mode: the
/// whole canvas in column-major order, each pixel colored as the mode
/// prescribes. Only the formula pattern can fail, and only because a user
/// formula failed to evaluate.
pub fn build_frame(mode: &DrawMode, w: u16, h: u16, iteration: u32) -> (r: Result<
    Vec<Pixel>,
    PxError,
>)
    requires
        mode.spec_generates_frame(),
    ensures
        r matches Ok(f) ==> frame_coords_ok(f@, w, h),
        !(mode is PatternFormula) ==> r is Ok,
        mode is Slice ==> (r matches Ok(f) && slice_frame(f@)),
        mode is PatternPositional ==> (r matches Ok(f) && positional_frame(f@, iteration)),
        mode is Fill ==> (r matches Ok(f) && (forall|i: int|
            0 <= i < f@.len() ==> (#[trigger] f@[i]).color == f@[0].color && f@[i].color.a
                == 255)),
        mode is Blend ==> (r matches Ok(f) && (forall|i: int|
            0 <= i < f@.len() ==> (#[trigger] f@[i]).color.a >= 127)),
        mode matches DrawMode::PatternFormula { red, green, blue, alpha } ==> (match r {
            Ok(f) => formula_frame(f@, red@, green@, blue@, alpha@, iteration),
            Err(e) => e matches PxError::FormulaEvaluation { .. } && (exists|xx: u16, yy: u16|
                xx < w && yy < h && (#[trigger] formula_eval(red@, xx, yy, iteration) is None
                    || formula_eval(green@, xx, yy, iteration) is None || formula_eval(
                    blue@,
                    xx,
                    yy,
                    iteration,
                ) is None || formula_eval(alpha@, xx, yy, iteration) is None)),
        }),
{
    match mode {
        DrawMode::Noise => Ok(frame_noise(w, h)),
        DrawMode::Fill => {
            let bg = random_color(false);
            let f = frame_const(w, h, bg);
            proof {
                assert(forall|i: int|
                    0 <= i < f@.len() ==> (#[trigger] f@[i]).color == f@[0].color
                        && f@[i].color.a == 255) by {
                    assert(const_frame(f@, bg));
                    assert forall|i: int| 0 <= i < f@.len() implies (#[trigger] f@[i]).color
                        == f@[0].color && f@[i].color.a == 255 by {
                        assert(f@[i].color == bg);
                        assert(f@[0].color == bg);
                    }
                }
            }
            Ok(f)
        },
        DrawMode::Blend => {
            let bg = random_color(false);
            Ok(frame_blend(w, h, bg))
        },
        DrawMode::PatternFormula { red, green, blue, alpha } => frame_formula(
            w,
            h,
            iteration,
            red.as_str(),
            green.as_str(),
            blue.as_str(),
            alpha.as_str(),
        ),
        DrawMode::PatternPositional => Ok(frame_positional(w, h, iteration)),
        DrawMode::Slice => Ok(frame_slice(w, h)),
        DrawMode::Capture => vstd::pervasive::unreached(),
        DrawMode::Replay => vstd::pervasive::unreached(),
    }
}

} // verus!
