//! The per-pixel color generators: random, averaged blend, formula-driven,
//! positional pattern, and diagonal slice. All are pure functions of their
//! inputs except the random generator, which is random by request.

use vstd::prelude::*;

use crate::error::{FormulaChannel, PxError};
use crate::pixel::Color;
use evalexpr::ContextWithMutableVariables;
use vstd::arithmetic::div_mod::{lemma_fundamental_div_mod, lemma_fundamental_div_mod_converse};
use vstd::string::StringExecFns;

verus! {

/// Relies on rand::random drawing a value of the target type from its
/// standard distribution; nothing is assumed about which value comes back.
pub assume_specification<T>[ rand::random::<T> ]() -> (r: T)
    where
        rand::distr::StandardUniform: rand::distr::Distribution<T>,
;

/// A color whose red, green and blue channels are drawn uniformly at
/// random; the alpha channel is drawn too only when `r_alph` is set, and is
/// fully opaque otherwise. Nothing more can be promised of a random draw.
pub fn random_color(r_alph: bool) -> (c: Color)
    ensures
        !r_alph ==> c.a == 255,
{
    let r: u8 = rand::random::<u8>();
    let g: u8 = rand::random::<u8>();
    let b: u8 = rand::random::<u8>();
    let a: u8 = if r_alph {
        rand::random::<u8>()
    } else {
        255
    };
    Color::new(r, g, b, a)
}

/// The per-channel unsigned average of two colors, each channel computed in
/// a width that cannot wrap and truncated toward zero by the division.
pub fn blend(c1: Color, c2: Color) -> (c: Color)
    ensures
        c.r == (c1.r + c2.r) / 2,
        c.g == (c1.g + c2.g) / 2,
        c.b == (c1.b + c2.b) / 2,
        c.a == (c1.a + c2.a) / 2,
{
    Color::new(
        (((c1.r as u16) + (c2.r as u16)) / 2) as u8,
        (((c1.g as u16) + (c2.g as u16)) / 2) as u8,
        (((c1.b as u16) + (c2.b as u16)) / 2) as u8,
        (((c1.a as u16) + (c2.a as u16)) / 2) as u8,
    )
}

/// Combines two colors by averaging each channel; see `blend`.
pub fn combine_colors(c1: Color, c2: Color) -> (c: Color)
    ensures
        c.r == (c1.r + c2.r) / 2,
        c.g == (c1.g + c2.g) / 2,
        c.b == (c1.b + c2.b) / 2,
        c.a == (c1.a + c2.a) / 2,
{
    blend(c1, c2)
}

/// All four channels of the slice pattern equal `(x + y) % 255`: a pure
/// function of the coordinates alone, so repeated calls agree.
pub open spec fn spec_slice_color(x: u16, y: u16) -> Color {
    let v = (((x as int) + (y as int)) % 255) as u8;
    Color { r: v, g: v, b: v, a: v }
}

pub fn slice_color(x: u16, y: u16) -> (c: Color)
    ensures
        c == spec_slice_color(x, y),
{
    let v: u32 = ((x as u32) + (y as u32)) % 255;
    Color::new(v as u8, v as u8, v as u8, v as u8)
}

/// The positional pattern: every channel is `(x² + y² + k·iteration) % 255`
/// with a distinct per-channel coefficient `k`, so the gradient animates and
/// the channels differ once the iteration counter moves. A pure function of
/// its three inputs.
pub open spec fn spec_positional_color(x: u16, y: u16, iteration: u32) -> Color {
    let s = (x as int) * (x as int) + (y as int) * (y as int);
    Color {
        r: ((s + 2 * (iteration as int)) % 255) as u8,
        g: ((s + (iteration as int)) % 255) as u8,
        b: ((s + 3 * (iteration as int)) % 255) as u8,
        a: (s % 255) as u8,
    }
}

pub fn positional_pattern_color(x: u16, y: u16, iteration: u32) -> (c: Color)
    ensures
        c == spec_positional_color(x, y, iteration),
{
    let xs: u64 = x as u64;
    let ys: u64 = y as u64;
    let it: u64 = iteration as u64;
    proof {
        assert(xs * xs <= 0xFFFF * 0xFFFF && ys * ys <= 0xFFFF * 0xFFFF) by (nonlinear_arith)
            requires
                xs <= 0xFFFF,
                ys <= 0xFFFF,
        ;
    }
    let s: u64 = xs * xs + ys * ys;
    Color::new(
        ((s + 2 * it) % 255) as u8,
        ((s + it) % 255) as u8,
        ((s + 3 * it) % 255) as u8,
        (s % 255) as u8,
    )
}

/// What the expression evaluator yields for a channel formula with the
/// variables `x`, `y` and `iteration` bound: an integer, or nothing when the
/// formula fails to parse or evaluate or is not integral. The evaluation
/// depends on these three values and the expression text alone.
pub uninterp spec fn formula_eval(expr: Seq<char>, x: u16, y: u16, iteration: u32) -> Option<i64>;

/// Relies on evalexpr::eval_int_with_context, with exactly the variables
/// `x`, `y` and `iteration` bound in a fresh evalexpr::HashMapContext: with
/// no other bindings and no random builtin the result is a function of the
/// expression and the three values alone, here named `formula_eval`.
#[verifier::external_body]
fn eval_channel(expr: &str, x: u16, y: u16, iteration: u32) -> (r: Result<i64, String>)
    ensures
        r matches Ok(v) ==> formula_eval(expr@, x, y, iteration) == Some(v),
        r is Err ==> formula_eval(expr@, x, y, iteration) is None,
{
    let mut ctx = evalexpr::HashMapContext::<evalexpr::DefaultNumericTypes>::new();
    if let Err(e) = ctx.set_value("x".to_string(), evalexpr::Value::Int(x as i64)) {
        return Err(e.to_string());
    }
    if let Err(e) = ctx.set_value("y".to_string(), evalexpr::Value::Int(y as i64)) {
        return Err(e.to_string());
    }
    if let Err(e) = ctx.set_value("iteration".to_string(), evalexpr::Value::Int(iteration as i64)) {
        return Err(e.to_string());
    }
    evalexpr::eval_int_with_context(expr, &ctx).map_err(|e| e.to_string())
}

/// The non-negative residue of `v` modulo 255, the explicit design choice
/// for narrowing an evaluated channel: negative values wrap into `[0, 255)`
/// instead of being truncated.
fn mod255(v: i64) -> (r: u8)
    ensures
        r as int == (v as int) % 255,
{
    if v >= 0 {
        ((v as u64) % 255) as u8
    } else {
        let w: i64 = -(v + 1);
        let m: u64 = (w as u64) % 255;
        proof {
            let vi = v as int;
            let wi = w as int;
            lemma_fundamental_div_mod(wi, 255);
            let q = wi / 255;
            assert(vi == (-q - 1) * 255 + (254 - (wi % 255)));
            lemma_fundamental_div_mod_converse(vi, 255, -q - 1, 254 - (wi % 255));
        }
        (254 - m) as u8
    }
}

/// What a channel formula denotes as a channel value: the evaluated integer
/// reduced to its non-negative residue modulo 255, when it evaluates at all.
pub open spec fn formula_channel(expr: Seq<char>, x: u16, y: u16, iteration: u32) -> Option<u8> {
    match formula_eval(expr, x, y, iteration) {
        Some(v) => Some(((v as int) % 255) as u8),
        None => None,
    }
}

/// Evaluates the four channel formulas at a coordinate and frame counter.
/// Succeeds exactly when all four formulas evaluate to integers; the first
/// failing channel (in R, G, B, A order) is surfaced with its expression and
/// the evaluator's message, never replaced by a default color.
pub fn formula_color(
    x: u16,
    y: u16,
    iteration: u32,
    r_expr: &str,
    g_expr: &str,
    b_expr: &str,
    a_expr: &str,
) -> (res: Result<Color, PxError>)
    ensures
        formula_channel(r_expr@, x, y, iteration) is Some && formula_channel(
            g_expr@,
            x,
            y,
            iteration,
        ) is Some && formula_channel(b_expr@, x, y, iteration) is Some && formula_channel(
            a_expr@,
            x,
            y,
            iteration,
        ) is Some ==> res == Ok::<Color, PxError>(
            Color {
                r: formula_channel(r_expr@, x, y, iteration).unwrap(),
                g: formula_channel(g_expr@, x, y, iteration).unwrap(),
                b: formula_channel(b_expr@, x, y, iteration).unwrap(),
                a: formula_channel(a_expr@, x, y, iteration).unwrap(),
            },
        ),
        res is Ok ==> formula_eval(r_expr@, x, y, iteration) is Some && formula_eval(
            g_expr@,
            x,
            y,
            iteration,
        ) is Some && formula_eval(b_expr@, x, y, iteration) is Some && formula_eval(
            a_expr@,
            x,
            y,
            iteration,
        ) is Some,
        res matches Err(e) ==> e matches PxError::FormulaEvaluation { channel, expr, .. }
            && (match channel {
            FormulaChannel::Red => formula_eval(r_expr@, x, y, iteration) is None && expr@
                == r_expr@,
            FormulaChannel::Green => formula_eval(r_expr@, x, y, iteration) is Some
                && formula_eval(g_expr@, x, y, iteration) is None && expr@ == g_expr@,
            FormulaChannel::Blue => formula_eval(r_expr@, x, y, iteration) is Some && formula_eval(
                g_expr@,
                x,
                y,
                iteration,
            ) is Some && formula_eval(b_expr@, x, y, iteration) is None && expr@ == b_expr@,
            FormulaChannel::Alpha => formula_eval(r_expr@, x, y, iteration) is Some
                && formula_eval(g_expr@, x, y, iteration) is Some && formula_eval(
                b_expr@,
                x,
                y,
                iteration,
            ) is Some && formula_eval(a_expr@, x, y, iteration) is None && expr@ == a_expr@,
        }),
{
    let rv: i64 = match eval_channel(r_expr, x, y, iteration) {
        Ok(v) => v,
        Err(m) => {
            return Err(
                PxError::FormulaEvaluation {
                    channel: FormulaChannel::Red,
                    expr: String::from_str(r_expr),
                    message: m,
                },
            );
        },
    };
    let gv: i64 = match eval_channel(g_expr, x, y, iteration) {
        Ok(v) => v,
        Err(m) => {
            return Err(
                PxError::FormulaEvaluation {
                    channel: FormulaChannel::Green,
                    expr: String::from_str(g_expr),
                    message: m,
                },
            );
        },
    };
    let bv: i64 = match eval_channel(b_expr, x, y, iteration) {
        Ok(v) => v,
        Err(m) => {
            return Err(
                PxError::FormulaEvaluation {
                    channel: FormulaChannel::Blue,
                    expr: String::from_str(b_expr),
                    message: m,
                },
            );
        },
    };
    let av: i64 = match eval_channel(a_expr, x, y, iteration) {
        Ok(v) => v,
        Err(m) => {
            return Err(
                PxError::FormulaEvaluation {
                    channel: FormulaChannel::Alpha,
                    expr: String::from_str(a_expr),
                    message: m,
                },
            );
        },
    };
    Ok(Color::new(mod255(rv), mod255(gv), mod255(bv), mod255(av)))
}

} // verus!
