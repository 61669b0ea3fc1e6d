use pxf::error::{FormulaChannel, PxError};
use pxf::generators::{
    blend, combine_colors, formula_color, positional_pattern_color, random_color, slice_color,
};
use pxf::pixel::Color;

#[test]
fn blend_is_integer_average() {
    let c = blend(Color::new(200, 200, 200, 200), Color::new(10, 10, 10, 10));
    assert_eq!(c, Color::new(105, 105, 105, 105));
}

#[test]
fn blend_does_not_wrap() {
    let c = blend(Color::new(255, 255, 255, 255), Color::new(255, 255, 255, 255));
    assert_eq!(c, Color::new(255, 255, 255, 255));
}

#[test]
fn blend_truncates_toward_zero() {
    let c = blend(Color::new(1, 0, 3, 5), Color::new(2, 1, 0, 0));
    assert_eq!(c, Color::new(1, 0, 1, 2));
}

#[test]
fn combine_colors_matches_blend() {
    let c1 = Color::new(17, 34, 51, 68);
    let c2 = Color::new(1, 2, 3, 4);
    assert_eq!(combine_colors(c1, c2), blend(c1, c2));
}

#[test]
fn slice_color_is_deterministic() {
    assert_eq!(slice_color(3, 4), slice_color(3, 4));
    assert_eq!(slice_color(3, 4), Color::new(7, 7, 7, 7));
}

#[test]
fn slice_color_wraps_at_255() {
    assert_eq!(slice_color(200, 60), Color::new(5, 5, 5, 5));
    assert_eq!(slice_color(127, 128), Color::new(0, 0, 0, 0));
}

#[test]
fn positional_color_is_deterministic() {
    assert_eq!(positional_pattern_color(3, 4, 0), positional_pattern_color(3, 4, 0));
    assert_eq!(positional_pattern_color(3, 4, 0), Color::new(25, 25, 25, 25));
}

#[test]
fn positional_color_channels_diverge_over_iterations() {
    // x² + y² = 25; per-channel coefficients 2, 1, 3 and 0 on the iteration.
    assert_eq!(positional_pattern_color(3, 4, 1), Color::new(27, 26, 28, 25));
    assert_eq!(positional_pattern_color(0, 0, 300), Color::new(90, 45, 135, 0));
}

#[test]
fn random_color_fixes_alpha_when_not_requested() {
    for _ in 0..32 {
        assert_eq!(random_color(false).a, 255);
    }
}

#[test]
fn formula_color_binds_variables() {
    match formula_color(5, 7, 0, "x", "y", "x + y", "255") {
        Ok(c) => assert_eq!(c, Color::new(5, 7, 12, 0)),
        Err(_) => panic!("plain formulas must evaluate"),
    }
    match formula_color(0, 0, 7, "iteration", "iteration * 2", "0", "1") {
        Ok(c) => assert_eq!(c, Color::new(7, 14, 0, 1)),
        Err(_) => panic!("iteration must be bound"),
    }
}

#[test]
fn formula_color_reduces_modulo_255() {
    match formula_color(0, 0, 0, "255", "256", "510", "0") {
        Ok(c) => assert_eq!(c, Color::new(0, 1, 0, 0)),
        Err(_) => panic!("integral formulas must evaluate"),
    }
}

#[test]
fn formula_color_wraps_negative_values() {
    match formula_color(0, 0, 0, "0 - 1", "0 - 255", "0 - 256", "0") {
        Ok(c) => assert_eq!(c, Color::new(254, 0, 254, 0)),
        Err(_) => panic!("negative values must wrap into range"),
    }
}

#[test]
fn invalid_formula_surfaces_error() {
    match formula_color(0, 0, 0, "x +* 3", "0", "0", "0") {
        Err(PxError::FormulaEvaluation { channel, expr, .. }) => {
            assert_eq!(channel, FormulaChannel::Red);
            assert_eq!(expr, "x +* 3");
        },
        _ => panic!("a syntactically invalid expression must fail"),
    }
}

#[test]
fn non_integer_formula_surfaces_error() {
    assert!(matches!(
        formula_color(0, 0, 0, "0", "1.5", "0", "0"),
        Err(PxError::FormulaEvaluation { channel: FormulaChannel::Green, .. })
    ));
}

#[test]
fn unknown_variable_surfaces_error() {
    assert!(matches!(
        formula_color(0, 0, 0, "0", "0", "0", "nonsense"),
        Err(PxError::FormulaEvaluation { channel: FormulaChannel::Alpha, .. })
    ));
}
