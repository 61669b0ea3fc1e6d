use pxf::driver::{build_frame, DrawMode};
use pxf::error::PxError;
use pxf::generators::{positional_pattern_color, slice_color};
use pxf::pixel::{Color, Pixel};

#[test]
fn slice_frame_on_2x2_canvas() {
    let frame = match build_frame(&DrawMode::Slice, 2, 2, 0) {
        Ok(f) => f,
        Err(_) => panic!("the slice mode cannot fail"),
    };
    assert_eq!(frame.len(), 4);
    assert_eq!(frame[0], Pixel::new(0, 0, Color::new(0, 0, 0, 0)));
    assert_eq!(frame[1], Pixel::new(0, 1, Color::new(1, 1, 1, 1)));
    assert_eq!(frame[2], Pixel::new(1, 0, Color::new(1, 1, 1, 1)));
    assert_eq!(frame[3], Pixel::new(1, 1, Color::new(2, 2, 2, 2)));
}

#[test]
fn slice_frame_matches_generator() {
    let frame = build_frame(&DrawMode::Slice, 5, 3, 9).unwrap_or_default();
    assert_eq!(frame.len(), 15);
    for p in frame {
        assert_eq!(p.color, slice_color(p.x, p.y));
    }
}

#[test]
fn fill_frame_shares_one_opaque_color() {
    let frame = build_frame(&DrawMode::Fill, 3, 2, 0).unwrap_or_default();
    assert_eq!(frame.len(), 6);
    let shared = frame[0].color;
    for p in frame {
        assert_eq!(p.color, shared);
        assert_eq!(p.color.a, 255);
    }
}

#[test]
fn noise_frame_covers_canvas() {
    let frame = build_frame(&DrawMode::Noise, 4, 3, 0).unwrap_or_default();
    assert_eq!(frame.len(), 12);
    let mut k = 0;
    for x in 0..4u16 {
        for y in 0..3u16 {
            assert_eq!((frame[k].x, frame[k].y), (x, y));
            k += 1;
        }
    }
}

#[test]
fn blend_frame_alpha_stays_high() {
    let frame = build_frame(&DrawMode::Blend, 3, 3, 0).unwrap_or_default();
    assert_eq!(frame.len(), 9);
    for p in frame {
        assert!(p.color.a >= 127);
    }
}

#[test]
fn positional_frame_matches_generator() {
    let frame = build_frame(&DrawMode::PatternPositional, 2, 2, 5).unwrap_or_default();
    assert_eq!(frame.len(), 4);
    for p in frame {
        assert_eq!(p.color, positional_pattern_color(p.x, p.y, 5));
    }
}

#[test]
fn formula_frame_evaluates_per_coordinate() {
    let mode = DrawMode::PatternFormula {
        red: String::from("x"),
        green: String::from("y"),
        blue: String::from("x * 10 + y"),
        alpha: String::from("iteration"),
    };
    let frame = match build_frame(&mode, 3, 2, 4) {
        Ok(f) => f,
        Err(_) => panic!("plain formulas must evaluate"),
    };
    assert_eq!(frame.len(), 6);
    for p in frame {
        assert_eq!(p.color, Color::new(p.x as u8, p.y as u8, (p.x * 10 + p.y) as u8, 4));
    }
}

#[test]
fn formula_frame_surfaces_bad_formula() {
    let mode = DrawMode::PatternFormula {
        red: String::from("x"),
        green: String::from("("),
        blue: String::from("0"),
        alpha: String::from("0"),
    };
    assert!(matches!(build_frame(&mode, 2, 2, 0), Err(PxError::FormulaEvaluation { .. })));
}

#[test]
fn empty_canvas_gives_empty_frame() {
    assert_eq!(build_frame(&DrawMode::Noise, 0, 7, 0).unwrap_or_default().len(), 0);
    assert_eq!(build_frame(&DrawMode::Slice, 7, 0, 0).unwrap_or_default().len(), 0);
}

#[test]
fn mode_classification() {
    assert!(DrawMode::Noise.generates_frame());
    assert!(DrawMode::Slice.generates_frame());
    assert!(!DrawMode::Capture.generates_frame());
    assert!(!DrawMode::Replay.generates_frame());
    assert!(DrawMode::Noise.is_live());
    assert!(DrawMode::Fill.is_live());
    assert!(DrawMode::Blend.is_live());
    assert!(DrawMode::PatternPositional.is_live());
    assert!(!DrawMode::Slice.is_live());
    assert!(!DrawMode::Capture.is_live());
    assert!(!DrawMode::Replay.is_live());
}
