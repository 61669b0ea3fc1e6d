//! The wire codec: the exact text forms of the `PX` and `SIZE` commands.
//!
//! Encoding always writes the four-channel form `PX <x> <y> <RRGGBBAA>\n`
//! with two uppercase hexadecimal digits per channel; decoding accepts six-
//! or eight-digit payloads (six digits mean a fully opaque alpha of 255),
//! tolerates surrounding whitespace, and rejects anything else with a
//! decode error — it never panics and never invents a default pixel.

use vstd::prelude::*;

use crate::error::PxError;
use crate::pixel::{Color, Pixel};
use crate::text::{
    is_space, is_hex_digit, hex_val, dec_val, is_dec_u16, dec_chars, hex2, hex_char,
    tokens, record_lines, split_runs, span_runs, split_spans, parse_u16_at, hex_digit_of,
    append_dec_u16, append_hex_byte, lemma_dec_chars_ok, lemma_dec_chars_no_space,
    lemma_hex_char_val, lemma_split_concat, lemma_split_prepend_run, lemma_split_skip_sep,
};
use vstd::string::StringExecFns;
use vstd::string::StrSliceExecFns;

verus! {

/// The keyword token of a pixel command.
pub open spec fn px_tag() -> Seq<char> {
    seq!['P', 'X']
}

/// The keyword token of a size command.
pub open spec fn size_tag() -> Seq<char> {
    seq!['S', 'I', 'Z', 'E']
}

/// A valid color payload: six or eight hexadecimal digits.
pub open spec fn is_color_hex(t: Seq<char>) -> bool {
    (t.len() == 6 || t.len() == 8) && (forall|i: int|
        0 <= i < t.len() ==> is_hex_digit(#[trigger] t[i]))
}

/// The byte written as two hexadecimal digits, high digit first.
pub open spec fn hex_byte(c1: char, c2: char) -> nat {
    hex_val(c1) * 16 + hex_val(c2)
}

/// The color a valid payload denotes; alpha defaults to fully opaque when
/// the short form omits it.
pub open spec fn color_of_hex(t: Seq<char>) -> Color {
    Color {
        r: hex_byte(t[0], t[1]) as u8,
        g: hex_byte(t[2], t[3]) as u8,
        b: hex_byte(t[4], t[5]) as u8,
        a: if t.len() == 8 {
            hex_byte(t[6], t[7]) as u8
        } else {
            255
        },
    }
}

/// What a pixel record line denotes: exactly the lines whose tokens are
/// `PX`, two in-range decimal coordinates and a valid color payload denote
/// a pixel; every other line denotes nothing.
pub open spec fn spec_decode_pixel(s: Seq<char>) -> Option<Pixel> {
    let ts = tokens(s);
    if ts.len() == 4 && ts[0] == px_tag() && is_dec_u16(ts[1]) && is_dec_u16(ts[2]) && is_color_hex(
        ts[3],
    ) {
        Some(
            Pixel {
                x: dec_val(ts[1]) as u16,
                y: dec_val(ts[2]) as u16,
                color: color_of_hex(ts[3]),
            },
        )
    } else {
        None
    }
}

/// What a size response line denotes.
pub open spec fn spec_decode_size(s: Seq<char>) -> Option<(u16, u16)> {
    let ts = tokens(s);
    if ts.len() == 3 && ts[0] == size_tag() && is_dec_u16(ts[1]) && is_dec_u16(ts[2]) {
        Some((dec_val(ts[1]) as u16, dec_val(ts[2]) as u16))
    } else {
        None
    }
}

/// The eight hexadecimal digits of a color, channels in R, G, B, A order.
pub open spec fn color_hex8(c: Color) -> Seq<char> {
    hex2(c.r as nat) + hex2(c.g as nat) + hex2(c.b as nat) + hex2(c.a as nat)
}

/// The encoded form of a pixel draw command.
pub open spec fn spec_encode_pixel(p: Pixel) -> Seq<char> {
    px_tag() + seq![' '] + dec_chars(p.x as nat) + seq![' '] + dec_chars(p.y as nat) + seq![' ']
        + color_hex8(p.color) + seq!['\n']
}

/// The encoded form of the size query.
pub open spec fn spec_size_query() -> Seq<char> {
    size_tag() + seq!['\n']
}

/// The encoded form of a color-less pixel query.
pub open spec fn spec_pixel_query(x: u16, y: u16) -> Seq<char> {
    px_tag() + seq![' '] + dec_chars(x as nat) + seq![' '] + dec_chars(y as nat) + seq!['\n']
}

/// The encoded form of a whole frame: every pixel's command, in frame order.
pub open spec fn frame_chars(ps: Seq<Pixel>) -> Seq<char>
    decreases ps.len(),
{
    if ps.len() == 0 {
        Seq::empty()
    } else {
        frame_chars(ps.drop_last()) + spec_encode_pixel(ps.last())
    }
}

/// The eight-digit payload of a color is a valid payload and denotes that
/// color again; its characters are digits, so never whitespace.
pub proof fn lemma_color_hex8(c: Color)
    ensures
        color_hex8(c).len() == 8,
        is_color_hex(color_hex8(c)),
        color_of_hex(color_hex8(c)) == c,
        forall|i: int|
            0 <= i < color_hex8(c).len() ==> !is_space(#[trigger] color_hex8(c)[i]) && color_hex8(
                c,
            )[i] != '\n',
{
    let t = color_hex8(c);
    assert(t =~= seq![
        hex_char(c.r as nat / 16),
        hex_char(c.r as nat % 16),
        hex_char(c.g as nat / 16),
        hex_char(c.g as nat % 16),
        hex_char(c.b as nat / 16),
        hex_char(c.b as nat % 16),
        hex_char(c.a as nat / 16),
        hex_char(c.a as nat % 16),
    ]);
    lemma_hex_char_val(c.r as nat / 16);
    lemma_hex_char_val(c.r as nat % 16);
    lemma_hex_char_val(c.g as nat / 16);
    lemma_hex_char_val(c.g as nat % 16);
    lemma_hex_char_val(c.b as nat / 16);
    lemma_hex_char_val(c.b as nat % 16);
    lemma_hex_char_val(c.a as nat / 16);
    lemma_hex_char_val(c.a as nat % 16);
    assert(hex_byte(t[0], t[1]) == (c.r as nat / 16) * 16 + (c.r as nat % 16));
    assert(hex_byte(t[2], t[3]) == (c.g as nat / 16) * 16 + (c.g as nat % 16));
    assert(hex_byte(t[4], t[5]) == (c.b as nat / 16) * 16 + (c.b as nat % 16));
    assert(hex_byte(t[6], t[7]) == (c.a as nat / 16) * 16 + (c.a as nat % 16));
}

/// An encoded pixel command tokenizes back into exactly its four tokens.
proof fn lemma_tokens_encode_pixel(p: Pixel)
    ensures
        tokens(spec_encode_pixel(p)) == seq![
            px_tag(),
            dec_chars(p.x as nat),
            dec_chars(p.y as nat),
            color_hex8(p.color),
        ],
{
    let d1 = dec_chars(p.x as nat);
    let d2 = dec_chars(p.y as nat);
    let h8 = color_hex8(p.color);
    lemma_dec_chars_ok(p.x as nat);
    lemma_dec_chars_ok(p.y as nat);
    lemma_dec_chars_no_space(p.x as nat);
    lemma_dec_chars_no_space(p.y as nat);
    lemma_color_hex8(p.color);
    let rest3 = seq!['\n'];
    let rest2 = seq![' '] + h8 + rest3;
    let rest1 = seq![' '] + d2 + rest2;
    let rest0 = seq![' '] + d1 + rest1;
    let s = spec_encode_pixel(p);
    assert(s =~= px_tag() + rest0);
    lemma_split_prepend_run(px_tag(), rest0, false);
    lemma_split_skip_sep(rest0, false);
    assert(rest0.skip(1) =~= d1 + rest1);
    lemma_split_prepend_run(d1, rest1, false);
    lemma_split_skip_sep(rest1, false);
    assert(rest1.skip(1) =~= d2 + rest2);
    lemma_split_prepend_run(d2, rest2, false);
    lemma_split_skip_sep(rest2, false);
    assert(rest2.skip(1) =~= h8 + rest3);
    lemma_split_prepend_run(h8, rest3, false);
    lemma_split_skip_sep(rest3, false);
    assert(rest3.skip(1) =~= Seq::<char>::empty());
    assert(split_runs(Seq::<char>::empty(), false) =~= Seq::<Seq<char>>::empty());
    assert(tokens(s) =~= seq![px_tag(), d1, d2, h8]);
}

/// Round trip: every pixel's encoded draw command decodes back to that very
/// pixel, coordinates and all four channels intact.
pub proof fn lemma_pixel_round_trip(p: Pixel)
    ensures
        spec_decode_pixel(spec_encode_pixel(p)) == Some(p),
{
    lemma_tokens_encode_pixel(p);
    lemma_dec_chars_ok(p.x as nat);
    lemma_dec_chars_ok(p.y as nat);
    lemma_color_hex8(p.color);
    let ts = tokens(spec_encode_pixel(p));
    assert(ts.len() == 4);
    assert(ts[0] == px_tag() && ts[1] == dec_chars(p.x as nat) && ts[2] == dec_chars(p.y as nat)
        && ts[3] == color_hex8(p.color));
}

/// A pixel's encoded command without its terminating newline: the record
/// line that splitting the stored text on newlines gives back.
pub open spec fn pixel_line(p: Pixel) -> Seq<char> {
    px_tag() + seq![' '] + dec_chars(p.x as nat) + seq![' '] + dec_chars(p.y as nat) + seq![' ']
        + color_hex8(p.color)
}

/// No character of the sequence is a newline.
pub open spec fn no_newline(s: Seq<char>) -> bool {
    forall|i: int| 0 <= i < s.len() ==> (#[trigger] s[i]) != '\n'
}

proof fn lemma_no_newline_concat(a: Seq<char>, b: Seq<char>)
    requires
        no_newline(a),
        no_newline(b),
    ensures
        no_newline(a + b),
{
    assert forall|i: int| 0 <= i < (a + b).len() implies (#[trigger] (a + b)[i]) != '\n' by {
        if i < a.len() {
            assert((a + b)[i] == a[i]);
        } else {
            assert((a + b)[i] == b[i - a.len()]);
        }
    }
}

/// The record line of a pixel is newline-free, non-empty, ends the encoded
/// command, and decodes back to the pixel.
proof fn lemma_pixel_line(p: Pixel)
    ensures
        spec_encode_pixel(p) == pixel_line(p) + seq!['\n'],
        pixel_line(p).len() >= 1,
        no_newline(pixel_line(p)),
        spec_decode_pixel(pixel_line(p)) == Some(p),
{
    let d1 = dec_chars(p.x as nat);
    let d2 = dec_chars(p.y as nat);
    let h8 = color_hex8(p.color);
    lemma_dec_chars_ok(p.x as nat);
    lemma_dec_chars_ok(p.y as nat);
    lemma_dec_chars_no_space(p.x as nat);
    lemma_dec_chars_no_space(p.y as nat);
    lemma_color_hex8(p.color);
    assert(spec_encode_pixel(p) =~= pixel_line(p) + seq!['\n']);
    let sp = seq![' '];
    assert(no_newline(px_tag())) by {
        assert(px_tag()[0] == 'P' && px_tag()[1] == 'X');
    }
    assert(no_newline(sp)) by {
        assert(sp[0] == ' ');
    }
    lemma_no_newline_concat(px_tag(), sp);
    lemma_no_newline_concat(px_tag() + sp, d1);
    lemma_no_newline_concat(px_tag() + sp + d1, sp);
    lemma_no_newline_concat(px_tag() + sp + d1 + sp, d2);
    lemma_no_newline_concat(px_tag() + sp + d1 + sp + d2, sp);
    lemma_no_newline_concat(px_tag() + sp + d1 + sp + d2 + sp, h8);
    // The line tokenizes into the same four tokens as the full command.
    let rest2 = sp + h8;
    let rest1 = sp + d2 + rest2;
    let rest0 = sp + d1 + rest1;
    assert(pixel_line(p) =~= px_tag() + rest0);
    lemma_split_prepend_run(px_tag(), rest0, false);
    lemma_split_skip_sep(rest0, false);
    assert(rest0.skip(1) =~= d1 + rest1);
    lemma_split_prepend_run(d1, rest1, false);
    lemma_split_skip_sep(rest1, false);
    assert(rest1.skip(1) =~= d2 + rest2);
    lemma_split_prepend_run(d2, rest2, false);
    lemma_split_skip_sep(rest2, false);
    assert(rest2.skip(1) =~= h8 + Seq::<char>::empty());
    lemma_split_prepend_run(h8, Seq::<char>::empty(), false);
    assert(split_runs(Seq::<char>::empty(), false) =~= Seq::<Seq<char>>::empty());
    assert(tokens(pixel_line(p)) =~= seq![px_tag(), d1, d2, h8]);
    let ts = tokens(pixel_line(p));
    assert(ts.len() == 4);
    assert(ts[0] == px_tag() && ts[1] == d1 && ts[2] == d2 && ts[3] == h8);
}

/// A non-empty serialized frame ends with the final command's newline.
proof fn lemma_frame_chars_newline(ps: Seq<Pixel>)
    requires
        ps.len() >= 1,
    ensures
        frame_chars(ps).len() >= 1,
        frame_chars(ps).last() == '\n',
{
    lemma_pixel_line(ps.last());
    let x = frame_chars(ps.drop_last());
    let e = spec_encode_pixel(ps.last());
    assert(e.len() >= 2);
    assert(e.last() == '\n') by {
        assert(e == pixel_line(ps.last()) + seq!['\n']);
        assert(e[e.len() - 1] == seq!['\n'][0]);
    }
    assert(frame_chars(ps).last() == e.last()) by {
        assert((x + e)[x.len() + e.len() - 1] == e[e.len() - 1]);
    }
}

/// Round trip of a whole frame: serializing a frame and splitting the text
/// back into record lines yields one line per pixel, each decoding to that
/// very pixel — a stored capture replays identically.
pub proof fn lemma_frame_round_trip(ps: Seq<Pixel>)
    ensures
        record_lines(frame_chars(ps)).len() == ps.len(),
        forall|k: int|
            0 <= k < ps.len() ==> spec_decode_pixel(
                #[trigger] record_lines(frame_chars(ps))[k],
            ) == Some(ps[k]),
    decreases ps.len(),
{
    if ps.len() == 0 {
        assert(frame_chars(ps) =~= Seq::<char>::empty());
        assert(record_lines(Seq::<char>::empty()) =~= Seq::<Seq<char>>::empty());
    } else {
        let p = ps.last();
        let x = frame_chars(ps.drop_last());
        let e = spec_encode_pixel(p);
        lemma_pixel_line(p);
        lemma_frame_round_trip(ps.drop_last());
        if ps.drop_last().len() >= 1 {
            lemma_frame_chars_newline(ps.drop_last());
        } else {
            assert(x =~= Seq::<char>::empty());
        }
        lemma_split_concat(x, e, true);
        // The one command splits into its single record line.
        lemma_split_prepend_run(pixel_line(p), seq!['\n'], true);
        assert(e =~= pixel_line(p) + seq!['\n']);
        assert(split_runs(seq!['\n'], true) =~= Seq::<Seq<char>>::empty()) by {
            assert(seq!['\n'][0] == '\n');
            lemma_split_skip_sep(seq!['\n'], true);
            assert(seq!['\n'].skip(1) =~= Seq::<char>::empty());
            assert(split_runs(Seq::<char>::empty(), true) =~= Seq::<Seq<char>>::empty());
        }
        assert(record_lines(e) =~= seq![pixel_line(p)]);
        let rl = record_lines(frame_chars(ps));
        assert(frame_chars(ps) == x + e);
        assert(rl =~= record_lines(x) + seq![pixel_line(p)]);
        assert(rl.len() == ps.len());
        assert forall|k: int| 0 <= k < ps.len() implies spec_decode_pixel(#[trigger] rl[k])
            == Some(ps[k]) by {
            if k < ps.len() - 1 {
                assert(rl[k] == record_lines(x)[k]);
                assert(ps[k] == ps.drop_last()[k]);
            } else {
                assert(rl[k] == pixel_line(p));
            }
        }
    }
}

/// Reads the byte written at `i` as two hexadecimal digits.
fn hex_pair_at(s: &str, i: usize) -> (r: Option<u8>)
    requires
        i + 2 <= s@.len(),
        i + 2 <= usize::MAX,
    ensures
        r matches Some(v) ==> is_hex_digit(s@[i as int]) && is_hex_digit(s@[i + 1]) && v
            == hex_byte(s@[i as int], s@[i + 1]),
        r is None ==> !(is_hex_digit(s@[i as int]) && is_hex_digit(s@[i + 1])),
{
    match hex_digit_of(s.get_char(i)) {
        None => None,
        Some(h) => match hex_digit_of(s.get_char(i + 1)) {
            None => None,
            Some(l) => Some(((h as u16) * 16 + (l as u16)) as u8),
        },
    }
}

/// Parses the characters of `s` between `from` and `to` as a color payload,
/// exactly when that run is six or eight hexadecimal digits.
pub fn parse_color_at(s: &str, from: usize, to: usize) -> (r: Option<Color>)
    requires
        from <= to <= s@.len(),
    ensures
        r == (if is_color_hex(s@.subrange(from as int, to as int)) {
            Some(color_of_hex(s@.subrange(from as int, to as int)))
        } else {
            None::<Color>
        }),
{
    let ghost sub = s@.subrange(from as int, to as int);
    proof {
        assert forall|k: int| 0 <= k < sub.len() implies sub[k] == s@[from + k] by {}
    }
    let n: usize = to - from;
    if n != 6 && n != 8 {
        return None;
    }
    let cr = match hex_pair_at(s, from) {
        Some(v) => v,
        None => {
            return None;
        },
    };
    let cg = match hex_pair_at(s, from + 2) {
        Some(v) => v,
        None => {
            return None;
        },
    };
    let cb = match hex_pair_at(s, from + 4) {
        Some(v) => v,
        None => {
            return None;
        },
    };
    let ca = if n == 8 {
        match hex_pair_at(s, from + 6) {
            Some(v) => v,
            None => {
                return None;
            },
        }
    } else {
        255
    };
    proof {
        assert forall|i: int| 0 <= i < sub.len() implies is_hex_digit(#[trigger] sub[i]) by {
            assert(sub[i] == s@[from + i]);
        }
        assert(is_color_hex(sub));
    }
    Some(Color { r: cr, g: cg, b: cb, a: ca })
}

/// Decodes a pixel record line `PX <x> <y> <RRGGBB[AA]>`, six-digit colors
/// implying a fully opaque alpha; any other token shape, out-of-range
/// coordinate or bad payload is a malformed record.
pub fn decode_pixel(s: &str) -> (r: Result<Pixel, PxError>)
    ensures
        spec_decode_pixel(s@) matches Some(p) ==> r == Ok::<Pixel, PxError>(p),
        spec_decode_pixel(s@) is None ==> r == Err::<Pixel, PxError>(PxError::MalformedPixelRecord),
{
    let spans = split_spans(s, false);
    let ghost ts = tokens(s@);
    proof {
        assert(ts.len() == spans@.len());
        assert forall|k: int| 0 <= k < spans@.len() implies ts[k] == s@.subrange(
            (#[trigger] spans@[k]).0 as int,
            spans@[k].1 as int,
        ) by {
            assert(span_runs(s@, spans@)[k] == s@.subrange(spans@[k].0 as int, spans@[k].1 as int));
        }
    }
    if spans.len() != 4 {
        return Err(PxError::MalformedPixelRecord);
    }
    let (a0, b0) = (spans[0].0, spans[0].1);
    if !(b0 - a0 == 2 && s.get_char(a0) == 'P' && s.get_char(a0 + 1) == 'X') {
        proof {
            assert(ts[0] == s@.subrange(a0 as int, b0 as int));
            assert(ts[0].len() == b0 - a0);
            if ts[0].len() == 2 {
                assert(ts[0][0] == s@[a0 as int]);
                assert(ts[0][1] == s@[a0 + 1]);
            }
            assert(ts[0] != px_tag());
        }
        return Err(PxError::MalformedPixelRecord);
    }
    proof {
        assert(ts[0] =~= px_tag()) by {
            assert(ts[0] == s@.subrange(a0 as int, b0 as int));
        }
    }
    let x = match parse_u16_at(s, spans[1].0, spans[1].1) {
        Some(v) => v,
        None => {
            return Err(PxError::MalformedPixelRecord);
        },
    };
    let y = match parse_u16_at(s, spans[2].0, spans[2].1) {
        Some(v) => v,
        None => {
            return Err(PxError::MalformedPixelRecord);
        },
    };
    let color = match parse_color_at(s, spans[3].0, spans[3].1) {
        Some(c) => c,
        None => {
            return Err(PxError::MalformedPixelRecord);
        },
    };
    Ok(Pixel { x, y, color })
}

/// Decodes a size response line `SIZE <width> <height>`; a missing token,
/// a non-numeric token or an out-of-range dimension is a malformed response.
pub fn decode_size_response(s: &str) -> (r: Result<(u16, u16), PxError>)
    ensures
        spec_decode_size(s@) matches Some(wh) ==> r == Ok::<(u16, u16), PxError>(wh),
        spec_decode_size(s@) is None ==> r == Err::<(u16, u16), PxError>(
            PxError::MalformedSizeResponse,
        ),
{
    let spans = split_spans(s, false);
    let ghost ts = tokens(s@);
    proof {
        assert(ts.len() == spans@.len());
        assert forall|k: int| 0 <= k < spans@.len() implies ts[k] == s@.subrange(
            (#[trigger] spans@[k]).0 as int,
            spans@[k].1 as int,
        ) by {
            assert(span_runs(s@, spans@)[k] == s@.subrange(spans@[k].0 as int, spans@[k].1 as int));
        }
    }
    if spans.len() != 3 {
        return Err(PxError::MalformedSizeResponse);
    }
    let (a0, b0) = (spans[0].0, spans[0].1);
    if !(b0 - a0 == 4 && s.get_char(a0) == 'S' && s.get_char(a0 + 1) == 'I' && s.get_char(a0 + 2)
        == 'Z' && s.get_char(a0 + 3) == 'E') {
        proof {
            assert(ts[0] == s@.subrange(a0 as int, b0 as int));
            assert(ts[0].len() == b0 - a0);
            if ts[0].len() == 4 {
                assert(ts[0][0] == s@[a0 as int]);
                assert(ts[0][1] == s@[a0 + 1]);
                assert(ts[0][2] == s@[a0 + 2]);
                assert(ts[0][3] == s@[a0 + 3]);
            }
            assert(ts[0] != size_tag());
        }
        return Err(PxError::MalformedSizeResponse);
    }
    proof {
        assert(ts[0] =~= size_tag()) by {
            assert(ts[0] == s@.subrange(a0 as int, b0 as int));
        }
    }
    let w = match parse_u16_at(s, spans[1].0, spans[1].1) {
        Some(v) => v,
        None => {
            return Err(PxError::MalformedSizeResponse);
        },
    };
    let h = match parse_u16_at(s, spans[2].0, spans[2].1) {
        Some(v) => v,
        None => {
            return Err(PxError::MalformedSizeResponse);
        },
    };
    Ok((w, h))
}

/// Encodes a pixel as the draw command `PX <x> <y> <RRGGBBAA>\n`.
pub fn encode_pixel(p: Pixel) -> (r: String)
    ensures
        r@ == spec_encode_pixel(p),
{
    let mut out = String::from_str("PX ");
    append_dec_u16(&mut out, p.x);
    out.append(" ");
    append_dec_u16(&mut out, p.y);
    out.append(" ");
    append_hex_byte(&mut out, p.color.r);
    append_hex_byte(&mut out, p.color.g);
    append_hex_byte(&mut out, p.color.b);
    append_hex_byte(&mut out, p.color.a);
    out.append("\n");
    proof {
        reveal_strlit("PX ");
        reveal_strlit(" ");
        reveal_strlit("\n");
        assert(out@ =~= spec_encode_pixel(p));
    }
    out
}

/// Encodes the size query: exactly the bytes `SIZE\n`.
pub fn encode_size_query() -> (r: String)
    ensures
        r@ == spec_size_query(),
{
    let out = String::from_str("SIZE\n");
    proof {
        reveal_strlit("SIZE\n");
        assert(out@ =~= spec_size_query());
    }
    out
}

/// Encodes the color-less query `PX <x> <y>\n` that asks the server for the
/// color at a coordinate.
pub fn encode_pixel_query(x: u16, y: u16) -> (r: String)
    ensures
        r@ == spec_pixel_query(x, y),
{
    let mut out = String::from_str("PX ");
    append_dec_u16(&mut out, x);
    out.append(" ");
    append_dec_u16(&mut out, y);
    out.append("\n");
    proof {
        reveal_strlit("PX ");
        reveal_strlit(" ");
        reveal_strlit("\n");
        assert(out@ =~= spec_pixel_query(x, y));
    }
    out
}

/// Serializes a whole frame: the concatenation of every pixel's draw
/// command, in frame order, ready to be written to the transport in one
/// batch.
pub fn serialize_frame(frame: &Vec<Pixel>) -> (r: String)
    ensures
        r@ == frame_chars(frame@),
{
    let mut out = String::new();
    let mut k: usize = 0;
    proof {
        assert(frame@.take(0) =~= Seq::<Pixel>::empty());
    }
    while k < frame.len()
        invariant
            k <= frame@.len(),
            out@ == frame_chars(frame@.take(k as int)),
        decreases frame@.len() - k,
    {
        let line = encode_pixel(frame[k]);
        out.append(line.as_str());
        proof {
            assert(frame@.take(k + 1).drop_last() =~= frame@.take(k as int));
            assert(frame@.take(k + 1).last() == frame@[k as int]);
        }
        k = k + 1;
    }
    proof {
        assert(frame@.take(frame@.len() as int) =~= frame@);
    }
    out
}

/// Decodes a stored pixel text: one record per line, blank lines ignored;
/// the first bad record makes the whole text malformed.
pub fn decode_pixel_lines(s: &str) -> (r: Result<Vec<Pixel>, PxError>)
    ensures
        r matches Ok(ps) ==> ps@.len() == record_lines(s@).len() && (forall|k: int|
            0 <= k < ps@.len() ==> spec_decode_pixel(#[trigger] record_lines(s@)[k]) == Some(
                ps@[k],
            )),
        r matches Err(e) ==> e == PxError::MalformedPixelRecord && (exists|k: int|
            0 <= k < record_lines(s@).len() && spec_decode_pixel(
                #[trigger] record_lines(s@)[k],
            ) is None),
{
    let spans = split_spans(s, true);
    let ghost ls = record_lines(s@);
    proof {
        assert(ls.len() == spans@.len());
        assert forall|k: int| 0 <= k < spans@.len() implies ls[k] == s@.subrange(
            (#[trigger] spans@[k]).0 as int,
            spans@[k].1 as int,
        ) by {
            assert(span_runs(s@, spans@)[k] == s@.subrange(spans@[k].0 as int, spans@[k].1 as int));
        }
    }
    let mut out: Vec<Pixel> = Vec::new();
    let mut k: usize = 0;
    while k < spans.len()
        invariant
            k <= spans@.len(),
            out@.len() == k,
            ls == record_lines(s@),
            ls.len() == spans@.len(),
            forall|j: int| 0 <= j < spans@.len() ==> ls[j] == s@.subrange(
                (#[trigger] spans@[j]).0 as int,
                spans@[j].1 as int,
            ),
            forall|j: int| 0 <= j < spans@.len() ==> (#[trigger] spans@[j]).0 < spans@[j].1
                <= s@.len(),
            forall|j: int| 0 <= j < k ==> spec_decode_pixel(#[trigger] ls[j]) == Some(out@[j]),
        decreases spans@.len() - k,
    {
        let (a, b) = (spans[k].0, spans[k].1);
        let line = s.substring_char(a, b);
        match decode_pixel(line) {
            Ok(p) => {
                out.push(p);
            },
            Err(_) => {
                proof {
                    assert(spec_decode_pixel(ls[k as int]) is None);
                }
                return Err(PxError::MalformedPixelRecord);
            },
        }
        k = k + 1;
    }
    Ok(out)
}

impl Color {
    /// Parses a bare color payload of six or eight hexadecimal digits.
    pub fn from_str(s: &str) -> (r: Option<Color>)
        ensures
            r == (if is_color_hex(s@) {
                Some(color_of_hex(s@))
            } else {
                None::<Color>
            }),
    {
        let n = s.unicode_len();
        proof {
            assert(s@.subrange(0, s@.len() as int) =~= s@);
        }
        parse_color_at(s, 0, n)
    }

    /// The eight-digit uppercase hexadecimal form of this color.
    pub fn to_str(&self) -> (r: String)
        ensures
            r@ == color_hex8(*self),
    {
        let mut out = String::new();
        append_hex_byte(&mut out, self.r);
        append_hex_byte(&mut out, self.g);
        append_hex_byte(&mut out, self.b);
        append_hex_byte(&mut out, self.a);
        proof {
            assert(out@ =~= color_hex8(*self));
        }
        out
    }
}

impl Pixel {
    /// The draw command for this pixel; see `encode_pixel`.
    pub fn to_string(&self) -> (r: String)
        ensures
            r@ == spec_encode_pixel(*self),
    {
        encode_pixel(*self)
    }

    /// Parses a pixel record line; see `decode_pixel`.
    pub fn from_str(s: &str) -> (r: Result<Pixel, PxError>)
        ensures
            spec_decode_pixel(s@) matches Some(p) ==> r == Ok::<Pixel, PxError>(p),
            spec_decode_pixel(s@) is None ==> r == Err::<Pixel, PxError>(
                PxError::MalformedPixelRecord,
            ),
    {
        decode_pixel(s)
    }
}

} // verus!
