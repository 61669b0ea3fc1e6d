//! Character classes, decimal and hexadecimal numerals, and whitespace
//! tokenization over sequences of characters. This is the ground the wire
//! codec is built on: every decode contract is stated over `tokens`, and
//! every encode contract over `dec_chars` and `hex2`.

use vstd::prelude::*;

verus! {

/// The whitespace characters the protocol tolerates between and after tokens.
pub open spec fn is_space(c: char) -> bool {
    c == ' ' || c == '\t' || c == '\r' || c == '\n'
}

pub open spec fn is_digit(c: char) -> bool {
    '0' as int <= c as int && c as int <= '9' as int
}

/// Value of a decimal digit; 0 for any character outside the class.
pub open spec fn digit_val(c: char) -> nat {
    if is_digit(c) {
        (c as int - '0' as int) as nat
    } else {
        0
    }
}

pub open spec fn is_hex_digit(c: char) -> bool {
    is_digit(c) || ('a' as int <= c as int && c as int <= 'f' as int) || ('A' as int <= c as int
        && c as int <= 'F' as int)
}

/// Value of a hexadecimal digit; 0 for any character outside the class.
pub open spec fn hex_val(c: char) -> nat {
    if is_digit(c) {
        (c as int - '0' as int) as nat
    } else if 'a' as int <= c as int && c as int <= 'f' as int {
        (c as int - 'a' as int + 10) as nat
    } else if 'A' as int <= c as int && c as int <= 'F' as int {
        (c as int - 'A' as int + 10) as nat
    } else {
        0
    }
}

/// The uppercase hexadecimal digit for a value below 16 (the first ten are
/// also the decimal digits).
pub open spec fn hex_char(d: nat) -> char {
    if d == 0 {
        '0'
    } else if d == 1 {
        '1'
    } else if d == 2 {
        '2'
    } else if d == 3 {
        '3'
    } else if d == 4 {
        '4'
    } else if d == 5 {
        '5'
    } else if d == 6 {
        '6'
    } else if d == 7 {
        '7'
    } else if d == 8 {
        '8'
    } else if d == 9 {
        '9'
    } else if d == 10 {
        'A'
    } else if d == 11 {
        'B'
    } else if d == 12 {
        'C'
    } else if d == 13 {
        'D'
    } else if d == 14 {
        'E'
    } else {
        'F'
    }
}

pub proof fn lemma_hex_char_val(d: nat)
    requires
        d < 16,
    ensures
        is_hex_digit(hex_char(d)),
        hex_val(hex_char(d)) == d,
        !is_space(hex_char(d)),
        hex_char(d) != '\n',
        d < 10 ==> is_digit(hex_char(d)) && digit_val(hex_char(d)) == d,
{
}

/// The value of a decimal numeral (most significant digit first); characters
/// outside the digit class contribute 0 and are ruled out by `all_digits`.
pub open spec fn dec_val(s: Seq<char>) -> nat
    decreases s.len(),
{
    if s.len() == 0 {
        0
    } else {
        dec_val(s.drop_last()) * 10 + digit_val(s.last())
    }
}

pub open spec fn all_digits(s: Seq<char>) -> bool {
    forall|i: int| 0 <= i < s.len() ==> is_digit(#[trigger] s[i])
}

/// A token that parses as a coordinate or dimension: a non-empty run of
/// decimal digits whose value fits in sixteen bits.
pub open spec fn is_dec_u16(s: Seq<char>) -> bool {
    s.len() >= 1 && all_digits(s) && dec_val(s) <= 0xFFFF
}

/// A prefix of a numeral never has a larger value than the whole.
pub proof fn lemma_dec_val_prefix_le(s: Seq<char>, k: int)
    requires
        0 <= k <= s.len(),
    ensures
        dec_val(s.take(k)) <= dec_val(s),
    decreases s.len() - k,
{
    if k == s.len() {
        assert(s.take(k) =~= s);
    } else {
        assert(s.take(k + 1).drop_last() =~= s.take(k));
        assert(s.take(k + 1).last() == s[k]);
        assert(dec_val(s.take(k + 1)) == dec_val(s.take(k)) * 10 + digit_val(s[k]));
        lemma_dec_val_prefix_le(s, k + 1);
    }
}

/// The canonical decimal numeral of a number: no leading zeroes except for
/// the single digit `0` itself.
pub open spec fn dec_chars(n: nat) -> Seq<char>
    decreases n,
{
    if n < 10 {
        seq![hex_char(n)]
    } else {
        dec_chars(n / 10).push(hex_char(n % 10))
    }
}

pub proof fn lemma_dec_chars_ok(n: nat)
    ensures
        dec_chars(n).len() >= 1,
        all_digits(dec_chars(n)),
        dec_val(dec_chars(n)) == n,
    decreases n,
{
    if n < 10 {
        lemma_hex_char_val(n);
        let t = seq![hex_char(n)];
        assert(dec_chars(n) =~= t);
        assert(t.drop_last() =~= Seq::<char>::empty());
        assert(t.last() == hex_char(n));
        assert(dec_val(t) == dec_val(t.drop_last()) * 10 + digit_val(t.last()));
    } else {
        lemma_dec_chars_ok(n / 10);
        lemma_hex_char_val(n % 10);
        let t = dec_chars(n / 10).push(hex_char(n % 10));
        assert(t.drop_last() =~= dec_chars(n / 10));
        assert(t.last() == hex_char(n % 10));
        assert(dec_val(t) == (n / 10) * 10 + (n % 10));
        assert forall|i: int| 0 <= i < t.len() implies is_digit(#[trigger] t[i]) by {
            if i < t.len() - 1 {
                assert(t[i] == dec_chars(n / 10)[i]);
            } else {
                assert(t[i] == hex_char(n % 10));
            }
        }
    }
}

/// Every character of a canonical numeral is a digit, hence no whitespace.
pub proof fn lemma_dec_chars_no_space(n: nat)
    ensures
        forall|i: int|
            0 <= i < dec_chars(n).len() ==> !is_space(#[trigger] dec_chars(n)[i]) && dec_chars(
                n,
            )[i] != '\n',
{
    lemma_dec_chars_ok(n);
    assert forall|i: int| 0 <= i < dec_chars(n).len() implies !is_space(
        #[trigger] dec_chars(n)[i],
    ) && dec_chars(n)[i] != '\n' by {
        assert(is_digit(dec_chars(n)[i]));
    }
}

/// Length of the run of non-separator characters at the head of `s`.
/// `nl_only` selects the separator class: newline alone (splitting a text
/// into record lines) or all protocol whitespace (splitting a line into
/// tokens).
pub open spec fn sep(c: char, nl_only: bool) -> bool {
    if nl_only {
        c == '\n'
    } else {
        is_space(c)
    }
}

pub open spec fn run_len(s: Seq<char>, nl_only: bool) -> nat
    decreases s.len(),
{
    if s.len() == 0 || sep(s[0], nl_only) {
        0
    } else {
        1 + run_len(s.skip(1), nl_only)
    }
}

pub proof fn lemma_run_len_le(s: Seq<char>, nl_only: bool)
    ensures
        run_len(s, nl_only) <= s.len(),
    decreases s.len(),
{
    if s.len() != 0 && !sep(s[0], nl_only) {
        lemma_run_len_le(s.skip(1), nl_only);
    }
}

/// The maximal non-separator runs of `s`, in order: what remains of a line
/// once the separators are stripped. Empty segments never appear.
pub open spec fn split_runs(s: Seq<char>, nl_only: bool) -> Seq<Seq<char>>
    decreases s.len(),
    via split_runs_decreases
{
    if s.len() == 0 {
        Seq::empty()
    } else if sep(s[0], nl_only) {
        split_runs(s.skip(1), nl_only)
    } else {
        seq![s.take(run_len(s, nl_only) as int)] + split_runs(
            s.skip(run_len(s, nl_only) as int),
            nl_only,
        )
    }
}

#[via_fn]
proof fn split_runs_decreases(s: Seq<char>, nl_only: bool) {
    lemma_run_len_le(s, nl_only);
}

/// The tokens of a command line: split on any protocol whitespace.
pub open spec fn tokens(s: Seq<char>) -> Seq<Seq<char>> {
    split_runs(s, false)
}

/// The record lines of a stored pixel text: split on newlines, blank lines
/// dropped.
pub open spec fn record_lines(s: Seq<char>) -> Seq<Seq<char>> {
    split_runs(s, true)
}

/// Characterization of `run_len`: a run of `j` non-separator characters
/// followed by a separator (or the end) is the head run.
pub proof fn lemma_run_len_exact(s: Seq<char>, nl_only: bool, j: int)
    requires
        0 <= j <= s.len(),
        forall|i: int| 0 <= i < j ==> !sep(#[trigger] s[i], nl_only),
        j == s.len() || sep(s[j], nl_only),
    ensures
        run_len(s, nl_only) == j,
    decreases j,
{
    if j == 0 {
    } else {
        assert(!sep(s[0], nl_only));
        let t = s.skip(1);
        assert forall|i: int| 0 <= i < j - 1 implies !sep(#[trigger] t[i], nl_only) by {
            assert(t[i] == s[i + 1]);
        }
        if j - 1 < t.len() {
            assert(t[j - 1] == s[j]);
        }
        lemma_run_len_exact(t, nl_only, j - 1);
    }
}

/// Splitting off the head run: under the same premises as
/// `lemma_run_len_exact` with a non-empty run, the split is the run followed
/// by the split of the rest.
pub proof fn lemma_split_head_run(s: Seq<char>, nl_only: bool, j: int)
    requires
        1 <= j <= s.len(),
        forall|i: int| 0 <= i < j ==> !sep(#[trigger] s[i], nl_only),
        j == s.len() || sep(s[j], nl_only),
    ensures
        split_runs(s, nl_only) == seq![s.take(j)] + split_runs(s.skip(j), nl_only),
{
    lemma_run_len_exact(s, nl_only, j);
    assert(!sep(s[0], nl_only));
}

/// Dropping one leading separator does not change the split.
pub proof fn lemma_split_skip_sep(s: Seq<char>, nl_only: bool)
    requires
        s.len() >= 1,
        sep(s[0], nl_only),
    ensures
        split_runs(s, nl_only) == split_runs(s.skip(1), nl_only),
{
}

/// The head run really is a run: its characters are non-separators, and the
/// character after it (if any) is a separator.
pub proof fn lemma_run_len_chars(s: Seq<char>, nl_only: bool)
    ensures
        forall|i: int| 0 <= i < run_len(s, nl_only) ==> !sep(#[trigger] s[i], nl_only),
        run_len(s, nl_only) < s.len() ==> sep(s[run_len(s, nl_only) as int], nl_only),
    decreases s.len(),
{
    lemma_run_len_le(s, nl_only);
    if s.len() != 0 && !sep(s[0], nl_only) {
        let t = s.skip(1);
        lemma_run_len_chars(t, nl_only);
        lemma_run_len_le(t, nl_only);
        assert forall|i: int| 0 <= i < run_len(s, nl_only) implies !sep(
            #[trigger] s[i],
            nl_only,
        ) by {
            if i > 0 {
                assert(s[i] == t[i - 1]);
            }
        }
        if run_len(s, nl_only) < s.len() {
            assert(s[run_len(s, nl_only) as int] == t[run_len(t, nl_only) as int]);
        }
    }
}

/// Splitting distributes over a concatenation whose left part is empty or
/// ends in a separator: no run can straddle the seam.
pub proof fn lemma_split_concat(x: Seq<char>, y: Seq<char>, nl_only: bool)
    requires
        x.len() == 0 || sep(x.last(), nl_only),
    ensures
        split_runs(x + y, nl_only) == split_runs(x, nl_only) + split_runs(y, nl_only),
    decreases x.len(),
{
    if x.len() == 0 {
        assert(x + y =~= y);
        assert(split_runs(x, nl_only) + split_runs(y, nl_only) =~= split_runs(y, nl_only));
    } else if sep(x[0], nl_only) {
        let s = x + y;
        assert(s[0] == x[0]);
        lemma_split_skip_sep(s, nl_only);
        assert(s.skip(1) =~= x.skip(1) + y);
        if x.len() == 1 {
            assert(x.skip(1) =~= Seq::<char>::empty());
        } else {
            assert(x.skip(1).last() == x.last());
        }
        lemma_split_concat(x.skip(1), y, nl_only);
        lemma_split_skip_sep(x, nl_only);
        assert(split_runs(x + y, nl_only) =~= split_runs(x, nl_only) + split_runs(y, nl_only));
    } else {
        let j = run_len(x, nl_only) as int;
        lemma_run_len_chars(x, nl_only);
        lemma_run_len_le(x, nl_only);
        assert(j < x.len()) by {
            if j == x.len() {
                assert(!sep(x[x.len() - 1], nl_only));
            }
        }
        assert(j >= 1);
        let s = x + y;
        assert forall|i: int| 0 <= i < j implies !sep(#[trigger] s[i], nl_only) by {
            assert(s[i] == x[i]);
        }
        assert(s[j] == x[j]);
        lemma_split_head_run(s, nl_only, j);
        lemma_split_head_run(x, nl_only, j);
        assert(s.take(j) =~= x.take(j));
        assert(s.skip(j) =~= x.skip(j) + y);
        assert(x.skip(j).last() == x.last());
        lemma_split_concat(x.skip(j), y, nl_only);
        assert(split_runs(x + y, nl_only) =~= split_runs(x, nl_only) + split_runs(y, nl_only));
    }
}

/// Splitting a token glued in front of a separator-led (or empty) remainder.
pub proof fn lemma_split_prepend_run(t: Seq<char>, rest: Seq<char>, nl_only: bool)
    requires
        t.len() >= 1,
        forall|i: int| 0 <= i < t.len() ==> !sep(#[trigger] t[i], nl_only),
        rest.len() == 0 || sep(rest[0], nl_only),
    ensures
        split_runs(t + rest, nl_only) == seq![t] + split_runs(rest, nl_only),
{
    let s = t + rest;
    let j = t.len() as int;
    assert forall|i: int| 0 <= i < j implies !sep(#[trigger] s[i], nl_only) by {
        assert(s[i] == t[i]);
    }
    if j < s.len() {
        assert(s[j] == rest[0]);
    }
    lemma_split_head_run(s, nl_only, j);
    assert(s.take(j) =~= t);
    assert(s.skip(j) =~= rest);
}

/// Exec mirror of `is_space`.
pub fn is_space_x(c: char) -> (b: bool)
    ensures
        b == is_space(c),
{
    c == ' ' || c == '\t' || c == '\r' || c == '\n'
}

/// Exec decimal-digit classifier and value.
pub fn digit_of(c: char) -> (r: Option<u8>)
    ensures
        r matches Some(d) ==> is_digit(c) && d == digit_val(c),
        r is None ==> !is_digit(c),
{
    let v: u32 = c as u32;
    if 48 <= v && v <= 57 {
        Some((v - 48) as u8)
    } else {
        None
    }
}

/// Exec hexadecimal-digit classifier and value.
pub fn hex_digit_of(c: char) -> (r: Option<u8>)
    ensures
        r matches Some(d) ==> is_hex_digit(c) && d == hex_val(c),
        r is None ==> !is_hex_digit(c),
{
    let v: u32 = c as u32;
    if 48 <= v && v <= 57 {
        Some((v - 48) as u8)
    } else if 97 <= v && v <= 102 {
        Some((v - 97 + 10) as u8)
    } else if 65 <= v && v <= 70 {
        Some((v - 65 + 10) as u8)
    } else {
        None
    }
}

/// The one-character string of the uppercase hexadecimal digit `d`.
pub fn hex_digit_str(d: u8) -> (r: &'static str)
    requires
        d < 16,
    ensures
        r@ == seq![hex_char(d as nat)],
{
    let s: &'static str = match d {
        0 => "0",
        1 => "1",
        2 => "2",
        3 => "3",
        4 => "4",
        5 => "5",
        6 => "6",
        7 => "7",
        8 => "8",
        9 => "9",
        10 => "A",
        11 => "B",
        12 => "C",
        13 => "D",
        14 => "E",
        _ => "F",
    };
    proof {
        reveal_strlit("0");
        reveal_strlit("1");
        reveal_strlit("2");
        reveal_strlit("3");
        reveal_strlit("4");
        reveal_strlit("5");
        reveal_strlit("6");
        reveal_strlit("7");
        reveal_strlit("8");
        reveal_strlit("9");
        reveal_strlit("A");
        reveal_strlit("B");
        reveal_strlit("C");
        reveal_strlit("D");
        reveal_strlit("E");
        reveal_strlit("F");
        assert(s@ =~= seq![hex_char(d as nat)]);
    }
    s
}

/// Appends the canonical decimal numeral of `n`.
pub fn append_dec_u16(out: &mut String, n: u16)
    ensures
        final(out)@ == old(out)@ + dec_chars(n as nat),
    decreases n,
{
    if n < 10 {
        out.append(hex_digit_str(n as u8));
        proof {
            assert(final(out)@ =~= old(out)@ + dec_chars(n as nat));
        }
    } else {
        append_dec_u16(out, n / 10);
        out.append(hex_digit_str((n % 10) as u8));
        proof {
            assert(dec_chars(n as nat) == dec_chars(n as nat / 10).push(hex_char(n as nat % 10)));
            assert(final(out)@ =~= old(out)@ + dec_chars(n as nat));
        }
    }
}

/// The two uppercase hexadecimal digits of a byte, high digit first.
pub open spec fn hex2(v: nat) -> Seq<char> {
    seq![hex_char(v / 16), hex_char(v % 16)]
}

/// Appends the two-digit uppercase hexadecimal form of `v`.
pub fn append_hex_byte(out: &mut String, v: u8)
    ensures
        final(out)@ == old(out)@ + hex2(v as nat),
{
    out.append(hex_digit_str(v / 16));
    out.append(hex_digit_str(v % 16));
    proof {
        assert(final(out)@ =~= old(out)@ + hex2(v as nat));
    }
}

/// Exec mirror of `sep`.
pub fn is_sep_x(c: char, nl_only: bool) -> (b: bool)
    ensures
        b == sep(c, nl_only),
{
    if nl_only {
        c == '\n'
    } else {
        is_space_x(c)
    }
}

/// The spans `(start, end)` of the non-separator runs of `s`, mapped back to
/// the runs themselves.
pub open spec fn span_runs(s: Seq<char>, spans: Seq<(usize, usize)>) -> Seq<Seq<char>> {
    spans.map_values(|p: (usize, usize)| s.subrange(p.0 as int, p.1 as int))
}

/// Splits `s` into the spans of its maximal non-separator runs, so that the
/// runs can be examined in place.
pub fn split_spans(s: &str, nl_only: bool) -> (r: Vec<(usize, usize)>)
    ensures
        span_runs(s@, r@) == split_runs(s@, nl_only),
        forall|k: int| 0 <= k < r@.len() ==> (#[trigger] r@[k]).0 < r@[k].1 <= s@.len(),
{
    let n: usize = s.unicode_len();
    let mut i: usize = 0;
    let mut r: Vec<(usize, usize)> = Vec::new();
    proof {
        assert(s@.skip(0) =~= s@);
        assert(span_runs(s@, r@) + split_runs(s@, nl_only) =~= split_runs(s@, nl_only));
    }
    while i < n
        invariant
            i <= n,
            n == s@.len(),
            split_runs(s@, nl_only) == span_runs(s@, r@) + split_runs(s@.skip(i as int), nl_only),
            forall|k: int| 0 <= k < r@.len() ==> (#[trigger] r@[k]).0 < r@[k].1 <= s@.len(),
        decreases n - i,
    {
        let c = s.get_char(i);
        if is_sep_x(c, nl_only) {
            proof {
                let t = s@.skip(i as int);
                assert(t[0] == s@[i as int]);
                lemma_split_skip_sep(t, nl_only);
                assert(t.skip(1) =~= s@.skip(i as int + 1));
            }
            i = i + 1;
        } else {
            let mut j: usize = i + 1;
            while j < n && !is_sep_x(s.get_char(j), nl_only)
                invariant
                    i < j <= n,
                    n == s@.len(),
                    forall|k: int| i <= k < j ==> !sep(#[trigger] s@[k], nl_only),
                decreases n - j,
            {
                j = j + 1;
            }
            proof {
                let t = s@.skip(i as int);
                let jj = (j - i) as int;
                assert forall|k: int| 0 <= k < jj implies !sep(#[trigger] t[k], nl_only) by {
                    assert(t[k] == s@[i + k]);
                }
                if jj < t.len() {
                    assert(t[jj] == s@[j as int]);
                }
                lemma_split_head_run(t, nl_only, jj);
                assert(t.take(jj) =~= s@.subrange(i as int, j as int));
                assert(t.skip(jj) =~= s@.skip(j as int));
            }
            let ghost old_r = r@;
            r.push((i, j));
            proof {
                assert(span_runs(s@, r@) =~= span_runs(s@, old_r) + seq![
                    s@.subrange(i as int, j as int),
                ]);
                assert(split_runs(s@, nl_only) == span_runs(s@, r@) + split_runs(
                    s@.skip(j as int),
                    nl_only,
                ));
            }
            i = j;
        }
    }
    proof {
        assert(s@.skip(n as int) =~= Seq::<char>::empty());
        assert(span_runs(s@, r@) + split_runs(s@.skip(n as int), nl_only) =~= span_runs(s@, r@));
    }
    r
}

/// Parses the characters of `s` between `from` and `to` as a decimal `u16`,
/// exactly when that run is a valid numeral whose value fits.
pub fn parse_u16_at(s: &str, from: usize, to: usize) -> (r: Option<u16>)
    requires
        from < to <= s@.len(),
    ensures
        r == (if is_dec_u16(s@.subrange(from as int, to as int)) {
            Some(dec_val(s@.subrange(from as int, to as int)) as u16)
        } else {
            None::<u16>
        }),
{
    let ghost sub = s@.subrange(from as int, to as int);
    let mut i: usize = from;
    let mut acc: u32 = 0;
    while i < to
        invariant
            from <= i <= to <= s@.len(),
            sub == s@.subrange(from as int, to as int),
            forall|k: int| 0 <= k < i - from ==> is_digit(#[trigger] sub[k]),
            acc == dec_val(sub.take(i - from)),
            acc <= 0xFFFF,
        decreases to - i,
    {
        let c = s.get_char(i);
        proof {
            assert(sub[i - from] == s@[i as int]);
        }
        match digit_of(c) {
            None => {
                proof {
                    assert(!is_digit(sub[i - from]));
                }
                return None;
            },
            Some(d) => {
                proof {
                    let k = (i - from) as int;
                    assert(sub.take(k + 1).drop_last() =~= sub.take(k));
                    assert(sub.take(k + 1).last() == sub[k]);
                    assert(dec_val(sub.take(k + 1)) == dec_val(sub.take(k)) * 10 + digit_val(
                        sub[k],
                    ));
                }
                let next: u32 = acc * 10 + (d as u32);
                if next > 0xFFFF {
                    proof {
                        lemma_dec_val_prefix_le(sub, i - from + 1);
                        assert(dec_val(sub) > 0xFFFF);
                    }
                    return None;
                }
                acc = next;
                i = i + 1;
            },
        }
    }
    proof {
        assert(sub.take(to - from) =~= sub);
        assert(is_dec_u16(sub));
    }
    Some(acc as u16)
}

} // verus!
