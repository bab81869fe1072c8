//! The diagnostic parser: turns the compiler's line-oriented report into
//! structured records.
//!
//! Each report line is expected to follow the informal grammar
//! `<file>:<line>:<col>[-<col>]: error: <message>.`; lines that do not are
//! skipped, so parsing a whole report never fails. Reported lines and
//! columns are 1-indexed and are converted to the 0-indexed convention of
//! the output records by a decrement that saturates at zero.

use vstd::prelude::*;

use crate::diagnostics::{Diagnostic, DiagnosticView, Position, Severity, Span};

verus! {

/// Index of the first occurrence of `c` in `s` at or after position `i`,
/// or `None` if there is none.
pub open spec fn find_from(s: Seq<char>, c: char, i: int) -> Option<int>
    decreases s.len() - i,
{
    if i < 0 || i >= s.len() {
        None
    } else if s[i] == c {
        Some(i)
    } else {
        find_from(s, c, i + 1)
    }
}

/// What `find_from` returns: the first occurrence at or after `from`,
/// or `None` exactly when there is no occurrence at or after `from`.
pub proof fn lemma_find_from_props(s: Seq<char>, c: char, from: int)
    requires
        0 <= from,
    ensures
        match find_from(s, c, from) {
            Some(j) => from <= j < s.len() && s[j] == c && (forall|k: int|
                from <= k < j ==> s[k] != c),
            None => forall|k: int| from <= k < s.len() ==> s[k] != c,
        },
    decreases s.len() - from,
{
    if from < s.len() && s[from] != c {
        lemma_find_from_props(s, c, from + 1);
    }
}

/// A position that holds `c`, with no earlier occurrence at or after
/// `from`, is what `find_from` returns.
pub proof fn lemma_find_from_exact(s: Seq<char>, c: char, from: int, i: int)
    requires
        0 <= from <= i < s.len(),
        s[i] == c,
        forall|k: int| from <= k < i ==> s[k] != c,
    ensures
        find_from(s, c, from) == Some(i),
    decreases i - from,
{
    if from < i {
        lemma_find_from_exact(s, c, from + 1, i);
    }
}

/// `p` is a prefix of `s`.
pub open spec fn begins_with(s: Seq<char>, p: Seq<char>) -> bool {
    p.len() <= s.len() && s.subrange(0, p.len() as int) == p
}

/// `p` is a suffix of `s`.
pub open spec fn ends_with(s: Seq<char>, p: Seq<char>) -> bool {
    p.len() <= s.len() && s.subrange(s.len() - p.len(), s.len() as int) == p
}

/// The characters treated as whitespace when a message is trimmed.
pub open spec fn is_space(c: char) -> bool {
    c == ' ' || c == '\t' || c == '\n' || c == '\r' || c == '\u{b}' || c == '\u{c}'
}

/// `s` without its leading whitespace.
pub open spec fn trim_start_rec(s: Seq<char>) -> Seq<char>
    decreases s.len(),
{
    if s.len() > 0 && is_space(s[0]) {
        trim_start_rec(s.drop_first())
    } else {
        s
    }
}

/// `s` without its trailing whitespace.
pub open spec fn trim_end_rec(s: Seq<char>) -> Seq<char>
    decreases s.len(),
{
    if s.len() > 0 && is_space(s.last()) {
        trim_end_rec(s.drop_last())
    } else {
        s
    }
}

/// `s` without surrounding whitespace.
pub open spec fn spec_trim(s: Seq<char>) -> Seq<char> {
    trim_end_rec(trim_start_rec(s))
}

/// `s` without one final `c`, if `s` ends in `c`.
pub open spec fn spec_strip_trailing(s: Seq<char>, c: char) -> Seq<char> {
    if s.len() > 0 && s.last() == c {
        s.drop_last()
    } else {
        s
    }
}

/// An ASCII decimal digit.
pub open spec fn is_digit(c: char) -> bool {
    48 <= c as u32 && c as u32 <= 57
}

/// Numeric value of one digit (0 for a non-digit).
pub open spec fn digit_val(c: char) -> nat {
    if is_digit(c) {
        (c as u32 - 48) as nat
    } else {
        0
    }
}

/// Value of `s` read as a decimal numeral, most significant digit first.
pub open spec fn digits_val(s: Seq<char>) -> nat
    decreases s.len(),
{
    if s.len() == 0 {
        0
    } else {
        10 * digits_val(s.drop_last()) + digit_val(s.last())
    }
}

pub open spec fn all_digits(s: Seq<char>) -> bool {
    forall|i: int| 0 <= i < s.len() ==> is_digit(#[trigger] s[i])
}

/// `s` read as an unsigned 32-bit integer: defined exactly when `s` is a
/// non-empty, all-digit numeral whose value fits.
pub open spec fn spec_parse_u32(s: Seq<char>) -> Option<u32> {
    if s.len() > 0 && all_digits(s) && digits_val(s) <= u32::MAX {
        Some(digits_val(s) as u32)
    } else {
        None
    }
}

/// A column specification: a single column `C` (start == end) or a
/// hyphen-separated pair `C1-C2`.
pub open spec fn spec_parse_cols(s: Seq<char>) -> Option<(u32, u32)> {
    match find_from(s, '-', 0) {
        Some(k) => match (
            spec_parse_u32(s.subrange(0, k)),
            spec_parse_u32(s.subrange(k + 1, s.len() as int)),
        ) {
            (Some(a), Some(b)) => Some((a, b)),
            _ => None,
        },
        None => match spec_parse_u32(s) {
            Some(a) => Some((a, a)),
            None => None,
        },
    }
}

/// Decrement converting a 1-indexed position to 0-indexed, saturating at
/// zero so that an input of 0 or 1 both map to 0.
pub open spec fn sat_dec(n: u32) -> u32 {
    if n == 0 {
        0u32
    } else {
        (n - 1) as u32
    }
}

/// Severity by message content: a message ending in the fixed annotation
/// phrase is a hint pointing at a prior declaration; anything else that
/// matched the grammar is an error.
pub open spec fn spec_classify(msg: Seq<char>) -> Severity {
    if ends_with(msg, "originally used here"@) {
        Severity::Hint
    } else {
        Severity::Error
    }
}

/// The line split at its first three colons: line-number field, column
/// field, and the remainder after the third colon. The file field before
/// the first colon is discarded: the file is already known from the
/// invocation. `None` if the line has fewer than three colons.
pub open spec fn spec_split_line(l: Seq<char>) -> Option<(Seq<char>, Seq<char>, Seq<char>)> {
    match find_from(l, ':', 0) {
        None => None,
        Some(i1) => match find_from(l, ':', i1 + 1) {
            None => None,
            Some(i2) => match find_from(l, ':', i2 + 1) {
                None => None,
                Some(i3) => Some(
                    (
                        l.subrange(i1 + 1, i2),
                        l.subrange(i2 + 1, i3),
                        l.subrange(i3 + 1, l.len() as int),
                    ),
                ),
            },
        },
    }
}

/// The record one report line denotes, if any.
///
/// The line is split at its first three colons into file (discarded), line
/// number, column specification, and remainder; the remainder must carry
/// the fixed ` error: ` marker, the numbers must be in-range numerals, and
/// the message is the marker's tail, trimmed and with one trailing period
/// removed. Any line that fails one of these is not a diagnostic line.
pub open spec fn spec_parse_diag(l: Seq<char>) -> Option<DiagnosticView> {
    match spec_split_line(l) {
        None => None,
        Some(parts) => {
            let rest = parts.2;
            if !begins_with(rest, " error: "@) {
                None
            } else {
                let msg = spec_strip_trailing(spec_trim(rest.skip(" error: "@.len() as int)), '.');
                match spec_parse_u32(parts.0) {
                    None => None,
                    Some(ln) => match spec_parse_cols(parts.1) {
                        None => None,
                        Some(cols) => Some(
                            DiagnosticView {
                                span: Span {
                                    start: Position {
                                        line: sat_dec(ln),
                                        character: sat_dec(cols.0),
                                    },
                                    end: Position {
                                        line: sat_dec(ln),
                                        character: sat_dec(cols.1),
                                    },
                                },
                                severity: spec_classify(msg),
                                source: "capnls"@,
                                message: msg,
                            },
                        ),
                    },
                }
            }
        },
    }
}

/// First occurrence of `c` in `s` at or after `from`, as executable code.
fn find_char(s: &str, c: char, from: usize) -> (r: Option<usize>)
    ensures
        match r {
            Some(j) => from <= j < s@.len() && find_from(s@, c, from as int) == Some(j as int),
            None => find_from(s@, c, from as int) is None,
        },
{
    let n = s.unicode_len();
    let mut i = from;
    while i < n
        invariant
            from <= i,
            n == s@.len(),
            find_from(s@, c, from as int) == find_from(s@, c, i as int),
        decreases n - i,
    {
        if s.get_char(i) == c {
            return Some(i);
        }
        proof {
            assert(find_from(s@, c, i as int) == find_from(s@, c, i + 1));
        }
        i = i + 1;
    }
    None
}

fn is_space_char(c: char) -> (r: bool)
    ensures
        r == is_space(c),
{
    c == ' ' || c == '\t' || c == '\n' || c == '\r' || c == '\u{b}' || c == '\u{c}'
}

/// `s` without surrounding whitespace.
fn trim_str<'a>(s: &'a str) -> (r: &'a str)
    ensures
        r@ == spec_trim(s@),
{
    let n = s.unicode_len();
    proof {
        assert(s@.skip(0) =~= s@);
    }
    let mut start: usize = 0;
    while start < n && is_space_char(s.get_char(start))
        invariant
            0 <= start <= n,
            n == s@.len(),
            trim_start_rec(s@) == trim_start_rec(s@.skip(start as int)),
        decreases n - start,
    {
        proof {
            assert(s@.skip(start as int)[0] == s@[start as int]);
            assert(s@.skip(start as int).drop_first() =~= s@.skip(start as int + 1));
        }
        start = start + 1;
    }
    proof {
        assert(trim_start_rec(s@) == s@.skip(start as int));
        assert(s@.subrange(start as int, n as int) =~= s@.skip(start as int));
    }
    let mut end: usize = n;
    while end > start && is_space_char(s.get_char(end - 1))
        invariant
            start <= end <= n,
            n == s@.len(),
            trim_end_rec(s@.skip(start as int)) == trim_end_rec(
                s@.subrange(start as int, end as int),
            ),
        decreases end,
    {
        proof {
            assert(s@.subrange(start as int, end as int).last() == s@[end as int - 1]);
            assert(s@.subrange(start as int, end as int).drop_last() =~= s@.subrange(
                start as int,
                end as int - 1,
            ));
        }
        end = end - 1;
    }
    proof {
        assert(trim_end_rec(s@.subrange(start as int, end as int)) == s@.subrange(
            start as int,
            end as int,
        ));
    }
    s.substring_char(start, end)
}

/// `s` without one final `c`, if `s` ends in `c`.
fn strip_trailing<'a>(s: &'a str, c: char) -> (r: &'a str)
    ensures
        r@ == spec_strip_trailing(s@, c),
{
    let n = s.unicode_len();
    if n > 0 && s.get_char(n - 1) == c {
        let r = s.substring_char(0, n - 1);
        proof {
            assert(r@ =~= s@.drop_last());
        }
        r
    } else {
        s
    }
}

/// Whether `pat` is a prefix of `s`, as executable code.
fn begins_with_str(s: &str, pat: &str) -> (r: bool)
    ensures
        r == begins_with(s@, pat@),
{
    let pn = pat.unicode_len();
    let sn = s.unicode_len();
    if pn > sn {
        return false;
    }
    let mut i: usize = 0;
    while i < pn
        invariant
            0 <= i <= pn <= sn,
            pn == pat@.len(),
            sn == s@.len(),
            forall|j: int| 0 <= j < i ==> s@[j] == pat@[j],
        decreases pn - i,
    {
        if s.get_char(i) != pat.get_char(i) {
            proof {
                assert(s@.subrange(0, pn as int)[i as int] != pat@[i as int]);
            }
            return false;
        }
        i = i + 1;
    }
    proof {
        assert(s@.subrange(0, pn as int) =~= pat@);
    }
    true
}

/// Whether `pat` is a suffix of `s`, as executable code.
fn ends_with_str(s: &str, pat: &str) -> (r: bool)
    ensures
        r == ends_with(s@, pat@),
{
    let pn = pat.unicode_len();
    let sn = s.unicode_len();
    if pn > sn {
        return false;
    }
    let off = sn - pn;
    let mut i: usize = 0;
    while i < pn
        invariant
            0 <= i <= pn <= sn,
            off == sn - pn,
            pn == pat@.len(),
            sn == s@.len(),
            forall|j: int| 0 <= j < i ==> s@[off + j] == pat@[j],
        decreases pn - i,
    {
        if s.get_char(off + i) != pat.get_char(i) {
            proof {
                assert(s@.subrange(off as int, sn as int)[i as int] != pat@[i as int]);
            }
            return false;
        }
        i = i + 1;
    }
    proof {
        assert(s@.subrange(off as int, sn as int) =~= pat@);
    }
    true
}

/// The value of a numeral never falls when more digits are appended.
proof fn lemma_digits_val_prefix_le(s: Seq<char>, j: int)
    requires
        0 <= j <= s.len(),
    ensures
        digits_val(s.take(j)) <= digits_val(s),
    decreases s.len() - j,
{
    if j == s.len() {
        assert(s.take(j) =~= s);
    } else {
        assert(s.take(j + 1).drop_last() =~= s.take(j));
        assert(digits_val(s.take(j + 1)) == 10 * digits_val(s.take(j)) + digit_val(
            s.take(j + 1).last(),
        ));
        assert(10 * digits_val(s.take(j)) >= digits_val(s.take(j))) by (nonlinear_arith);
        lemma_digits_val_prefix_le(s, j + 1);
    }
}

/// `s` read as an unsigned 32-bit integer, as executable code.
fn parse_u32_str(s: &str) -> (r: Option<u32>)
    ensures
        r == spec_parse_u32(s@),
{
    let n = s.unicode_len();
    if n == 0 {
        return None;
    }
    let mut acc: u64 = 0;
    let mut i: usize = 0;
    while i < n
        invariant
            0 <= i <= n,
            n == s@.len(),
            all_digits(s@.take(i as int)),
            acc == digits_val(s@.take(i as int)),
            acc <= u32::MAX,
        decreases n - i,
    {
        let c = s.get_char(i);
        let u = c as u32;
        if u < 48 || u > 57 {
            proof {
                assert(!is_digit(s@[i as int]));
            }
            return None;
        }
        let d: u64 = (u - 48) as u64;
        proof {
            assert(s@.take(i as int + 1).drop_last() =~= s@.take(i as int));
            assert(s@.take(i as int + 1).last() == s@[i as int]);
        }
        acc = acc * 10 + d;
        if acc > 0xFFFF_FFFFu64 {
            proof {
                lemma_digits_val_prefix_le(s@, i as int + 1);
            }
            return None;
        }
        i = i + 1;
    }
    proof {
        assert(s@.take(n as int) =~= s@);
    }
    Some(acc as u32)
}

/// A column specification, as executable code: `C` or `C1-C2`.
fn parse_cols(s: &str) -> (r: Option<(u32, u32)>)
    ensures
        r == spec_parse_cols(s@),
{
    let n = s.unicode_len();
    match find_char(s, '-', 0) {
        Some(k) => {
            let a = parse_u32_str(s.substring_char(0, k));
            let b = parse_u32_str(s.substring_char(k + 1, n));
            match (a, b) {
                (Some(x), Some(y)) => Some((x, y)),
                _ => None,
            }
        },
        None => match parse_u32_str(s) {
            Some(x) => Some((x, x)),
            None => None,
        },
    }
}

/// Parse one line of the compiler's report.
///
/// Returns the structured record for a line of the diagnostic grammar, and
/// `None` for any other line.
pub fn parse_diag(line: &str) -> (r: Option<Diagnostic>)
    ensures
        r.deep_view() == spec_parse_diag(line@),
{
    let n = line.unicode_len();
    let i1 = match find_char(line, ':', 0) {
        Some(i) => i,
        None => {
            return None;
        },
    };
    let i2 = match find_char(line, ':', i1 + 1) {
        Some(i) => i,
        None => {
            return None;
        },
    };
    let i3 = match find_char(line, ':', i2 + 1) {
        Some(i) => i,
        None => {
            return None;
        },
    };
    let rest = line.substring_char(i3 + 1, n);
    if !begins_with_str(rest, " error: ") {
        return None;
    }
    proof {
        reveal_strlit(" error: ");
    }
    let rest_n = rest.unicode_len();
    let raw = rest.substring_char(8, rest_n);
    proof {
        assert(raw@ =~= line@.subrange(i3 as int + 1, n as int).skip(" error: "@.len() as int));
    }
    let msg = strip_trailing(trim_str(raw), '.');
    let ln = match parse_u32_str(line.substring_char(i1 + 1, i2)) {
        Some(v) => v,
        None => {
            return None;
        },
    };
    let cols = match parse_cols(line.substring_char(i2 + 1, i3)) {
        Some(p) => p,
        None => {
            return None;
        },
    };
    let severity = if ends_with_str(msg, "originally used here") {
        Severity::Hint
    } else {
        Severity::Error
    };
    let source = "capnls".to_owned();
    let message = msg.to_owned();
    let start_line = if ln == 0 {
        0
    } else {
        ln - 1
    };
    let start_col = if cols.0 == 0 {
        0
    } else {
        cols.0 - 1
    };
    let end_col = if cols.1 == 0 {
        0
    } else {
        cols.1 - 1
    };
    Some(
        Diagnostic {
            span: Span {
                start: Position { line: start_line, character: start_col },
                end: Position { line: start_line, character: end_col },
            },
            severity,
            source,
            message,
        },
    )
}

/// The records of each line of a report, kept in line order; lines that do
/// not match the diagnostic grammar contribute nothing.
pub open spec fn spec_line_diags(l: Seq<char>) -> Seq<DiagnosticView> {
    match spec_parse_diag(spec_strip_trailing(l, '\r')) {
        Some(d) => seq![d],
        None => Seq::empty(),
    }
}

/// All records of a whole report, in input line order. The text is split at
/// each line feed; a final carriage return of each line is dropped.
pub open spec fn spec_parse_diags(t: Seq<char>) -> Seq<DiagnosticView>
    decreases t.len(),
    via spec_parse_diags_decreases
{
    if t.len() == 0 {
        Seq::empty()
    } else {
        match find_from(t, '\n', 0) {
            None => spec_line_diags(t),
            Some(i) => spec_line_diags(t.take(i)) + spec_parse_diags(t.skip(i + 1)),
        }
    }
}

#[via_fn]
proof fn spec_parse_diags_decreases(t: Seq<char>) {
    lemma_find_from_props(t, '\n', 0);
}

/// Parse a whole report: one record per line of the diagnostic grammar, in
/// input line order. Never fails; unrecognized lines are skipped.
pub fn parse_diags(text: &str) -> (r: Vec<Diagnostic>)
    ensures
        r.deep_view() == spec_parse_diags(text@),
    decreases text@.len(),
{
    let n = text.unicode_len();
    let mut out: Vec<Diagnostic> = Vec::new();
    if n == 0 {
        proof {
            assert(out.deep_view() =~= spec_parse_diags(text@));
        }
        return out;
    }
    match find_char(text, '\n', 0) {
        None => {
            match parse_diag(strip_trailing(text, '\r')) {
                Some(d) => {
                    out.push(d);
                },
                None => {},
            }
            proof {
                assert(out.deep_view() =~= spec_parse_diags(text@));
            }
            out
        },
        Some(i) => {
            let first = text.substring_char(0, i);
            proof {
                assert(first@ =~= text@.take(i as int));
            }
            match parse_diag(strip_trailing(first, '\r')) {
                Some(d) => {
                    out.push(d);
                },
                None => {},
            }
            let rest = text.substring_char(i + 1, n);
            proof {
                assert(rest@ =~= text@.skip(i as int + 1));
            }
            let mut tail = parse_diags(rest);
            let ghost tail_view = tail.deep_view();
            out.append(&mut tail);
            proof {
                assert(out.deep_view() =~= spec_line_diags(text@.take(i as int)) + tail_view);
            }
            out
        },
    }
}

} // verus!
