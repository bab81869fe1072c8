//! Laws of the diagnostic parser, stated over whole families of report
//! lines and proved against the parsing model.

use vstd::prelude::*;

use crate::diagnostics::{DiagnosticView, Position, Severity, Span};
use crate::parser::{
    all_digits, begins_with, digits_val, ends_with, find_from, is_digit, is_space,
    lemma_find_from_exact, lemma_find_from_props, sat_dec, spec_classify, spec_line_diags,
    spec_parse_cols, spec_parse_diag, spec_parse_diags, spec_parse_u32, spec_split_line,
    spec_strip_trailing, spec_trim, trim_end_rec, trim_start_rec,
};

verus! {

proof fn lemma_trim_start_len(s: Seq<char>)
    ensures
        trim_start_rec(s).len() <= s.len(),
    decreases s.len(),
{
    if s.len() > 0 && is_space(s[0]) {
        lemma_trim_start_len(s.drop_first());
    }
}

proof fn lemma_trim_end_len(s: Seq<char>)
    ensures
        trim_end_rec(s).len() <= s.len(),
    decreases s.len(),
{
    if s.len() > 0 && is_space(s.last()) {
        lemma_trim_end_len(s.drop_last());
    }
}

/// A non-empty sequence that is its own trim starts with a non-space.
proof fn lemma_trimmed_first(m: Seq<char>)
    requires
        spec_trim(m) == m,
        m.len() > 0,
    ensures
        !is_space(m[0]),
{
    if is_space(m[0]) {
        lemma_trim_start_len(m.drop_first());
        lemma_trim_end_len(trim_start_rec(m.drop_first()));
        assert(spec_trim(m).len() < m.len());
        assert(false);
    }
}

/// A digit field holds neither a colon nor a hyphen.
proof fn lemma_digits_free_of(s: Seq<char>)
    requires
        all_digits(s),
    ensures
        forall|k: int| 0 <= k < s.len() ==> s[k] != ':',
        forall|k: int| 0 <= k < s.len() ==> s[k] != '-',
        find_from(s, '-', 0) is None,
{
    assert forall|k: int| 0 <= k < s.len() implies s[k] != ':' && s[k] != '-' by {
        assert(is_digit(s[k]));
    }
    lemma_find_from_props(s, '-', 0);
    if find_from(s, '-', 0) is Some {
        assert(false);
    }
}

/// How the parser reads any well-formed report line, built from its parts:
/// a file field `f` free of colons, numeral fields, and a message `m` that
/// is its own trim. The parsed record carries exactly the decremented
/// positions, the classification of `m`, and `m` itself as the message.
pub proof fn lemma_grammar_line(f: Seq<char>, l: Seq<char>, cs: Seq<char>, m: Seq<char>)
    requires
        forall|k: int| 0 <= k < f.len() ==> f[k] != ':',
        spec_parse_u32(l) is Some,
        spec_parse_cols(cs) is Some,
        forall|k: int| 0 <= k < cs.len() ==> cs[k] != ':',
        spec_trim(m) == m,
    ensures
        ({
            let line = f + seq![':'] + l + seq![':'] + cs + seq![':'] + " error: "@ + m
                + seq!['.'];
            let cols = spec_parse_cols(cs)->Some_0;
            spec_parse_diag(line) == Some(
                DiagnosticView {
                    span: Span {
                        start: Position {
                            line: sat_dec(spec_parse_u32(l)->Some_0),
                            character: sat_dec(cols.0),
                        },
                        end: Position {
                            line: sat_dec(spec_parse_u32(l)->Some_0),
                            character: sat_dec(cols.1),
                        },
                    },
                    severity: spec_classify(m),
                    source: "capnls"@,
                    message: m,
                },
            )
        }),
{
    let em = " error: "@;
    let line = f + seq![':'] + l + seq![':'] + cs + seq![':'] + em + m + seq!['.'];
    let n1 = f.len() as int;
    let n2 = n1 + 1 + l.len();
    let n3 = n2 + 1 + cs.len();
    let n = line.len() as int;
    assert(n == n3 + 1 + em.len() + m.len() + 1);
    assert(all_digits(l));
    assert(line[n1] == ':');
    assert(line[n2] == ':');
    assert(line[n3] == ':');
    assert forall|k: int| 0 <= k < n1 implies line[k] != ':' by {
        assert(line[k] == f[k]);
    }
    lemma_find_from_exact(line, ':', 0, n1);
    assert forall|k: int| n1 + 1 <= k < n2 implies line[k] != ':' by {
        assert(line[k] == l[k - (n1 + 1)]);
        assert(is_digit(l[k - (n1 + 1)]));
    }
    lemma_find_from_exact(line, ':', n1 + 1, n2);
    assert forall|k: int| n2 + 1 <= k < n3 implies line[k] != ':' by {
        assert(line[k] == cs[k - (n2 + 1)]);
    }
    lemma_find_from_exact(line, ':', n2 + 1, n3);
    let lpart = line.subrange(n1 + 1, n2);
    let cpart = line.subrange(n2 + 1, n3);
    let rest = line.subrange(n3 + 1, n);
    assert(spec_split_line(line) == Some((lpart, cpart, rest)));
    assert(lpart =~= l);
    assert(cpart =~= cs);
    assert(rest =~= em + m + seq!['.']);
    assert(rest.subrange(0, em.len() as int) =~= em);
    assert(begins_with(rest, em));
    let raw = rest.skip(em.len() as int);
    assert(raw =~= m + seq!['.']);
    // The marker's tail is already trimmed: its first character is the
    // message's (or the final period), and its last is the period.
    if m.len() > 0 {
        lemma_trimmed_first(m);
        assert(raw[0] == m[0]);
    } else {
        assert(raw[0] == '.');
    }
    assert(!is_space(raw[0]));
    assert(trim_start_rec(raw) == raw);
    assert(raw.last() == '.');
    assert(trim_end_rec(raw) == raw);
    assert(spec_trim(raw) == raw);
    assert(spec_strip_trailing(raw, '.') =~= m);
}

/// For every valid single-column report line `f:L:C: error: M.` — with a
/// colon-free file field, in-range numerals `L` and `C`, and a message `M`
/// that is its own trim — the parsed record has start == end ==
/// (L-1, C-1), both decrements saturating at zero, and message `M`.
pub proof fn lemma_single_column_line(f: Seq<char>, l: Seq<char>, c: Seq<char>, m: Seq<char>)
    requires
        forall|k: int| 0 <= k < f.len() ==> f[k] != ':',
        spec_parse_u32(l) is Some,
        spec_parse_u32(c) is Some,
        spec_trim(m) == m,
    ensures
        spec_parse_diag(f + seq![':'] + l + seq![':'] + c + seq![':'] + " error: "@ + m + seq!['.'])
            == Some(
            DiagnosticView {
                span: Span {
                    start: Position {
                        line: sat_dec(spec_parse_u32(l)->Some_0),
                        character: sat_dec(spec_parse_u32(c)->Some_0),
                    },
                    end: Position {
                        line: sat_dec(spec_parse_u32(l)->Some_0),
                        character: sat_dec(spec_parse_u32(c)->Some_0),
                    },
                },
                severity: spec_classify(m),
                source: "capnls"@,
                message: m,
            },
        ),
{
    assert(all_digits(c));
    lemma_digits_free_of(c);
    assert(spec_parse_cols(c) == Some(
        (spec_parse_u32(c)->Some_0, spec_parse_u32(c)->Some_0),
    ));
    lemma_grammar_line(f, l, c, m);
}

/// For every valid ranged report line `f:L:C1-C2: error: M.`, the parsed
/// record's start column is C1-1 and its end column is C2-1, both
/// decrements saturating at zero.
pub proof fn lemma_ranged_line(f: Seq<char>, l: Seq<char>, c1: Seq<char>, c2: Seq<char>, m: Seq<char>)
    requires
        forall|k: int| 0 <= k < f.len() ==> f[k] != ':',
        spec_parse_u32(l) is Some,
        spec_parse_u32(c1) is Some,
        spec_parse_u32(c2) is Some,
        spec_trim(m) == m,
    ensures
        spec_parse_diag(
            f + seq![':'] + l + seq![':'] + (c1 + seq!['-'] + c2) + seq![':'] + " error: "@ + m
                + seq!['.'],
        ) == Some(
            DiagnosticView {
                span: Span {
                    start: Position {
                        line: sat_dec(spec_parse_u32(l)->Some_0),
                        character: sat_dec(spec_parse_u32(c1)->Some_0),
                    },
                    end: Position {
                        line: sat_dec(spec_parse_u32(l)->Some_0),
                        character: sat_dec(spec_parse_u32(c2)->Some_0),
                    },
                },
                severity: spec_classify(m),
                source: "capnls"@,
                message: m,
            },
        ),
{
    let cs = c1 + seq!['-'] + c2;
    assert(all_digits(c1));
    assert(all_digits(c2));
    lemma_digits_free_of(c1);
    lemma_digits_free_of(c2);
    assert forall|k: int| 0 <= k < cs.len() implies cs[k] != ':' by {
        if k < c1.len() {
            assert(cs[k] == c1[k]);
        } else if k == c1.len() {
            assert(cs[k] == '-');
        } else {
            assert(cs[k] == c2[k - c1.len() - 1]);
        }
    }
    let h = c1.len() as int;
    assert(cs[h] == '-');
    assert forall|k: int| 0 <= k < h implies cs[k] != '-' by {
        assert(cs[k] == c1[k]);
    }
    lemma_find_from_exact(cs, '-', 0, h);
    assert(cs.subrange(0, h) =~= c1);
    assert(cs.subrange(h + 1, cs.len() as int) =~= c2);
    assert(spec_parse_cols(cs) == Some(
        (spec_parse_u32(c1)->Some_0, spec_parse_u32(c2)->Some_0),
    ));
    lemma_grammar_line(f, l, cs, m);
}

/// Reported line and column numbers of 0 or 1 both come out as position 0:
/// the index decrement saturates and never wraps below zero.
pub proof fn lemma_saturation_at_boundary(f: Seq<char>, l: Seq<char>, c: Seq<char>, m: Seq<char>)
    requires
        forall|k: int| 0 <= k < f.len() ==> f[k] != ':',
        spec_parse_u32(l) is Some,
        digits_val(l) <= 1,
        spec_parse_u32(c) is Some,
        digits_val(c) <= 1,
        spec_trim(m) == m,
    ensures
        ({
            let d = spec_parse_diag(
                f + seq![':'] + l + seq![':'] + c + seq![':'] + " error: "@ + m + seq!['.'],
            );
            &&& d is Some
            &&& d->Some_0.span == (Span {
                start: Position { line: 0, character: 0 },
                end: Position { line: 0, character: 0 },
            })
        }),
{
    lemma_single_column_line(f, l, c, m);
}

/// A message ending in the annotation phrase always classifies as a hint;
/// every other matched message classifies as an error.
pub proof fn lemma_severity_classification(l: Seq<char>)
    requires
        spec_parse_diag(l) is Some,
    ensures
        ({
            let d = spec_parse_diag(l)->Some_0;
            &&& (d.severity == Severity::Hint <==> ends_with(
                d.message,
                "originally used here"@,
            ))
            &&& (d.severity == Severity::Error <==> !ends_with(
                d.message,
                "originally used here"@,
            ))
        }),
{
}

/// A line with fewer than three colons, or whose remainder does not carry
/// the fixed ` error: ` marker — a different or missing severity word —
/// yields no record.
pub proof fn lemma_unmatched_line_skipped(l: Seq<char>)
    requires
        match spec_split_line(l) {
            None => true,
            Some(parts) => !begins_with(parts.2, " error: "@),
        },
    ensures
        spec_parse_diag(l) is None,
{
}

/// Parsing is line-local: a whole report splits into its first line's
/// records followed by the records of the remaining text.
pub proof fn lemma_line_decomposition(l: Seq<char>, rest: Seq<char>)
    requires
        forall|k: int| 0 <= k < l.len() ==> l[k] != '\n',
    ensures
        spec_parse_diags(l + seq!['\n'] + rest) == spec_line_diags(l) + spec_parse_diags(rest),
{
    let t = l + seq!['\n'] + rest;
    assert(t[l.len() as int] == '\n');
    assert forall|k: int| 0 <= k < l.len() implies t[k] != '\n' by {
        assert(t[k] == l[k]);
    }
    lemma_find_from_exact(t, '\n', 0, l.len() as int);
    assert(t.take(l.len() as int) =~= l);
    assert(t.skip(l.len() as int + 1) =~= rest);
}

/// A line that yields no record does not disturb the records of the lines
/// after it: the report parses as if the line were absent.
pub proof fn lemma_skipped_line_preserves_rest(l: Seq<char>, rest: Seq<char>)
    requires
        forall|k: int| 0 <= k < l.len() ==> l[k] != '\n',
        spec_parse_diag(spec_strip_trailing(l, '\r')) is None,
    ensures
        spec_parse_diags(l + seq!['\n'] + rest) == spec_parse_diags(rest),
{
    lemma_line_decomposition(l, rest);
    assert(spec_line_diags(l) + spec_parse_diags(rest) =~= spec_parse_diags(rest));
}

} // verus!
