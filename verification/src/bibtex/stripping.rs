//! Blank text between tokens does not count: the proof that putting
//! whitespace or a whole comment between two tokens of a source text changes
//! nothing of what the text parses to.

use super::error::ErrorView;
use super::laws::{blank_end, is_blank, lemma_blank_passed, lemma_blank_start, stands_at};
use super::parser::{
    brace_end, document_at, entries_at, entry_at, expect_char, field_at, fields_at,
    lemma_brace_end, lemma_entry_at, lemma_expect_char, lemma_field_at, lemma_fields_at,
    lemma_skip_blank, lemma_skip_blank_twice, lemma_value_at, lemma_word_at,
    skip_blank, skip_blank_in, value_at, word_at, RawEntryView,
};
use super::text::{is_digit, is_space, lemma_run_end, lemma_run_end_is, run_end, CharClass};
use vstd::prelude::*;

verus! {

/// `t` is `s` with the text `w` put in at position `p`.
pub open spec fn put_in(s: Seq<char>, p: int, w: Seq<char>) -> Seq<char> {
    s.subrange(0, p) + w + s.subrange(p, s.len() as int)
}

/// What the proofs use of `t == put_in(s, p, w)`, character by character.
pub open spec fn widened(s: Seq<char>, t: Seq<char>, p: int, w: Seq<char>) -> bool {
    &&& 0 <= p <= s.len()
    &&& t.len() == s.len() + w.len()
    &&& forall|k: int| 0 <= k < p ==> #[trigger] t[k] == s[k]
    &&& forall|k: int| 0 <= k < w.len() ==> t[p + k] == #[trigger] w[k]
    &&& forall|k: int| p <= k < s.len() ==> t[k + w.len()] == #[trigger] s[k]
}

/// A text with another put in is widened by it.
pub proof fn lemma_put_in(s: Seq<char>, p: int, w: Seq<char>)
    requires
        0 <= p <= s.len(),
    ensures
        widened(s, put_in(s, p, w), p, w),
        stands_at(put_in(s, p, w), p, w),
{
    let t = put_in(s, p, w);
    assert(t.subrange(p, p + w.len()) =~= w);
}

/// Two faults are the same fault where they differ in nothing but the line
/// and the column.
pub open spec fn same_fault(e: ErrorView, f: ErrorView) -> bool {
    match e {
        ErrorView::UnexpectedCharacter { expected, found, .. } => {
            f matches ErrorView::UnexpectedCharacter { expected: x, found: y, .. } && x == expected
                && y == found
        },
        _ => e == f,
    }
}

/// Two outcomes are the same where both are the same value, or both are the
/// same fault.
pub open spec fn same_outcome<T>(r: Result<T, ErrorView>, q: Result<T, ErrorView>) -> bool {
    match r {
        Ok(v) => q == Ok::<T, ErrorView>(v),
        Err(e) => q matches Err(f) && same_fault(e, f),
    }
}

/// The reading `q` is the reading `r` moved by `d`: the same value, ending
/// `d` positions later, or the same fault.
pub open spec fn moved<T>(
    r: Result<(T, int), ErrorView>,
    q: Result<(T, int), ErrorView>,
    d: int,
) -> bool {
    match r {
        Ok((v, n)) => q == Ok::<(T, int), ErrorView>((v, n + d)),
        Err(e) => q matches Err(f) && same_fault(e, f),
    }
}

/// The reading of a token moved by `d`.
pub open spec fn moved_token(r: Result<int, ErrorView>, q: Result<int, ErrorView>, d: int) -> bool {
    match r {
        Ok(n) => q == Ok::<int, ErrorView>(n + d),
        Err(e) => q matches Err(f) && same_fault(e, f),
    }
}

/// Behind the place where text was put in, the two texts hold the same.
proof fn lemma_same_behind(s: Seq<char>, t: Seq<char>, p: int, w: Seq<char>, x: int, y: int)
    requires
        widened(s, t, p, w),
        p <= x <= y <= s.len(),
    ensures
        t.subrange(x + w.len(), y + w.len()) == s.subrange(x, y),
{
    assert forall|k: int| 0 <= k < y - x implies t.subrange(x + w.len(), y + w.len())[k]
        == s.subrange(x, y)[k] by {
        assert(t[(x + k) + w.len()] == s[x + k]);
    }
    assert(t.subrange(x + w.len(), y + w.len()) =~= s.subrange(x, y));
}

/// Before the place where text was put in, the two texts hold the same.
proof fn lemma_same_before(s: Seq<char>, t: Seq<char>, p: int, w: Seq<char>, x: int, y: int)
    requires
        widened(s, t, p, w),
        0 <= x <= y <= p,
    ensures
        t.subrange(x, y) == s.subrange(x, y),
{
    assert(t.subrange(x, y) =~= s.subrange(x, y));
}

/// Behind the place: blank text ends where it ended, moved.
proof fn lemma_skip_behind(s: Seq<char>, t: Seq<char>, p: int, w: Seq<char>, i: int, comment: bool)
    requires
        widened(s, t, p, w),
        p <= i <= s.len(),
    ensures
        skip_blank_in(t, i + w.len(), comment) == skip_blank_in(s, i, comment) + w.len(),
    decreases s.len() - i,
{
    if i < s.len() {
        assert(t[i + w.len()] == s[i]);
        if comment {
            lemma_skip_behind(s, t, p, w, i + 1, s[i] != '\n');
        } else if s[i] == '%' {
            lemma_skip_behind(s, t, p, w, i + 1, true);
        } else if is_space(s[i]) {
            lemma_skip_behind(s, t, p, w, i + 1, false);
        }
    }
}

/// Behind the place: a run ends where it ended, moved.
proof fn lemma_run_behind(
    s: Seq<char>,
    t: Seq<char>,
    p: int,
    w: Seq<char>,
    i: int,
    class: CharClass,
)
    requires
        widened(s, t, p, w),
        p <= i <= s.len(),
    ensures
        run_end(t, i + w.len(), t.len() as int, class) == run_end(s, i, s.len() as int, class)
            + w.len(),
    decreases s.len() - i,
{
    if i < s.len() {
        assert(t[i + w.len()] == s[i]);
        if class.has(s[i]) {
            lemma_run_behind(s, t, p, w, i + 1, class);
        }
    }
}

/// Behind the place: a closing brace is found where it was found, moved.
proof fn lemma_brace_behind(s: Seq<char>, t: Seq<char>, p: int, w: Seq<char>, i: int, depth: nat)
    requires
        widened(s, t, p, w),
        p <= i <= s.len(),
    ensures
        brace_end(t, i + w.len(), depth) == brace_end(s, i, depth) + w.len(),
    decreases s.len() - i,
{
    if i < s.len() {
        assert(t[i + w.len()] == s[i]);
        if s[i] == '{' {
            lemma_brace_behind(s, t, p, w, i + 1, depth + 1);
        } else if s[i] == '}' {
            if depth > 1 {
                lemma_brace_behind(s, t, p, w, i + 1, (depth - 1) as nat);
            }
        } else {
            lemma_brace_behind(s, t, p, w, i + 1, depth);
        }
    }
}

/// Behind the place: a token is read as it was, moved.
proof fn lemma_expect_behind(s: Seq<char>, t: Seq<char>, p: int, w: Seq<char>, i: int, c: char)
    requires
        widened(s, t, p, w),
        p <= i <= s.len(),
    ensures
        moved_token(expect_char(s, i, c), expect_char(t, i + w.len(), c), w.len() as int),
{
    lemma_skip_behind(s, t, p, w, i, false);
    lemma_skip_blank(s, i, false);
    let j = skip_blank(s, i);
    if j < s.len() {
        assert(t[j + w.len()] == s[j]);
    }
}

/// Behind the place: an identifier is read as it was, moved.
proof fn lemma_word_behind(s: Seq<char>, t: Seq<char>, p: int, w: Seq<char>, i: int)
    requires
        widened(s, t, p, w),
        p <= i <= s.len(),
    ensures
        word_at(t, i + w.len()) == (word_at(s, i).0 + w.len(), word_at(s, i).1 + w.len()),
        t.subrange(word_at(t, i + w.len()).0, word_at(t, i + w.len()).1) == s.subrange(
            word_at(s, i).0,
            word_at(s, i).1,
        ),
{
    lemma_skip_behind(s, t, p, w, i, false);
    lemma_skip_blank(s, i, false);
    let j = skip_blank(s, i);
    lemma_run_behind(s, t, p, w, j, CharClass::Word);
    lemma_run_end(s, j, s.len() as int, CharClass::Word);
    lemma_same_behind(s, t, p, w, j, run_end(s, j, s.len() as int, CharClass::Word));
}

/// Behind the place: a value is read as it was, moved.
proof fn lemma_value_behind(s: Seq<char>, t: Seq<char>, p: int, w: Seq<char>, i: int)
    requires
        widened(s, t, p, w),
        p <= i <= s.len(),
    ensures
        moved(value_at(s, i), value_at(t, i + w.len()), w.len() as int),
{
    let d = w.len() as int;
    lemma_skip_behind(s, t, p, w, i, false);
    lemma_skip_blank(s, i, false);
    let j = skip_blank(s, i);
    if j < s.len() {
        assert(t[j + d] == s[j]);
        lemma_skip_blank_twice(s, i, false);
        lemma_skip_behind(s, t, p, w, j, false);
        assert(skip_blank(t, j + d) == j + d);
        if s[j] == '{' {
            lemma_brace_behind(s, t, p, w, j + 1, 1);
            lemma_brace_end(s, j + 1, 1);
            let e = brace_end(s, j + 1, 1);
            if e < s.len() {
                lemma_same_behind(s, t, p, w, j + 1, e);
            }
        } else if s[j] == '"' {
            lemma_run_behind(s, t, p, w, j + 1, CharClass::Except('"'));
            lemma_run_end(s, j + 1, s.len() as int, CharClass::Except('"'));
            let e = run_end(s, j + 1, s.len() as int, CharClass::Except('"'));
            if e < s.len() {
                lemma_same_behind(s, t, p, w, j + 1, e);
            }
        } else if is_digit(s[j]) {
            lemma_run_behind(s, t, p, w, j, CharClass::Digit);
            lemma_run_end(s, j, s.len() as int, CharClass::Digit);
            lemma_same_behind(s, t, p, w, j, run_end(s, j, s.len() as int, CharClass::Digit));
        }
    }
}

/// Behind the place: a field is read as it was, moved.
proof fn lemma_field_behind(s: Seq<char>, t: Seq<char>, p: int, w: Seq<char>, i: int)
    requires
        widened(s, t, p, w),
        p <= i <= s.len(),
    ensures
        moved(field_at(s, i), field_at(t, i + w.len()), w.len() as int),
{
    lemma_word_behind(s, t, p, w, i);
    lemma_word_at(s, i);
    let (a, b) = word_at(s, i);
    lemma_expect_behind(s, t, p, w, b, '=');
    lemma_expect_char(s, b, '=');
    if let Ok(c) = expect_char(s, b, '=') {
        lemma_value_behind(s, t, p, w, c);
    }
}

/// Behind the place: the fields are read as they were, moved.
proof fn lemma_fields_behind(s: Seq<char>, t: Seq<char>, p: int, w: Seq<char>, i: int)
    requires
        widened(s, t, p, w),
        p <= i <= s.len(),
    ensures
        moved(fields_at(s, i), fields_at(t, i + w.len()), w.len() as int),
    decreases s.len() - i,
{
    let d = w.len() as int;
    lemma_skip_behind(s, t, p, w, i, false);
    lemma_skip_blank(s, i, false);
    let j = skip_blank(s, i);
    if j < s.len() {
        assert(t[j + d] == s[j]);
    }
    if !(j < s.len() && s[j] == '}') {
        lemma_field_behind(s, t, p, w, j);
        lemma_field_at(s, j);
        if let Ok((f, n)) = field_at(s, j) {
            lemma_skip_behind(s, t, p, w, n, false);
            lemma_skip_blank(s, n, false);
            let m = skip_blank(s, n);
            if m < s.len() {
                assert(t[m + d] == s[m]);
                if s[m] == ',' {
                    lemma_fields_behind(s, t, p, w, m + 1);
                }
            }
        }
    }
}

/// Behind the place: an entry is read as it was, moved.
proof fn lemma_entry_behind(s: Seq<char>, t: Seq<char>, p: int, w: Seq<char>, i: int)
    requires
        widened(s, t, p, w),
        p <= i <= s.len(),
    ensures
        moved(entry_at(s, i), entry_at(t, i + w.len()), w.len() as int),
{
    lemma_expect_behind(s, t, p, w, i, '@');
    lemma_expect_char(s, i, '@');
    if let Ok(a) = expect_char(s, i, '@') {
        lemma_word_behind(s, t, p, w, a);
        lemma_word_at(s, a);
        let (k0, k1) = word_at(s, a);
        lemma_expect_behind(s, t, p, w, k1, '{');
        lemma_expect_char(s, k1, '{');
        if let Ok(b) = expect_char(s, k1, '{') {
            lemma_word_behind(s, t, p, w, b);
            lemma_word_at(s, b);
            let (c0, c1) = word_at(s, b);
            lemma_expect_behind(s, t, p, w, c1, ',');
            lemma_expect_char(s, c1, ',');
            if let Ok(d) = expect_char(s, c1, ',') {
                lemma_fields_behind(s, t, p, w, d);
            }
        }
    }
}

/// Behind the place: the entries are read as they were.
proof fn lemma_entries_behind(s: Seq<char>, t: Seq<char>, p: int, w: Seq<char>, i: int)
    requires
        widened(s, t, p, w),
        p <= i <= s.len(),
    ensures
        same_outcome(entries_at(s, i), entries_at(t, i + w.len())),
    decreases s.len() - i,
{
    lemma_skip_behind(s, t, p, w, i, false);
    lemma_skip_blank(s, i, false);
    let j = skip_blank(s, i);
    if j < s.len() {
        lemma_entry_behind(s, t, p, w, j);
        lemma_entry_at(s, j);
        if let Ok((entry, n)) = entry_at(s, j) {
            lemma_entries_behind(s, t, p, w, n);
        }
    }
}

/// Whether the text from `i` up to `p` is blank and ends outside a comment,
/// `comment` telling whether `i` lies inside one.
pub open spec fn blank_until(s: Seq<char>, i: int, comment: bool, p: int) -> bool
    decreases p - i,
{
    if i >= p {
        i == p && !comment
    } else if comment {
        blank_until(s, i + 1, s[i] != '\n', p)
    } else if s[i] == '%' {
        blank_until(s, i + 1, true, p)
    } else if is_space(s[i]) {
        blank_until(s, i + 1, false, p)
    } else {
        false
    }
}

/// Whether `p` lies in the blank text that a reader passes over which starts
/// at `i`: nothing but blank text stands between `i` and `p`, and `p` is
/// outside a comment or is the end of the input.
pub open spec fn gap_token(s: Seq<char>, i: int, p: int) -> bool {
    &&& 0 <= i <= p <= s.len()
    &&& (blank_until(s, i, false, p) || (p == s.len() && skip_blank(s, i) == s.len()))
}

/// Blank text that reaches `p` outside a comment ends where the blank text
/// from `p` ends.
proof fn lemma_blank_until(s: Seq<char>, i: int, comment: bool, p: int)
    requires
        0 <= i <= p <= s.len(),
        blank_until(s, i, comment, p),
    ensures
        skip_blank_in(s, i, comment) == skip_blank(s, p),
    decreases p - i,
{
    if i < p {
        if comment {
            lemma_blank_until(s, i + 1, s[i] != '\n', p);
        } else if s[i] == '%' {
            lemma_blank_until(s, i + 1, true, p);
        } else {
            lemma_blank_until(s, i + 1, false, p);
        }
    }
}

/// Blank text that ends at `p` reaches `p` outside a comment, unless `p` is
/// the end of the input.
proof fn lemma_blank_stops(s: Seq<char>, i: int, comment: bool, p: int)
    requires
        0 <= i <= p <= s.len(),
        skip_blank_in(s, i, comment) == p,
    ensures
        blank_until(s, i, comment, p) || p == s.len(),
    decreases p - i,
{
    if i < p {
        lemma_skip_blank(s, i + 1, true);
        lemma_skip_blank(s, i + 1, false);
        if comment {
            lemma_blank_stops(s, i + 1, s[i] != '\n', p);
        } else if s[i] == '%' {
            lemma_blank_stops(s, i + 1, true, p);
        } else if is_space(s[i]) {
            lemma_blank_stops(s, i + 1, false, p);
        }
    } else if p < s.len() {
        lemma_skip_blank(s, p + 1, true);
        lemma_skip_blank(s, p + 1, false);
    }
}

/// Through the place: blank text that reaches the place outside a comment
/// ends where it ended, moved.
proof fn lemma_skip_through(s: Seq<char>, t: Seq<char>, p: int, w: Seq<char>, i: int, comment: bool)
    requires
        widened(s, t, p, w),
        stands_at(t, p, w),
        is_blank(w),
        0 <= i <= p,
        blank_until(s, i, comment, p),
    ensures
        skip_blank_in(t, i, comment) == skip_blank_in(s, i, comment) + w.len(),
    decreases p - i,
{
    if i < p {
        assert(t[i] == s[i]);
        if comment {
            lemma_skip_through(s, t, p, w, i + 1, s[i] != '\n');
        } else if s[i] == '%' {
            lemma_skip_through(s, t, p, w, i + 1, true);
        } else {
            lemma_skip_through(s, t, p, w, i + 1, false);
        }
    } else {
        lemma_blank_passed(t, p, w, 0, false);
        lemma_skip_behind(s, t, p, w, p, false);
    }
}

/// Blank text at the end of the input is passed over from inside a comment
/// too.
proof fn lemma_blank_tail(t: Seq<char>, p: int, w: Seq<char>, k: int)
    requires
        stands_at(t, p, w),
        t.len() == p + w.len(),
        0 <= k <= w.len(),
        blank_end(w, k, false) == Some(false),
    ensures
        skip_blank_in(t, p + k, true) == t.len(),
        skip_blank_in(t, p + k, false) == t.len(),
    decreases w.len() - k,
{
    lemma_blank_passed(t, p, w, k, false);
    if k < w.len() {
        assert(t[p + k] == t.subrange(p, p + w.len())[k]);
        if w[k] == '\n' {
            lemma_blank_passed(t, p, w, k + 1, false);
        } else if w[k] == '%' {
            lemma_blank_passed(t, p, w, k + 1, true);
        } else {
            lemma_blank_tail(t, p, w, k + 1);
        }
    }
}

/// Through the end: blank text that reaches the end of the input still
/// reaches it when blank text is put behind it.
proof fn lemma_skip_to_end(s: Seq<char>, t: Seq<char>, p: int, w: Seq<char>, i: int, comment: bool)
    requires
        widened(s, t, p, w),
        stands_at(t, p, w),
        is_blank(w),
        p == s.len(),
        0 <= i <= p,
        skip_blank_in(s, i, comment) == s.len(),
    ensures
        skip_blank_in(t, i, comment) == t.len(),
    decreases p - i,
{
    if i < p {
        assert(t[i] == s[i]);
        lemma_skip_blank(s, i + 1, true);
        lemma_skip_blank(s, i + 1, false);
        if comment {
            lemma_skip_to_end(s, t, p, w, i + 1, s[i] != '\n');
        } else if s[i] == '%' {
            lemma_skip_to_end(s, t, p, w, i + 1, true);
        } else if is_space(s[i]) {
            lemma_skip_to_end(s, t, p, w, i + 1, false);
        }
    } else {
        lemma_blank_tail(t, p, w, 0);
    }
}

/// Through the place: the blank text in which the place lies ends where it
/// ended, moved.
proof fn lemma_skip_gap(s: Seq<char>, t: Seq<char>, p: int, w: Seq<char>, i: int)
    requires
        widened(s, t, p, w),
        stands_at(t, p, w),
        is_blank(w),
        gap_token(s, i, p),
    ensures
        skip_blank(t, i) == skip_blank(s, i) + w.len(),
        p <= skip_blank(s, i) <= s.len(),
{
    lemma_skip_blank(s, i, false);
    lemma_skip_blank(s, p, false);
    if blank_until(s, i, false, p) {
        lemma_skip_through(s, t, p, w, i, false);
        lemma_blank_until(s, i, false, p);
    } else {
        lemma_skip_to_end(s, t, p, w, i, false);
    }
}

/// A reader that starts at or before the place passes over blank text that
/// ends before the place, or in which the place lies, or that ends behind
/// the place.
proof fn lemma_three_ways(s: Seq<char>, i: int, p: int)
    requires
        0 <= i <= p <= s.len(),
    ensures
        skip_blank(s, i) < p || gap_token(s, i, p) || skip_blank(s, i) > p,
{
    if skip_blank(s, i) == p {
        lemma_blank_stops(s, i, false, p);
    }
}

/// Before the place: blank text that ends before the place ends where it
/// ended.
proof fn lemma_skip_before(s: Seq<char>, t: Seq<char>, p: int, w: Seq<char>, i: int, comment: bool)
    requires
        widened(s, t, p, w),
        0 <= i,
        skip_blank_in(s, i, comment) < p,
    ensures
        skip_blank_in(t, i, comment) == skip_blank_in(s, i, comment),
    decreases s.len() - i,
{
    if i < s.len() {
        lemma_skip_blank(s, i + 1, true);
        lemma_skip_blank(s, i + 1, false);
        assert(i < p);
        assert(t[i] == s[i]);
        if comment {
            lemma_skip_before(s, t, p, w, i + 1, s[i] != '\n');
        } else if s[i] == '%' {
            lemma_skip_before(s, t, p, w, i + 1, true);
        } else if is_space(s[i]) {
            lemma_skip_before(s, t, p, w, i + 1, false);
        }
    }
}

/// Before the place: a run that ends before the place, or a run of
/// identifier characters or of digits that ends at it, ends where it ended.
proof fn lemma_run_before(
    s: Seq<char>,
    t: Seq<char>,
    p: int,
    w: Seq<char>,
    i: int,
    class: CharClass,
)
    requires
        widened(s, t, p, w),
        is_blank(w),
        w.len() > 0,
        0 <= i <= p,
        run_end(s, i, s.len() as int, class) < p || (run_end(s, i, s.len() as int, class) == p && (
        class is Word || class is Digit)),
    ensures
        run_end(t, i, t.len() as int, class) == run_end(s, i, s.len() as int, class),
{
    let e = run_end(s, i, s.len() as int, class);
    lemma_run_end(s, i, s.len() as int, class);
    assert forall|m: int| i <= m < e implies class.has(#[trigger] t[m]) by {
        assert(t[m] == s[m]);
        assert(class.has(s[m]));
    }
    if e < p {
        assert(t[e] == s[e]);
    } else {
        lemma_blank_start(w);
        assert(t[p + 0] == w[0]);
    }
    lemma_run_end_is(t, i, t.len() as int, class, e);
}

/// Before the place: a closing brace that is found before the place is found
/// where it was.
proof fn lemma_brace_before(s: Seq<char>, t: Seq<char>, p: int, w: Seq<char>, i: int, depth: nat)
    requires
        widened(s, t, p, w),
        0 <= i <= s.len(),
        brace_end(s, i, depth) < p,
    ensures
        brace_end(t, i, depth) == brace_end(s, i, depth),
    decreases s.len() - i,
{
    lemma_brace_end(s, i, depth);
    if i < s.len() {
        assert(t[i] == s[i]);
        if s[i] == '{' {
            lemma_brace_before(s, t, p, w, i + 1, depth + 1);
        } else if s[i] == '}' {
            if depth > 1 {
                lemma_brace_before(s, t, p, w, i + 1, (depth - 1) as nat);
            }
        } else {
            lemma_brace_before(s, t, p, w, i + 1, depth);
        }
    }
}

/// Before the place: a token that ends at or before the place is read as it
/// was.
proof fn lemma_expect_before(s: Seq<char>, t: Seq<char>, p: int, w: Seq<char>, i: int, c: char)
    requires
        widened(s, t, p, w),
        0 <= i <= s.len(),
        expect_char(s, i, c) matches Ok(n) && n <= p,
    ensures
        expect_char(t, i, c) == expect_char(s, i, c),
{
    lemma_skip_blank(s, i, false);
    lemma_skip_before(s, t, p, w, i, false);
    assert(t[skip_blank(s, i)] == s[skip_blank(s, i)]);
}

/// Before the place: an identifier that starts before the place and ends at
/// or before it is read as it was.
proof fn lemma_word_before(s: Seq<char>, t: Seq<char>, p: int, w: Seq<char>, i: int)
    requires
        widened(s, t, p, w),
        is_blank(w),
        w.len() > 0,
        0 <= i <= s.len(),
        word_at(s, i).0 < p,
        word_at(s, i).1 <= p,
    ensures
        word_at(t, i) == word_at(s, i),
        t.subrange(word_at(s, i).0, word_at(s, i).1) == s.subrange(
            word_at(s, i).0,
            word_at(s, i).1,
        ),
{
    lemma_skip_blank(s, i, false);
    lemma_skip_before(s, t, p, w, i, false);
    let j = skip_blank(s, i);
    lemma_run_end(s, j, s.len() as int, CharClass::Word);
    lemma_run_before(s, t, p, w, j, CharClass::Word);
    lemma_same_before(s, t, p, w, j, run_end(s, j, s.len() as int, CharClass::Word));
}

/// Before the place: a value that ends at or before the place is read as it
/// was.
proof fn lemma_value_before(s: Seq<char>, t: Seq<char>, p: int, w: Seq<char>, i: int)
    requires
        widened(s, t, p, w),
        is_blank(w),
        w.len() > 0,
        0 <= i <= s.len(),
        value_at(s, i) matches Ok((v, n)) && n <= p,
    ensures
        value_at(t, i) == value_at(s, i),
{
    lemma_skip_blank(s, i, false);
    let j = skip_blank(s, i);
    lemma_skip_blank_twice(s, i, false);
    lemma_value_at(s, i);
    assert(j < p) by {
        lemma_brace_end(s, j + 1, 1);
        lemma_run_end(s, j + 1, s.len() as int, CharClass::Except('"'));
        lemma_run_end(s, j, s.len() as int, CharClass::Digit);
    }
    lemma_skip_before(s, t, p, w, i, false);
    lemma_skip_before(s, t, p, w, j, false);
    assert(t[j] == s[j]);
    if s[j] == '{' {
        lemma_brace_end(s, j + 1, 1);
        lemma_brace_before(s, t, p, w, j + 1, 1);
        let e = brace_end(s, j + 1, 1);
        lemma_same_before(s, t, p, w, j + 1, e);
    } else if s[j] == '"' {
        lemma_run_end(s, j + 1, s.len() as int, CharClass::Except('"'));
        lemma_run_before(s, t, p, w, j + 1, CharClass::Except('"'));
        let e = run_end(s, j + 1, s.len() as int, CharClass::Except('"'));
        lemma_same_before(s, t, p, w, j + 1, e);
    } else {
        lemma_run_end(s, j, s.len() as int, CharClass::Digit);
        lemma_run_before(s, t, p, w, j, CharClass::Digit);
        lemma_same_before(s, t, p, w, j, run_end(s, j, s.len() as int, CharClass::Digit));
    }
}

/// Before the place: a field that ends at or before the place is read as it
/// was.
proof fn lemma_field_before(s: Seq<char>, t: Seq<char>, p: int, w: Seq<char>, i: int)
    requires
        widened(s, t, p, w),
        is_blank(w),
        w.len() > 0,
        0 <= i <= s.len(),
        field_at(s, i) matches Ok((f, n)) && n <= p,
    ensures
        field_at(t, i) == field_at(s, i),
{
    lemma_word_at(s, i);
    let (a, b) = word_at(s, i);
    lemma_expect_char(s, b, '=');
    let c = expect_char(s, b, '=')->Ok_0;
    lemma_value_at(s, c);
    lemma_word_before(s, t, p, w, i);
    lemma_expect_before(s, t, p, w, b, '=');
    lemma_value_before(s, t, p, w, c);
}

/// Before the place: fields whose closing brace stands before the place are
/// read as they were.
proof fn lemma_fields_before(s: Seq<char>, t: Seq<char>, p: int, w: Seq<char>, i: int)
    requires
        widened(s, t, p, w),
        is_blank(w),
        w.len() > 0,
        0 <= i <= s.len(),
        fields_at(s, i) matches Ok((fields, end)) && end < p,
    ensures
        fields_at(t, i) == fields_at(s, i),
    decreases s.len() - i,
{
    lemma_skip_blank(s, i, false);
    let j = skip_blank(s, i);
    lemma_fields_at(s, i);
    if j < s.len() && s[j] == '}' {
        lemma_skip_before(s, t, p, w, i, false);
        assert(t[j] == s[j]);
    } else {
        lemma_field_at(s, j);
        let n = field_at(s, j)->Ok_0.1;
        lemma_skip_blank(s, n, false);
        let m = skip_blank(s, n);
        if s[m] == ',' {
            lemma_fields_at(s, m + 1);
        }
        lemma_skip_before(s, t, p, w, i, false);
        lemma_field_before(s, t, p, w, j);
        lemma_skip_before(s, t, p, w, n, false);
        assert(t[m] == s[m]);
        if s[m] == ',' {
            lemma_fields_before(s, t, p, w, m + 1);
        }
    }
}

/// Before the place: an entry that ends at or before the place is read as it
/// was.
proof fn lemma_entry_before(s: Seq<char>, t: Seq<char>, p: int, w: Seq<char>, i: int)
    requires
        widened(s, t, p, w),
        is_blank(w),
        w.len() > 0,
        0 <= i <= s.len(),
        entry_at(s, i) matches Ok((entry, n)) && n <= p,
    ensures
        entry_at(t, i) == entry_at(s, i),
{
    lemma_expect_char(s, i, '@');
    let a = expect_char(s, i, '@')->Ok_0;
    lemma_word_at(s, a);
    let (k0, k1) = word_at(s, a);
    lemma_expect_char(s, k1, '{');
    let b = expect_char(s, k1, '{')->Ok_0;
    lemma_word_at(s, b);
    let (c0, c1) = word_at(s, b);
    lemma_expect_char(s, c1, ',');
    let d = expect_char(s, c1, ',')->Ok_0;
    lemma_fields_at(s, d);
    lemma_expect_before(s, t, p, w, i, '@');
    lemma_word_before(s, t, p, w, a);
    lemma_expect_before(s, t, p, w, k1, '{');
    lemma_word_before(s, t, p, w, b);
    lemma_expect_before(s, t, p, w, c1, ',');
    lemma_fields_before(s, t, p, w, d);
}

/// Whether `p` lies between two tokens of the field that is read from `i`:
/// before its name, before its `=`, or before its value.
pub open spec fn gap_field(s: Seq<char>, i: int, p: int) -> bool {
    let (x0, x1) = word_at(s, i);
    ||| gap_token(s, i, p)
    ||| gap_token(s, x1, p)
    ||| match expect_char(s, x1, '=') {
        Ok(c) => gap_token(s, c, p),
        Err(_) => false,
    }
}

/// Whether `p` lies between two tokens of the fields that are read from `i`:
/// before a field, inside one, or behind one.
pub open spec fn gap_fields(s: Seq<char>, i: int, p: int) -> bool
    decreases s.len() - i,
    when 0 <= i <= s.len()
    via gap_fields_decreases
{
    let j = skip_blank(s, i);
    ||| gap_token(s, i, p)
    ||| (!(j < s.len() && s[j] == '}') && (gap_field(s, j, p) || match field_at(s, j) {
        Ok((f, n)) => {
            let m = skip_blank(s, n);
            gap_token(s, n, p) || (m < s.len() && s[m] == ',' && gap_fields(s, m + 1, p))
        },
        Err(_) => false,
    }))
}

#[via_fn]
proof fn gap_fields_decreases(s: Seq<char>, i: int, p: int) {
    lemma_skip_blank(s, i, false);
    let j = skip_blank(s, i);
    lemma_field_at(s, j);
    if let Ok((f, n)) = field_at(s, j) {
        lemma_skip_blank(s, n, false);
    }
}

/// Whether `p` lies between two tokens of the entry that is read from `i`,
/// down to its closing brace.
pub open spec fn gap_entry(s: Seq<char>, i: int, p: int) -> bool {
    gap_token(s, i, p) || match expect_char(s, i, '@') {
        Err(_) => false,
        Ok(a) => {
            let (k0, k1) = word_at(s, a);
            gap_token(s, a, p) || gap_token(s, k1, p) || match expect_char(s, k1, '{') {
                Err(_) => false,
                Ok(b) => {
                    let (c0, c1) = word_at(s, b);
                    gap_token(s, b, p) || (c0 < c1 && (gap_token(s, c1, p) || match expect_char(
                        s,
                        c1,
                        ',',
                    ) {
                        Err(_) => false,
                        Ok(d) => gap_fields(s, d, p),
                    }))
                },
            }
        },
    }
}

/// Whether `p` lies between two tokens of the entries that are read from
/// `i`: before an entry, inside one, or behind one.
pub open spec fn gap_entries(s: Seq<char>, i: int, p: int) -> bool
    decreases s.len() - i,
    when 0 <= i <= s.len()
    via gap_entries_decreases
{
    let j = skip_blank(s, i);
    gap_token(s, i, p) || (j < s.len() && (gap_entry(s, j, p) || match entry_at(s, j) {
        Ok((entry, n)) => gap_entries(s, n, p),
        Err(_) => false,
    }))
}

#[via_fn]
proof fn gap_entries_decreases(s: Seq<char>, i: int, p: int) {
    lemma_skip_blank(s, i, false);
    lemma_entry_at(s, skip_blank(s, i));
}

/// Whether `p` is a place between two tokens of `s`: the parser, reading `s`
/// from its start, passes over blank text in which `p` lies. The start and
/// the end of the text are such places, as is the place behind any token
/// that was read; a place inside an identifier, a value or a comment is
/// none.
pub open spec fn between_tokens(s: Seq<char>, p: int) -> bool {
    gap_entries(s, 0, p)
}

/// The start of a text is a place between tokens.
pub proof fn law_start_is_between(s: Seq<char>)
    ensures
        between_tokens(s, 0),
{
}

/// A place between the tokens of a field does not lie before the field.
proof fn lemma_gap_field_bound(s: Seq<char>, i: int, p: int)
    requires
        0 <= i <= s.len(),
        gap_field(s, i, p),
    ensures
        i <= p <= s.len(),
{
    lemma_word_at(s, i);
    lemma_expect_char(s, word_at(s, i).1, '=');
}

/// A place between the tokens of fields does not lie before the fields.
proof fn lemma_gap_fields_bound(s: Seq<char>, i: int, p: int)
    requires
        0 <= i <= s.len(),
        gap_fields(s, i, p),
    ensures
        i <= p <= s.len(),
    decreases s.len() - i,
{
    lemma_skip_blank(s, i, false);
    let j = skip_blank(s, i);
    if !gap_token(s, i, p) {
        if gap_field(s, j, p) {
            lemma_gap_field_bound(s, j, p);
        } else {
            lemma_field_at(s, j);
            let n = field_at(s, j)->Ok_0.1;
            lemma_skip_blank(s, n, false);
            if !gap_token(s, n, p) {
                lemma_gap_fields_bound(s, skip_blank(s, n) + 1, p);
            }
        }
    }
}

/// A place between the tokens of an entry does not lie before the entry.
proof fn lemma_gap_entry_bound(s: Seq<char>, i: int, p: int)
    requires
        0 <= i <= s.len(),
        gap_entry(s, i, p),
    ensures
        i <= p <= s.len(),
{
    if !gap_token(s, i, p) {
        lemma_expect_char(s, i, '@');
        let a = expect_char(s, i, '@')->Ok_0;
        lemma_word_at(s, a);
        let (k0, k1) = word_at(s, a);
        if !gap_token(s, a, p) && !gap_token(s, k1, p) {
            lemma_expect_char(s, k1, '{');
            let b = expect_char(s, k1, '{')->Ok_0;
            lemma_word_at(s, b);
            let (c0, c1) = word_at(s, b);
            if !gap_token(s, b, p) && !gap_token(s, c1, p) {
                lemma_expect_char(s, c1, ',');
                lemma_gap_fields_bound(s, expect_char(s, c1, ',')->Ok_0, p);
            }
        }
    }
}

/// A place between the tokens of entries does not lie before the entries.
proof fn lemma_gap_entries_bound(s: Seq<char>, i: int, p: int)
    requires
        0 <= i <= s.len(),
        gap_entries(s, i, p),
    ensures
        i <= p <= s.len(),
    decreases s.len() - i,
{
    lemma_skip_blank(s, i, false);
    let j = skip_blank(s, i);
    if !gap_token(s, i, p) {
        if gap_entry(s, j, p) {
            lemma_gap_entry_bound(s, j, p);
        } else {
            lemma_entry_at(s, j);
            lemma_gap_entries_bound(s, entry_at(s, j)->Ok_0.1, p);
        }
    }
}

/// Through the place: a token before which the place lies is read as it
/// was, moved.
proof fn lemma_expect_gap(s: Seq<char>, t: Seq<char>, p: int, w: Seq<char>, i: int, c: char)
    requires
        widened(s, t, p, w),
        stands_at(t, p, w),
        is_blank(w),
        gap_token(s, i, p),
    ensures
        moved_token(expect_char(s, i, c), expect_char(t, i, c), w.len() as int),
        expect_char(s, i, c) matches Ok(n) ==> p < n,
{
    lemma_skip_gap(s, t, p, w, i);
    let j = skip_blank(s, i);
    if j < s.len() {
        assert(t[j + w.len()] == s[j]);
    }
}

/// Through the place: an identifier before which the place lies is read as
/// it was, moved.
proof fn lemma_word_gap(s: Seq<char>, t: Seq<char>, p: int, w: Seq<char>, i: int)
    requires
        widened(s, t, p, w),
        stands_at(t, p, w),
        is_blank(w),
        gap_token(s, i, p),
    ensures
        word_at(t, i) == (word_at(s, i).0 + w.len(), word_at(s, i).1 + w.len()),
        t.subrange(word_at(t, i).0, word_at(t, i).1) == s.subrange(
            word_at(s, i).0,
            word_at(s, i).1,
        ),
        p <= word_at(s, i).0 <= word_at(s, i).1 <= s.len(),
{
    lemma_skip_gap(s, t, p, w, i);
    let j = skip_blank(s, i);
    lemma_run_behind(s, t, p, w, j, CharClass::Word);
    lemma_run_end(s, j, s.len() as int, CharClass::Word);
    lemma_same_behind(s, t, p, w, j, run_end(s, j, s.len() as int, CharClass::Word));
}

/// Through the place: a value before which the place lies is read as it
/// was, moved.
proof fn lemma_value_gap(s: Seq<char>, t: Seq<char>, p: int, w: Seq<char>, i: int)
    requires
        widened(s, t, p, w),
        stands_at(t, p, w),
        is_blank(w),
        gap_token(s, i, p),
    ensures
        moved(value_at(s, i), value_at(t, i), w.len() as int),
        value_at(s, i) matches Ok((v, n)) ==> p < n,
{
    lemma_skip_gap(s, t, p, w, i);
    let j = skip_blank(s, i);
    lemma_skip_blank_twice(s, i, false);
    lemma_skip_blank_twice(t, i, false);
    lemma_skip_blank(t, i, false);
    assert(value_at(s, i) == value_at(s, j));
    assert(value_at(t, i) == value_at(t, j + w.len()));
    lemma_value_behind(s, t, p, w, j);
    lemma_value_at(s, j);
}

/// Through the place: a field between whose tokens the place lies is read
/// as it was, moved.
proof fn lemma_field_put(s: Seq<char>, t: Seq<char>, p: int, w: Seq<char>, i: int)
    requires
        widened(s, t, p, w),
        stands_at(t, p, w),
        is_blank(w),
        w.len() > 0,
        0 <= i <= s.len(),
        gap_field(s, i, p),
    ensures
        moved(field_at(s, i), field_at(t, i), w.len() as int),
        field_at(s, i) matches Ok((f, n)) ==> p < n,
{
    lemma_word_at(s, i);
    let (x0, x1) = word_at(s, i);
    lemma_expect_char(s, x1, '=');
    if gap_token(s, i, p) {
        lemma_word_gap(s, t, p, w, i);
        lemma_expect_behind(s, t, p, w, x1, '=');
        if let Ok(c) = expect_char(s, x1, '=') {
            lemma_value_behind(s, t, p, w, c);
            lemma_value_at(s, c);
        }
    } else {
        lemma_three_ways(s, i, p);
        lemma_word_before(s, t, p, w, i);
        if gap_token(s, x1, p) {
            lemma_expect_gap(s, t, p, w, x1, '=');
            if let Ok(c) = expect_char(s, x1, '=') {
                lemma_value_behind(s, t, p, w, c);
                lemma_value_at(s, c);
            }
        } else {
            let c = expect_char(s, x1, '=')->Ok_0;
            lemma_expect_before(s, t, p, w, x1, '=');
            lemma_value_gap(s, t, p, w, c);
        }
    }
}

/// Through the place: what follows a field, the place lying behind the
/// field, is read as it was, moved.
proof fn lemma_fields_rest_behind(s: Seq<char>, t: Seq<char>, p: int, w: Seq<char>, n: int)
    requires
        widened(s, t, p, w),
        p <= n <= s.len(),
    ensures
        skip_blank(t, n + w.len()) == skip_blank(s, n) + w.len(),
        n <= skip_blank(s, n) <= s.len(),
        skip_blank(s, n) < s.len() ==> t[skip_blank(s, n) + w.len()] == s[skip_blank(s, n)],
        skip_blank(s, n) < s.len() ==> moved(
            fields_at(s, skip_blank(s, n) + 1),
            fields_at(t, skip_blank(s, n) + 1 + w.len()),
            w.len() as int,
        ),
{
    lemma_skip_behind(s, t, p, w, n, false);
    lemma_skip_blank(s, n, false);
    let m = skip_blank(s, n);
    if m < s.len() {
        assert(t[m + w.len()] == s[m]);
        lemma_fields_behind(s, t, p, w, m + 1);
    }
}

/// Through the place: fields between whose tokens the place lies are read
/// as they were, moved.
proof fn lemma_fields_put(s: Seq<char>, t: Seq<char>, p: int, w: Seq<char>, i: int)
    requires
        widened(s, t, p, w),
        stands_at(t, p, w),
        is_blank(w),
        w.len() > 0,
        0 <= i <= s.len(),
        gap_fields(s, i, p),
    ensures
        moved(fields_at(s, i), fields_at(t, i), w.len() as int),
    decreases s.len() - i,
{
    let d = w.len() as int;
    lemma_skip_blank(s, i, false);
    let j = skip_blank(s, i);
    lemma_gap_fields_bound(s, i, p);
    if gap_token(s, i, p) {
        lemma_skip_gap(s, t, p, w, i);
        lemma_skip_blank_twice(s, i, false);
        lemma_skip_blank_twice(t, i, false);
        lemma_skip_blank(t, i, false);
        assert(fields_at(s, i) == fields_at(s, j));
        assert(fields_at(t, i) == fields_at(t, j + d));
        lemma_fields_behind(s, t, p, w, j);
    } else {
        lemma_field_at(s, j);
        if gap_field(s, j, p) {
            lemma_gap_field_bound(s, j, p);
        } else {
            let n = field_at(s, j)->Ok_0.1;
            lemma_skip_blank(s, n, false);
            if !gap_token(s, n, p) {
                lemma_gap_fields_bound(s, skip_blank(s, n) + 1, p);
            }
        }
        lemma_three_ways(s, i, p);
        assert(j < p);
        lemma_skip_before(s, t, p, w, i, false);
        assert(t[j] == s[j]);
        if gap_field(s, j, p) {
            lemma_field_put(s, t, p, w, j);
            if let Ok((f, n)) = field_at(s, j) {
                lemma_fields_rest_behind(s, t, p, w, n);
            }
        } else {
            let n = field_at(s, j)->Ok_0.1;
            lemma_field_before(s, t, p, w, j);
            lemma_skip_blank(s, n, false);
            let m = skip_blank(s, n);
            if gap_token(s, n, p) {
                lemma_skip_gap(s, t, p, w, n);
                if m < s.len() {
                    assert(t[m + d] == s[m]);
                    lemma_fields_behind(s, t, p, w, m + 1);
                }
            } else {
                lemma_gap_fields_bound(s, m + 1, p);
                lemma_skip_before(s, t, p, w, n, false);
                assert(t[m] == s[m]);
                lemma_fields_put(s, t, p, w, m + 1);
            }
        }
    }
}

/// The rest of an entry behind its citekey: `,`, the fields and the closing
/// brace.
spec fn entry_rest(s: Seq<char>, kind: Seq<char>, citekey: Seq<char>, c1: int) -> Result<
    (RawEntryView, int),
    ErrorView,
> {
    match expect_char(s, c1, ',') {
        Err(e) => Err(e),
        Ok(d) => match fields_at(s, d) {
            Err(e) => Err(e),
            Ok((fields, end)) => Ok(
                (RawEntryView { kind: super::entry::kind_of(kind), citekey, fields }, end + 1),
            ),
        },
    }
}

/// The body of an entry behind its opening brace: the citekey and the rest.
spec fn entry_body(s: Seq<char>, kind: Seq<char>, b: int) -> Result<
    (RawEntryView, int),
    ErrorView,
> {
    let (c0, c1) = word_at(s, b);
    if c0 == c1 {
        if c0 >= s.len() {
            Err(ErrorView::UnexpectedEndOfInput)
        } else {
            Err(super::parser::missing_citekey())
        }
    } else {
        entry_rest(s, kind, s.subrange(c0, c1), c1)
    }
}

/// An entry behind its `@`: the kind, the opening brace and the body.
spec fn entry_head(s: Seq<char>, a: int) -> Result<(RawEntryView, int), ErrorView> {
    let (k0, k1) = word_at(s, a);
    match expect_char(s, k1, '{') {
        Err(e) => Err(e),
        Ok(b) => entry_body(s, s.subrange(k0, k1), b),
    }
}

/// An entry is its `@` and what stands behind it.
proof fn lemma_entry_parts(s: Seq<char>, i: int)
    ensures
        entry_at(s, i) == match expect_char(s, i, '@') {
            Err(e) => Err::<(RawEntryView, int), ErrorView>(e),
            Ok(a) => entry_head(s, a),
        },
{
}

/// Behind the place: the rest of an entry is read as it was, moved.
proof fn lemma_rest_behind(
    s: Seq<char>,
    t: Seq<char>,
    p: int,
    w: Seq<char>,
    kind: Seq<char>,
    citekey: Seq<char>,
    c1: int,
)
    requires
        widened(s, t, p, w),
        p <= c1 <= s.len(),
    ensures
        moved(
            entry_rest(s, kind, citekey, c1),
            entry_rest(t, kind, citekey, c1 + w.len()),
            w.len() as int,
        ),
{
    lemma_expect_behind(s, t, p, w, c1, ',');
    lemma_expect_char(s, c1, ',');
    if let Ok(d) = expect_char(s, c1, ',') {
        lemma_fields_behind(s, t, p, w, d);
    }
}

/// Behind the place: the body of an entry is read as it was, moved.
proof fn lemma_body_behind(
    s: Seq<char>,
    t: Seq<char>,
    p: int,
    w: Seq<char>,
    kind: Seq<char>,
    b: int,
)
    requires
        widened(s, t, p, w),
        p <= b <= s.len(),
    ensures
        moved(entry_body(s, kind, b), entry_body(t, kind, b + w.len()), w.len() as int),
{
    lemma_word_behind(s, t, p, w, b);
    lemma_word_at(s, b);
    let (c0, c1) = word_at(s, b);
    lemma_rest_behind(s, t, p, w, kind, s.subrange(c0, c1), c1);
}

/// Behind the place: an entry behind its `@` is read as it was, moved.
proof fn lemma_head_behind(s: Seq<char>, t: Seq<char>, p: int, w: Seq<char>, a: int)
    requires
        widened(s, t, p, w),
        p <= a <= s.len(),
    ensures
        moved(entry_head(s, a), entry_head(t, a + w.len()), w.len() as int),
{
    lemma_word_behind(s, t, p, w, a);
    lemma_word_at(s, a);
    let (k0, k1) = word_at(s, a);
    lemma_expect_behind(s, t, p, w, k1, '{');
    lemma_expect_char(s, k1, '{');
    if let Ok(b) = expect_char(s, k1, '{') {
        lemma_body_behind(s, t, p, w, s.subrange(k0, k1), b);
    }
}

/// Whether `p` lies between two tokens of the rest of an entry.
spec fn gap_rest(s: Seq<char>, c1: int, p: int) -> bool {
    gap_token(s, c1, p) || match expect_char(s, c1, ',') {
        Err(_) => false,
        Ok(d) => gap_fields(s, d, p),
    }
}

/// Whether `p` lies between two tokens of the body of an entry.
spec fn gap_body(s: Seq<char>, b: int, p: int) -> bool {
    let (c0, c1) = word_at(s, b);
    gap_token(s, b, p) || (c0 < c1 && gap_rest(s, c1, p))
}

/// Whether `p` lies between two tokens of an entry behind its `@`.
spec fn gap_head(s: Seq<char>, a: int, p: int) -> bool {
    let (k0, k1) = word_at(s, a);
    gap_token(s, a, p) || gap_token(s, k1, p) || match expect_char(s, k1, '{') {
        Err(_) => false,
        Ok(b) => gap_body(s, b, p),
    }
}

/// Through the place: the rest of an entry is read as it was, moved.
proof fn lemma_rest_put(
    s: Seq<char>,
    t: Seq<char>,
    p: int,
    w: Seq<char>,
    kind: Seq<char>,
    citekey: Seq<char>,
    c1: int,
)
    requires
        widened(s, t, p, w),
        stands_at(t, p, w),
        is_blank(w),
        w.len() > 0,
        0 <= c1 <= s.len(),
        gap_rest(s, c1, p),
    ensures
        moved(entry_rest(s, kind, citekey, c1), entry_rest(t, kind, citekey, c1), w.len() as int),
        c1 <= p,
{
    lemma_expect_char(s, c1, ',');
    if gap_token(s, c1, p) {
        lemma_expect_gap(s, t, p, w, c1, ',');
        if let Ok(d) = expect_char(s, c1, ',') {
            lemma_fields_behind(s, t, p, w, d);
        }
    } else {
        let d = expect_char(s, c1, ',')->Ok_0;
        lemma_gap_fields_bound(s, d, p);
        lemma_expect_before(s, t, p, w, c1, ',');
        lemma_fields_put(s, t, p, w, d);
    }
}

/// Through the place: the body of an entry is read as it was, moved.
proof fn lemma_body_put(s: Seq<char>, t: Seq<char>, p: int, w: Seq<char>, kind: Seq<char>, b: int)
    requires
        widened(s, t, p, w),
        stands_at(t, p, w),
        is_blank(w),
        w.len() > 0,
        0 <= b <= s.len(),
        gap_body(s, b, p),
    ensures
        moved(entry_body(s, kind, b), entry_body(t, kind, b), w.len() as int),
        b <= p,
{
    lemma_word_at(s, b);
    let (c0, c1) = word_at(s, b);
    if gap_token(s, b, p) {
        lemma_word_gap(s, t, p, w, b);
        lemma_rest_behind(s, t, p, w, kind, s.subrange(c0, c1), c1);
    } else {
        lemma_rest_put(s, t, p, w, kind, s.subrange(c0, c1), c1);
        lemma_three_ways(s, b, p);
        lemma_word_before(s, t, p, w, b);
    }
}

/// Through the place: an entry behind its `@` is read as it was, moved.
proof fn lemma_head_put(s: Seq<char>, t: Seq<char>, p: int, w: Seq<char>, a: int)
    requires
        widened(s, t, p, w),
        stands_at(t, p, w),
        is_blank(w),
        w.len() > 0,
        0 <= a <= s.len(),
        gap_head(s, a, p),
    ensures
        moved(entry_head(s, a), entry_head(t, a), w.len() as int),
        a <= p,
{
    lemma_word_at(s, a);
    let (k0, k1) = word_at(s, a);
    lemma_expect_char(s, k1, '{');
    if gap_token(s, a, p) {
        lemma_word_gap(s, t, p, w, a);
        lemma_expect_behind(s, t, p, w, k1, '{');
        if let Ok(b) = expect_char(s, k1, '{') {
            lemma_body_behind(s, t, p, w, s.subrange(k0, k1), b);
        }
    } else {
        if !gap_token(s, k1, p) {
            let b = expect_char(s, k1, '{')->Ok_0;
            lemma_body_put(s, t, p, w, s.subrange(k0, k1), b);
        }
        lemma_three_ways(s, a, p);
        lemma_word_before(s, t, p, w, a);
        if gap_token(s, k1, p) {
            lemma_expect_gap(s, t, p, w, k1, '{');
            if let Ok(b) = expect_char(s, k1, '{') {
                lemma_body_behind(s, t, p, w, s.subrange(k0, k1), b);
            }
        } else {
            lemma_expect_before(s, t, p, w, k1, '{');
        }
    }
}

/// Through the place: an entry between whose tokens the place lies is read
/// as it was, moved.
proof fn lemma_entry_put(s: Seq<char>, t: Seq<char>, p: int, w: Seq<char>, i: int)
    requires
        widened(s, t, p, w),
        stands_at(t, p, w),
        is_blank(w),
        w.len() > 0,
        0 <= i <= s.len(),
        gap_entry(s, i, p),
    ensures
        moved(entry_at(s, i), entry_at(t, i), w.len() as int),
        entry_at(s, i) matches Ok((entry, n)) ==> p < n,
{
    lemma_entry_parts(s, i);
    lemma_entry_parts(t, i);
    lemma_expect_char(s, i, '@');
    lemma_entry_end(s, i);
    if gap_token(s, i, p) {
        lemma_expect_gap(s, t, p, w, i, '@');
        if let Ok(a) = expect_char(s, i, '@') {
            lemma_head_behind(s, t, p, w, a);
        }
    } else {
        let a = expect_char(s, i, '@')->Ok_0;
        assert(gap_head(s, a, p));
        lemma_head_put(s, t, p, w, a);
        lemma_expect_before(s, t, p, w, i, '@');
        lemma_gap_end(s, i, p);
    }
}

/// An entry that was read ends behind everything that was read of it.
proof fn lemma_entry_end(s: Seq<char>, i: int)
    requires
        0 <= i <= s.len(),
    ensures
        entry_at(s, i) matches Ok((entry, n)) ==> ({
            let a = expect_char(s, i, '@')->Ok_0;
            let k1 = word_at(s, a).1;
            let b = expect_char(s, k1, '{')->Ok_0;
            let c1 = word_at(s, b).1;
            let d = expect_char(s, c1, ',')->Ok_0;
            let end = fields_at(s, d)->Ok_0.1;
            &&& i < a <= skip_blank(s, a) <= k1 <= skip_blank(s, k1) < b <= skip_blank(s, b) < c1
                <= skip_blank(s, c1) < d <= end < n
            &&& n == end + 1
        }),
{
    lemma_expect_char(s, i, '@');
    if let Ok(a) = expect_char(s, i, '@') {
        lemma_word_at(s, a);
        lemma_skip_blank(s, a, false);
        let (k0, k1) = word_at(s, a);
        lemma_expect_char(s, k1, '{');
        lemma_skip_blank(s, k1, false);
        if let Ok(b) = expect_char(s, k1, '{') {
            lemma_word_at(s, b);
            lemma_skip_blank(s, b, false);
            let (c0, c1) = word_at(s, b);
            lemma_expect_char(s, c1, ',');
            lemma_skip_blank(s, c1, false);
            if let Ok(d) = expect_char(s, c1, ',') {
                lemma_fields_at(s, d);
            }
        }
    }
}

/// Where fields were read with the place between their tokens, the closing
/// brace stands at or behind the place.
proof fn lemma_gap_fields_end(s: Seq<char>, i: int, p: int)
    requires
        0 <= i <= s.len(),
        gap_fields(s, i, p),
    ensures
        fields_at(s, i) matches Ok((fields, end)) ==> p <= end,
    decreases s.len() - i,
{
    lemma_skip_blank(s, i, false);
    let j = skip_blank(s, i);
    lemma_fields_at(s, i);
    if gap_token(s, i, p) {
        lemma_blank_reach(s, i, p);
        if let Ok((fields, end)) = fields_at(s, i) {
            lemma_skip_blank_twice(s, i, false);
            assert(fields_at(s, i) == fields_at(s, j));
            lemma_fields_at(s, j);
        }
    } else if let Ok((fields, end)) = fields_at(s, i) {
        lemma_field_at(s, j);
        let n = field_at(s, j)->Ok_0.1;
        lemma_skip_blank(s, n, false);
        let m = skip_blank(s, n);
        if s[m] == ',' {
            lemma_fields_at(s, m + 1);
        }
        if gap_field(s, j, p) {
            lemma_gap_field_end(s, j, p);
        } else if gap_token(s, n, p) {
            lemma_blank_reach(s, n, p);
        } else {
            lemma_gap_fields_end(s, m + 1, p);
        }
    }
}

/// The blank text in which the place lies ends at or behind the place.
proof fn lemma_blank_reach(s: Seq<char>, i: int, p: int)
    requires
        gap_token(s, i, p),
    ensures
        p <= skip_blank(s, i) <= s.len(),
{
    lemma_skip_blank(s, i, false);
    lemma_skip_blank(s, p, false);
    if blank_until(s, i, false, p) {
        lemma_blank_until(s, i, false, p);
    }
}

/// Where a field was read with the place between its tokens, it ends behind
/// the place.
proof fn lemma_gap_field_end(s: Seq<char>, i: int, p: int)
    requires
        0 <= i <= s.len(),
        gap_field(s, i, p),
    ensures
        field_at(s, i) matches Ok((f, n)) ==> p < n,
{
    lemma_word_at(s, i);
    let (x0, x1) = word_at(s, i);
    lemma_expect_char(s, x1, '=');
    if let Ok(c) = expect_char(s, x1, '=') {
        lemma_value_at(s, c);
        lemma_skip_blank(s, c, false);
        let j = skip_blank(s, c);
        lemma_skip_blank_twice(s, c, false);
        assert(value_at(s, c) == value_at(s, j));
        lemma_value_at(s, j);
        if gap_token(s, i, p) {
            lemma_blank_reach(s, i, p);
        } else if gap_token(s, x1, p) {
            lemma_blank_reach(s, x1, p);
        } else {
            lemma_blank_reach(s, c, p);
        }
    }
}

/// Where an entry was read with the place between its tokens, it ends
/// behind the place.
proof fn lemma_gap_end(s: Seq<char>, i: int, p: int)
    requires
        0 <= i <= s.len(),
        gap_entry(s, i, p),
    ensures
        entry_at(s, i) matches Ok((entry, n)) ==> p < n,
{
    lemma_entry_end(s, i);
    if let Ok((entry, n)) = entry_at(s, i) {
        let a = expect_char(s, i, '@')->Ok_0;
        let k1 = word_at(s, a).1;
        let b = expect_char(s, k1, '{')->Ok_0;
        let c1 = word_at(s, b).1;
        let d = expect_char(s, c1, ',')->Ok_0;
        if gap_token(s, i, p) {
            lemma_blank_reach(s, i, p);
        } else if gap_token(s, a, p) {
            lemma_blank_reach(s, a, p);
        } else if gap_token(s, k1, p) {
            lemma_blank_reach(s, k1, p);
        } else if gap_token(s, b, p) {
            lemma_blank_reach(s, b, p);
        } else if gap_token(s, c1, p) {
            lemma_blank_reach(s, c1, p);
        } else {
            lemma_gap_fields_end(s, d, p);
        }
    }
}

/// Through the place: entries between whose tokens the place lies are read
/// as they were.
proof fn lemma_entries_put(s: Seq<char>, t: Seq<char>, p: int, w: Seq<char>, i: int)
    requires
        widened(s, t, p, w),
        stands_at(t, p, w),
        is_blank(w),
        w.len() > 0,
        0 <= i <= s.len(),
        gap_entries(s, i, p),
    ensures
        same_outcome(entries_at(s, i), entries_at(t, i)),
    decreases s.len() - i,
{
    let d = w.len() as int;
    lemma_skip_blank(s, i, false);
    let j = skip_blank(s, i);
    lemma_gap_entries_bound(s, i, p);
    if gap_token(s, i, p) {
        lemma_skip_gap(s, t, p, w, i);
        lemma_skip_blank_twice(s, i, false);
        lemma_skip_blank_twice(t, i, false);
        lemma_skip_blank(t, i, false);
        assert(entries_at(s, i) == entries_at(s, j));
        assert(entries_at(t, i) == entries_at(t, j + d));
        lemma_entries_behind(s, t, p, w, j);
    } else {
        lemma_entry_at(s, j);
        if gap_entry(s, j, p) {
            lemma_gap_entry_bound(s, j, p);
        } else {
            lemma_gap_entries_bound(s, entry_at(s, j)->Ok_0.1, p);
        }
        lemma_three_ways(s, i, p);
        assert(j < p);
        lemma_skip_before(s, t, p, w, i, false);
        if gap_entry(s, j, p) {
            lemma_entry_put(s, t, p, w, j);
            if let Ok((entry, n)) = entry_at(s, j) {
                lemma_entries_behind(s, t, p, w, n);
            }
        } else {
            let n = entry_at(s, j)->Ok_0.1;
            lemma_entry_before(s, t, p, w, j);
            lemma_entries_put(s, t, p, w, n);
        }
    }
}

/// Blank text between tokens does not count. Where `p` is a place between
/// two tokens of `s`, and `w` is blank text, `s` with `w` put in at `p`
/// parses to what `s` parses to: the same entries, or the same fault. Only
/// the line and the column of the fault may differ, since the text behind
/// the place has moved.
pub proof fn law_blank_between_tokens(s: Seq<char>, p: int, w: Seq<char>)
    requires
        between_tokens(s, p),
        is_blank(w),
    ensures
        same_outcome(document_at(s, 0), document_at(put_in(s, p, w), 0)),
        same_outcome(super::bibliography(s), super::bibliography(put_in(s, p, w))),
{
    let t = put_in(s, p, w);
    lemma_gap_entries_bound(s, 0, p);
    lemma_skip_blank(s, 0, false);
    let j = skip_blank(s, 0);
    if gap_token(s, 0, p) {
    } else if gap_entry(s, j, p) {
        lemma_gap_entry_bound(s, j, p);
    } else {
        lemma_entry_at(s, j);
        lemma_gap_entries_bound(s, entry_at(s, j)->Ok_0.1, p);
    }
    lemma_put_in(s, p, w);
    if w.len() == 0 {
        assert(t =~= s);
    } else {
        lemma_entries_put(s, t, p, w, 0);
        if gap_token(s, 0, p) {
            lemma_skip_gap(s, t, p, w, 0);
        } else {
            lemma_three_ways(s, 0, p);
            lemma_skip_before(s, t, p, w, 0, false);
        }
        super::laws::law_never_empty(s, 0);
        super::laws::law_never_empty(t, 0);
    }
}

/// Comments are stripped. A comment line, from its `%` to its line feed, put
/// between two tokens of a source text changes nothing of what the text
/// parses to.
pub proof fn law_comment_line(s: Seq<char>, p: int, text: Seq<char>)
    requires
        between_tokens(s, p),
        forall|k: int| 0 <= k < text.len() ==> text[k] != '\n',
    ensures
        same_outcome(
            document_at(s, 0),
            document_at(put_in(s, p, seq!['%'] + text + seq!['\n']), 0),
        ),
        same_outcome(
            super::bibliography(s),
            super::bibliography(put_in(s, p, seq!['%'] + text + seq!['\n'])),
        ),
{
    super::laws::lemma_comment_line(text);
    law_blank_between_tokens(s, p, seq!['%'] + text + seq!['\n']);
}

} // verus!
