//! Characters and character runs: the vocabulary every other module is
//! specified in.

use super::error::Reason;
use vstd::prelude::*;

verus! {

/// Taken on trust from the documentation of the standard library, not
/// proved: `String::push` appends the given character to the end of the
/// string and changes nothing else.
pub assume_specification[ String::push ](s: &mut String, c: char)
    ensures
        final(s)@ == old(s)@.push(c),
;

/// ASCII whitespace: space, tab, line feed, form feed, carriage return.
///
/// Whitespace is ASCII whitespace throughout this crate, in the source text
/// and in the text of a field alike. No other character counts: a vertical
/// tab or a no-break space is part of the text it stands in.
pub open spec fn is_space(c: char) -> bool {
    c == ' ' || c == '\t' || c == '\n' || c == '\x0C' || c == '\r'
}

/// An ASCII decimal digit.
pub open spec fn is_digit(c: char) -> bool {
    '0' <= c <= '9'
}

/// An ASCII letter.
pub open spec fn is_letter(c: char) -> bool {
    ('a' <= c <= 'z') || ('A' <= c <= 'Z')
}

/// A character of an identifier: an ASCII letter or digit, `-`, `:` or `_`.
pub open spec fn is_word_char(c: char) -> bool {
    is_letter(c) || is_digit(c) || c == '-' || c == ':' || c == '_'
}

/// The ASCII lower-case form of a character; characters outside `A`..`Z`
/// are left alone.
///
/// Letter case is ASCII letter case throughout this crate: names are
/// compared with the letters `A` to `Z` folded onto `a` to `z` and every
/// other character taken as it is. The Kelvin sign is no `k`.
pub open spec fn lower(c: char) -> char {
    if 'A' <= c <= 'Z' {
        ((c as u8) + 32) as char
    } else {
        c
    }
}

/// A text with every character replaced by its ASCII lower-case form.
pub open spec fn lower_text(s: Seq<char>) -> Seq<char> {
    Seq::new(s.len(), |i: int| lower(s[i]))
}

/// Two texts are the same word when they agree up to ASCII letter case.
/// This is the rule for the names of kinds, fields, months and days.
pub open spec fn same_word(a: Seq<char>, b: Seq<char>) -> bool {
    lower_text(a) =~= lower_text(b)
}

/// The sets of characters that the scanners look for.
#[derive(Clone, Copy, Debug)]
pub enum CharClass {
    /// ASCII whitespace.
    Space,
    /// Anything but ASCII whitespace.
    NonSpace,
    /// Identifier characters.
    Word,
    /// ASCII decimal digits.
    Digit,
    /// Every character but the given one.
    Except(char),
}

impl CharClass {
    /// Whether the class holds the character.
    pub open spec fn has(self, c: char) -> bool {
        match self {
            CharClass::Space => is_space(c),
            CharClass::NonSpace => !is_space(c),
            CharClass::Word => is_word_char(c),
            CharClass::Digit => is_digit(c),
            CharClass::Except(x) => c != x,
        }
    }

    /// Tests a character against the class.
    pub fn contains(self, c: char) -> (b: bool)
        ensures
            b == self.has(c),
    {
        match self {
            CharClass::Space => space(c),
            CharClass::NonSpace => !space(c),
            CharClass::Word => word_char(c),
            CharClass::Digit => digit(c),
            CharClass::Except(x) => c != x,
        }
    }
}

/// Where the longest run of `class` characters that starts at `i` ends, the
/// run never reaching past `j`.
pub open spec fn run_end(s: Seq<char>, i: int, j: int, class: CharClass) -> int
    decreases j - i,
{
    if i < j && class.has(s[i]) {
        run_end(s, i + 1, j, class)
    } else {
        i
    }
}

/// Where the longest run of `class` characters that ends at `j` starts, the
/// run never reaching before `i`.
pub open spec fn run_start(s: Seq<char>, i: int, j: int, class: CharClass) -> int
    decreases j - i,
{
    if i < j && class.has(s[j - 1]) {
        run_start(s, i, j - 1, class)
    } else {
        j
    }
}

/// `run_end` stays in range, everything before it is in the class, and the
/// character it stops at is not.
pub proof fn lemma_run_end(s: Seq<char>, i: int, j: int, class: CharClass)
    requires
        i <= j,
    ensures
        i <= run_end(s, i, j, class) <= j,
        forall|m: int| i <= m < run_end(s, i, j, class) ==> class.has(#[trigger] s[m]),
        run_end(s, i, j, class) < j ==> !class.has(s[run_end(s, i, j, class)]),
    decreases j - i,
{
    if i < j && class.has(s[i]) {
        lemma_run_end(s, i + 1, j, class);
    }
}

/// The three facts of `lemma_run_end` single out one position.
pub proof fn lemma_run_end_is(s: Seq<char>, i: int, j: int, class: CharClass, k: int)
    requires
        i <= k <= j,
        forall|m: int| i <= m < k ==> class.has(#[trigger] s[m]),
        k < j ==> !class.has(s[k]),
    ensures
        run_end(s, i, j, class) == k,
    decreases j - i,
{
    if i < k {
        lemma_run_end_is(s, i + 1, j, class, k);
    }
}

/// `run_start` is the one position between `i` and `j` behind which
/// everything up to `j` is in the class and before which stands a character
/// that is not.
pub proof fn lemma_run_start_is(s: Seq<char>, i: int, j: int, class: CharClass, k: int)
    requires
        i <= k <= j,
        forall|m: int| k <= m < j ==> class.has(#[trigger] s[m]),
        i < k ==> !class.has(s[k - 1]),
    ensures
        run_start(s, i, j, class) == k,
    decreases j - i,
{
    if k < j {
        lemma_run_start_is(s, i, j - 1, class, k);
    }
}

/// The text between `i` and `j` without the whitespace at either end, as the
/// pair of positions where what is left starts and ends.
pub open spec fn trimmed(s: Seq<char>, i: int, j: int) -> (int, int) {
    let a = run_end(s, i, j, CharClass::Space);
    (a, run_start(s, a, j, CharClass::Space))
}

/// The text between `i` and `j` without the ASCII whitespace at either end.
pub open spec fn trim(s: Seq<char>, i: int, j: int) -> Seq<char> {
    s.subrange(trimmed(s, i, j).0, trimmed(s, i, j).1)
}

/// The number that a decimal digit stands for.
pub open spec fn digit_value(c: char) -> int {
    c as int - 48
}

/// Whether every character of the text is a decimal digit.
pub open spec fn all_digits(s: Seq<char>) -> bool {
    forall|i: int| 0 <= i < s.len() ==> is_digit(#[trigger] s[i])
}

/// The number that a text of decimal digits stands for, most significant
/// digit first.
pub open spec fn decimal(s: Seq<char>) -> int
    decreases s.len(),
{
    if s.len() == 0 {
        0
    } else {
        decimal(s.drop_last()) * 10 + digit_value(s.last())
    }
}

/// Reading a text as a decimal number of at most `max`: the text is one or
/// more decimal digits and nothing else, or it is not a number; the number is
/// at most `max`, or it is out of range.
pub open spec fn number_of(s: Seq<char>, max: int) -> Result<int, Reason> {
    if s.len() == 0 || !all_digits(s) {
        Err(Reason::NotANumber)
    } else if decimal(s) > max {
        Err(Reason::OutOfRange)
    } else {
        Ok(decimal(s))
    }
}

/// Whether a text is a plain numeral: one or more decimal digits, the first
/// of which is `0` only where it is the only one. `7` and `12` are plain
/// numerals; `07` and `012` are not.
pub open spec fn is_numeral(s: Seq<char>) -> bool {
    s.len() > 0 && all_digits(s) && (s.len() == 1 || s[0] != '0')
}

/// Reading a text as a plain numeral of at most `max`: the text is a plain
/// numeral, or it is not a number; the number is at most `max`, or it is out
/// of range.
pub open spec fn numeral_of(s: Seq<char>, max: int) -> Result<int, Reason> {
    if !is_numeral(s) {
        Err(Reason::NotANumber)
    } else if decimal(s) > max {
        Err(Reason::OutOfRange)
    } else {
        Ok(decimal(s))
    }
}

/// The line of position `i`, counted from 1: one more than the number of
/// line feeds before it.
pub open spec fn line_of(s: Seq<char>, i: int) -> int
    decreases i,
{
    if i <= 0 {
        1
    } else if s[i - 1] == '\n' {
        line_of(s, i - 1) + 1
    } else {
        line_of(s, i - 1)
    }
}

/// The column of position `i`, counted from 1: one more than the number of
/// characters between the last line feed before it and itself.
pub open spec fn col_of(s: Seq<char>, i: int) -> int
    decreases i,
{
    if i <= 0 {
        1
    } else if s[i - 1] == '\n' {
        1
    } else {
        col_of(s, i - 1) + 1
    }
}

/// Lines and columns are at least 1 and at most one more than the position.
pub proof fn lemma_position_bounds(s: Seq<char>, i: int)
    requires
        0 <= i,
    ensures
        1 <= line_of(s, i) <= i + 1,
        1 <= col_of(s, i) <= i + 1,
    decreases i,
{
    if i > 0 {
        lemma_position_bounds(s, i - 1);
    }
}

/// Whether a character is ASCII whitespace.
pub fn space(c: char) -> (b: bool)
    ensures
        b == is_space(c),
{
    c == ' ' || c == '\t' || c == '\n' || c == '\x0C' || c == '\r'
}

/// Whether a character is an ASCII decimal digit.
pub fn digit(c: char) -> (b: bool)
    ensures
        b == is_digit(c),
{
    '0' <= c && c <= '9'
}

/// Whether a character is an identifier character.
pub fn word_char(c: char) -> (b: bool)
    ensures
        b == is_word_char(c),
{
    ('a' <= c && c <= 'z') || ('A' <= c && c <= 'Z') || ('0' <= c && c <= '9') || c == '-' || c
        == ':' || c == '_'
}

/// The ASCII lower-case form of a character.
pub fn to_lower(c: char) -> (r: char)
    ensures
        r == lower(c),
{
    if 'A' <= c && c <= 'Z' {
        ((c as u8) + 32) as char
    } else {
        c
    }
}

/// The characters of a string slice, in order.
pub fn to_chars(s: &str) -> (v: Vec<char>)
    ensures
        v@ == s@,
{
    broadcast use vstd::string::group_string_axioms;

    let mut v: Vec<char> = Vec::new();
    for c in it: s.chars()
        invariant
            it.seq() == s@,
            v@ == it.seq().take(it.index()),
    {
        v.push(c);
    }
    v
}

/// The characters between two positions as a string of their own.
pub fn copy_range(text: &Vec<char>, from: usize, to: usize) -> (s: String)
    requires
        from <= to <= text.len(),
    ensures
        s@ == text@.subrange(from as int, to as int),
{
    let mut s = String::new();
    let mut i: usize = from;
    while i < to
        invariant
            from <= i <= to <= text.len(),
            s@ == text@.subrange(from as int, i as int),
        decreases to - i,
    {
        s.push(text[i]);
        i += 1;
    }
    s
}

/// Runs forward over the characters of a class.
pub fn scan(text: &Vec<char>, from: usize, to: usize, class: CharClass) -> (end: usize)
    requires
        from <= to <= text.len(),
    ensures
        end == run_end(text@, from as int, to as int, class),
        from <= end <= to,
{
    let mut i: usize = from;
    while i < to && class.contains(text[i])
        invariant
            from <= i <= to <= text.len(),
            forall|m: int| from <= m < i ==> class.has(#[trigger] text@[m]),
        decreases to - i,
    {
        i += 1;
    }
    proof {
        lemma_run_end_is(text@, from as int, to as int, class, i as int);
    }
    i
}

/// Runs backward over the characters of a class.
pub fn scan_back(text: &Vec<char>, from: usize, to: usize, class: CharClass) -> (start: usize)
    requires
        from <= to <= text.len(),
    ensures
        start == run_start(text@, from as int, to as int, class),
        from <= start <= to,
{
    let mut j: usize = to;
    while from < j && class.contains(text[j - 1])
        invariant
            from <= j <= to <= text.len(),
            forall|m: int| j <= m < to ==> class.has(#[trigger] text@[m]),
        decreases j - from,
    {
        j -= 1;
    }
    proof {
        lemma_run_start_is(text@, from as int, to as int, class, j as int);
    }
    j
}

/// Drops the whitespace at both ends of a range.
pub fn trim_range(text: &Vec<char>, from: usize, to: usize) -> (r: (usize, usize))
    requires
        from <= to <= text.len(),
    ensures
        (r.0 as int, r.1 as int) == trimmed(text@, from as int, to as int),
        from <= r.0 <= r.1 <= to,
{
    let a = scan(text, from, to, CharClass::Space);
    let b = scan_back(text, a, to, CharClass::Space);
    (a, b)
}

/// Whether the range holds `word`, letter case aside.
pub fn is_word(text: &Vec<char>, from: usize, to: usize, word: &str) -> (b: bool)
    requires
        from <= to <= text.len(),
    ensures
        b == same_word(text@.subrange(from as int, to as int), word@),
{
    broadcast use vstd::string::group_string_axioms;

    let ghost sub = text@.subrange(from as int, to as int);
    let mut i: usize = from;
    let mut same = true;
    for c in it: word.chars()
        invariant
            it.seq() == word@,
            from <= to <= text.len(),
            sub == text@.subrange(from as int, to as int),
            same ==> i == from + it.index() && i <= to,
            same ==> forall|m: int| 0 <= m < it.index() ==> lower(sub[m]) == lower(word@[m]),
            !same ==> !same_word(sub, word@),
    {
        if same {
            if i < to && to_lower(text[i]) == to_lower(c) {
                i += 1;
            } else {
                same = false;
                proof {
                    let k = it.index();
                    if i < to {
                        assert(lower_text(sub)[k] == lower(sub[k]));
                        assert(lower_text(word@)[k] == lower(word@[k]));
                    } else {
                        assert(lower_text(sub).len() == sub.len());
                        assert(lower_text(word@).len() == word@.len());
                    }
                }
            }
        }
    }
    if same && i != to {
        proof {
            assert(lower_text(sub).len() == sub.len());
            assert(lower_text(word@).len() == word@.len());
        }
        return false;
    }
    same
}

/// Reads the characters between two positions as a decimal number of at most
/// `max`.
pub fn read_number(text: &Vec<char>, from: usize, to: usize, max: u32) -> (r: Result<u32, Reason>)
    requires
        from <= to <= text.len(),
    ensures
        match number_of(text@.subrange(from as int, to as int), max as int) {
            Ok(n) => r == Ok::<u32, Reason>(n as u32) && 0 <= n <= max,
            Err(e) => r == Err::<u32, Reason>(e),
        },
{
    if from == to {
        return Err(Reason::NotANumber);
    }
    let ghost sub = text@.subrange(from as int, to as int);
    let mut value: u64 = 0;
    let mut i: usize = from;
    assert(decimal(sub.take(0)) == 0);
    while i < to
        invariant
            from <= i <= to <= text.len(),
            sub == text@.subrange(from as int, to as int),
            forall|m: int| 0 <= m < i - from ==> is_digit(#[trigger] sub[m]),
            value <= max + 1,
            value == if decimal(sub.take(i - from)) > max {
                max + 1
            } else {
                decimal(sub.take(i - from))
            },
        decreases to - i,
    {
        let c = text[i];
        if !digit(c) {
            assert(!is_digit(sub[i - from]));
            return Err(Reason::NotANumber);
        }
        let d: u64 = ((c as u8) - 48) as u64;
        proof {
            let next = sub.take(i + 1 - from);
            assert(next.drop_last() =~= sub.take(i - from));
            assert(next.last() == c);
            assert(digit_value(c) == d);
        }
        value = value * 10 + d;
        if value > max as u64 {
            value = max as u64 + 1;
        }
        i += 1;
    }
    assert(sub.take(to - from) =~= sub);
    if value > max as u64 {
        Err(Reason::OutOfRange)
    } else {
        Ok(value as u32)
    }
}

/// Reads the characters between two positions as a plain numeral of at most
/// `max`.
pub fn read_numeral(text: &Vec<char>, from: usize, to: usize, max: u32) -> (r: Result<u32, Reason>)
    requires
        from <= to <= text.len(),
    ensures
        match numeral_of(text@.subrange(from as int, to as int), max as int) {
            Ok(n) => r == Ok::<u32, Reason>(n as u32) && 0 <= n <= max,
            Err(e) => r == Err::<u32, Reason>(e),
        },
{
    if to - from > 1 && text[from] == '0' {
        return Err(Reason::NotANumber);
    }
    read_number(text, from, to, max)
}

/// The line and the column of a position.
pub fn locate(text: &Vec<char>, at: usize) -> (p: (usize, usize))
    requires
        at < text.len(),
    ensures
        p.0 == line_of(text@, at as int),
        p.1 == col_of(text@, at as int),
{
    let mut line: usize = 1;
    let mut col: usize = 1;
    let mut i: usize = 0;
    while i < at
        invariant
            i <= at < text.len(),
            line == line_of(text@, i as int),
            col == col_of(text@, i as int),
        decreases at - i,
    {
        proof {
            lemma_position_bounds(text@, i as int);
        }
        if text[i] == '\n' {
            line += 1;
            col = 1;
        } else {
            col += 1;
        }
        i += 1;
    }
    (line, col)
}

} // verus!
