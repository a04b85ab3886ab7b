//! The structural parser: a cursor over the characters of the source that
//! recognises entries and their fields and hands out each value as raw text.
//!
//! The grammar, blank text (whitespace and `%` comments) being allowed before
//! every token:
//!
//! ```text
//! Bibliography := Entry*
//! Entry        := '@' Ident '{' Citekey ',' FieldList? '}'
//! FieldList    := Field (',' Field)* ','?
//! Field        := Ident '=' Value
//! Value        := '{' balanced text '}' | '"' text '"' | digits
//! ```

use super::entry::{kind_of, BibTeXEntryKind, KindView};
use super::error::{model_of, ErrorView, ParseError, Reason};
use super::text::{
    col_of, copy_range, digit, is_digit, is_space, lemma_run_end, line_of,
    locate, run_end, scan, space, to_chars, CharClass,
};
use vstd::prelude::*;
use vstd::string::StringExecFns;

verus! {

/// One entry as the structural parser leaves it: the kind, the citekey, and
/// the fields as pairs of a name and the raw text of its value, in source
/// order and with repetitions kept.
#[derive(Clone, Debug, PartialEq, Eq)]
pub struct RawEntry {
    pub kind: BibTeXEntryKind,
    pub citekey: String,
    pub fields: Vec<(String, String)>,
}

/// A `RawEntry` as a mathematical value.
pub struct RawEntryView {
    pub kind: KindView,
    pub citekey: Seq<char>,
    pub fields: Seq<(Seq<char>, Seq<char>)>,
}

impl View for RawEntry {
    type V = RawEntryView;

    open spec fn view(&self) -> RawEntryView {
        RawEntryView {
            kind: self.kind@,
            citekey: self.citekey@,
            fields: self.fields.deep_view(),
        }
    }
}

impl DeepView for RawEntry {
    type V = RawEntryView;

    open spec fn deep_view(&self) -> RawEntryView {
        self@
    }
}

/// The position of the first pair whose name is `key`, letter for letter.
pub open spec fn first_named(fields: Seq<(Seq<char>, Seq<char>)>, key: Seq<char>, i: int) -> int
    decreases fields.len() - i,
{
    if i < fields.len() && fields[i].0 != key {
        first_named(fields, key, i + 1)
    } else {
        i
    }
}

/// Where blank text that starts at `i` ends. Blank text is whitespace and
/// comments; a comment runs from a `%` up to the next line feed, or to the
/// end of the input. `comment` says whether `i` lies inside a comment.
pub open spec fn skip_blank_in(s: Seq<char>, i: int, comment: bool) -> int
    decreases s.len() - i,
{
    if i >= s.len() {
        i
    } else if comment {
        skip_blank_in(s, i + 1, s[i] != '\n')
    } else if s[i] == '%' {
        skip_blank_in(s, i + 1, true)
    } else if is_space(s[i]) {
        skip_blank_in(s, i + 1, false)
    } else {
        i
    }
}

/// Where the blank text before the next token ends.
pub open spec fn skip_blank(s: Seq<char>, i: int) -> int {
    skip_blank_in(s, i, false)
}

/// The fault of finding the character at `at` where `expected` was needed.
pub open spec fn unexpected(s: Seq<char>, at: int, expected: char) -> ErrorView {
    ErrorView::UnexpectedCharacter {
        expected,
        found: s[at],
        line: line_of(s, at),
        col: col_of(s, at),
    }
}

/// Reading the token `c`: the position behind it.
pub open spec fn expect_char(s: Seq<char>, i: int, c: char) -> Result<int, ErrorView> {
    let j = skip_blank(s, i);
    if j >= s.len() {
        Err(ErrorView::UnexpectedEndOfInput)
    } else if s[j] == c {
        Ok(j + 1)
    } else {
        Err(unexpected(s, j, c))
    }
}

/// Reading an identifier: where it starts and where it ends. It is the
/// longest run of identifier characters after the blank text, and may be
/// empty.
pub open spec fn word_at(s: Seq<char>, i: int) -> (int, int) {
    let a = skip_blank(s, i);
    (a, run_end(s, a, s.len() as int, CharClass::Word))
}

/// The position of the `}` that closes a braced value, `i` lying inside it
/// under `depth` open braces; a position at or past the end of the input if
/// there is none.
pub open spec fn brace_end(s: Seq<char>, i: int, depth: nat) -> int
    decreases s.len() - i,
{
    if i >= s.len() {
        i
    } else if s[i] == '{' {
        brace_end(s, i + 1, depth + 1)
    } else if s[i] == '}' {
        if depth <= 1 {
            i
        } else {
            brace_end(s, i + 1, (depth - 1) as nat)
        }
    } else {
        brace_end(s, i + 1, depth)
    }
}

/// Reading a braced value: the text between the braces, inner braces
/// included, and the position behind the closing brace.
pub open spec fn braced_at(s: Seq<char>, i: int) -> Result<(Seq<char>, int), ErrorView> {
    match expect_char(s, i, '{') {
        Err(e) => Err(e),
        Ok(a) => {
            let e = brace_end(s, a, 1);
            if e >= s.len() {
                Err(ErrorView::UnexpectedEndOfInput)
            } else {
                Ok((s.subrange(a, e), e + 1))
            }
        },
    }
}

/// Reading a quoted value: the text up to the very next `"`, and the position
/// behind that quote.
pub open spec fn quoted_at(s: Seq<char>, i: int) -> Result<(Seq<char>, int), ErrorView> {
    match expect_char(s, i, '"') {
        Err(e) => Err(e),
        Ok(a) => {
            let e = run_end(s, a, s.len() as int, CharClass::Except('"'));
            if e >= s.len() {
                Err(ErrorView::UnexpectedEndOfInput)
            } else {
                Ok((s.subrange(a, e), e + 1))
            }
        },
    }
}

/// Reading a value: braced, quoted, or a bare run of digits.
pub open spec fn value_at(s: Seq<char>, i: int) -> Result<(Seq<char>, int), ErrorView> {
    let j = skip_blank(s, i);
    if j >= s.len() {
        Err(ErrorView::UnexpectedEndOfInput)
    } else if s[j] == '{' {
        braced_at(s, j)
    } else if s[j] == '"' {
        quoted_at(s, j)
    } else if is_digit(s[j]) {
        let e = run_end(s, j, s.len() as int, CharClass::Digit);
        Ok((s.subrange(j, e), e))
    } else {
        Err(unexpected(s, j, '{'))
    }
}

/// Reading a field: its name, `=`, and its value.
pub open spec fn field_at(s: Seq<char>, i: int) -> Result<
    ((Seq<char>, Seq<char>), int),
    ErrorView,
> {
    let (a, b) = word_at(s, i);
    match expect_char(s, b, '=') {
        Err(e) => Err(e),
        Ok(c) => match value_at(s, c) {
            Err(e) => Err(e),
            Ok((v, n)) => Ok(((s.subrange(a, b), v), n)),
        },
    }
}

/// Reading the fields of an entry up to its closing brace: the fields in
/// order, and the position of that brace. After each field stands `,` or the
/// closing brace; a `,` right before the brace is allowed.
pub open spec fn fields_at(s: Seq<char>, i: int) -> Result<
    (Seq<(Seq<char>, Seq<char>)>, int),
    ErrorView,
>
    decreases s.len() - i,
    when 0 <= i <= s.len()
    via fields_at_decreases
{
    let j = skip_blank(s, i);
    if j < s.len() && s[j] == '}' {
        Ok((Seq::empty(), j))
    } else {
        match field_at(s, j) {
            Err(e) => Err(e),
            Ok((f, n)) => {
                let m = skip_blank(s, n);
                if m >= s.len() {
                    Err(ErrorView::UnexpectedEndOfInput)
                } else if s[m] == ',' {
                    match fields_at(s, m + 1) {
                        Err(e) => Err(e),
                        Ok((rest, end)) => Ok((seq![f] + rest, end)),
                    }
                } else if s[m] == '}' {
                    Ok((seq![f], m))
                } else {
                    Err(unexpected(s, m, '}'))
                }
            },
        }
    }
}

#[via_fn]
proof fn fields_at_decreases(s: Seq<char>, i: int) {
    lemma_skip_blank(s, i, false);
    let j = skip_blank(s, i);
    lemma_field_at(s, j);
    if let Ok((f, n)) = field_at(s, j) {
        lemma_skip_blank(s, n, false);
    }
}

/// The fault of an entry without a citekey.
pub open spec fn missing_citekey() -> ErrorView {
    ErrorView::InvalidFieldValue { field: "citekey"@, raw: Seq::empty(), reason: Reason::Empty }
}

/// Reading an entry: `@`, the kind, `{`, the citekey, `,`, the fields and the
/// closing brace. The citekey is never empty.
pub open spec fn entry_at(s: Seq<char>, i: int) -> Result<(RawEntryView, int), ErrorView> {
    match expect_char(s, i, '@') {
        Err(e) => Err(e),
        Ok(a) => {
            let (k0, k1) = word_at(s, a);
            match expect_char(s, k1, '{') {
                Err(e) => Err(e),
                Ok(b) => {
                    let (c0, c1) = word_at(s, b);
                    if c0 == c1 {
                        if c0 >= s.len() {
                            Err(ErrorView::UnexpectedEndOfInput)
                        } else {
                            Err(missing_citekey())
                        }
                    } else {
                        match expect_char(s, c1, ',') {
                            Err(e) => Err(e),
                            Ok(d) => match fields_at(s, d) {
                                Err(e) => Err(e),
                                Ok((fields, end)) => Ok(
                                    (
                                        RawEntryView {
                                            kind: kind_of(s.subrange(k0, k1)),
                                            citekey: s.subrange(c0, c1),
                                            fields,
                                        },
                                        end + 1,
                                    ),
                                ),
                            },
                        }
                    }
                },
            }
        },
    }
}

/// Reading entries up to the end of the input.
pub open spec fn entries_at(s: Seq<char>, i: int) -> Result<Seq<RawEntryView>, ErrorView>
    decreases s.len() - i,
    when 0 <= i <= s.len()
    via entries_at_decreases
{
    let j = skip_blank(s, i);
    if j >= s.len() {
        Ok(Seq::empty())
    } else {
        match entry_at(s, j) {
            Err(e) => Err(e),
            Ok((entry, n)) => match entries_at(s, n) {
                Err(e) => Err(e),
                Ok(rest) => Ok(seq![entry] + rest),
            },
        }
    }
}

#[via_fn]
proof fn entries_at_decreases(s: Seq<char>, i: int) {
    lemma_skip_blank(s, i, false);
    lemma_entry_at(s, skip_blank(s, i));
}

/// Reading a bibliography: the entries from `i` to the end of the input, of
/// which there is at least one. Input that holds blank text only is the
/// fault `EmptyBibliography`.
pub open spec fn document_at(s: Seq<char>, i: int) -> Result<Seq<RawEntryView>, ErrorView> {
    if skip_blank(s, i) >= s.len() {
        Err(ErrorView::EmptyBibliography)
    } else {
        entries_at(s, i)
    }
}

/// The cursor over the source. It only ever moves forward, and never past
/// the end of the source.
pub struct BibtexParser {
    /// The characters of the source text.
    input: Vec<char>,
    /// The cursor position.
    cursor: usize,
}

impl RawEntry {
    /// The raw text of the first field called `key`, letter for letter, if
    /// there is one.
    pub fn get(&self, key: &str) -> (value: Option<&String>)
        ensures
            ({
                let at = first_named(self@.fields, key@, 0);
                match value {
                    Some(v) => at < self@.fields.len() && v@ == self@.fields[at].1,
                    None => at == self@.fields.len(),
                }
            }),
    {
        let wanted = String::from_str(key);
        let mut i: usize = 0;
        while i < self.fields.len()
            invariant
                i <= self.fields.len(),
                wanted@ == key@,
                first_named(self@.fields, key@, 0) == first_named(self@.fields, key@, i as int),
            decreases self.fields.len() - i,
        {
            if self.fields[i].0 == wanted {
                return Some(&self.fields[i].1);
            }
            i += 1;
        }
        None
    }
}

impl BibtexParser {
    #[verifier::type_invariant]
    spec fn within_source(self) -> bool {
        self.cursor <= self.input.len()
    }

    /// The characters of the source.
    pub closed spec fn source(&self) -> Seq<char> {
        self.input@
    }

    /// The position of the cursor: the number of characters behind it.
    pub closed spec fn position(&self) -> int {
        self.cursor as int
    }

    /// A parser at the start of the given source.
    pub fn new(input: &str) -> (parser: Self)
        ensures
            parser.source() == input@,
            parser.position() == 0,
            parser.position() <= parser.source().len(),
    {
        BibtexParser { input: to_chars(input), cursor: 0 }
    }

    /// Parses the source from the cursor to its end. The result is the
    /// entries in source order, at least one; the first fault ends the parse
    /// and nothing is returned beside it.
    #[verifier::loop_isolation(false)]
    pub fn parse(&mut self) -> (result: Result<Vec<RawEntry>, ParseError>)
        ensures
            final(self).source() == old(self).source(),
            model_of(result) == document_at(old(self).source(), old(self).position()),
            result matches Ok(entries) ==> entries.len() > 0,
            result is Ok ==> final(self).position() == final(self).source().len(),
            result is Err ==> final(self).position() == document_stop(
                old(self).source(),
                old(self).position(),
            ),
            0 <= old(self).position() <= final(self).position() <= final(self).source().len(),
    {
        let ghost s = self.input@;
        let ghost start = self.cursor as int;
        proof {
            use_type_invariant(&*self);
            lemma_skip_blank(s, start, false);
        }
        self.consume_whitespace();
        if self.peek().is_none() {
            return Err(ParseError::EmptyBibliography);
        }
        let mut entries: Vec<RawEntry> = Vec::new();
        assert(entries.deep_view() =~= Seq::<RawEntryView>::empty());
        assert(skip_blank(s, self.cursor as int) == self.cursor as int) by {
            lemma_skip_blank(s, self.cursor as int, false);
            reveal_with_fuel(skip_blank_in, 2);
        }
        assert(document_stop(s, start) == document_stop(s, self.cursor as int));
        while self.peek().is_some()
            invariant
                self.input@ == s,
                0 <= start <= self.cursor <= s.len(),
                skip_blank(s, self.cursor as int) == self.cursor as int,
                entries.len() == 0 ==> self.cursor < s.len(),
                document_stop(s, start) == document_stop(s, self.cursor as int),
                entries_at(s, start) == match entries_at(s, self.cursor as int) {
                    Ok(rest) => Ok::<Seq<RawEntryView>, ErrorView>(entries.deep_view() + rest),
                    Err(e) => Err(e),
                },
            decreases s.len() - self.cursor,
        {
            let ghost at = self.cursor as int;
            proof {
                lemma_entry_at(s, at);
            }
            match self.parse_entry() {
                Err(e) => {
                    return Err(e);
                },
                Ok(entry) => {
                    let ghost before = entries.deep_view();
                    entries.push(entry);
                    let ghost next = self.cursor as int;
                    proof {
                        use_type_invariant(&*self);
                        lemma_skip_blank(s, next, false);
                        assert(entries.deep_view() =~= before + seq![entry@]);
                    }
                    self.consume_whitespace();
                    proof {
                        let k = self.cursor as int;
                        lemma_skip_blank(s, k, false);
                        reveal_with_fuel(skip_blank_in, 2);
                        assert(skip_blank(s, k) == k);
                        assert(entries_at(s, next) == entries_at(s, k)) by {
                            lemma_entries_after_blank(s, next);
                        }
                        assert(document_stop(s, next) == document_stop(s, k));
                        match entries_at(s, next) {
                            Ok(rest) => {
                                assert((before + seq![entry@]) + rest =~= before + (seq![
                                    entry@,
                                ] + rest));
                            },
                            Err(e) => {},
                        }
                    }
                },
            }
        }
        Ok(entries)
    }

    /// The character under the cursor, if the cursor is not at the end.
    pub fn peek(&self) -> (c: Option<char>)
        ensures
            c == if self.position() < self.source().len() {
                Some(self.source()[self.position()])
            } else {
                None
            },
            0 <= self.position() <= self.source().len(),
    {
        proof {
            use_type_invariant(self);
        }
        if self.cursor < self.input.len() {
            Some(self.input[self.cursor])
        } else {
            None
        }
    }

    /// Moves the cursor one character forward; at the end it stays.
    pub fn advance(&mut self)
        ensures
            final(self).source() == old(self).source(),
            final(self).position() == if old(self).position() < old(self).source().len() {
                old(self).position() + 1
            } else {
                old(self).position()
            },
            0 <= old(self).position() <= final(self).position() <= final(self).source().len(),
    {
        proof {
            use_type_invariant(&*self);
        }
        if self.cursor < self.input.len() {
            self.cursor += 1;
        }
    }

    /// Parses one entry, blank text before it included.
    pub fn parse_entry(&mut self) -> (result: Result<RawEntry, ParseError>)
        ensures
            final(self).source() == old(self).source(),
            match entry_at(old(self).source(), old(self).position()) {
                Ok((entry, next)) => result matches Ok(r) && r@ == entry && final(self).position()
                    == next,
                Err(e) => result matches Err(x) && x@ == e && final(self).position() == entry_stop(
                    old(self).source(),
                    old(self).position(),
                ),
            },
            0 <= old(self).position() <= final(self).position() <= final(self).source().len(),
    {
        let ghost s = self.input@;
        let ghost start = self.cursor as int;
        proof {
            use_type_invariant(&*self);
            lemma_expect_char(s, start, '@');
        }
        match self.consume_char('@') {
            Err(e) => {
                return Err(e);
            },
            Ok(()) => {},
        }
        let ghost a = self.cursor as int;
        proof {
            lemma_word_at(s, a);
        }
        let (k0, k1) = self.consume_word();
        let kind = BibTeXEntryKind::from_chars(&self.input, k0, k1);
        proof {
            lemma_expect_char(s, k1 as int, '{');
        }
        match self.consume_char('{') {
            Err(e) => {
                return Err(e);
            },
            Ok(()) => {},
        }
        let ghost b = self.cursor as int;
        proof {
            lemma_word_at(s, b);
        }
        let (c0, c1) = self.consume_word();
        if c0 == c1 {
            if c0 >= self.input.len() {
                return Err(ParseError::UnexpectedEndOfInput);
            }
            return Err(
                ParseError::InvalidFieldValue {
                    field: String::from_str("citekey"),
                    raw: String::new(),
                    reason: Reason::Empty,
                },
            );
        }
        let citekey = copy_range(&self.input, c0, c1);
        proof {
            lemma_expect_char(s, c1 as int, ',');
        }
        match self.consume_char(',') {
            Err(e) => {
                return Err(e);
            },
            Ok(()) => {},
        }
        let ghost d = self.cursor as int;
        let mut fields: Vec<(String, String)> = Vec::new();
        assert(fields.deep_view() =~= Seq::<(Seq<char>, Seq<char>)>::empty());
        loop
            invariant_except_break
                fields_stop(s, d) == fields_stop(s, self.cursor as int),
            invariant
                self.input@ == s,
                old(self).source() == s,
                old(self).position() == start,
                0 <= start <= d <= self.cursor <= s.len(),
                entry_stop(s, start) == fields_stop(s, d),
                entry_at(s, start) == match fields_at(s, d) {
                    Ok((all, end)) => Ok::<(RawEntryView, int), ErrorView>(
                        (RawEntryView { kind: kind@, citekey: citekey@, fields: all }, end + 1),
                    ),
                    Err(e) => Err(e),
                },
                fields_at(s, d) == match fields_at(s, self.cursor as int) {
                    Ok((rest, end)) => Ok::<(Seq<(Seq<char>, Seq<char>)>, int), ErrorView>(
                        (fields.deep_view() + rest, end),
                    ),
                    Err(e) => Err(e),
                },
            ensures
                self.input@ == s,
                self.cursor < s.len(),
                fields_at(s, d) == Ok::<(Seq<(Seq<char>, Seq<char>)>, int), ErrorView>(
                    (fields.deep_view(), self.cursor as int),
                ),
            decreases s.len() - self.cursor,
        {
            let ghost i = self.cursor as int;
            proof {
                lemma_skip_blank(s, i, false);
            }
            self.consume_whitespace();
            let ghost j = self.cursor as int;
            if self.peek() == Some('}') {
                assert(fields.deep_view() + Seq::<(Seq<char>, Seq<char>)>::empty()
                    =~= fields.deep_view());
                break ;
            }
            proof {
                lemma_skip_blank(s, j, false);
                reveal_with_fuel(skip_blank_in, 2);
                assert(skip_blank(s, j) == j);
                lemma_field_at(s, j);
            }
            let (key, value) = match self.parse_field() {
                Err(e) => {
                    return Err(e);
                },
                Ok(pair) => pair,
            };
            let ghost before = fields.deep_view();
            let ghost f = (key@, value@);
            fields.push((key, value));
            assert(fields.deep_view() =~= before + seq![f]);
            let ghost n = self.cursor as int;
            proof {
                lemma_skip_blank(s, n, false);
            }
            self.consume_whitespace();
            let ghost m = self.cursor as int;
            match self.peek() {
                None => {
                    return Err(ParseError::UnexpectedEndOfInput);
                },
                Some(c) => {
                    if c == ',' {
                        self.advance();
                        proof {
                            match fields_at(s, m + 1) {
                                Ok((rest, end)) => {
                                    assert((before + seq![f]) + rest =~= before + (seq![f]
                                        + rest));
                                },
                                Err(e) => {},
                            }
                        }
                    } else if c != '}' {
                        let (line, col) = locate(&self.input, self.cursor);
                        return Err(
                            ParseError::UnexpectedCharacter {
                                expected: '}',
                                found: c,
                                line,
                                col,
                            },
                        );
                    } else {
                        proof {
                            reveal_with_fuel(skip_blank_in, 2);
                            assert(skip_blank(s, m) == m);
                            assert(fields_at(s, m) == Ok::<
                                (Seq<(Seq<char>, Seq<char>)>, int),
                                ErrorView,
                            >((Seq::empty(), m)));
                            assert((before + seq![f]) + Seq::<(Seq<char>, Seq<char>)>::empty()
                                =~= before + seq![f]);
                        }
                    }
                },
            }
        }
        self.advance();
        Ok(RawEntry { kind, citekey, fields })
    }

    /// Parses one field: its name and the raw text of its value.
    pub fn parse_field(&mut self) -> (result: Result<(String, String), ParseError>)
        ensures
            final(self).source() == old(self).source(),
            match field_at(old(self).source(), old(self).position()) {
                Ok((field, next)) => result matches Ok(r) && (r.0@, r.1@) == field
                    && final(self).position() == next,
                Err(e) => result matches Err(x) && x@ == e && final(self).position() == field_stop(
                    old(self).source(),
                    old(self).position(),
                ),
            },
            0 <= old(self).position() <= final(self).position() <= final(self).source().len(),
    {
        let key = self.consume_identifier();
        match self.consume_char('=') {
            Err(e) => {
                return Err(e);
            },
            Ok(()) => {},
        }
        let value = match self.parse_value() {
            Err(e) => {
                return Err(e);
            },
            Ok(v) => v,
        };
        Ok((key, value))
    }

    /// Parses the value of a field: braced, quoted, or a bare run of digits.
    pub fn parse_value(&mut self) -> (result: Result<String, ParseError>)
        ensures
            final(self).source() == old(self).source(),
            match value_at(old(self).source(), old(self).position()) {
                Ok((value, next)) => result matches Ok(r) && r@ == value && final(self).position()
                    == next,
                Err(e) => result matches Err(x) && x@ == e && final(self).position() == value_stop(
                    old(self).source(),
                    old(self).position(),
                ),
            },
            0 <= old(self).position() <= final(self).position() <= final(self).source().len(),
    {
        let ghost s = self.input@;
        proof {
            use_type_invariant(&*self);
            lemma_skip_blank(s, self.cursor as int, false);
        }
        self.consume_whitespace();
        proof {
            lemma_skip_blank(s, self.cursor as int, false);
            reveal_with_fuel(skip_blank_in, 2);
            assert(skip_blank(s, self.cursor as int) == self.cursor as int);
        }
        match self.peek() {
            None => Err(ParseError::UnexpectedEndOfInput),
            Some(c) => {
                if c == '{' {
                    self.consume_braced_string()
                } else if c == '"' {
                    self.consume_quoted_string()
                } else if digit(c) {
                    let start = self.cursor;
                    let end = scan(&self.input, start, self.input.len(), CharClass::Digit);
                    self.cursor = end;
                    Ok(copy_range(&self.input, start, end))
                } else {
                    let (line, col) = locate(&self.input, self.cursor);
                    Err(ParseError::UnexpectedCharacter { expected: '{', found: c, line, col })
                }
            },
        }
    }

    /// Consumes a braced value and returns the text between the outer
    /// braces, inner braces kept.
    pub fn consume_braced_string(&mut self) -> (result: Result<String, ParseError>)
        ensures
            final(self).source() == old(self).source(),
            match braced_at(old(self).source(), old(self).position()) {
                Ok((value, next)) => result matches Ok(r) && r@ == value && final(self).position()
                    == next,
                Err(e) => result matches Err(x) && x@ == e && final(self).position()
                    == delimited_stop(old(self).source(), old(self).position(), '{'),
            },
            0 <= old(self).position() <= final(self).position() <= final(self).source().len(),
    {
        let ghost s = self.input@;
        proof {
            use_type_invariant(&*self);
            lemma_expect_char(s, self.cursor as int, '{');
        }
        match self.consume_char('{') {
            Err(e) => {
                return Err(e);
            },
            Ok(()) => {},
        }
        proof {
            use_type_invariant(&*self);
        }
        let start = self.cursor;
        let mut brace_level: usize = 1;
        let mut closed = false;
        while !closed && self.cursor < self.input.len()
            invariant
                self.input@ == s,
                1 <= start <= self.cursor <= s.len(),
                1 <= brace_level <= self.cursor - start + 1,
                brace_end(s, start as int, 1) == brace_end(
                    s,
                    self.cursor as int,
                    brace_level as nat,
                ),
                closed ==> self.cursor < s.len() && brace_end(s, start as int, 1) == self.cursor,
            decreases s.len() - self.cursor + if closed { 0int } else { 1int },
        {
            let c = self.input[self.cursor];
            if c == '}' && brace_level == 1 {
                closed = true;
            } else {
                if c == '{' {
                    brace_level += 1;
                } else if c == '}' {
                    brace_level -= 1;
                }
                self.cursor += 1;
            }
        }
        if !closed {
            return Err(ParseError::UnexpectedEndOfInput);
        }
        let value = copy_range(&self.input, start, self.cursor);
        self.cursor += 1;
        Ok(value)
    }

    /// Consumes a quoted value and returns the text between the quotes.
    /// Quotes do not nest: the value ends at the very next `"`.
    pub fn consume_quoted_string(&mut self) -> (result: Result<String, ParseError>)
        ensures
            final(self).source() == old(self).source(),
            match quoted_at(old(self).source(), old(self).position()) {
                Ok((value, next)) => result matches Ok(r) && r@ == value && final(self).position()
                    == next,
                Err(e) => result matches Err(x) && x@ == e && final(self).position()
                    == delimited_stop(old(self).source(), old(self).position(), '"'),
            },
            0 <= old(self).position() <= final(self).position() <= final(self).source().len(),
    {
        match self.consume_char('"') {
            Err(e) => {
                return Err(e);
            },
            Ok(()) => {},
        }
        proof {
            use_type_invariant(&*self);
        }
        let start = self.cursor;
        let end = scan(&self.input, start, self.input.len(), CharClass::Except('"'));
        self.cursor = end;
        if end >= self.input.len() {
            return Err(ParseError::UnexpectedEndOfInput);
        }
        let value = copy_range(&self.input, start, end);
        self.cursor += 1;
        Ok(value)
    }

    /// Consumes the token `expected`, blank text before it included.
    pub fn consume_char(&mut self, expected: char) -> (result: Result<(), ParseError>)
        ensures
            final(self).source() == old(self).source(),
            match expect_char(old(self).source(), old(self).position(), expected) {
                Ok(next) => result is Ok && final(self).position() == next,
                Err(e) => result matches Err(x) && x@ == e && final(self).position() == skip_blank(
                    old(self).source(),
                    old(self).position(),
                ),
            },
            0 <= old(self).position() <= final(self).position() <= final(self).source().len(),
    {
        self.consume_whitespace();
        proof {
            use_type_invariant(&*self);
        }
        match self.peek() {
            None => Err(ParseError::UnexpectedEndOfInput),
            Some(c) => {
                if c == expected {
                    self.advance();
                    Ok(())
                } else {
                    let (line, col) = locate(&self.input, self.cursor);
                    Err(ParseError::UnexpectedCharacter { expected, found: c, line, col })
                }
            },
        }
    }

    /// Consumes an identifier, blank text before it included, and returns it.
    /// The identifier is the longest run of ASCII letters, digits, `-`, `:`
    /// and `_`; it is empty where the next character is none of these.
    pub fn consume_identifier(&mut self) -> (word: String)
        ensures
            final(self).source() == old(self).source(),
            final(self).position() == word_at(old(self).source(), old(self).position()).1,
            word@ == old(self).source().subrange(
                word_at(old(self).source(), old(self).position()).0,
                word_at(old(self).source(), old(self).position()).1,
            ),
            0 <= old(self).position() <= final(self).position() <= final(self).source().len(),
    {
        let (start, end) = self.consume_word();
        copy_range(&self.input, start, end)
    }

    /// Consumes an identifier and returns where it starts and ends.
    fn consume_word(&mut self) -> (range: (usize, usize))
        ensures
            final(self).input@ == old(self).input@,
            final(self).cursor == range.1,
            (range.0 as int, range.1 as int) == word_at(old(self).source(), old(self).position()),
            range.0 <= range.1 <= old(self).input.len(),
            old(self).cursor <= range.0,
    {
        self.consume_whitespace();
        proof {
            use_type_invariant(&*self);
        }
        let start = self.cursor;
        let end = scan(&self.input, start, self.input.len(), CharClass::Word);
        self.cursor = end;
        (start, end)
    }

    /// Consumes blank text: whitespace, and comments from a `%` to the end
    /// of its line.
    pub fn consume_whitespace(&mut self)
        ensures
            final(self).source() == old(self).source(),
            final(self).position() == skip_blank(old(self).source(), old(self).position()),
            0 <= old(self).position() <= final(self).position() <= final(self).source().len(),
    {
        let ghost s = self.input@;
        let ghost start = self.cursor as int;
        proof {
            use_type_invariant(&*self);
        }
        let mut comment = false;
        while self.cursor < self.input.len() && (comment || self.input[self.cursor] == '%' || space(
            self.input[self.cursor],
        ))
            invariant
                self.input@ == s,
                start <= self.cursor <= s.len(),
                skip_blank_in(s, self.cursor as int, comment) == skip_blank(s, start),
            decreases s.len() - self.cursor,
        {
            let c = self.input[self.cursor];
            if comment {
                comment = c != '\n';
            } else if c == '%' {
                comment = true;
            }
            self.cursor += 1;
        }
        proof {
            if self.cursor < s.len() {
                assert(!comment);
            } else {
                reveal_with_fuel(skip_blank_in, 2);
            }
        }
    }
}

/// Blank text before the entries does not count.
pub proof fn lemma_entries_after_blank(s: Seq<char>, i: int)
    requires
        0 <= i <= s.len(),
    ensures
        entries_at(s, i) == entries_at(s, skip_blank(s, i)),
{
    lemma_skip_blank(s, i, false);
    lemma_skip_blank_twice(s, i, false);
}

/// Skipping blank text twice is skipping it once.
pub proof fn lemma_skip_blank_twice(s: Seq<char>, i: int, comment: bool)
    requires
        0 <= i <= s.len(),
    ensures
        skip_blank(s, skip_blank_in(s, i, comment)) == skip_blank_in(s, i, comment),
    decreases s.len() - i,
{
    if i < s.len() {
        if comment {
            lemma_skip_blank_twice(s, i + 1, s[i] != '\n');
        } else if s[i] == '%' {
            lemma_skip_blank_twice(s, i + 1, true);
        } else if is_space(s[i]) {
            lemma_skip_blank_twice(s, i + 1, false);
        }
    }
}

/// Where the reader of a braced or quoted value leaves the cursor when it
/// fails: at the character that is not the opening delimiter `c`, or, the
/// value being open, at the end of the input.
pub open spec fn delimited_stop(s: Seq<char>, i: int, c: char) -> int {
    match expect_char(s, i, c) {
        Err(_) => skip_blank(s, i),
        Ok(_) => s.len() as int,
    }
}

/// Where the reader of a value leaves the cursor when it fails: at the
/// character that starts no value, or, a braced or quoted value being open,
/// at the end of the input.
pub open spec fn value_stop(s: Seq<char>, i: int) -> int {
    let j = skip_blank(s, i);
    if j < s.len() && (s[j] == '{' || s[j] == '"') {
        s.len() as int
    } else {
        j
    }
}

/// Where the reader of a field leaves the cursor when it fails: where the
/// reader of `=` or of the value does.
pub open spec fn field_stop(s: Seq<char>, i: int) -> int {
    let (a, b) = word_at(s, i);
    match expect_char(s, b, '=') {
        Err(_) => skip_blank(s, b),
        Ok(c) => value_stop(s, c),
    }
}

/// Where the reader of the fields of an entry leaves the cursor when it
/// fails: where the reader of the failing field does, or at the place behind
/// a field where neither `,` nor `}` stands.
pub open spec fn fields_stop(s: Seq<char>, i: int) -> int
    decreases s.len() - i,
    when 0 <= i <= s.len()
    via fields_stop_decreases
{
    let j = skip_blank(s, i);
    if j < s.len() && s[j] == '}' {
        j
    } else {
        match field_at(s, j) {
            Err(_) => field_stop(s, j),
            Ok((f, n)) => {
                let m = skip_blank(s, n);
                if m < s.len() && s[m] == ',' {
                    fields_stop(s, m + 1)
                } else {
                    m
                }
            },
        }
    }
}

#[via_fn]
proof fn fields_stop_decreases(s: Seq<char>, i: int) {
    lemma_skip_blank(s, i, false);
    let j = skip_blank(s, i);
    lemma_field_at(s, j);
    if let Ok((f, n)) = field_at(s, j) {
        lemma_skip_blank(s, n, false);
    }
}

/// Where the reader of an entry leaves the cursor when it fails: at the
/// character that is not the token looked for, at the place where the
/// citekey is missing, or where the reader of the fields does.
pub open spec fn entry_stop(s: Seq<char>, i: int) -> int {
    match expect_char(s, i, '@') {
        Err(_) => skip_blank(s, i),
        Ok(a) => {
            let (k0, k1) = word_at(s, a);
            match expect_char(s, k1, '{') {
                Err(_) => skip_blank(s, k1),
                Ok(b) => {
                    let (c0, c1) = word_at(s, b);
                    if c0 == c1 {
                        c1
                    } else {
                        match expect_char(s, c1, ',') {
                            Err(_) => skip_blank(s, c1),
                            Ok(d) => fields_stop(s, d),
                        }
                    }
                },
            }
        },
    }
}

/// Where the parser leaves the cursor when it fails: at the end of input
/// that holds no entry, or where the reader of the failing entry does.
pub open spec fn document_stop(s: Seq<char>, i: int) -> int
    decreases s.len() - i,
    when 0 <= i <= s.len()
    via document_stop_decreases
{
    let j = skip_blank(s, i);
    if j >= s.len() {
        j
    } else {
        match entry_at(s, j) {
            Err(_) => entry_stop(s, j),
            Ok((entry, n)) => document_stop(s, n),
        }
    }
}

#[via_fn]
proof fn document_stop_decreases(s: Seq<char>, i: int) {
    lemma_skip_blank(s, i, false);
    lemma_entry_at(s, skip_blank(s, i));
}

/// Blank text ends at or after its start and within the input.
pub proof fn lemma_skip_blank(s: Seq<char>, i: int, comment: bool)
    requires
        0 <= i <= s.len(),
    ensures
        i <= skip_blank_in(s, i, comment) <= s.len(),
        skip_blank_in(s, i, comment) < s.len() ==> {
            let c = s[skip_blank_in(s, i, comment)];
            !is_space(c) && c != '%'
        },
    decreases s.len() - i,
{
    if i < s.len() {
        if comment {
            lemma_skip_blank(s, i + 1, s[i] != '\n');
        } else if s[i] == '%' {
            lemma_skip_blank(s, i + 1, true);
        } else if is_space(s[i]) {
            lemma_skip_blank(s, i + 1, false);
        }
    }
}

/// The closing brace is found at or after the start and within the input,
/// and it is a `}`.
pub proof fn lemma_brace_end(s: Seq<char>, i: int, depth: nat)
    requires
        0 <= i <= s.len(),
    ensures
        i <= brace_end(s, i, depth) <= s.len(),
        brace_end(s, i, depth) < s.len() ==> s[brace_end(s, i, depth)] == '}',
    decreases s.len() - i,
{
    if i < s.len() {
        if s[i] == '{' {
            lemma_brace_end(s, i + 1, depth + 1);
        } else if s[i] == '}' {
            if depth > 1 {
                lemma_brace_end(s, i + 1, (depth - 1) as nat);
            }
        } else {
            lemma_brace_end(s, i + 1, depth);
        }
    }
}

/// A token that was read ends after its start and within the input.
pub proof fn lemma_expect_char(s: Seq<char>, i: int, c: char)
    requires
        0 <= i <= s.len(),
    ensures
        expect_char(s, i, c) matches Ok(n) ==> i < n <= s.len(),
{
    lemma_skip_blank(s, i, false);
}

/// An identifier lies after its start and within the input.
pub proof fn lemma_word_at(s: Seq<char>, i: int)
    requires
        0 <= i <= s.len(),
    ensures
        i <= word_at(s, i).0 <= word_at(s, i).1 <= s.len(),
{
    lemma_skip_blank(s, i, false);
    lemma_run_end(s, skip_blank(s, i), s.len() as int, CharClass::Word);
}

/// A value that was read ends after its start and within the input.
pub proof fn lemma_value_at(s: Seq<char>, i: int)
    requires
        0 <= i <= s.len(),
    ensures
        value_at(s, i) matches Ok((v, n)) ==> i < n <= s.len(),
        braced_at(s, i) matches Ok((v, n)) ==> i < n <= s.len(),
        quoted_at(s, i) matches Ok((v, n)) ==> i < n <= s.len(),
{
    lemma_skip_blank(s, i, false);
    let j = skip_blank(s, i);
    lemma_skip_blank(s, j, false);
    if j < s.len() {
        lemma_brace_end(s, j + 1, 1);
        lemma_run_end(s, j + 1, s.len() as int, CharClass::Except('"'));
        lemma_run_end(s, j, s.len() as int, CharClass::Digit);
    }
}

/// A field that was read ends after its start and within the input.
pub proof fn lemma_field_at(s: Seq<char>, i: int)
    requires
        0 <= i <= s.len(),
    ensures
        field_at(s, i) matches Ok((f, n)) ==> i < n <= s.len(),
{
    lemma_word_at(s, i);
    let (a, b) = word_at(s, i);
    lemma_expect_char(s, b, '=');
    if let Ok(c) = expect_char(s, b, '=') {
        lemma_value_at(s, c);
    }
}

/// A field list that was read ends at a `}` within the input.
pub proof fn lemma_fields_at(s: Seq<char>, i: int)
    requires
        0 <= i <= s.len(),
    ensures
        fields_at(s, i) matches Ok((fields, end)) ==> i <= end < s.len() && s[end] == '}',
    decreases s.len() - i,
{
    lemma_skip_blank(s, i, false);
    let j = skip_blank(s, i);
    if !(j < s.len() && s[j] == '}') {
        lemma_field_at(s, j);
        if let Ok((f, n)) = field_at(s, j) {
            lemma_skip_blank(s, n, false);
            let m = skip_blank(s, n);
            if m < s.len() && s[m] == ',' {
                lemma_fields_at(s, m + 1);
            }
        }
    }
}

/// An entry that was read ends after its start and within the input.
pub proof fn lemma_entry_at(s: Seq<char>, i: int)
    requires
        0 <= i <= s.len(),
    ensures
        entry_at(s, i) matches Ok((entry, n)) ==> i < n <= s.len(),
{
    lemma_expect_char(s, i, '@');
    if let Ok(a) = expect_char(s, i, '@') {
        lemma_word_at(s, a);
        let (k0, k1) = word_at(s, a);
        lemma_expect_char(s, k1, '{');
        if let Ok(b) = expect_char(s, k1, '{') {
            lemma_word_at(s, b);
            let (c0, c1) = word_at(s, b);
            lemma_expect_char(s, c1, ',');
            if let Ok(d) = expect_char(s, c1, ',') {
                lemma_fields_at(s, d);
            }
        }
    }
}

} // verus!
