use literature::bibtex::entry::{BibTeXEntry, BibTeXEntryKind};
use literature::bibtex::error::{ParseError, Reason};
use literature::bibtex::fields::{BibTeXField, Month};
use literature::bibtex::parse;
use literature::bibtex::parser::{BibtexParser, RawEntry};

fn raw(input: &str) -> Result<Vec<RawEntry>, ParseError> {
    BibtexParser::new(input).parse()
}

#[test]
fn entry_without_fields() {
    let entries = parse("@book{knuth:1997,}").unwrap();
    assert_eq!(entries.len(), 1);
    assert_eq!(entries[0].kind(), &BibTeXEntryKind::Book);
    assert_eq!(entries[0].citekey(), "knuth:1997");
    assert!(entries[0].fields().is_empty());
}

#[test]
fn entry_without_fields_with_blank_text_everywhere() {
    let input = " % head\n@ % a\n misc\t{\n k-1 % key\n , \n } \n% tail";
    let entries = raw(input).unwrap();
    assert_eq!(entries.len(), 1);
    assert_eq!(entries[0].kind, BibTeXEntryKind::Misc);
    assert_eq!(entries[0].citekey, "k-1");
    assert!(entries[0].fields.is_empty());
}

#[test]
fn braced_value_keeps_inner_braces() {
    let entries = parse("@misc{k, title = {A Title with {Nested Braces} is Cool}}").unwrap();
    assert_eq!(entries[0].title().unwrap(), "A Title with {Nested Braces} is Cool");
}

#[test]
fn braced_value_is_taken_verbatim() {
    let entries = raw("@misc{k, note = { 100% {a}\n\"b\" }}").unwrap();
    assert_eq!(entries[0].get("note").unwrap(), " 100% {a}\n\"b\" ");
}

#[test]
fn quoted_value() {
    let entries = parse("@misc{k, title = \"A Test Title\"}").unwrap();
    assert_eq!(entries[0].title().unwrap(), "A Test Title");
}

#[test]
fn quotes_do_not_nest() {
    let entries = raw("@misc{k, title = \"a {b\", note = \"c\"}").unwrap();
    assert_eq!(entries[0].get("title").unwrap(), "a {b");
    assert_eq!(entries[0].get("note").unwrap(), "c");
}

#[test]
fn unterminated_quoted_value() {
    assert_eq!(raw("@misc{k, title = \"abc"), Err(ParseError::UnexpectedEndOfInput));
    assert_eq!(parse("@misc{k, title = \"abc"), Err(ParseError::UnexpectedEndOfInput));
}

#[test]
fn unterminated_braced_value() {
    assert_eq!(raw("@misc{k, title = {a {b} c"), Err(ParseError::UnexpectedEndOfInput));
}

#[test]
fn numeric_value_is_a_run_of_digits() {
    let entries = raw("@misc{k, year = 2025 , volume=7}").unwrap();
    assert_eq!(entries[0].get("year").unwrap(), "2025");
    assert_eq!(entries[0].get("volume").unwrap(), "7");
    assert_eq!(
        raw("@misc{k, year = 2025a}"),
        Err(ParseError::UnexpectedCharacter { expected: '}', found: 'a', line: 1, col: 21 })
    );
}

#[test]
fn comment_line_has_no_effect() {
    let with = "@article{key,\n  % comment text\n  title = {T},\n  % more\n  year = 1999\n}\n";
    let without = "@article{key,\n  title = {T},\n  year = 1999\n}\n";
    assert_eq!(raw(with), raw(without));
    assert_eq!(parse(with), parse(without));
    assert_eq!(parse(with).unwrap()[0].year(), Some(&1999));
}

#[test]
fn comment_between_any_two_tokens() {
    let plain = raw("@article{key,title={T},}").unwrap();
    let noisy = "%c\n@%c\narticle%c\n{%c\nkey%c\n,%c\ntitle%c\n=%c\n{T}%c\n,%c\n}%c\n";
    assert_eq!(raw(noisy).unwrap(), plain);
}

#[test]
fn comment_runs_to_the_end_of_input() {
    let entries = raw("@misc{k,} % no line feed behind this").unwrap();
    assert_eq!(entries.len(), 1);
}

#[test]
fn unknown_entry_kind() {
    let entries = parse("@foo{k, title={x}}").unwrap();
    assert_eq!(entries.len(), 1);
    assert_eq!(entries[0].kind(), &BibTeXEntryKind::Unknown(String::from("foo")));
    assert!(entries[0].kind().is_unknown());
    assert_eq!(entries[0].title().unwrap(), "x");
}

#[test]
fn entry_kind_ignores_letter_case() {
    let entries = raw("@ARTICLE{a,} @InProceedings{b,} @conference{c,} @Foo{d,}").unwrap();
    assert_eq!(entries[0].kind, BibTeXEntryKind::Article);
    assert_eq!(entries[1].kind, BibTeXEntryKind::InProceedings);
    assert_eq!(entries[2].kind, BibTeXEntryKind::InProceedings);
    assert_eq!(entries[3].kind, BibTeXEntryKind::Unknown(String::from("Foo")));
}

#[test]
fn empty_input_is_a_fault() {
    assert_eq!(parse(""), Err(ParseError::EmptyBibliography));
    assert_eq!(parse(" \n\t\r\n"), Err(ParseError::EmptyBibliography));
    assert_eq!(parse("% only a comment"), Err(ParseError::EmptyBibliography));
    assert_eq!(parse("  % one\n\n % two\n"), Err(ParseError::EmptyBibliography));
    assert_eq!(raw(""), Err(ParseError::EmptyBibliography));
}

#[test]
fn text_that_is_no_entry() {
    assert_eq!(
        raw("hello"),
        Err(ParseError::UnexpectedCharacter { expected: '@', found: 'h', line: 1, col: 1 })
    );
}

#[test]
fn fault_names_line_and_column() {
    let input = "@article{key,\n  title = {x}\n  year = 2020}";
    assert_eq!(
        raw(input),
        Err(ParseError::UnexpectedCharacter { expected: '}', found: 'y', line: 3, col: 3 })
    );
}

#[test]
fn missing_comma_behind_citekey() {
    assert_eq!(
        raw("@article{key}"),
        Err(ParseError::UnexpectedCharacter { expected: ',', found: '}', line: 1, col: 13 })
    );
}

#[test]
fn missing_value() {
    assert_eq!(
        raw("@article{key, title = abc}"),
        Err(ParseError::UnexpectedCharacter { expected: '{', found: 'a', line: 1, col: 23 })
    );
    assert_eq!(
        raw("@article{key, title }"),
        Err(ParseError::UnexpectedCharacter { expected: '=', found: '}', line: 1, col: 21 })
    );
}

#[test]
fn empty_citekey_is_turned_down() {
    let fault = ParseError::InvalidFieldValue {
        field: String::from("citekey"),
        raw: String::new(),
        reason: Reason::Empty,
    };
    assert_eq!(raw("@article{, title = {x}}"), Err(fault.clone()));
    assert_eq!(raw("@article{ }"), Err(fault));
}

#[test]
fn input_ends_inside_an_entry() {
    assert_eq!(raw("@"), Err(ParseError::UnexpectedEndOfInput));
    assert_eq!(raw("@article"), Err(ParseError::UnexpectedEndOfInput));
    assert_eq!(raw("@article{"), Err(ParseError::UnexpectedEndOfInput));
    assert_eq!(raw("@article{key"), Err(ParseError::UnexpectedEndOfInput));
    assert_eq!(raw("@article{key,"), Err(ParseError::UnexpectedEndOfInput));
    assert_eq!(raw("@article{key, title"), Err(ParseError::UnexpectedEndOfInput));
    assert_eq!(raw("@article{key, title ="), Err(ParseError::UnexpectedEndOfInput));
    assert_eq!(raw("@article{key, title = {x}"), Err(ParseError::UnexpectedEndOfInput));
    assert_eq!(raw("@article{key, title = {x},"), Err(ParseError::UnexpectedEndOfInput));
}

#[test]
fn a_later_fault_discards_earlier_entries() {
    assert_eq!(
        raw("@misc{a,}\n@misc{b, x = }"),
        Err(ParseError::UnexpectedCharacter { expected: '{', found: '}', line: 2, col: 14 })
    );
}

#[test]
fn structure_comes_before_values() {
    let input = "@misc{a, year = {next}}\n@misc{b";
    assert_eq!(parse(input), Err(ParseError::UnexpectedEndOfInput));
}

#[test]
fn invalid_field_value_ends_the_parse() {
    assert_eq!(
        parse("@misc{a, title = {ok}}\n@misc{b, year = {next}}"),
        Err(ParseError::InvalidFieldValue {
            field: String::from("year"),
            raw: String::from("next"),
            reason: Reason::NotANumber,
        })
    );
}

#[test]
fn repeated_fields_are_kept_in_order() {
    let entries = raw("@misc{k, note = {one}, x = 1, note = {two}}").unwrap();
    let fields = &entries[0].fields;
    assert_eq!(fields.len(), 3);
    assert_eq!(fields[0], (String::from("note"), String::from("one")));
    assert_eq!(fields[1], (String::from("x"), String::from("1")));
    assert_eq!(fields[2], (String::from("note"), String::from("two")));
    assert_eq!(entries[0].get("note").unwrap(), "one");
    assert_eq!(entries[0].get("Note"), None);
    assert_eq!(entries[0].get("absent"), None);
    let typed = parse("@misc{k, note = {one}, x = 1, note = {two}}").unwrap();
    assert_eq!(typed[0].note().unwrap(), "one");
}

#[test]
fn field_order_does_not_matter_to_accessors() {
    let one = parse("@misc{k, title = {T}, year = 2001, month = {mar}, extra = {e}}");
    let one = &one.unwrap()[0];
    let two = parse("@misc{k, extra = {e}, month = {mar}, year = 2001, title = {T}}");
    let two = &two.unwrap()[0];
    assert_ne!(one.fields(), two.fields());
    assert_eq!(one.fields()[0], BibTeXField::Title(String::from("T")));
    assert_eq!(two.fields()[3], BibTeXField::Title(String::from("T")));
    assert_eq!(one.title(), two.title());
    assert_eq!(one.year(), two.year());
    assert_eq!(one.month(), two.month());
    assert_eq!(one.month(), Some(&Month::Mar));
    assert_eq!(one.non_standard_field("extra"), two.non_standard_field("extra"));
    assert_eq!(one.author(), two.author());
    assert_eq!(one.author(), None);
}

#[test]
fn field_order_with_numeric_values() {
    let one = &parse("@misc{k,a=1,b=2}").unwrap()[0];
    let two = &parse("@misc{k,b=2,a=1}").unwrap()[0];
    assert_ne!(one.fields(), two.fields());
    assert_eq!(one.non_standard_field("a").unwrap(), "1");
    assert_eq!(two.non_standard_field("a").unwrap(), "1");
    assert_eq!(one.non_standard_field("b"), two.non_standard_field("b"));
}

#[test]
fn independent_inputs_do_not_mix() {
    let inputs = ["@misc{a, title = {A}}", "@book{b, year = 2}", "% nothing", "@x{c,} @y{d,}"];
    let alone: Vec<_> = inputs.iter().map(|i| parse(i)).collect();
    let mut parsers: Vec<_> = inputs.iter().map(|i| BibtexParser::new(i)).collect();
    let mut interleaved = Vec::new();
    for parser in parsers.iter_mut().rev() {
        interleaved.push(parser.parse());
    }
    interleaved.reverse();
    for (k, input) in inputs.iter().enumerate() {
        assert_eq!(parse(input), alone[k]);
        assert_eq!(interleaved[k], raw(input));
    }
    assert_eq!(alone[3].as_ref().unwrap().len(), 2);
}

#[test]
fn cursor_steps() {
    let mut parser = BibtexParser::new(" %c\n x1 = {v} , \"q\" 42}");
    assert_eq!(parser.peek(), Some(' '));
    parser.consume_whitespace();
    assert_eq!(parser.peek(), Some('x'));
    assert_eq!(parser.parse_field(), Ok((String::from("x1"), String::from("v"))));
    assert_eq!(parser.consume_char(','), Ok(()));
    assert_eq!(parser.consume_quoted_string(), Ok(String::from("q")));
    assert_eq!(parser.parse_value(), Ok(String::from("42")));
    assert_eq!(
        parser.consume_braced_string(),
        Err(ParseError::UnexpectedCharacter { expected: '{', found: '}', line: 2, col: 19 })
    );
    assert_eq!(parser.consume_identifier(), "");
    parser.advance();
    assert_eq!(parser.peek(), None);
    parser.advance();
    assert_eq!(parser.peek(), None);
    assert_eq!(parser.consume_char('}'), Err(ParseError::UnexpectedEndOfInput));
}

#[test]
fn parse_entry_reads_one_entry() {
    let mut parser = BibtexParser::new("@misc{a, k = 1} @misc{b,}");
    let first = parser.parse_entry().unwrap();
    assert_eq!(first.citekey, "a");
    assert_eq!(first.fields, vec![(String::from("k"), String::from("1"))]);
    let rest = parser.parse().unwrap();
    assert_eq!(rest.len(), 1);
    assert_eq!(rest[0].citekey, "b");
}

#[test]
fn typed_entry_from_raw() {
    let raw_entries = raw("@article{k, author = {A, B and C, D}, pages = {1--2}}").unwrap();
    let entry = BibTeXEntry::from_raw(&raw_entries[0]).unwrap();
    assert_eq!(entry.kind(), &BibTeXEntryKind::Article);
    assert_eq!(entry.citekey(), "k");
    assert_eq!(entry.fields().len(), 2);
    assert_eq!(entry.author().unwrap().len(), 2);
}

#[test]
fn non_ascii_text_is_kept() {
    let entries = parse("@misc{k, title = {Über die Größe — naïve}, author = {Gödel, Kurt}}");
    let entries = entries.unwrap();
    assert_eq!(entries[0].title().unwrap(), "Über die Größe — naïve");
    assert_eq!(entries[0].author().unwrap().lead().unwrap().surname, "Gödel");
    assert_eq!(
        raw("@misc{k, é = 1}"),
        Err(ParseError::UnexpectedCharacter { expected: '=', found: 'é', line: 1, col: 10 })
    );
}

#[test]
fn fault_messages() {
    let fault = ParseError::UnexpectedCharacter { expected: '}', found: 'y', line: 3, col: 3 };
    assert_eq!(fault.to_string(), "unexpected character 'y'. expected '}'");
    assert_eq!(
        ParseError::EmptyBibliography.to_string(),
        "failed to parse BibTeX file, seemingly empty"
    );
    assert_eq!(ParseError::UnexpectedEndOfInput.to_string(), "unexpected eof");
    let fault = ParseError::InvalidFieldValue {
        field: String::from("year"),
        raw: String::from("next"),
        reason: Reason::NotANumber,
    };
    assert_eq!(fault.to_string(), "invalid value 'next' within the entry field 'year'");
}

fn crosses_threads<T: Send + Sync + 'static>() {}

#[test]
fn nothing_is_shared_between_parses() {
    crosses_threads::<BibtexParser>();
    crosses_threads::<RawEntry>();
    crosses_threads::<BibTeXEntry>();
    crosses_threads::<ParseError>();
    crosses_threads::<fn(&str) -> Result<Vec<BibTeXEntry>, ParseError>>();
    let input = "@misc{a, title = {A}}";
    let first = parse(input);
    let mut other = BibtexParser::new("@book{b, year = 1}");
    let between = other.parse_entry();
    let second = parse(input);
    assert_eq!(first, second);
    assert_eq!(between.unwrap().citekey, "b");
}

#[test]
fn cursor_stands_at_the_fault() {
    let mut parser = BibtexParser::new("  % c\n x = 1");
    assert_eq!(
        parser.consume_char('@'),
        Err(ParseError::UnexpectedCharacter { expected: '@', found: 'x', line: 2, col: 2 })
    );
    assert_eq!(parser.peek(), Some('x'));
    assert_eq!(parser.consume_identifier(), "x");

    let mut parser = BibtexParser::new("@misc{k, t = {a}  ; x}");
    assert_eq!(
        parser.parse_entry(),
        Err(ParseError::UnexpectedCharacter { expected: '}', found: ';', line: 1, col: 19 })
    );
    assert_eq!(parser.peek(), Some(';'));

    let mut parser = BibtexParser::new("@misc{ , t = 1}");
    assert!(parser.parse_entry().is_err());
    assert_eq!(parser.peek(), Some(','));

    let mut parser = BibtexParser::new("@misc{k, t = {open");
    assert_eq!(parser.parse(), Err(ParseError::UnexpectedEndOfInput));
    assert_eq!(parser.peek(), None);

    let mut parser = BibtexParser::new("@misc{k, t = ?}");
    assert!(parser.parse().is_err());
    assert_eq!(parser.peek(), Some('?'));

    let mut parser = BibtexParser::new("@misc{k,} @book{b,} ");
    assert!(parser.parse().is_ok());
    assert_eq!(parser.peek(), None);
}
