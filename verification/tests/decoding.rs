use literature::bibtex::entry::{BibTeXEntry, BibTeXEntryKind};
use literature::bibtex::error::{ParseError, Reason};
use literature::bibtex::fields::{
    Author, Authors, BibTeXField, Day, FieldName, Month, PageRange, Pages,
};
use literature::bibtex::text::to_chars;

fn person(forename: &str, surname: &str) -> Author {
    Author {
        forename: String::from(forename),
        surname: String::from(surname),
        suffix: None,
        prefix: None,
    }
}

fn turned_down(field: &str, raw: &str, reason: Reason) -> Result<BibTeXField, ParseError> {
    Err(ParseError::InvalidFieldValue {
        field: String::from(field),
        raw: String::from(raw),
        reason,
    })
}

#[test]
fn author_ordering() {
    let authors = Authors::from_str("A, B and C, D");
    assert_eq!(authors.len(), 2);
    assert_eq!(authors.get(0), Some(&person("B", "A")));
    assert_eq!(authors.get(1), Some(&person("D", "C")));
    assert_eq!(authors.get(2), None);
    assert_eq!(authors.lead(), Some(&person("B", "A")));
    assert_eq!(authors.lead().unwrap().to_string(), "B A");
    assert_eq!(authors.to_string(), "B A and D C");

    let reversed = Authors::from_str("C, D and A, B");
    assert_eq!(reversed.lead(), Some(&person("D", "C")));
    assert_ne!(reversed.lead(), authors.lead());
}

#[test]
fn author_forms() {
    let authors = Authors::from_str("Donald E. Knuth AND  van Beethoven, Ludwig , Jr and Plato");
    assert_eq!(authors.len(), 3);
    assert_eq!(authors.get(0), Some(&person("Donald E.", "Knuth")));
    assert_eq!(
        authors.get(1),
        Some(&Author {
            forename: String::from("Ludwig"),
            surname: String::from("van Beethoven"),
            suffix: Some(String::from("Jr")),
            prefix: None,
        })
    );
    assert_eq!(authors.get(2), Some(&person("", "Plato")));
    assert_eq!(authors.to_string(), "Donald E. Knuth and Ludwig van Beethoven and  Plato");
}

#[test]
fn author_separator_is_the_whole_word() {
    let authors = Authors::from_str("Anderson, Randall and Sandy Band");
    assert_eq!(authors.len(), 2);
    assert_eq!(authors.get(0), Some(&person("Randall", "Anderson")));
    assert_eq!(authors.get(1), Some(&person("Sandy", "Band")));
    let one = Authors::from_str("Hand,andy");
    assert_eq!(one.len(), 1);
    assert_eq!(one.lead(), Some(&person("andy", "Hand")));
}

#[test]
fn empty_author_list() {
    assert_eq!(Authors::from_str("").len(), 0);
    assert_eq!(Authors::from_str("").lead(), None);
    assert_eq!(Authors::from_str("   ").len(), 0);
    assert_eq!(Authors::from_str("  and  and ").len(), 0);
    assert_eq!(Authors::from_str("").to_string(), "");
    assert_eq!(BibTeXField::decode("author", ""), Ok(BibTeXField::Author(Authors::from_str(""))));
}

#[test]
fn editor_is_a_list_of_persons() {
    let field = BibTeXField::decode("Editor", "Ada Lovelace").unwrap();
    assert_eq!(field, BibTeXField::Editor(Authors::from_str("Ada Lovelace")));
    assert_eq!(field.name(), Some(FieldName::Editor));
}

#[test]
fn pages_ranges() {
    let pages = Pages::from_str("1--5, 7 ,10-12").unwrap();
    assert_eq!(pages.len(), 3);
    assert_eq!(pages.get(0), Some(PageRange { start: 1, end: Some(5) }));
    assert_eq!(pages.get(1), Some(PageRange { start: 7, end: None }));
    assert_eq!(pages.get(2), Some(PageRange { start: 10, end: Some(12) }));
    assert_eq!(pages.get(3), None);
    let one = Pages::from_str(" 42 ").unwrap();
    assert_eq!(one.len(), 1);
    assert_eq!(one.get(0), Some(PageRange { start: 42, end: None }));
    let wide = Pages::from_str("4294967295 - 0").unwrap();
    assert_eq!(wide.get(0), Some(PageRange { start: 4294967295, end: Some(0) }));
}

#[test]
fn pages_faults() {
    assert_eq!(Pages::from_str(""), Err(Reason::NotANumber));
    assert_eq!(Pages::from_str("1,"), Err(Reason::NotANumber));
    assert_eq!(Pages::from_str("xii--xv"), Err(Reason::NotANumber));
    assert_eq!(Pages::from_str("1---5"), Err(Reason::NotANumber));
    assert_eq!(Pages::from_str("1--"), Err(Reason::NotANumber));
    assert_eq!(Pages::from_str("--5"), Err(Reason::NotANumber));
    assert_eq!(Pages::from_str("4294967296"), Err(Reason::OutOfRange));
    assert_eq!(Pages::from_str("1-99999999999999999999999"), Err(Reason::OutOfRange));
    assert_eq!(Pages::from_str("x, 4294967296"), Err(Reason::NotANumber));
    assert_eq!(
        BibTeXField::decode("pages", "a-b"),
        turned_down("pages", "a-b", Reason::NotANumber)
    );
}

#[test]
fn month_names_and_numbers() {
    assert_eq!(Month::from_str("jan"), Ok(Month::Jan));
    assert_eq!(Month::from_str("FEBRUARY"), Ok(Month::Feb));
    assert_eq!(Month::from_str(" May "), Ok(Month::May));
    assert_eq!(Month::from_str("Sep"), Ok(Month::Sep));
    assert_eq!(Month::from_str("1"), Ok(Month::Jan));
    assert_eq!(Month::from_str("12"), Ok(Month::Dec));
    assert_eq!(Month::from_str("7"), Ok(Month::Jul));
    assert_eq!(Month::from_str(" 10\n"), Ok(Month::Oct));
    assert_eq!(Month::from_str("07"), Err(Reason::UnknownName));
    assert_eq!(Month::from_str("01"), Err(Reason::UnknownName));
    assert_eq!(Month::from_str("012"), Err(Reason::UnknownName));
    assert_eq!(Month::from_str("00"), Err(Reason::UnknownName));
    assert_eq!(Month::from_str("+1"), Err(Reason::UnknownName));
    assert_eq!(Month::from_str("janu"), Err(Reason::UnknownName));
    assert_eq!(Month::from_str("\u{a0}jan"), Err(Reason::UnknownName));
    assert_eq!(Month::from_str("0"), Err(Reason::OutOfRange));
    assert_eq!(Month::from_str("13"), Err(Reason::OutOfRange));
    assert_eq!(Month::from_str("99999999999999999999"), Err(Reason::OutOfRange));
    assert_eq!(Month::from_str("sept"), Err(Reason::UnknownName));
    assert_eq!(Month::from_str(""), Err(Reason::UnknownName));
    assert_eq!(Month::from_str("1st"), Err(Reason::UnknownName));
    assert_eq!(Month::from_number(3), Some(Month::Mar));
    assert_eq!(Month::from_number(0), None);
    assert_eq!(Month::from_number(13), None);
    assert_eq!(Month::Oct.to_string(), "October");
    assert_eq!(BibTeXField::decode("month", "Dec"), Ok(BibTeXField::Month(Month::Dec)));
    assert_eq!(
        BibTeXField::decode("month", "13"),
        turned_down("month", "13", Reason::OutOfRange)
    );
    assert_eq!(
        BibTeXField::decode("MONTH", "brumaire"),
        turned_down("MONTH", "brumaire", Reason::UnknownName)
    );
}

#[test]
fn day_is_a_day_of_the_week() {
    assert_eq!(Day::from_str("mon"), Ok(Day::Mon));
    assert_eq!(Day::from_str("Tuesday"), Ok(Day::Tue));
    assert_eq!(Day::from_str(" SUN\n"), Ok(Day::Sun));
    assert_eq!(Day::from_str("1"), Ok(Day::Mon));
    assert_eq!(Day::from_str("7"), Ok(Day::Sun));
    assert_eq!(Day::from_str("07"), Err(Reason::UnknownName));
    assert_eq!(Day::from_str("01"), Err(Reason::UnknownName));
    assert_eq!(Day::from_str(""), Err(Reason::UnknownName));
    assert_eq!(Day::from_str("0"), Err(Reason::OutOfRange));
    assert_eq!(Day::from_str("8"), Err(Reason::OutOfRange));
    assert_eq!(Day::from_str("31"), Err(Reason::OutOfRange));
    assert_eq!(Day::from_str("someday"), Err(Reason::UnknownName));
    assert_eq!(Day::from_number(4), Some(Day::Thu));
    assert_eq!(Day::from_number(8), None);
    assert_eq!(Day::Wed.to_string(), "wednesday");
    assert_eq!(BibTeXField::decode("day", "fri"), Ok(BibTeXField::Day(Day::Fri)));
    assert_eq!(BibTeXField::decode("day", "32"), turned_down("day", "32", Reason::OutOfRange));
}

#[test]
fn numbers_of_sixteen_bits() {
    assert_eq!(BibTeXField::decode("year", "2025"), Ok(BibTeXField::Year(2025)));
    assert_eq!(BibTeXField::decode("year", " 0065535 "), Ok(BibTeXField::Year(65535)));
    assert_eq!(BibTeXField::decode("edition", "3"), Ok(BibTeXField::Edition(3)));
    assert_eq!(BibTeXField::decode("number", "0"), Ok(BibTeXField::Number(0)));
    assert_eq!(
        BibTeXField::decode("year", "65536"),
        turned_down("year", "65536", Reason::OutOfRange)
    );
    assert_eq!(
        BibTeXField::decode("number", "-1"),
        turned_down("number", "-1", Reason::NotANumber)
    );
    assert_eq!(
        BibTeXField::decode("edition", "Second"),
        turned_down("edition", "Second", Reason::NotANumber)
    );
    assert_eq!(BibTeXField::decode("year", ""), turned_down("year", "", Reason::NotANumber));
    assert_eq!(
        BibTeXField::decode("year", "20 25"),
        turned_down("year", "20 25", Reason::NotANumber)
    );
}

#[test]
fn numbers_of_eight_bits() {
    assert_eq!(BibTeXField::decode("volume", "255"), Ok(BibTeXField::Volume(255)));
    assert_eq!(BibTeXField::decode("chapter", "12"), Ok(BibTeXField::Chapter(12)));
    assert_eq!(
        BibTeXField::decode("volume", "256"),
        turned_down("volume", "256", Reason::OutOfRange)
    );
    assert_eq!(
        BibTeXField::decode("chapter", "+1"),
        turned_down("chapter", "+1", Reason::NotANumber)
    );
}

#[test]
fn text_fields_keep_their_text() {
    let text = " as {is}, 100% ";
    let s = || String::from(text);
    assert_eq!(BibTeXField::decode("address", text), Ok(BibTeXField::Address(s())));
    assert_eq!(BibTeXField::decode("annote", text), Ok(BibTeXField::Annote(s())));
    assert_eq!(BibTeXField::decode("annotation", text), Ok(BibTeXField::Annote(s())));
    assert_eq!(BibTeXField::decode("booktitle", text), Ok(BibTeXField::BookTitle(s())));
    assert_eq!(BibTeXField::decode("Book-Title", text), Ok(BibTeXField::BookTitle(s())));
    assert_eq!(BibTeXField::decode("crossref", text), Ok(BibTeXField::Crossref(s())));
    assert_eq!(BibTeXField::decode("cross-reference", text), Ok(BibTeXField::Crossref(s())));
    assert_eq!(BibTeXField::decode("DOI", text), Ok(BibTeXField::Doi(s())));
    assert_eq!(BibTeXField::decode("email", text), Ok(BibTeXField::Email(s())));
    assert_eq!(BibTeXField::decode("howpublished", text), Ok(BibTeXField::HowPublished(s())));
    assert_eq!(BibTeXField::decode("how-published", text), Ok(BibTeXField::HowPublished(s())));
    assert_eq!(BibTeXField::decode("institution", text), Ok(BibTeXField::Institution(s())));
    assert_eq!(BibTeXField::decode("journal", text), Ok(BibTeXField::Journal(s())));
    assert_eq!(BibTeXField::decode("note", text), Ok(BibTeXField::Note(s())));
    assert_eq!(BibTeXField::decode("organization", text), Ok(BibTeXField::Organization(s())));
    assert_eq!(BibTeXField::decode("publisher", text), Ok(BibTeXField::Publisher(s())));
    assert_eq!(BibTeXField::decode("school", text), Ok(BibTeXField::School(s())));
    assert_eq!(BibTeXField::decode("series", text), Ok(BibTeXField::Series(s())));
    assert_eq!(BibTeXField::decode("TiTlE", text), Ok(BibTeXField::Title(s())));
    assert_eq!(BibTeXField::decode("type", text), Ok(BibTeXField::Type(s())));
}

#[test]
fn non_standard_fields_are_kept_as_written() {
    let field = BibTeXField::decode("Keywords", " a, b ").unwrap();
    assert_eq!(
        field,
        BibTeXField::NonStandard { key: String::from("Keywords"), value: String::from(" a, b ") }
    );
    assert!(field.is_non_standard_field());
    assert!(!field.is_standard_field());
    assert_eq!(field.name(), None);
    let title = BibTeXField::decode("title", "t").unwrap();
    assert!(title.is_standard_field());
    assert!(!title.is_non_standard_field());
    assert_eq!(title.name(), Some(FieldName::Title));
    assert_eq!(FieldName::of(&to_chars("titles")), None);
    assert_eq!(FieldName::of(&to_chars("")), None);
    assert_eq!(FieldName::of(&to_chars("YEAR")), Some(FieldName::Year));
}

#[test]
fn accessors_answer_with_the_first_field() {
    let mut entry = BibTeXEntry::new(BibTeXEntryKind::Book, String::from("k"));
    assert_eq!(entry.kind(), &BibTeXEntryKind::Book);
    assert_eq!(entry.citekey(), "k");
    assert!(entry.fields().is_empty());
    assert_eq!(entry.title(), None);
    entry.add_field(BibTeXField::Year(1999));
    entry.add_field(BibTeXField::Title(String::from("first")));
    entry.add_field(BibTeXField::Title(String::from("second")));
    entry.add_field(BibTeXField::NonStandard {
        key: String::from("ISBN"),
        value: String::from("1"),
    });
    entry.add_field(BibTeXField::NonStandard {
        key: String::from("isbn"),
        value: String::from("2"),
    });
    entry.add_field(BibTeXField::Year(2000));
    assert_eq!(entry.fields().len(), 6);
    assert_eq!(entry.title().unwrap(), "first");
    assert_eq!(entry.year(), Some(&1999));
    assert_eq!(entry.non_standard_field("isbn").unwrap(), "1");
    assert_eq!(entry.non_standard_field("Isbn").unwrap(), "1");
    assert_eq!(entry.non_standard_field("title"), None);
    assert_eq!(entry.non_standard_field("issn"), None);
    assert_eq!(entry.journal(), None);
}

#[test]
fn every_accessor_finds_its_field() {
    let mut entry = BibTeXEntry::new(BibTeXEntryKind::Misc, String::from("k"));
    let s = |t: &str| String::from(t);
    entry.add_field(BibTeXField::Address(s("address")));
    entry.add_field(BibTeXField::Annote(s("annote")));
    entry.add_field(BibTeXField::Author(Authors::from_str("A B")));
    entry.add_field(BibTeXField::BookTitle(s("booktitle")));
    entry.add_field(BibTeXField::Chapter(1));
    entry.add_field(BibTeXField::Crossref(s("crossref")));
    entry.add_field(BibTeXField::Doi(s("doi")));
    entry.add_field(BibTeXField::Edition(2));
    entry.add_field(BibTeXField::Editor(Authors::from_str("C D")));
    entry.add_field(BibTeXField::Email(s("email")));
    entry.add_field(BibTeXField::HowPublished(s("howpublished")));
    entry.add_field(BibTeXField::Institution(s("institution")));
    entry.add_field(BibTeXField::Journal(s("journal")));
    entry.add_field(BibTeXField::Day(Day::Sat));
    entry.add_field(BibTeXField::Month(Month::Aug));
    entry.add_field(BibTeXField::Year(3));
    entry.add_field(BibTeXField::Note(s("note")));
    entry.add_field(BibTeXField::Number(4));
    entry.add_field(BibTeXField::Organization(s("organization")));
    entry.add_field(BibTeXField::Pages(Pages::from_str("5-6").unwrap()));
    entry.add_field(BibTeXField::Publisher(s("publisher")));
    entry.add_field(BibTeXField::School(s("school")));
    entry.add_field(BibTeXField::Series(s("series")));
    entry.add_field(BibTeXField::Title(s("title")));
    entry.add_field(BibTeXField::Type(s("type")));
    entry.add_field(BibTeXField::Volume(7));
    assert_eq!(entry.address().unwrap(), "address");
    assert_eq!(entry.annote().unwrap(), "annote");
    assert_eq!(entry.author().unwrap().lead().unwrap().surname, "B");
    assert_eq!(entry.book_title().unwrap(), "booktitle");
    assert_eq!(entry.chapter(), Some(&1));
    assert_eq!(entry.crossref().unwrap(), "crossref");
    assert_eq!(entry.doi().unwrap(), "doi");
    assert_eq!(entry.edition(), Some(&2));
    assert_eq!(entry.editor().unwrap().lead().unwrap().surname, "D");
    assert_eq!(entry.email().unwrap(), "email");
    assert_eq!(entry.how_published().unwrap(), "howpublished");
    assert_eq!(entry.institution().unwrap(), "institution");
    assert_eq!(entry.journal().unwrap(), "journal");
    assert_eq!(entry.day(), Some(&Day::Sat));
    assert_eq!(entry.month(), Some(&Month::Aug));
    assert_eq!(entry.year(), Some(&3));
    assert_eq!(entry.note().unwrap(), "note");
    assert_eq!(entry.number(), Some(&4));
    assert_eq!(entry.organization().unwrap(), "organization");
    assert_eq!(entry.pages().unwrap().get(0), Some(PageRange { start: 5, end: Some(6) }));
    assert_eq!(entry.publisher().unwrap(), "publisher");
    assert_eq!(entry.school().unwrap(), "school");
    assert_eq!(entry.series().unwrap(), "series");
    assert_eq!(entry.title().unwrap(), "title");
    assert_eq!(entry.publication_type().unwrap(), "type");
    assert_eq!(entry.volume(), Some(&7));
}

#[test]
fn entry_kinds_by_name() {
    let table = [
        ("article", BibTeXEntryKind::Article),
        ("book", BibTeXEntryKind::Book),
        ("booklet", BibTeXEntryKind::Booklet),
        ("conference", BibTeXEntryKind::InProceedings),
        ("inbook", BibTeXEntryKind::Inbook),
        ("incollection", BibTeXEntryKind::InCollection),
        ("inproceedings", BibTeXEntryKind::InProceedings),
        ("manual", BibTeXEntryKind::Manual),
        ("mastersthesis", BibTeXEntryKind::MasterThesis),
        ("misc", BibTeXEntryKind::Misc),
        ("phdthesis", BibTeXEntryKind::PhdThesis),
        ("proceedings", BibTeXEntryKind::Proceedings),
        ("techreport", BibTeXEntryKind::TechReport),
        ("unpublished", BibTeXEntryKind::Unpublished),
    ];
    for (name, kind) in table {
        assert_eq!(BibTeXEntryKind::from_str(name), Ok(kind.clone()));
        assert_eq!(BibTeXEntryKind::from_str(&name.to_uppercase()), Ok(kind.clone()));
        assert!(!kind.is_unknown());
        assert_eq!(kind.duplicate(), kind);
    }
    assert_eq!(
        BibTeXEntryKind::from_str("books"),
        Ok(BibTeXEntryKind::Unknown(String::from("books")))
    );
    assert_eq!(BibTeXEntryKind::from_str(""), Ok(BibTeXEntryKind::Unknown(String::new())));
    assert!(BibTeXEntryKind::from_str("Patent").unwrap().is_unknown());
    assert_eq!(
        BibTeXEntryKind::from_str("Patent").unwrap().duplicate(),
        BibTeXEntryKind::Unknown(String::from("Patent"))
    );
    for (name, kind) in table_names() {
        assert_eq!(BibTeXEntryKind::from_str(&kind.to_string()), Ok(kind.clone()));
        assert_eq!(kind.to_string(), name);
    }
    assert_eq!(BibTeXEntryKind::Article.to_string(), "article");
    assert_eq!(BibTeXEntryKind::Conference.to_string(), "conference");
    assert_eq!(BibTeXEntryKind::MasterThesis.to_string(), "mastersthesis");
    assert_eq!(BibTeXEntryKind::Unknown(String::from("x")).to_string(), "unknown");
}

#[test]
fn parsing_through_the_standard_trait() {
    assert_eq!("jan".parse::<Month>(), Ok(Month::Jan));
    assert_eq!("13".parse::<Month>(), Err(Reason::OutOfRange));
    assert_eq!("Thu".parse::<Day>(), Ok(Day::Thu));
    assert_eq!("x".parse::<Day>(), Err(Reason::UnknownName));
    assert_eq!("Book".parse::<BibTeXEntryKind>(), Ok(BibTeXEntryKind::Book));
    assert_eq!(
        "novel".parse::<BibTeXEntryKind>(),
        Ok(BibTeXEntryKind::Unknown(String::from("novel")))
    );
}

fn table_names() -> Vec<(&'static str, BibTeXEntryKind)> {
    vec![
        ("article", BibTeXEntryKind::Article),
        ("book", BibTeXEntryKind::Book),
        ("booklet", BibTeXEntryKind::Booklet),
        ("inbook", BibTeXEntryKind::Inbook),
        ("incollection", BibTeXEntryKind::InCollection),
        ("inproceedings", BibTeXEntryKind::InProceedings),
        ("manual", BibTeXEntryKind::Manual),
        ("mastersthesis", BibTeXEntryKind::MasterThesis),
        ("misc", BibTeXEntryKind::Misc),
        ("phdthesis", BibTeXEntryKind::PhdThesis),
        ("proceedings", BibTeXEntryKind::Proceedings),
        ("techreport", BibTeXEntryKind::TechReport),
        ("unpublished", BibTeXEntryKind::Unpublished),
    ]
}
