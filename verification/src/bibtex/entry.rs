//! Entry kinds and the typed entry.

use super::error::{ErrorView, ParseError};
use super::fields::{
    decode_field, AuthorView, Authors, BibTeXField, Day, FieldName, FieldView, Month, PageRange,
    Pages,
};
use super::parser::{RawEntry, RawEntryView};
use super::text::{copy_range, is_word, same_word, to_chars};
use vstd::prelude::*;
use vstd::string::StringExecFns;

verus! {

/// The kind of a bibliography entry: the standard kinds, and `Unknown` for
/// every other name, which keeps the name as it was written.
#[derive(Clone, Debug, PartialEq, Eq)]
pub enum BibTeXEntryKind {
    Article,
    Book,
    Booklet,
    /// Never the result of reading a name: `conference` is read as
    /// `InProceedings`, whose synonym it is.
    Conference,
    Inbook,
    InCollection,
    InProceedings,
    Manual,
    MasterThesis,
    Misc,
    PhdThesis,
    Proceedings,
    TechReport,
    Unpublished,
    Unknown(String),
}

/// A `BibTeXEntryKind` as a mathematical value.
pub enum KindView {
    Article,
    Book,
    Booklet,
    Conference,
    Inbook,
    InCollection,
    InProceedings,
    Manual,
    MasterThesis,
    Misc,
    PhdThesis,
    Proceedings,
    TechReport,
    Unpublished,
    Unknown(Seq<char>),
}

impl View for BibTeXEntryKind {
    type V = KindView;

    open spec fn view(&self) -> KindView {
        match self {
            BibTeXEntryKind::Article => KindView::Article,
            BibTeXEntryKind::Book => KindView::Book,
            BibTeXEntryKind::Booklet => KindView::Booklet,
            BibTeXEntryKind::Conference => KindView::Conference,
            BibTeXEntryKind::Inbook => KindView::Inbook,
            BibTeXEntryKind::InCollection => KindView::InCollection,
            BibTeXEntryKind::InProceedings => KindView::InProceedings,
            BibTeXEntryKind::Manual => KindView::Manual,
            BibTeXEntryKind::MasterThesis => KindView::MasterThesis,
            BibTeXEntryKind::Misc => KindView::Misc,
            BibTeXEntryKind::PhdThesis => KindView::PhdThesis,
            BibTeXEntryKind::Proceedings => KindView::Proceedings,
            BibTeXEntryKind::TechReport => KindView::TechReport,
            BibTeXEntryKind::Unpublished => KindView::Unpublished,
            BibTeXEntryKind::Unknown(name) => KindView::Unknown(name@),
        }
    }
}

impl DeepView for BibTeXEntryKind {
    type V = KindView;

    open spec fn deep_view(&self) -> KindView {
        self@
    }
}

/// The kind that a name stands for. ASCII letter case does not count;
/// `conference` and `inproceedings` are one kind; a name outside the table is
/// `Unknown` and kept as written.
pub open spec fn kind_of(name: Seq<char>) -> KindView {
    if same_word(name, "article"@) {
        KindView::Article
    } else if same_word(name, "book"@) {
        KindView::Book
    } else if same_word(name, "booklet"@) {
        KindView::Booklet
    } else if same_word(name, "conference"@) {
        KindView::InProceedings
    } else if same_word(name, "inbook"@) {
        KindView::Inbook
    } else if same_word(name, "incollection"@) {
        KindView::InCollection
    } else if same_word(name, "inproceedings"@) {
        KindView::InProceedings
    } else if same_word(name, "manual"@) {
        KindView::Manual
    } else if same_word(name, "mastersthesis"@) {
        KindView::MasterThesis
    } else if same_word(name, "misc"@) {
        KindView::Misc
    } else if same_word(name, "phdthesis"@) {
        KindView::PhdThesis
    } else if same_word(name, "proceedings"@) {
        KindView::Proceedings
    } else if same_word(name, "techreport"@) {
        KindView::TechReport
    } else if same_word(name, "unpublished"@) {
        KindView::Unpublished
    } else {
        KindView::Unknown(name)
    }
}

/// The word that `BibTeXEntryKind::to_string` writes for a kind: for a kind
/// of the table the name under which the table knows it.
pub open spec fn kind_name(kind: KindView) -> Seq<char> {
    match kind {
        KindView::Article => "article"@,
        KindView::Book => "book"@,
        KindView::Booklet => "booklet"@,
        KindView::Conference => "conference"@,
        KindView::Inbook => "inbook"@,
        KindView::InCollection => "incollection"@,
        KindView::InProceedings => "inproceedings"@,
        KindView::Manual => "manual"@,
        KindView::MasterThesis => "mastersthesis"@,
        KindView::Misc => "misc"@,
        KindView::PhdThesis => "phdthesis"@,
        KindView::Proceedings => "proceedings"@,
        KindView::TechReport => "techreport"@,
        KindView::Unpublished => "unpublished"@,
        KindView::Unknown(_) => "unknown"@,
    }
}

impl BibTeXEntryKind {
    /// Reads the kind out of the characters between two positions.
    pub(crate) fn from_chars(text: &Vec<char>, from: usize, to: usize) -> (kind: Self)
        requires
            from <= to <= text.len(),
        ensures
            kind@ == kind_of(text@.subrange(from as int, to as int)),
    {
        if is_word(text, from, to, "article") {
            BibTeXEntryKind::Article
        } else if is_word(text, from, to, "book") {
            BibTeXEntryKind::Book
        } else if is_word(text, from, to, "booklet") {
            BibTeXEntryKind::Booklet
        } else if is_word(text, from, to, "conference") {
            BibTeXEntryKind::InProceedings
        } else if is_word(text, from, to, "inbook") {
            BibTeXEntryKind::Inbook
        } else if is_word(text, from, to, "incollection") {
            BibTeXEntryKind::InCollection
        } else if is_word(text, from, to, "inproceedings") {
            BibTeXEntryKind::InProceedings
        } else if is_word(text, from, to, "manual") {
            BibTeXEntryKind::Manual
        } else if is_word(text, from, to, "mastersthesis") {
            BibTeXEntryKind::MasterThesis
        } else if is_word(text, from, to, "misc") {
            BibTeXEntryKind::Misc
        } else if is_word(text, from, to, "phdthesis") {
            BibTeXEntryKind::PhdThesis
        } else if is_word(text, from, to, "proceedings") {
            BibTeXEntryKind::Proceedings
        } else if is_word(text, from, to, "techreport") {
            BibTeXEntryKind::TechReport
        } else if is_word(text, from, to, "unpublished") {
            BibTeXEntryKind::Unpublished
        } else {
            BibTeXEntryKind::Unknown(copy_range(text, from, to))
        }
    }

    /// Reads the kind that a name stands for. The result is always `Ok`: a
    /// name outside the table gives `Unknown` with the name in it.
    pub fn from_str(s: &str) -> (r: Result<Self, ParseError>)
        ensures
            r matches Ok(kind) && kind@ == kind_of(s@),
    {
        let text = to_chars(s);
        assert(text@.subrange(0, text@.len() as int) =~= s@);
        Ok(BibTeXEntryKind::from_chars(&text, 0, text.len()))
    }

    /// A copy of the kind.
    pub fn duplicate(&self) -> (kind: Self)
        ensures
            kind@ == self@,
    {
        match self {
            BibTeXEntryKind::Article => BibTeXEntryKind::Article,
            BibTeXEntryKind::Book => BibTeXEntryKind::Book,
            BibTeXEntryKind::Booklet => BibTeXEntryKind::Booklet,
            BibTeXEntryKind::Conference => BibTeXEntryKind::Conference,
            BibTeXEntryKind::Inbook => BibTeXEntryKind::Inbook,
            BibTeXEntryKind::InCollection => BibTeXEntryKind::InCollection,
            BibTeXEntryKind::InProceedings => BibTeXEntryKind::InProceedings,
            BibTeXEntryKind::Manual => BibTeXEntryKind::Manual,
            BibTeXEntryKind::MasterThesis => BibTeXEntryKind::MasterThesis,
            BibTeXEntryKind::Misc => BibTeXEntryKind::Misc,
            BibTeXEntryKind::PhdThesis => BibTeXEntryKind::PhdThesis,
            BibTeXEntryKind::Proceedings => BibTeXEntryKind::Proceedings,
            BibTeXEntryKind::TechReport => BibTeXEntryKind::TechReport,
            BibTeXEntryKind::Unpublished => BibTeXEntryKind::Unpublished,
            BibTeXEntryKind::Unknown(name) => BibTeXEntryKind::Unknown(name.clone()),
        }
    }

    /// Whether the kind is outside the table of standard kinds.
    pub fn is_unknown(&self) -> (b: bool)
        ensures
            b == (self@ is Unknown),
    {
        matches!(self, BibTeXEntryKind::Unknown(_))
    }

    /// The kind as a lower-case word; `unknown` for every kind outside the
    /// table.
    pub fn to_string(&self) -> (s: String)
        ensures
            s@ == kind_name(self@),
    {
        match self {
            BibTeXEntryKind::Article => String::from_str("article"),
            BibTeXEntryKind::Book => String::from_str("book"),
            BibTeXEntryKind::Booklet => String::from_str("booklet"),
            BibTeXEntryKind::Conference => String::from_str("conference"),
            BibTeXEntryKind::Inbook => String::from_str("inbook"),
            BibTeXEntryKind::InCollection => String::from_str("incollection"),
            BibTeXEntryKind::InProceedings => String::from_str("inproceedings"),
            BibTeXEntryKind::Manual => String::from_str("manual"),
            BibTeXEntryKind::MasterThesis => String::from_str("mastersthesis"),
            BibTeXEntryKind::Misc => String::from_str("misc"),
            BibTeXEntryKind::PhdThesis => String::from_str("phdthesis"),
            BibTeXEntryKind::Proceedings => String::from_str("proceedings"),
            BibTeXEntryKind::TechReport => String::from_str("techreport"),
            BibTeXEntryKind::Unpublished => String::from_str("unpublished"),
            BibTeXEntryKind::Unknown(_) => String::from_str("unknown"),
        }
    }
}

/// Parsing a string slice as a kind is `BibTeXEntryKind::from_str`, and
/// never fails.
impl std::str::FromStr for BibTeXEntryKind {
    type Err = ParseError;

    fn from_str(s: &str) -> (r: Result<Self, ParseError>)
        ensures
            r matches Ok(kind) && kind@ == kind_of(s@),
    {
        BibTeXEntryKind::from_str(s)
    }
}

/// One entry of a bibliography: its kind, its citekey, and its fields with
/// their decoded values, in the order in which they were added. A field name
/// may occur more than once; the accessors answer with the first.
///
/// The kind and the citekey are fixed when the entry is made, and fields are
/// only ever added at the end: nothing that an entry holds changes later.
#[derive(Clone, Debug, PartialEq, Eq)]
pub struct BibTeXEntry {
    /// The kind of entry
    kind: BibTeXEntryKind,
    /// The key for the entry, for example: Anderson2004
    citekey: String,
    /// The fields of the entry
    fields: Vec<BibTeXField>,
}

/// A `BibTeXEntry` as a mathematical value.
pub struct EntryView {
    pub kind: KindView,
    pub citekey: Seq<char>,
    pub fields: Seq<FieldView>,
}

impl View for BibTeXEntry {
    type V = EntryView;

    closed spec fn view(&self) -> EntryView {
        EntryView { kind: self.kind@, citekey: self.citekey@, fields: self.fields.deep_view() }
    }
}

impl DeepView for BibTeXEntry {
    type V = EntryView;

    open spec fn deep_view(&self) -> EntryView {
        self@
    }
}

/// The position of the first field of the given standard name at or after
/// `i`; the number of fields if there is none.
pub open spec fn first_at(fields: Seq<FieldView>, name: FieldName, i: int) -> int
    decreases fields.len() - i,
{
    if 0 <= i < fields.len() && fields[i].name() != Some(name) {
        first_at(fields, name, i + 1)
    } else {
        i
    }
}

/// The first field of the given standard name, if there is one.
pub open spec fn first_of(fields: Seq<FieldView>, name: FieldName) -> Option<FieldView> {
    let k = first_at(fields, name, 0);
    if 0 <= k < fields.len() {
        Some(fields[k])
    } else {
        None
    }
}

/// The text of a field that holds text.
pub open spec fn text_in(field: Option<FieldView>) -> Option<Seq<char>> {
    match field {
        Some(FieldView::Address(t)) => Some(t),
        Some(FieldView::Annote(t)) => Some(t),
        Some(FieldView::BookTitle(t)) => Some(t),
        Some(FieldView::Crossref(t)) => Some(t),
        Some(FieldView::Doi(t)) => Some(t),
        Some(FieldView::Email(t)) => Some(t),
        Some(FieldView::HowPublished(t)) => Some(t),
        Some(FieldView::Institution(t)) => Some(t),
        Some(FieldView::Journal(t)) => Some(t),
        Some(FieldView::Note(t)) => Some(t),
        Some(FieldView::Organization(t)) => Some(t),
        Some(FieldView::Publisher(t)) => Some(t),
        Some(FieldView::School(t)) => Some(t),
        Some(FieldView::Series(t)) => Some(t),
        Some(FieldView::Title(t)) => Some(t),
        Some(FieldView::Type(t)) => Some(t),
        _ => None,
    }
}

/// The persons of an author or editor field.
pub open spec fn people_in(field: Option<FieldView>) -> Option<Seq<AuthorView>> {
    match field {
        Some(FieldView::Author(p)) => Some(p),
        Some(FieldView::Editor(p)) => Some(p),
        _ => None,
    }
}

/// The number of a volume or chapter field.
pub open spec fn byte_in(field: Option<FieldView>) -> Option<u8> {
    match field {
        Some(FieldView::Chapter(n)) => Some(n),
        Some(FieldView::Volume(n)) => Some(n),
        _ => None,
    }
}

/// The number of a year, edition or number field.
pub open spec fn short_in(field: Option<FieldView>) -> Option<u16> {
    match field {
        Some(FieldView::Edition(n)) => Some(n),
        Some(FieldView::Year(n)) => Some(n),
        Some(FieldView::Number(n)) => Some(n),
        _ => None,
    }
}

/// The day of a day field.
pub open spec fn day_in(field: Option<FieldView>) -> Option<Day> {
    match field {
        Some(FieldView::Day(d)) => Some(d),
        _ => None,
    }
}

/// The month of a month field.
pub open spec fn month_in(field: Option<FieldView>) -> Option<Month> {
    match field {
        Some(FieldView::Month(m)) => Some(m),
        _ => None,
    }
}

/// The ranges of a pages field.
pub open spec fn pages_in(field: Option<FieldView>) -> Option<Seq<PageRange>> {
    match field {
        Some(FieldView::Pages(p)) => Some(p),
        _ => None,
    }
}

/// Whether the field is a non-standard one called `key`, letter case aside.
pub open spec fn is_extra(field: FieldView, key: Seq<char>) -> bool {
    field matches FieldView::NonStandard { key: k, .. } && same_word(k, key)
}

/// The position of the first non-standard field called `key` at or after
/// `i`; the number of fields if there is none.
pub open spec fn first_extra_at(fields: Seq<FieldView>, key: Seq<char>, i: int) -> int
    decreases fields.len() - i,
{
    if 0 <= i < fields.len() && !is_extra(fields[i], key) {
        first_extra_at(fields, key, i + 1)
    } else {
        i
    }
}

/// The text of the first non-standard field called `key`, if there is one.
pub open spec fn extra_of(fields: Seq<FieldView>, key: Seq<char>) -> Option<Seq<char>> {
    let k = first_extra_at(fields, key, 0);
    if 0 <= k < fields.len() {
        Some(fields[k]->NonStandard_value)
    } else {
        None
    }
}

/// Decoding the raw fields from position `i` on, in order. The first fault
/// ends the decoding.
pub open spec fn typed_fields(raw: Seq<(Seq<char>, Seq<char>)>, i: int) -> Result<
    Seq<FieldView>,
    ErrorView,
>
    decreases raw.len() - i,
{
    if i < 0 || i >= raw.len() {
        Ok(Seq::empty())
    } else {
        match decode_field(raw[i].0, raw[i].1) {
            Err(e) => Err(e),
            Ok(f) => match typed_fields(raw, i + 1) {
                Err(e) => Err(e),
                Ok(rest) => Ok(seq![f] + rest),
            },
        }
    }
}

/// The typed entry that a raw entry stands for: the same kind and citekey,
/// and each field decoded.
pub open spec fn typed_entry(raw: RawEntryView) -> Result<EntryView, ErrorView> {
    match typed_fields(raw.fields, 0) {
        Err(e) => Err(e),
        Ok(fields) => Ok(EntryView { kind: raw.kind, citekey: raw.citekey, fields }),
    }
}

impl BibTeXEntry {
    /// An entry of the given kind and citekey that has no fields yet.
    pub fn new(kind: BibTeXEntryKind, citekey: String) -> (entry: Self)
        ensures
            entry@ == (EntryView { kind: kind@, citekey: citekey@, fields: Seq::empty() }),
    {
        let entry = Self { kind, citekey, fields: Vec::new() };
        assert(entry.fields.deep_view() =~= Seq::<FieldView>::empty());
        entry
    }

    /// The kind of the entry.
    pub fn kind(&self) -> (kind: &BibTeXEntryKind)
        ensures
            kind@ == self@.kind,
    {
        &self.kind
    }

    /// The citekey of the entry.
    pub fn citekey(&self) -> (citekey: &String)
        ensures
            citekey@ == self@.citekey,
    {
        &self.citekey
    }

    /// The fields of the entry, in the order in which they were added.
    pub fn fields(&self) -> (fields: &Vec<BibTeXField>)
        ensures
            fields.deep_view() == self@.fields,
    {
        &self.fields
    }

    /// Adds a field behind those that the entry has.
    pub fn add_field(&mut self, field: BibTeXField)
        ensures
            final(self)@ == (EntryView {
                fields: old(self)@.fields.push(field@),
                ..old(self)@
            }),
    {
        self.fields.push(field);
        assert(self.fields.deep_view() =~= old(self).fields.deep_view().push(field@));
    }

    /// Decodes the fields of a raw entry. The kind and the citekey are kept.
    pub fn from_raw(raw: &RawEntry) -> (r: Result<Self, ParseError>)
        ensures
            match typed_entry(raw@) {
                Ok(entry) => r matches Ok(x) && x@ == entry,
                Err(e) => r matches Err(x) && x@ == e,
            },
    {
        let ghost pairs = raw@.fields;
        let mut entry = BibTeXEntry::new(raw.kind.duplicate(), raw.citekey.clone());
        let n = raw.fields.len();
        let mut i: usize = 0;
        while i < n
            invariant
                i <= n,
                n == raw.fields.len(),
                pairs == raw@.fields,
                pairs.len() == n,
                entry@.kind == raw.kind@,
                entry@.citekey == raw.citekey@,
                typed_fields(pairs, 0) == match typed_fields(pairs, i as int) {
                    Ok(rest) => Ok::<Seq<FieldView>, ErrorView>(entry@.fields + rest),
                    Err(e) => Err(e),
                },
            decreases n - i,
        {
            let ghost before = entry@.fields;
            assert(pairs[i as int] == (raw.fields[i as int].0@, raw.fields[i as int].1@));
            match BibTeXField::decode(raw.fields[i].0.as_str(), raw.fields[i].1.as_str()) {
                Err(e) => {
                    return Err(e);
                },
                Ok(field) => {
                    entry.add_field(field);
                    proof {
                        match typed_fields(pairs, i + 1) {
                            Ok(rest) => {
                                assert(before.push(field@) + rest =~= before + (seq![field@]
                                    + rest));
                            },
                            Err(e) => {},
                        }
                    }
                },
            }
            i += 1;
        }
        assert(entry@.fields + Seq::<FieldView>::empty() =~= entry@.fields);
        Ok(entry)
    }

    /// The position of the first field of the given standard name.
    fn find(&self, name: FieldName) -> (at: Option<usize>)
        ensures
            match at {
                Some(k) => k < self.fields.len() && k == first_at(self@.fields, name, 0)
                    && self.fields[k as int]@ == self@.fields[k as int]
                    && self@.fields[k as int].name() == Some(name),
                None => first_at(self@.fields, name, 0) >= self@.fields.len(),
            },
    {
        let mut i: usize = 0;
        while i < self.fields.len()
            invariant
                i <= self.fields.len(),
                self@.fields.len() == self.fields.len(),
                first_at(self@.fields, name, 0) == first_at(self@.fields, name, i as int),
            decreases self.fields.len() - i,
        {
            if self.fields[i].name() == Some(name) {
                return Some(i);
            }
            i += 1;
        }
        None
    }

    /// The address: the value of the first field of that name, if there is one.
    pub fn address(&self) -> (value: Option<&String>)
        ensures
            value.deep_view() == text_in(first_of(self@.fields, FieldName::Address)),
    {
        match self.find(FieldName::Address) {
            Some(k) => match &self.fields[k] {
                BibTeXField::Address(v) => Some(v),
                _ => None,
            },
            None => None,
        }
    }

    /// The annotation: the value of the first field of that name, if there
    /// is one.
    pub fn annote(&self) -> (value: Option<&String>)
        ensures
            value.deep_view() == text_in(first_of(self@.fields, FieldName::Annote)),
    {
        match self.find(FieldName::Annote) {
            Some(k) => match &self.fields[k] {
                BibTeXField::Annote(v) => Some(v),
                _ => None,
            },
            None => None,
        }
    }

    /// The authors: the value of the first field of that name, if there is one.
    pub fn author(&self) -> (value: Option<&Authors>)
        ensures
            value.deep_view() == people_in(first_of(self@.fields, FieldName::Author)),
    {
        match self.find(FieldName::Author) {
            Some(k) => match &self.fields[k] {
                BibTeXField::Author(v) => Some(v),
                _ => None,
            },
            None => None,
        }
    }

    /// The title of the book: the value of the first field of that name, if there
    /// is one.
    pub fn book_title(&self) -> (value: Option<&String>)
        ensures
            value.deep_view() == text_in(first_of(self@.fields, FieldName::BookTitle)),
    {
        match self.find(FieldName::BookTitle) {
            Some(k) => match &self.fields[k] {
                BibTeXField::BookTitle(v) => Some(v),
                _ => None,
            },
            None => None,
        }
    }

    /// The chapter: the value of the first field of that name, if there is one.
    pub fn chapter(&self) -> (value: Option<&u8>)
        ensures
            match value {
                Some(v) => byte_in(first_of(self@.fields, FieldName::Chapter)) == Some(*v),
                None => byte_in(first_of(self@.fields, FieldName::Chapter)) is None,
            },
    {
        match self.find(FieldName::Chapter) {
            Some(k) => match &self.fields[k] {
                BibTeXField::Chapter(v) => Some(v),
                _ => None,
            },
            None => None,
        }
    }

    /// The citekey of the entry referred to: the value of the first field of
    /// that name, if there is one.
    pub fn crossref(&self) -> (value: Option<&String>)
        ensures
            value.deep_view() == text_in(first_of(self@.fields, FieldName::Crossref)),
    {
        match self.find(FieldName::Crossref) {
            Some(k) => match &self.fields[k] {
                BibTeXField::Crossref(v) => Some(v),
                _ => None,
            },
            None => None,
        }
    }

    /// The DOI: the value of the first field of that name, if there is one.
    pub fn doi(&self) -> (value: Option<&String>)
        ensures
            value.deep_view() == text_in(first_of(self@.fields, FieldName::Doi)),
    {
        match self.find(FieldName::Doi) {
            Some(k) => match &self.fields[k] {
                BibTeXField::Doi(v) => Some(v),
                _ => None,
            },
            None => None,
        }
    }

    /// The edition: the value of the first field of that name, if there is one.
    pub fn edition(&self) -> (value: Option<&u16>)
        ensures
            match value {
                Some(v) => short_in(first_of(self@.fields, FieldName::Edition)) == Some(*v),
                None => short_in(first_of(self@.fields, FieldName::Edition)) is None,
            },
    {
        match self.find(FieldName::Edition) {
            Some(k) => match &self.fields[k] {
                BibTeXField::Edition(v) => Some(v),
                _ => None,
            },
            None => None,
        }
    }

    /// The editors: the value of the first field of that name, if there is one.
    pub fn editor(&self) -> (value: Option<&Authors>)
        ensures
            value.deep_view() == people_in(first_of(self@.fields, FieldName::Editor)),
    {
        match self.find(FieldName::Editor) {
            Some(k) => match &self.fields[k] {
                BibTeXField::Editor(v) => Some(v),
                _ => None,
            },
            None => None,
        }
    }

    /// The e-mail address: the value of the first field of that name, if there
    /// is one.
    pub fn email(&self) -> (value: Option<&String>)
        ensures
            value.deep_view() == text_in(first_of(self@.fields, FieldName::Email)),
    {
        match self.find(FieldName::Email) {
            Some(k) => match &self.fields[k] {
                BibTeXField::Email(v) => Some(v),
                _ => None,
            },
            None => None,
        }
    }

    /// How the work was published: the value of the first field of that name, if there
    /// is one.
    pub fn how_published(&self) -> (value: Option<&String>)
        ensures
            value.deep_view() == text_in(first_of(self@.fields, FieldName::HowPublished)),
    {
        match self.find(FieldName::HowPublished) {
            Some(k) => match &self.fields[k] {
                BibTeXField::HowPublished(v) => Some(v),
                _ => None,
            },
            None => None,
        }
    }

    /// The institution: the value of the first field of that name, if there
    /// is one.
    pub fn institution(&self) -> (value: Option<&String>)
        ensures
            value.deep_view() == text_in(first_of(self@.fields, FieldName::Institution)),
    {
        match self.find(FieldName::Institution) {
            Some(k) => match &self.fields[k] {
                BibTeXField::Institution(v) => Some(v),
                _ => None,
            },
            None => None,
        }
    }

    /// The journal: the value of the first field of that name, if there is one.
    pub fn journal(&self) -> (value: Option<&String>)
        ensures
            value.deep_view() == text_in(first_of(self@.fields, FieldName::Journal)),
    {
        match self.find(FieldName::Journal) {
            Some(k) => match &self.fields[k] {
                BibTeXField::Journal(v) => Some(v),
                _ => None,
            },
            None => None,
        }
    }

    /// The day of the week: the value of the first field of that name, if there
    /// is one.
    pub fn day(&self) -> (value: Option<&Day>)
        ensures
            match value {
                Some(v) => day_in(first_of(self@.fields, FieldName::Day)) == Some(*v),
                None => day_in(first_of(self@.fields, FieldName::Day)) is None,
            },
    {
        match self.find(FieldName::Day) {
            Some(k) => match &self.fields[k] {
                BibTeXField::Day(v) => Some(v),
                _ => None,
            },
            None => None,
        }
    }

    /// The month: the value of the first field of that name, if there is one.
    pub fn month(&self) -> (value: Option<&Month>)
        ensures
            match value {
                Some(v) => month_in(first_of(self@.fields, FieldName::Month)) == Some(*v),
                None => month_in(first_of(self@.fields, FieldName::Month)) is None,
            },
    {
        match self.find(FieldName::Month) {
            Some(k) => match &self.fields[k] {
                BibTeXField::Month(v) => Some(v),
                _ => None,
            },
            None => None,
        }
    }

    /// The year: the value of the first field of that name, if there is one.
    pub fn year(&self) -> (value: Option<&u16>)
        ensures
            match value {
                Some(v) => short_in(first_of(self@.fields, FieldName::Year)) == Some(*v),
                None => short_in(first_of(self@.fields, FieldName::Year)) is None,
            },
    {
        match self.find(FieldName::Year) {
            Some(k) => match &self.fields[k] {
                BibTeXField::Year(v) => Some(v),
                _ => None,
            },
            None => None,
        }
    }

    /// The note: the value of the first field of that name, if there is one.
    pub fn note(&self) -> (value: Option<&String>)
        ensures
            value.deep_view() == text_in(first_of(self@.fields, FieldName::Note)),
    {
        match self.find(FieldName::Note) {
            Some(k) => match &self.fields[k] {
                BibTeXField::Note(v) => Some(v),
                _ => None,
            },
            None => None,
        }
    }

    /// The number: the value of the first field of that name, if there is one.
    pub fn number(&self) -> (value: Option<&u16>)
        ensures
            match value {
                Some(v) => short_in(first_of(self@.fields, FieldName::Number)) == Some(*v),
                None => short_in(first_of(self@.fields, FieldName::Number)) is None,
            },
    {
        match self.find(FieldName::Number) {
            Some(k) => match &self.fields[k] {
                BibTeXField::Number(v) => Some(v),
                _ => None,
            },
            None => None,
        }
    }

    /// The organization: the value of the first field of that name, if there
    /// is one.
    pub fn organization(&self) -> (value: Option<&String>)
        ensures
            value.deep_view() == text_in(first_of(self@.fields, FieldName::Organization)),
    {
        match self.find(FieldName::Organization) {
            Some(k) => match &self.fields[k] {
                BibTeXField::Organization(v) => Some(v),
                _ => None,
            },
            None => None,
        }
    }

    /// The pages: the value of the first field of that name, if there is one.
    pub fn pages(&self) -> (value: Option<&Pages>)
        ensures
            value.deep_view() == pages_in(first_of(self@.fields, FieldName::Pages)),
    {
        match self.find(FieldName::Pages) {
            Some(k) => match &self.fields[k] {
                BibTeXField::Pages(v) => Some(v),
                _ => None,
            },
            None => None,
        }
    }

    /// The publisher: the value of the first field of that name, if there
    /// is one.
    pub fn publisher(&self) -> (value: Option<&String>)
        ensures
            value.deep_view() == text_in(first_of(self@.fields, FieldName::Publisher)),
    {
        match self.find(FieldName::Publisher) {
            Some(k) => match &self.fields[k] {
                BibTeXField::Publisher(v) => Some(v),
                _ => None,
            },
            None => None,
        }
    }

    /// The school: the value of the first field of that name, if there is one.
    pub fn school(&self) -> (value: Option<&String>)
        ensures
            value.deep_view() == text_in(first_of(self@.fields, FieldName::School)),
    {
        match self.find(FieldName::School) {
            Some(k) => match &self.fields[k] {
                BibTeXField::School(v) => Some(v),
                _ => None,
            },
            None => None,
        }
    }

    /// The series: the value of the first field of that name, if there is one.
    pub fn series(&self) -> (value: Option<&String>)
        ensures
            value.deep_view() == text_in(first_of(self@.fields, FieldName::Series)),
    {
        match self.find(FieldName::Series) {
            Some(k) => match &self.fields[k] {
                BibTeXField::Series(v) => Some(v),
                _ => None,
            },
            None => None,
        }
    }

    /// The title: the value of the first field of that name, if there is one.
    pub fn title(&self) -> (value: Option<&String>)
        ensures
            value.deep_view() == text_in(first_of(self@.fields, FieldName::Title)),
    {
        match self.find(FieldName::Title) {
            Some(k) => match &self.fields[k] {
                BibTeXField::Title(v) => Some(v),
                _ => None,
            },
            None => None,
        }
    }

    /// The type of the publication: the value of the first field of that name, if there
    /// is one.
    pub fn publication_type(&self) -> (value: Option<&String>)
        ensures
            value.deep_view() == text_in(first_of(self@.fields, FieldName::Type)),
    {
        match self.find(FieldName::Type) {
            Some(k) => match &self.fields[k] {
                BibTeXField::Type(v) => Some(v),
                _ => None,
            },
            None => None,
        }
    }

    /// The volume: the value of the first field of that name, if there is one.
    pub fn volume(&self) -> (value: Option<&u8>)
        ensures
            match value {
                Some(v) => byte_in(first_of(self@.fields, FieldName::Volume)) == Some(*v),
                None => byte_in(first_of(self@.fields, FieldName::Volume)) is None,
            },
    {
        match self.find(FieldName::Volume) {
            Some(k) => match &self.fields[k] {
                BibTeXField::Volume(v) => Some(v),
                _ => None,
            },
            None => None,
        }
    }

    /// The raw text of the first non-standard field called `key`, letter
    /// case aside, if there is one.
    pub fn non_standard_field(&self, key: &str) -> (value: Option<&String>)
        ensures
            value.deep_view() == extra_of(self@.fields, key@),
    {
        let mut i: usize = 0;
        while i < self.fields.len()
            invariant
                i <= self.fields.len(),
                self@.fields.len() == self.fields.len(),
                first_extra_at(self@.fields, key@, 0) == first_extra_at(
                    self@.fields,
                    key@,
                    i as int,
                ),
            decreases self.fields.len() - i,
        {
            if let BibTeXField::NonStandard { key: field_key, value } = &self.fields[i] {
                let name = to_chars(field_key.as_str());
                assert(name@.subrange(0, name@.len() as int) =~= name@);
                if is_word(&name, 0, name.len(), key) {
                    return Some(value);
                }
            }
            i += 1;
        }
        None
    }
}

} // verus!
