//! The typed values of fields, and the decoder that reads them out of raw
//! text.

use super::error::{ErrorView, ParseError, Reason};
use super::text::{
    copy_range, is_word, lemma_run_end, lower, number_of, numeral_of, read_number, read_numeral,
    run_end, run_start, same_word, scan, scan_back, to_chars, to_lower, trim, trim_range,
    trimmed, CharClass,
};
use vstd::prelude::*;
use vstd::string::StringExecFns;

verus! {

/// One person of an author or editor list.
#[derive(Clone, Debug, PartialEq, Eq)]
pub struct Author {
    pub forename: String,
    pub surname: String,
    pub suffix: Option<String>,
    pub prefix: Option<String>,
}

/// An `Author` as a mathematical value.
pub struct AuthorView {
    pub forename: Seq<char>,
    pub surname: Seq<char>,
    pub suffix: Option<Seq<char>>,
    pub prefix: Option<Seq<char>>,
}

impl View for Author {
    type V = AuthorView;

    open spec fn view(&self) -> AuthorView {
        AuthorView {
            forename: self.forename@,
            surname: self.surname@,
            suffix: self.suffix.deep_view(),
            prefix: self.prefix.deep_view(),
        }
    }
}

impl DeepView for Author {
    type V = AuthorView;

    open spec fn deep_view(&self) -> AuthorView {
        self@
    }
}

/// The persons of an author or editor field, in the order in which they are
/// written. The first is the lead author.
#[derive(Clone, Debug, PartialEq, Eq)]
pub struct Authors {
    authors: Vec<Author>,
}

impl View for Authors {
    type V = Seq<AuthorView>;

    closed spec fn view(&self) -> Seq<AuthorView> {
        self.authors.deep_view()
    }
}

impl DeepView for Authors {
    type V = Seq<AuthorView>;

    open spec fn deep_view(&self) -> Seq<AuthorView> {
        self@
    }
}

/// Whether the separator ` and ` stands at `i`: a space, the word `and` in
/// any letter case, and a space.
pub open spec fn is_and_at(s: Seq<char>, i: int) -> bool {
    &&& 0 <= i
    &&& i + 5 <= s.len()
    &&& s[i] == ' '
    &&& lower(s[i + 1]) == 'a'
    &&& lower(s[i + 2]) == 'n'
    &&& lower(s[i + 3]) == 'd'
    &&& s[i + 4] == ' '
}

/// The position of the first separator ` and ` at or after `i`; the length of
/// the text if there is none.
pub open spec fn next_and(s: Seq<char>, i: int) -> int
    decreases s.len() - i,
{
    if i >= s.len() {
        s.len() as int
    } else if is_and_at(s, i) {
        i
    } else {
        next_and(s, i + 1)
    }
}

/// The person written between `i` and `j`, if anything but whitespace is
/// written there. With a comma, the text before the first comma is the
/// surname, the text after it the forename, and what follows a second comma
/// the suffix. Without one, the last word is the surname and what stands
/// before it the forename. Each part is trimmed.
pub open spec fn person_in(s: Seq<char>, i: int, j: int) -> Option<AuthorView> {
    let (a, b) = trimmed(s, i, j);
    if a >= b {
        None
    } else {
        let c = run_end(s, a, b, CharClass::Except(','));
        if c < b {
            let c2 = run_end(s, c + 1, b, CharClass::Except(','));
            Some(
                AuthorView {
                    forename: trim(s, c + 1, c2),
                    surname: trim(s, a, c),
                    suffix: if c2 < b {
                        Some(trim(s, c2 + 1, b))
                    } else {
                        None
                    },
                    prefix: None,
                },
            )
        } else {
            let w = run_start(s, a, b, CharClass::NonSpace);
            Some(
                AuthorView {
                    forename: trim(s, a, w),
                    surname: s.subrange(w, b),
                    suffix: None,
                    prefix: None,
                },
            )
        }
    }
}

/// The persons written from `i` on: the text is cut at each separator
/// ` and `, and each piece that is not blank is one person. The order is
/// that of the text.
pub open spec fn people_from(s: Seq<char>, i: int) -> Seq<AuthorView>
    decreases s.len() - i,
    when 0 <= i <= s.len()
    via people_from_decreases
{
    let k = next_and(s, i);
    let rest = if k >= s.len() {
        Seq::empty()
    } else {
        people_from(s, k + 5)
    };
    match person_in(s, i, k) {
        Some(p) => seq![p] + rest,
        None => rest,
    }
}

#[via_fn]
proof fn people_from_decreases(s: Seq<char>, i: int) {
    lemma_next_and(s, i);
}

/// The next separator lies at or after `i`, and the text holds all of it.
pub proof fn lemma_next_and(s: Seq<char>, i: int)
    requires
        0 <= i <= s.len(),
    ensures
        i <= next_and(s, i) <= s.len(),
        next_and(s, i) < s.len() ==> is_and_at(s, next_and(s, i)),
    decreases s.len() - i,
{
    if i < s.len() && !is_and_at(s, i) {
        lemma_next_and(s, i + 1);
    }
}

/// The persons of an author or editor field.
pub open spec fn people(raw: Seq<char>) -> Seq<AuthorView> {
    people_from(raw, 0)
}

/// The full name that `Author::to_string` writes.
pub open spec fn full_name(a: AuthorView) -> Seq<char> {
    a.forename + " "@ + a.surname
}

/// The names of the persons from `i` on, with ` and ` between them.
pub open spec fn joined_names(list: Seq<AuthorView>, i: int) -> Seq<char>
    decreases list.len() - i,
{
    if i < 0 || i >= list.len() {
        Seq::empty()
    } else if i + 1 == list.len() {
        full_name(list[i])
    } else {
        full_name(list[i]) + " and "@ + joined_names(list, i + 1)
    }
}

impl Author {
    /// The forename, a space, and the surname.
    pub fn to_string(&self) -> (s: String)
        ensures
            s@ == full_name(self@),
    {
        let mut s = self.forename.clone();
        s.append(" ");
        s.append(self.surname.as_str());
        s
    }

    /// Reads the person written between two positions.
    fn read(text: &Vec<char>, from: usize, to: usize) -> (person: Option<Author>)
        requires
            from <= to <= text.len(),
        ensures
            person.deep_view() == person_in(text@, from as int, to as int),
    {
        let (a, b) = trim_range(text, from, to);
        if a >= b {
            return None;
        }
        let c = scan(text, a, b, CharClass::Except(','));
        if c < b {
            let c2 = scan(text, c + 1, b, CharClass::Except(','));
            let (f0, f1) = trim_range(text, c + 1, c2);
            let (s0, s1) = trim_range(text, a, c);
            let suffix = if c2 < b {
                let (x0, x1) = trim_range(text, c2 + 1, b);
                Some(copy_range(text, x0, x1))
            } else {
                None
            };
            Some(
                Author {
                    forename: copy_range(text, f0, f1),
                    surname: copy_range(text, s0, s1),
                    suffix,
                    prefix: None,
                },
            )
        } else {
            let w = scan_back(text, a, b, CharClass::NonSpace);
            let (f0, f1) = trim_range(text, a, w);
            Some(
                Author {
                    forename: copy_range(text, f0, f1),
                    surname: copy_range(text, w, b),
                    suffix: None,
                    prefix: None,
                },
            )
        }
    }
}

/// Finds the next separator ` and `.
fn find_and(text: &Vec<char>, from: usize) -> (at: usize)
    requires
        from <= text.len(),
    ensures
        at == next_and(text@, from as int),
        from <= at <= text.len(),
{
    let n = text.len();
    let mut i: usize = from;
    while i < n
        invariant
            from <= i <= n,
            n == text.len(),
            next_and(text@, from as int) == next_and(text@, i as int),
        decreases n - i,
    {
        if n - i >= 5 && text[i] == ' ' && to_lower(text[i + 1]) == 'a' && to_lower(text[i + 2])
            == 'n' && to_lower(text[i + 3]) == 'd' && text[i + 4] == ' ' {
            return i;
        }
        i += 1;
    }
    i
}

impl Authors {
    /// The persons of an author or editor field. An empty text gives an
    /// empty list; there is no failure.
    pub fn from_str(raw: &str) -> (list: Self)
        ensures
            list@ == people(raw@),
    {
        let text = to_chars(raw);
        Authors::from_chars(&text)
    }

    /// The persons written in the given characters.
    pub fn from_chars(text: &Vec<char>) -> (list: Self)
        ensures
            list@ == people(text@),
    {
        let ghost s = text@;
        let mut authors: Vec<Author> = Vec::new();
        let mut i: usize = 0;
        assert(authors.deep_view() =~= Seq::<AuthorView>::empty());
        assert(Seq::<AuthorView>::empty() + people_from(s, 0) =~= people_from(s, 0));
        loop
            invariant_except_break
                people_from(s, 0) == authors.deep_view() + people_from(s, i as int),
            invariant
                s == text@,
                i <= text.len(),
            ensures
                people_from(s, 0) == authors.deep_view(),
            decreases text.len() - i,
        {
            let ghost before = authors.deep_view();
            let k = find_and(text, i);
            proof {
                lemma_next_and(s, i as int);
            }
            match Author::read(text, i, k) {
                Some(p) => {
                    authors.push(p);
                    assert(authors.deep_view() =~= before + seq![p@]);
                },
                None => {},
            }
            if k >= text.len() {
                assert(people_from(s, i as int) =~= match person_in(s, i as int, k as int) {
                    Some(p) => seq![p],
                    None => Seq::empty(),
                });
                assert(before + people_from(s, i as int) =~= authors.deep_view());
                break ;
            }
            proof {
                let rest = people_from(s, k + 5);
                match person_in(s, i as int, k as int) {
                    Some(p) => {
                        assert(before + (seq![p] + rest) =~= (before + seq![p]) + rest);
                    },
                    None => {},
                }
            }
            i = k + 5;
        }
        Authors { authors }
    }

    /// The number of persons.
    pub fn len(&self) -> (n: usize)
        ensures
            n == self@.len(),
    {
        self.authors.len()
    }

    /// The person at position `i`, counted from 0, if the list is that long.
    pub fn get(&self, i: usize) -> (person: Option<&Author>)
        ensures
            match person {
                Some(p) => i < self@.len() && p@ == self@[i as int],
                None => i >= self@.len(),
            },
    {
        if i < self.authors.len() {
            Some(&self.authors[i])
        } else {
            None
        }
    }

    /// The lead author: the first person of the list, if there is one.
    pub fn lead(&self) -> (person: Option<&Author>)
        ensures
            match person {
                Some(p) => self@.len() > 0 && p@ == self@[0],
                None => self@.len() == 0,
            },
    {
        self.get(0)
    }

    /// The full names of the persons, with ` and ` between them.
    pub fn to_string(&self) -> (s: String)
        ensures
            s@ == joined_names(self@, 0),
    {
        let ghost list = self@;
        let mut s = String::new();
        let n = self.authors.len();
        let mut i: usize = 0;
        while i < n
            invariant
                i <= n,
                n == self.authors.len(),
                list == self@,
                joined_names(list, 0) == s@ + joined_names(list, i as int),
            decreases n - i,
        {
            let ghost before = s@;
            let name = self.authors[i].to_string();
            s.append(name.as_str());
            if i + 1 < n {
                s.append(" and ");
                assert(before + (full_name(list[i as int]) + " and "@ + joined_names(
                    list,
                    i + 1,
                )) =~= (before + full_name(list[i as int]) + " and "@) + joined_names(
                    list,
                    i + 1,
                ));
            } else {
                assert(joined_names(list, i + 1) =~= Seq::<char>::empty());
                assert(before + full_name(list[i as int]) =~= (before + full_name(
                    list[i as int],
                )) + joined_names(list, i + 1));
            }
            i += 1;
        }
        assert(s@ + joined_names(list, n as int) =~= s@);
        s
    }
}

/// A day of the week.
#[derive(Clone, Copy, Debug, PartialEq, Eq, Structural)]
pub enum Day {
    Mon,
    Tue,
    Wed,
    Thu,
    Fri,
    Sat,
    Sun,
}

/// The day with the given number, Monday being 1.
pub open spec fn day_numbered(n: int) -> Option<Day> {
    if n == 1 {
        Some(Day::Mon)
    } else if n == 2 {
        Some(Day::Tue)
    } else if n == 3 {
        Some(Day::Wed)
    } else if n == 4 {
        Some(Day::Thu)
    } else if n == 5 {
        Some(Day::Fri)
    } else if n == 6 {
        Some(Day::Sat)
    } else if n == 7 {
        Some(Day::Sun)
    } else {
        None
    }
}

/// The day that a word names: the English name of a day of the week or its
/// first three letters, in any ASCII letter case.
pub open spec fn day_named(t: Seq<char>) -> Option<Day> {
    if same_word(t, "mon"@) || same_word(t, "monday"@) {
        Some(Day::Mon)
    } else if same_word(t, "tue"@) || same_word(t, "tuesday"@) {
        Some(Day::Tue)
    } else if same_word(t, "wed"@) || same_word(t, "wednesday"@) {
        Some(Day::Wed)
    } else if same_word(t, "thu"@) || same_word(t, "thursday"@) {
        Some(Day::Thu)
    } else if same_word(t, "fri"@) || same_word(t, "friday"@) {
        Some(Day::Fri)
    } else if same_word(t, "sat"@) || same_word(t, "saturday"@) {
        Some(Day::Sat)
    } else if same_word(t, "sun"@) || same_word(t, "sunday"@) {
        Some(Day::Sun)
    } else {
        None
    }
}

/// Reading a day of the week. ASCII whitespace around the text does not
/// count. The text is the name of a day, or one of the numerals `1` (Monday)
/// to `7` (Sunday), written without a sign and without zeros before it. A
/// day of the month is not a day of the week: the numerals from `8` on are
/// out of range, as is `0`. Any other text, `07` among them, is no name that
/// the field knows.
pub open spec fn day_of(raw: Seq<char>) -> Result<Day, Reason> {
    let t = trim(raw, 0, raw.len() as int);
    match day_named(t) {
        Some(d) => Ok(d),
        None => match numeral_of(t, 7) {
            Ok(n) => match day_numbered(n) {
                Some(d) => Ok(d),
                None => Err(Reason::OutOfRange),
            },
            Err(Reason::OutOfRange) => Err(Reason::OutOfRange),
            Err(_) => Err(Reason::UnknownName),
        },
    }
}

/// The word that `Day::to_string` writes.
pub open spec fn day_name(d: Day) -> Seq<char> {
    match d {
        Day::Mon => "monday"@,
        Day::Tue => "tuesday"@,
        Day::Wed => "wednesday"@,
        Day::Thu => "thursday"@,
        Day::Fri => "friday"@,
        Day::Sat => "saturday"@,
        Day::Sun => "sunday"@,
    }
}

impl Day {
    /// Reads a day of the week from its name or its number.
    pub fn from_str(s: &str) -> (r: Result<Self, Reason>)
        ensures
            r == day_of(s@),
    {
        let text = to_chars(s);
        let (a, b) = trim_range(&text, 0, text.len());
        if is_word(&text, a, b, "mon") || is_word(&text, a, b, "monday") {
            Ok(Day::Mon)
        } else if is_word(&text, a, b, "tue") || is_word(&text, a, b, "tuesday") {
            Ok(Day::Tue)
        } else if is_word(&text, a, b, "wed") || is_word(&text, a, b, "wednesday") {
            Ok(Day::Wed)
        } else if is_word(&text, a, b, "thu") || is_word(&text, a, b, "thursday") {
            Ok(Day::Thu)
        } else if is_word(&text, a, b, "fri") || is_word(&text, a, b, "friday") {
            Ok(Day::Fri)
        } else if is_word(&text, a, b, "sat") || is_word(&text, a, b, "saturday") {
            Ok(Day::Sat)
        } else if is_word(&text, a, b, "sun") || is_word(&text, a, b, "sunday") {
            Ok(Day::Sun)
        } else {
            match read_numeral(&text, a, b, 7) {
                Ok(n) => match Day::from_number(n) {
                    Some(d) => Ok(d),
                    None => Err(Reason::OutOfRange),
                },
                Err(Reason::OutOfRange) => Err(Reason::OutOfRange),
                Err(_) => Err(Reason::UnknownName),
            }
        }
    }

    /// The day with the given number, Monday being 1 and Sunday 7.
    pub fn from_number(value: u32) -> (r: Option<Self>)
        ensures
            r == day_numbered(value as int),
    {
        if value == 1 {
            Some(Day::Mon)
        } else if value == 2 {
            Some(Day::Tue)
        } else if value == 3 {
            Some(Day::Wed)
        } else if value == 4 {
            Some(Day::Thu)
        } else if value == 5 {
            Some(Day::Fri)
        } else if value == 6 {
            Some(Day::Sat)
        } else if value == 7 {
            Some(Day::Sun)
        } else {
            None
        }
    }

    /// The English name of the day, in lower case.
    pub fn to_string(&self) -> (s: String)
        ensures
            s@ == day_name(*self),
    {
        match self {
            Day::Mon => String::from_str("monday"),
            Day::Tue => String::from_str("tuesday"),
            Day::Wed => String::from_str("wednesday"),
            Day::Thu => String::from_str("thursday"),
            Day::Fri => String::from_str("friday"),
            Day::Sat => String::from_str("saturday"),
            Day::Sun => String::from_str("sunday"),
        }
    }
}

/// Parsing a string slice as a day is `Day::from_str`.
impl std::str::FromStr for Day {
    type Err = Reason;

    fn from_str(s: &str) -> (r: Result<Self, Reason>)
        ensures
            r == day_of(s@),
    {
        Day::from_str(s)
    }
}

/// A month of the year.
#[derive(Clone, Copy, Debug, PartialEq, Eq, Structural)]
pub enum Month {
    Jan,
    Feb,
    Mar,
    Apr,
    May,
    Jun,
    Jul,
    Aug,
    Sep,
    Oct,
    Nov,
    Dec,
}

/// The month with the given number, January being 1.
pub open spec fn month_numbered(n: int) -> Option<Month> {
    if n == 1 {
        Some(Month::Jan)
    } else if n == 2 {
        Some(Month::Feb)
    } else if n == 3 {
        Some(Month::Mar)
    } else if n == 4 {
        Some(Month::Apr)
    } else if n == 5 {
        Some(Month::May)
    } else if n == 6 {
        Some(Month::Jun)
    } else if n == 7 {
        Some(Month::Jul)
    } else if n == 8 {
        Some(Month::Aug)
    } else if n == 9 {
        Some(Month::Sep)
    } else if n == 10 {
        Some(Month::Oct)
    } else if n == 11 {
        Some(Month::Nov)
    } else if n == 12 {
        Some(Month::Dec)
    } else {
        None
    }
}

/// The month that a word names: the English name of a month or its first
/// three letters, in any ASCII letter case.
pub open spec fn month_named(t: Seq<char>) -> Option<Month> {
    if same_word(t, "jan"@) || same_word(t, "january"@) {
        Some(Month::Jan)
    } else if same_word(t, "feb"@) || same_word(t, "february"@) {
        Some(Month::Feb)
    } else if same_word(t, "mar"@) || same_word(t, "march"@) {
        Some(Month::Mar)
    } else if same_word(t, "apr"@) || same_word(t, "april"@) {
        Some(Month::Apr)
    } else if same_word(t, "may"@) {
        Some(Month::May)
    } else if same_word(t, "jun"@) || same_word(t, "june"@) {
        Some(Month::Jun)
    } else if same_word(t, "jul"@) || same_word(t, "july"@) {
        Some(Month::Jul)
    } else if same_word(t, "aug"@) || same_word(t, "august"@) {
        Some(Month::Aug)
    } else if same_word(t, "sep"@) || same_word(t, "september"@) {
        Some(Month::Sep)
    } else if same_word(t, "oct"@) || same_word(t, "october"@) {
        Some(Month::Oct)
    } else if same_word(t, "nov"@) || same_word(t, "november"@) {
        Some(Month::Nov)
    } else if same_word(t, "dec"@) || same_word(t, "december"@) {
        Some(Month::Dec)
    } else {
        None
    }
}

/// Reading a month. ASCII whitespace around the text does not count. The
/// text is the name of a month, or one of the numerals `1` to `12`, written
/// without a sign and without zeros before it. The numerals from `13` on are
/// out of range, as is `0`. Any other text, `01` among them, is no name that
/// the field knows.
pub open spec fn month_of(raw: Seq<char>) -> Result<Month, Reason> {
    let t = trim(raw, 0, raw.len() as int);
    match month_named(t) {
        Some(m) => Ok(m),
        None => match numeral_of(t, 12) {
            Ok(n) => match month_numbered(n) {
                Some(m) => Ok(m),
                None => Err(Reason::OutOfRange),
            },
            Err(Reason::OutOfRange) => Err(Reason::OutOfRange),
            Err(_) => Err(Reason::UnknownName),
        },
    }
}

/// The word that `Month::to_string` writes.
pub open spec fn month_name(m: Month) -> Seq<char> {
    match m {
        Month::Jan => "January"@,
        Month::Feb => "February"@,
        Month::Mar => "March"@,
        Month::Apr => "April"@,
        Month::May => "May"@,
        Month::Jun => "June"@,
        Month::Jul => "July"@,
        Month::Aug => "August"@,
        Month::Sep => "September"@,
        Month::Oct => "October"@,
        Month::Nov => "November"@,
        Month::Dec => "December"@,
    }
}

impl Month {
    /// Reads a month from its name or its number.
    pub fn from_str(s: &str) -> (r: Result<Self, Reason>)
        ensures
            r == month_of(s@),
    {
        let text = to_chars(s);
        let (a, b) = trim_range(&text, 0, text.len());
        if is_word(&text, a, b, "jan") || is_word(&text, a, b, "january") {
            Ok(Month::Jan)
        } else if is_word(&text, a, b, "feb") || is_word(&text, a, b, "february") {
            Ok(Month::Feb)
        } else if is_word(&text, a, b, "mar") || is_word(&text, a, b, "march") {
            Ok(Month::Mar)
        } else if is_word(&text, a, b, "apr") || is_word(&text, a, b, "april") {
            Ok(Month::Apr)
        } else if is_word(&text, a, b, "may") {
            Ok(Month::May)
        } else if is_word(&text, a, b, "jun") || is_word(&text, a, b, "june") {
            Ok(Month::Jun)
        } else if is_word(&text, a, b, "jul") || is_word(&text, a, b, "july") {
            Ok(Month::Jul)
        } else if is_word(&text, a, b, "aug") || is_word(&text, a, b, "august") {
            Ok(Month::Aug)
        } else if is_word(&text, a, b, "sep") || is_word(&text, a, b, "september") {
            Ok(Month::Sep)
        } else if is_word(&text, a, b, "oct") || is_word(&text, a, b, "october") {
            Ok(Month::Oct)
        } else if is_word(&text, a, b, "nov") || is_word(&text, a, b, "november") {
            Ok(Month::Nov)
        } else if is_word(&text, a, b, "dec") || is_word(&text, a, b, "december") {
            Ok(Month::Dec)
        } else {
            match read_numeral(&text, a, b, 12) {
                Ok(n) => match Month::from_number(n) {
                    Some(m) => Ok(m),
                    None => Err(Reason::OutOfRange),
                },
                Err(Reason::OutOfRange) => Err(Reason::OutOfRange),
                Err(_) => Err(Reason::UnknownName),
            }
        }
    }

    /// The month with the given number, January being 1 and December 12.
    pub fn from_number(value: u32) -> (r: Option<Self>)
        ensures
            r == month_numbered(value as int),
    {
        if value == 1 {
            Some(Month::Jan)
        } else if value == 2 {
            Some(Month::Feb)
        } else if value == 3 {
            Some(Month::Mar)
        } else if value == 4 {
            Some(Month::Apr)
        } else if value == 5 {
            Some(Month::May)
        } else if value == 6 {
            Some(Month::Jun)
        } else if value == 7 {
            Some(Month::Jul)
        } else if value == 8 {
            Some(Month::Aug)
        } else if value == 9 {
            Some(Month::Sep)
        } else if value == 10 {
            Some(Month::Oct)
        } else if value == 11 {
            Some(Month::Nov)
        } else if value == 12 {
            Some(Month::Dec)
        } else {
            None
        }
    }

    /// The English name of the month.
    pub fn to_string(&self) -> (s: String)
        ensures
            s@ == month_name(*self),
    {
        match self {
            Month::Jan => String::from_str("January"),
            Month::Feb => String::from_str("February"),
            Month::Mar => String::from_str("March"),
            Month::Apr => String::from_str("April"),
            Month::May => String::from_str("May"),
            Month::Jun => String::from_str("June"),
            Month::Jul => String::from_str("July"),
            Month::Aug => String::from_str("August"),
            Month::Sep => String::from_str("September"),
            Month::Oct => String::from_str("October"),
            Month::Nov => String::from_str("November"),
            Month::Dec => String::from_str("December"),
        }
    }
}

/// Parsing a string slice as a month is `Month::from_str`.
impl std::str::FromStr for Month {
    type Err = Reason;

    fn from_str(s: &str) -> (r: Result<Self, Reason>)
        ensures
            r == month_of(s@),
    {
        Month::from_str(s)
    }
}

/// One page, or the pages from `start` to `end`.
#[derive(Clone, Copy, Debug, PartialEq, Eq)]
pub struct PageRange {
    pub start: u32,
    /// Absent where a single page is meant.
    pub end: Option<u32>,
}

/// The page ranges of a pages field, in the order in which they are written.
#[derive(Clone, Debug, PartialEq, Eq)]
pub struct Pages {
    pages: Vec<PageRange>,
}

impl View for Pages {
    type V = Seq<PageRange>;

    closed spec fn view(&self) -> Seq<PageRange> {
        self.pages@
    }
}

impl DeepView for Pages {
    type V = Seq<PageRange>;

    open spec fn deep_view(&self) -> Seq<PageRange> {
        self@
    }
}

/// The largest page number.
pub open spec fn max_page() -> int {
    0xffff_ffff
}

/// The page range written between `i` and `j`. Without a dash the text is
/// one page number. With one, the number before the first dash is the start
/// and the number after the dash, or after the two dashes, is the end.
/// Whitespace around a number does not count. A fault in the start comes
/// before one in the end.
pub open spec fn page_range_in(s: Seq<char>, i: int, j: int) -> Result<PageRange, Reason> {
    let (a, b) = trimmed(s, i, j);
    let d = run_end(s, a, b, CharClass::Except('-'));
    if d >= b {
        match number_of(s.subrange(a, b), max_page()) {
            Ok(n) => Ok(PageRange { start: n as u32, end: None }),
            Err(r) => Err(r),
        }
    } else {
        let e = if d + 1 < b && s[d + 1] == '-' {
            d + 2
        } else {
            d + 1
        };
        match number_of(trim(s, a, d), max_page()) {
            Err(r) => Err(r),
            Ok(n) => match number_of(trim(s, e, b), max_page()) {
                Err(r) => Err(r),
                Ok(m) => Ok(PageRange { start: n as u32, end: Some(m as u32) }),
            },
        }
    }
}

/// The page ranges written from `i` on: the text is cut at each comma and
/// each piece is one range. The first fault, from the left, ends the reading.
pub open spec fn pages_from(s: Seq<char>, i: int) -> Result<Seq<PageRange>, Reason>
    decreases s.len() - i,
    when 0 <= i <= s.len()
    via pages_from_decreases
{
    let k = run_end(s, i, s.len() as int, CharClass::Except(','));
    match page_range_in(s, i, k) {
        Err(r) => Err(r),
        Ok(p) => if k >= s.len() {
            Ok(seq![p])
        } else {
            match pages_from(s, k + 1) {
                Err(r) => Err(r),
                Ok(rest) => Ok(seq![p] + rest),
            }
        },
    }
}

#[via_fn]
proof fn pages_from_decreases(s: Seq<char>, i: int) {
    lemma_run_end(s, i, s.len() as int, CharClass::Except(','));
}

/// The page ranges of a pages field.
pub open spec fn pages_of(raw: Seq<char>) -> Result<Seq<PageRange>, Reason> {
    pages_from(raw, 0)
}

impl PageRange {
    /// Reads the page range written between two positions.
    fn read(text: &Vec<char>, from: usize, to: usize) -> (r: Result<PageRange, Reason>)
        requires
            from <= to <= text.len(),
        ensures
            r == page_range_in(text@, from as int, to as int),
    {
        let (a, b) = trim_range(text, from, to);
        let d = scan(text, a, b, CharClass::Except('-'));
        if d >= b {
            match read_number(text, a, b, 0xffff_ffff) {
                Ok(n) => Ok(PageRange { start: n, end: None }),
                Err(r) => Err(r),
            }
        } else {
            let e = if d + 1 < b && text[d + 1] == '-' {
                d + 2
            } else {
                d + 1
            };
            let (s0, s1) = trim_range(text, a, d);
            let (e0, e1) = trim_range(text, e, b);
            match read_number(text, s0, s1, 0xffff_ffff) {
                Err(r) => Err(r),
                Ok(n) => match read_number(text, e0, e1, 0xffff_ffff) {
                    Err(r) => Err(r),
                    Ok(m) => Ok(PageRange { start: n, end: Some(m) }),
                },
            }
        }
    }
}

impl Pages {
    /// Reads the page ranges of a pages field.
    pub fn from_str(raw: &str) -> (r: Result<Self, Reason>)
        ensures
            match pages_of(raw@) {
                Ok(list) => r matches Ok(p) && p@ == list,
                Err(e) => r == Err::<Pages, Reason>(e),
            },
    {
        let text = to_chars(raw);
        Pages::from_chars(&text)
    }

    /// Reads the page ranges written in the given characters.
    pub fn from_chars(text: &Vec<char>) -> (r: Result<Self, Reason>)
        ensures
            match pages_of(text@) {
                Ok(list) => r matches Ok(p) && p@ == list,
                Err(e) => r == Err::<Pages, Reason>(e),
            },
    {
        let ghost s = text@;
        let mut pages: Vec<PageRange> = Vec::new();
        let mut i: usize = 0;
        loop
            invariant_except_break
                pages_from(s, 0) == match pages_from(s, i as int) {
                    Ok(rest) => Ok::<Seq<PageRange>, Reason>(pages@ + rest),
                    Err(e) => Err(e),
                },
            invariant
                s == text@,
                i <= text.len(),
            ensures
                pages_from(s, 0) == Ok::<Seq<PageRange>, Reason>(pages@),
            decreases text.len() - i,
        {
            let ghost before = pages@;
            let k = scan(text, i, text.len(), CharClass::Except(','));
            match PageRange::read(text, i, k) {
                Err(e) => {
                    return Err(e);
                },
                Ok(p) => {
                    pages.push(p);
                    proof {
                        assert(pages@ =~= before + seq![p]);
                        if k < text.len() {
                            match pages_from(s, k + 1) {
                                Ok(rest) => {
                                    assert((before + seq![p]) + rest =~= before + (seq![p]
                                        + rest));
                                },
                                Err(e) => {},
                            }
                        }
                    }
                },
            }
            if k >= text.len() {
                break ;
            }
            i = k + 1;
        }
        Ok(Pages { pages })
    }

    /// The number of ranges.
    pub fn len(&self) -> (n: usize)
        ensures
            n == self@.len(),
    {
        self.pages.len()
    }

    /// The range at position `i`, counted from 0, if the list is that long.
    pub fn get(&self, i: usize) -> (range: Option<PageRange>)
        ensures
            range == if i < self@.len() {
                Some(self@[i as int])
            } else {
                None
            },
    {
        if i < self.pages.len() {
            Some(self.pages[i])
        } else {
            None
        }
    }
}

/// The names of the standard fields.
#[derive(Clone, Copy, Debug, PartialEq, Eq, Structural)]
pub enum FieldName {
    Address,
    Annote,
    Author,
    BookTitle,
    Chapter,
    Crossref,
    Doi,
    Edition,
    Editor,
    Email,
    HowPublished,
    Institution,
    Journal,
    Day,
    Month,
    Year,
    Note,
    Number,
    Organization,
    Pages,
    Publisher,
    School,
    Series,
    Title,
    Type,
    Volume,
}

/// The standard field that a name stands for, if it stands for one. Letter
/// case does not count. Four fields answer to their BibTeX name and to the
/// name written out: `annote` and `annotation`, `booktitle` and `book-title`,
/// `crossref` and `cross-reference`, `howpublished` and `how-published`.
pub open spec fn standard_name(key: Seq<char>) -> Option<FieldName> {
    if same_word(key, "address"@) {
        Some(FieldName::Address)
    } else if same_word(key, "annote"@) || same_word(key, "annotation"@) {
        Some(FieldName::Annote)
    } else if same_word(key, "author"@) {
        Some(FieldName::Author)
    } else if same_word(key, "booktitle"@) || same_word(key, "book-title"@) {
        Some(FieldName::BookTitle)
    } else if same_word(key, "chapter"@) {
        Some(FieldName::Chapter)
    } else if same_word(key, "crossref"@) || same_word(key, "cross-reference"@) {
        Some(FieldName::Crossref)
    } else if same_word(key, "doi"@) {
        Some(FieldName::Doi)
    } else if same_word(key, "edition"@) {
        Some(FieldName::Edition)
    } else if same_word(key, "editor"@) {
        Some(FieldName::Editor)
    } else if same_word(key, "email"@) {
        Some(FieldName::Email)
    } else if same_word(key, "howpublished"@) || same_word(key, "how-published"@) {
        Some(FieldName::HowPublished)
    } else if same_word(key, "institution"@) {
        Some(FieldName::Institution)
    } else if same_word(key, "journal"@) {
        Some(FieldName::Journal)
    } else if same_word(key, "day"@) {
        Some(FieldName::Day)
    } else if same_word(key, "month"@) {
        Some(FieldName::Month)
    } else if same_word(key, "year"@) {
        Some(FieldName::Year)
    } else if same_word(key, "note"@) {
        Some(FieldName::Note)
    } else if same_word(key, "number"@) {
        Some(FieldName::Number)
    } else if same_word(key, "organization"@) {
        Some(FieldName::Organization)
    } else if same_word(key, "pages"@) {
        Some(FieldName::Pages)
    } else if same_word(key, "publisher"@) {
        Some(FieldName::Publisher)
    } else if same_word(key, "school"@) {
        Some(FieldName::School)
    } else if same_word(key, "series"@) {
        Some(FieldName::Series)
    } else if same_word(key, "title"@) {
        Some(FieldName::Title)
    } else if same_word(key, "type"@) {
        Some(FieldName::Type)
    } else if same_word(key, "volume"@) {
        Some(FieldName::Volume)
    } else {
        None
    }
}

/// Whether the characters are the given word, letter case aside.
fn named(text: &Vec<char>, word: &str) -> (b: bool)
    ensures
        b == same_word(text@, word@),
{
    assert(text@.subrange(0, text@.len() as int) =~= text@);
    is_word(text, 0, text.len(), word)
}

impl FieldName {
    /// Looks a name up in the table of standard fields.
    pub fn of(key: &Vec<char>) -> (name: Option<FieldName>)
        ensures
            name == standard_name(key@),
    {
        if named(key, "address") {
            Some(FieldName::Address)
        } else if named(key, "annote") || named(key, "annotation") {
            Some(FieldName::Annote)
        } else if named(key, "author") {
            Some(FieldName::Author)
        } else if named(key, "booktitle") || named(key, "book-title") {
            Some(FieldName::BookTitle)
        } else if named(key, "chapter") {
            Some(FieldName::Chapter)
        } else if named(key, "crossref") || named(key, "cross-reference") {
            Some(FieldName::Crossref)
        } else if named(key, "doi") {
            Some(FieldName::Doi)
        } else if named(key, "edition") {
            Some(FieldName::Edition)
        } else if named(key, "editor") {
            Some(FieldName::Editor)
        } else if named(key, "email") {
            Some(FieldName::Email)
        } else if named(key, "howpublished") || named(key, "how-published") {
            Some(FieldName::HowPublished)
        } else if named(key, "institution") {
            Some(FieldName::Institution)
        } else if named(key, "journal") {
            Some(FieldName::Journal)
        } else if named(key, "day") {
            Some(FieldName::Day)
        } else if named(key, "month") {
            Some(FieldName::Month)
        } else if named(key, "year") {
            Some(FieldName::Year)
        } else if named(key, "note") {
            Some(FieldName::Note)
        } else if named(key, "number") {
            Some(FieldName::Number)
        } else if named(key, "organization") {
            Some(FieldName::Organization)
        } else if named(key, "pages") {
            Some(FieldName::Pages)
        } else if named(key, "publisher") {
            Some(FieldName::Publisher)
        } else if named(key, "school") {
            Some(FieldName::School)
        } else if named(key, "series") {
            Some(FieldName::Series)
        } else if named(key, "title") {
            Some(FieldName::Title)
        } else if named(key, "type") {
            Some(FieldName::Type)
        } else if named(key, "volume") {
            Some(FieldName::Volume)
        } else {
            None
        }
    }
}

/// A field with its decoded value. A field outside the standard table is
/// `NonStandard`, with its name and its text as they were written.
#[derive(Clone, Debug, PartialEq, Eq)]
pub enum BibTeXField {
    Address(String),
    Annote(String),
    Author(Authors),
    BookTitle(String),
    Chapter(u8),
    Crossref(String),
    Doi(String),
    Edition(u16),
    Editor(Authors),
    Email(String),
    HowPublished(String),
    Institution(String),
    Journal(String),
    Day(Day),
    Month(Month),
    Year(u16),
    Note(String),
    Number(u16),
    Organization(String),
    Pages(Pages),
    Publisher(String),
    School(String),
    Series(String),
    Title(String),
    Type(String),
    Volume(u8),
    NonStandard { key: String, value: String },
}

/// A `BibTeXField` as a mathematical value.
pub enum FieldView {
    Address(Seq<char>),
    Annote(Seq<char>),
    Author(Seq<AuthorView>),
    BookTitle(Seq<char>),
    Chapter(u8),
    Crossref(Seq<char>),
    Doi(Seq<char>),
    Edition(u16),
    Editor(Seq<AuthorView>),
    Email(Seq<char>),
    HowPublished(Seq<char>),
    Institution(Seq<char>),
    Journal(Seq<char>),
    Day(Day),
    Month(Month),
    Year(u16),
    Note(Seq<char>),
    Number(u16),
    Organization(Seq<char>),
    Pages(Seq<PageRange>),
    Publisher(Seq<char>),
    School(Seq<char>),
    Series(Seq<char>),
    Title(Seq<char>),
    Type(Seq<char>),
    Volume(u8),
    NonStandard { key: Seq<char>, value: Seq<char> },
}

impl FieldView {
    /// The standard field that the value belongs to; none for a
    /// non-standard field.
    pub open spec fn name(self) -> Option<FieldName> {
        match self {
            FieldView::Address(_) => Some(FieldName::Address),
            FieldView::Annote(_) => Some(FieldName::Annote),
            FieldView::Author(_) => Some(FieldName::Author),
            FieldView::BookTitle(_) => Some(FieldName::BookTitle),
            FieldView::Chapter(_) => Some(FieldName::Chapter),
            FieldView::Crossref(_) => Some(FieldName::Crossref),
            FieldView::Doi(_) => Some(FieldName::Doi),
            FieldView::Edition(_) => Some(FieldName::Edition),
            FieldView::Editor(_) => Some(FieldName::Editor),
            FieldView::Email(_) => Some(FieldName::Email),
            FieldView::HowPublished(_) => Some(FieldName::HowPublished),
            FieldView::Institution(_) => Some(FieldName::Institution),
            FieldView::Journal(_) => Some(FieldName::Journal),
            FieldView::Day(_) => Some(FieldName::Day),
            FieldView::Month(_) => Some(FieldName::Month),
            FieldView::Year(_) => Some(FieldName::Year),
            FieldView::Note(_) => Some(FieldName::Note),
            FieldView::Number(_) => Some(FieldName::Number),
            FieldView::Organization(_) => Some(FieldName::Organization),
            FieldView::Pages(_) => Some(FieldName::Pages),
            FieldView::Publisher(_) => Some(FieldName::Publisher),
            FieldView::School(_) => Some(FieldName::School),
            FieldView::Series(_) => Some(FieldName::Series),
            FieldView::Title(_) => Some(FieldName::Title),
            FieldView::Type(_) => Some(FieldName::Type),
            FieldView::Volume(_) => Some(FieldName::Volume),
            FieldView::NonStandard { .. } => None,
        }
    }
}

impl View for BibTeXField {
    type V = FieldView;

    open spec fn view(&self) -> FieldView {
        match self {
            BibTeXField::Address(v) => FieldView::Address(v@),
            BibTeXField::Annote(v) => FieldView::Annote(v@),
            BibTeXField::Author(v) => FieldView::Author(v@),
            BibTeXField::BookTitle(v) => FieldView::BookTitle(v@),
            BibTeXField::Chapter(v) => FieldView::Chapter(*v),
            BibTeXField::Crossref(v) => FieldView::Crossref(v@),
            BibTeXField::Doi(v) => FieldView::Doi(v@),
            BibTeXField::Edition(v) => FieldView::Edition(*v),
            BibTeXField::Editor(v) => FieldView::Editor(v@),
            BibTeXField::Email(v) => FieldView::Email(v@),
            BibTeXField::HowPublished(v) => FieldView::HowPublished(v@),
            BibTeXField::Institution(v) => FieldView::Institution(v@),
            BibTeXField::Journal(v) => FieldView::Journal(v@),
            BibTeXField::Day(v) => FieldView::Day(*v),
            BibTeXField::Month(v) => FieldView::Month(*v),
            BibTeXField::Year(v) => FieldView::Year(*v),
            BibTeXField::Note(v) => FieldView::Note(v@),
            BibTeXField::Number(v) => FieldView::Number(*v),
            BibTeXField::Organization(v) => FieldView::Organization(v@),
            BibTeXField::Pages(v) => FieldView::Pages(v@),
            BibTeXField::Publisher(v) => FieldView::Publisher(v@),
            BibTeXField::School(v) => FieldView::School(v@),
            BibTeXField::Series(v) => FieldView::Series(v@),
            BibTeXField::Title(v) => FieldView::Title(v@),
            BibTeXField::Type(v) => FieldView::Type(v@),
            BibTeXField::Volume(v) => FieldView::Volume(*v),
            BibTeXField::NonStandard { key, value } => FieldView::NonStandard {
                key: key@,
                value: value@,
            },
        }
    }
}

impl DeepView for BibTeXField {
    type V = FieldView;

    open spec fn deep_view(&self) -> FieldView {
        self@
    }
}

/// The fault of a field whose text does not follow the rules of the field.
pub open spec fn invalid(key: Seq<char>, raw: Seq<char>, reason: Reason) -> ErrorView {
    ErrorView::InvalidFieldValue { field: key, raw, reason }
}

/// The number of a numeric field: the text, whitespace around it aside, read
/// as a decimal number of at most `max`.
pub open spec fn field_number(key: Seq<char>, raw: Seq<char>, max: int) -> Result<
    int,
    ErrorView,
> {
    match number_of(trim(raw, 0, raw.len() as int), max) {
        Ok(n) => Ok(n),
        Err(r) => Err(invalid(key, raw, r)),
    }
}

/// Decoding a field: the typed value that the name and the raw text stand
/// for, or the fault in the text.
///
/// Authors and editors are lists of persons. Pages are lists of ranges.
/// Month and day are names or numbers. Year, edition and number fit 16 bits,
/// volume and chapter 8 bits. The other standard fields keep their text, and
/// a non-standard field keeps its name and its text.
pub open spec fn decode_field(key: Seq<char>, raw: Seq<char>) -> Result<FieldView, ErrorView> {
    match standard_name(key) {
        None => Ok(FieldView::NonStandard { key, value: raw }),
        Some(FieldName::Address) => Ok(FieldView::Address(raw)),
        Some(FieldName::Annote) => Ok(FieldView::Annote(raw)),
        Some(FieldName::Author) => Ok(FieldView::Author(people(raw))),
        Some(FieldName::BookTitle) => Ok(FieldView::BookTitle(raw)),
        Some(FieldName::Chapter) => match field_number(key, raw, 0xff) {
            Ok(n) => Ok(FieldView::Chapter(n as u8)),
            Err(e) => Err(e),
        },
        Some(FieldName::Crossref) => Ok(FieldView::Crossref(raw)),
        Some(FieldName::Doi) => Ok(FieldView::Doi(raw)),
        Some(FieldName::Edition) => match field_number(key, raw, 0xffff) {
            Ok(n) => Ok(FieldView::Edition(n as u16)),
            Err(e) => Err(e),
        },
        Some(FieldName::Editor) => Ok(FieldView::Editor(people(raw))),
        Some(FieldName::Email) => Ok(FieldView::Email(raw)),
        Some(FieldName::HowPublished) => Ok(FieldView::HowPublished(raw)),
        Some(FieldName::Institution) => Ok(FieldView::Institution(raw)),
        Some(FieldName::Journal) => Ok(FieldView::Journal(raw)),
        Some(FieldName::Day) => match day_of(raw) {
            Ok(d) => Ok(FieldView::Day(d)),
            Err(r) => Err(invalid(key, raw, r)),
        },
        Some(FieldName::Month) => match month_of(raw) {
            Ok(m) => Ok(FieldView::Month(m)),
            Err(r) => Err(invalid(key, raw, r)),
        },
        Some(FieldName::Year) => match field_number(key, raw, 0xffff) {
            Ok(n) => Ok(FieldView::Year(n as u16)),
            Err(e) => Err(e),
        },
        Some(FieldName::Note) => Ok(FieldView::Note(raw)),
        Some(FieldName::Number) => match field_number(key, raw, 0xffff) {
            Ok(n) => Ok(FieldView::Number(n as u16)),
            Err(e) => Err(e),
        },
        Some(FieldName::Organization) => Ok(FieldView::Organization(raw)),
        Some(FieldName::Pages) => match pages_of(raw) {
            Ok(p) => Ok(FieldView::Pages(p)),
            Err(r) => Err(invalid(key, raw, r)),
        },
        Some(FieldName::Publisher) => Ok(FieldView::Publisher(raw)),
        Some(FieldName::School) => Ok(FieldView::School(raw)),
        Some(FieldName::Series) => Ok(FieldView::Series(raw)),
        Some(FieldName::Title) => Ok(FieldView::Title(raw)),
        Some(FieldName::Type) => Ok(FieldView::Type(raw)),
        Some(FieldName::Volume) => match field_number(key, raw, 0xff) {
            Ok(n) => Ok(FieldView::Volume(n as u8)),
            Err(e) => Err(e),
        },
    }
}

/// The fault value for a field that was turned down.
fn turned_down(key: &str, raw: &str, reason: Reason) -> (e: ParseError)
    ensures
        e@ == invalid(key@, raw@, reason),
{
    ParseError::InvalidFieldValue {
        field: String::from_str(key),
        raw: String::from_str(raw),
        reason,
    }
}

/// Reads the number of a numeric field.
fn read_field_number(key: &str, raw: &str, text: &Vec<char>, max: u32) -> (r: Result<
    u32,
    ParseError,
>)
    requires
        text@ == raw@,
    ensures
        match field_number(key@, raw@, max as int) {
            Ok(n) => r matches Ok(x) && x == n && 0 <= n <= max,
            Err(e) => r matches Err(x) && x@ == e,
        },
{
    let (a, b) = trim_range(text, 0, text.len());
    match read_number(text, a, b, max) {
        Ok(n) => Ok(n),
        Err(reason) => Err(turned_down(key, raw, reason)),
    }
}

impl BibTeXField {
    /// The standard field that the value belongs to; none for a
    /// non-standard field.
    pub fn name(&self) -> (name: Option<FieldName>)
        ensures
            name == self@.name(),
    {
        match self {
            BibTeXField::Address(_) => Some(FieldName::Address),
            BibTeXField::Annote(_) => Some(FieldName::Annote),
            BibTeXField::Author(_) => Some(FieldName::Author),
            BibTeXField::BookTitle(_) => Some(FieldName::BookTitle),
            BibTeXField::Chapter(_) => Some(FieldName::Chapter),
            BibTeXField::Crossref(_) => Some(FieldName::Crossref),
            BibTeXField::Doi(_) => Some(FieldName::Doi),
            BibTeXField::Edition(_) => Some(FieldName::Edition),
            BibTeXField::Editor(_) => Some(FieldName::Editor),
            BibTeXField::Email(_) => Some(FieldName::Email),
            BibTeXField::HowPublished(_) => Some(FieldName::HowPublished),
            BibTeXField::Institution(_) => Some(FieldName::Institution),
            BibTeXField::Journal(_) => Some(FieldName::Journal),
            BibTeXField::Day(_) => Some(FieldName::Day),
            BibTeXField::Month(_) => Some(FieldName::Month),
            BibTeXField::Year(_) => Some(FieldName::Year),
            BibTeXField::Note(_) => Some(FieldName::Note),
            BibTeXField::Number(_) => Some(FieldName::Number),
            BibTeXField::Organization(_) => Some(FieldName::Organization),
            BibTeXField::Pages(_) => Some(FieldName::Pages),
            BibTeXField::Publisher(_) => Some(FieldName::Publisher),
            BibTeXField::School(_) => Some(FieldName::School),
            BibTeXField::Series(_) => Some(FieldName::Series),
            BibTeXField::Title(_) => Some(FieldName::Title),
            BibTeXField::Type(_) => Some(FieldName::Type),
            BibTeXField::Volume(_) => Some(FieldName::Volume),
            BibTeXField::NonStandard { .. } => None,
        }
    }

    /// Whether the field is outside the table of standard fields.
    pub fn is_non_standard_field(&self) -> (b: bool)
        ensures
            b == (self@ is NonStandard),
            b == (self@.name() is None),
    {
        matches!(self, BibTeXField::NonStandard { .. })
    }

    /// Whether the field is one of the standard fields.
    pub fn is_standard_field(&self) -> (b: bool)
        ensures
            b == !(self@ is NonStandard),
            b == (self@.name() is Some),
    {
        !matches!(self, BibTeXField::NonStandard { .. })
    }

    /// Decodes a field from its name and the raw text of its value.
    pub fn decode(key: &str, raw: &str) -> (r: Result<BibTeXField, ParseError>)
        ensures
            match decode_field(key@, raw@) {
                Ok(f) => r matches Ok(x) && x@ == f,
                Err(e) => r matches Err(x) && x@ == e,
            },
    {
        let name = FieldName::of(&to_chars(key));
        match name {
            None => Ok(
                BibTeXField::NonStandard {
                    key: String::from_str(key),
                    value: String::from_str(raw),
                },
            ),
            Some(FieldName::Address) => Ok(BibTeXField::Address(String::from_str(raw))),
            Some(FieldName::Annote) => Ok(BibTeXField::Annote(String::from_str(raw))),
            Some(FieldName::Author) => Ok(BibTeXField::Author(Authors::from_str(raw))),
            Some(FieldName::BookTitle) => Ok(BibTeXField::BookTitle(String::from_str(raw))),
            Some(FieldName::Chapter) => match read_field_number(key, raw, &to_chars(raw), 0xff) {
                Ok(n) => Ok(BibTeXField::Chapter(n as u8)),
                Err(e) => Err(e),
            },
            Some(FieldName::Crossref) => Ok(BibTeXField::Crossref(String::from_str(raw))),
            Some(FieldName::Doi) => Ok(BibTeXField::Doi(String::from_str(raw))),
            Some(FieldName::Edition) => match read_field_number(
                key,
                raw,
                &to_chars(raw),
                0xffff,
            ) {
                Ok(n) => Ok(BibTeXField::Edition(n as u16)),
                Err(e) => Err(e),
            },
            Some(FieldName::Editor) => Ok(BibTeXField::Editor(Authors::from_str(raw))),
            Some(FieldName::Email) => Ok(BibTeXField::Email(String::from_str(raw))),
            Some(FieldName::HowPublished) => Ok(
                BibTeXField::HowPublished(String::from_str(raw)),
            ),
            Some(FieldName::Institution) => Ok(BibTeXField::Institution(String::from_str(raw))),
            Some(FieldName::Journal) => Ok(BibTeXField::Journal(String::from_str(raw))),
            Some(FieldName::Day) => match Day::from_str(raw) {
                Ok(d) => Ok(BibTeXField::Day(d)),
                Err(reason) => Err(turned_down(key, raw, reason)),
            },
            Some(FieldName::Month) => match Month::from_str(raw) {
                Ok(m) => Ok(BibTeXField::Month(m)),
                Err(reason) => Err(turned_down(key, raw, reason)),
            },
            Some(FieldName::Year) => match read_field_number(key, raw, &to_chars(raw), 0xffff) {
                Ok(n) => Ok(BibTeXField::Year(n as u16)),
                Err(e) => Err(e),
            },
            Some(FieldName::Note) => Ok(BibTeXField::Note(String::from_str(raw))),
            Some(FieldName::Number) => match read_field_number(
                key,
                raw,
                &to_chars(raw),
                0xffff,
            ) {
                Ok(n) => Ok(BibTeXField::Number(n as u16)),
                Err(e) => Err(e),
            },
            Some(FieldName::Organization) => Ok(
                BibTeXField::Organization(String::from_str(raw)),
            ),
            Some(FieldName::Pages) => match Pages::from_str(raw) {
                Ok(p) => Ok(BibTeXField::Pages(p)),
                Err(reason) => Err(turned_down(key, raw, reason)),
            },
            Some(FieldName::Publisher) => Ok(BibTeXField::Publisher(String::from_str(raw))),
            Some(FieldName::School) => Ok(BibTeXField::School(String::from_str(raw))),
            Some(FieldName::Series) => Ok(BibTeXField::Series(String::from_str(raw))),
            Some(FieldName::Title) => Ok(BibTeXField::Title(String::from_str(raw))),
            Some(FieldName::Type) => Ok(BibTeXField::Type(String::from_str(raw))),
            Some(FieldName::Volume) => match read_field_number(key, raw, &to_chars(raw), 0xff) {
                Ok(n) => Ok(BibTeXField::Volume(n as u8)),
                Err(e) => Err(e),
            },
        }
    }
}

} // verus!
