//! What holds of the reader as a whole, stated over the spec functions of
//! the other modules and proved from them.

use super::entry::{
    extra_of, first_at, first_extra_at, first_of, is_extra, kind_name, kind_of, typed_entry,
    typed_fields, EntryView, KindView,
};
use super::entry::BibTeXEntry;
use super::error::{model_of, ErrorView, ParseError};
use super::fields::{next_and, people, person_in, FieldName, FieldView};
use super::parser::{
    document_at, entries_at, entry_at, expect_char, fields_at, lemma_entry_at, lemma_expect_char,
    lemma_skip_blank, lemma_word_at, skip_blank, skip_blank_in, word_at,
    RawEntryView,
};
use super::text::{
    is_space, is_word_char, lemma_run_end, lemma_run_end_is, lower_text, CharClass,
};
use super::{bibliography, typed_entries};
use vstd::prelude::*;

verus! {

/// Whether two fields answer to the same accessor: both are the same
/// standard field, or both are non-standard fields of the same name, letter
/// case aside.
pub open spec fn same_slot(f: FieldView, g: FieldView) -> bool {
    match f {
        FieldView::NonStandard { key, .. } => is_extra(g, key),
        _ => f.name() == g.name(),
    }
}

/// Whether no two fields of the sequence answer to the same accessor.
pub open spec fn one_per_slot(fields: Seq<FieldView>) -> bool {
    forall|i: int, j: int|
        0 <= i < j < fields.len() ==> !same_slot(#[trigger] fields[i], #[trigger] fields[j])
}

/// The first field of a name is a field of that name, and no field before it
/// is.
pub proof fn lemma_first_at(fields: Seq<FieldView>, name: FieldName, i: int)
    requires
        0 <= i <= fields.len(),
    ensures
        i <= first_at(fields, name, i) <= fields.len(),
        first_at(fields, name, i) < fields.len() ==> fields[first_at(fields, name, i)].name()
            == Some(name),
        forall|m: int|
            i <= m < first_at(fields, name, i) ==> (#[trigger] fields[m]).name() != Some(name),
    decreases fields.len() - i,
{
    if i < fields.len() && fields[i].name() != Some(name) {
        lemma_first_at(fields, name, i + 1);
    }
}

/// The first non-standard field of a name is such a field, and no field
/// before it is.
pub proof fn lemma_first_extra_at(fields: Seq<FieldView>, key: Seq<char>, i: int)
    requires
        0 <= i <= fields.len(),
    ensures
        i <= first_extra_at(fields, key, i) <= fields.len(),
        first_extra_at(fields, key, i) < fields.len() ==> is_extra(
            fields[first_extra_at(fields, key, i)],
            key,
        ),
        forall|m: int|
            i <= m < first_extra_at(fields, key, i) ==> !is_extra(#[trigger] fields[m], key),
    decreases fields.len() - i,
{
    if i < fields.len() && !is_extra(fields[i], key) {
        lemma_first_extra_at(fields, key, i + 1);
    }
}

/// Field order does not matter to the accessors. Where two entries hold the
/// same fields in another order, and no accessor has two fields to choose
/// from, every typed accessor and every lookup of a non-standard field gives
/// the same result on both.
pub proof fn law_field_order(a: Seq<FieldView>, b: Seq<FieldView>)
    requires
        a.to_multiset() == b.to_multiset(),
        one_per_slot(a),
    ensures
        forall|name: FieldName| first_of(a, name) == first_of(b, name),
        forall|key: Seq<char>| extra_of(a, key) == extra_of(b, key),
{
    a.to_multiset_ensures();
    b.to_multiset_ensures();
    assert forall|name: FieldName| first_of(a, name) == first_of(b, name) by {
        lemma_first_at(a, name, 0);
        lemma_first_at(b, name, 0);
        let ka = first_at(a, name, 0);
        let kb = first_at(b, name, 0);
        if ka < a.len() {
            assert(a.contains(a[ka]));
            assert(a.to_multiset().count(a[ka]) > 0);
            assert(b.to_multiset().count(a[ka]) > 0);
            assert(b.contains(a[ka]));
            let m = choose|m: int| 0 <= m < b.len() && b[m] == a[ka];
            assert(b[m].name() == Some(name));
            assert(kb < b.len());
        }
        if kb < b.len() {
            assert(b.contains(b[kb]));
            assert(b.to_multiset().count(b[kb]) > 0);
            assert(a.to_multiset().count(b[kb]) > 0);
            assert(a.contains(b[kb]));
            let m = choose|m: int| 0 <= m < a.len() && a[m] == b[kb];
            assert(a[m].name() == Some(name));
            assert(ka < a.len());
            if m != ka {
                if m < ka {
                    assert(same_slot(a[m], a[ka]));
                } else {
                    assert(same_slot(a[ka], a[m]));
                }
            }
        }
    }
    assert forall|key: Seq<char>| extra_of(a, key) == extra_of(b, key) by {
        lemma_first_extra_at(a, key, 0);
        lemma_first_extra_at(b, key, 0);
        let ka = first_extra_at(a, key, 0);
        let kb = first_extra_at(b, key, 0);
        if ka < a.len() {
            assert(a.contains(a[ka]));
            assert(a.to_multiset().count(a[ka]) > 0);
            assert(b.to_multiset().count(a[ka]) > 0);
            assert(b.contains(a[ka]));
            let m = choose|m: int| 0 <= m < b.len() && b[m] == a[ka];
            assert(is_extra(b[m], key));
            assert(kb < b.len());
        }
        if kb < b.len() {
            assert(b.contains(b[kb]));
            assert(b.to_multiset().count(b[kb]) > 0);
            assert(a.to_multiset().count(b[kb]) > 0);
            assert(a.contains(b[kb]));
            let m = choose|m: int| 0 <= m < a.len() && a[m] == b[kb];
            assert(is_extra(a[m], key));
            assert(ka < a.len());
            if m != ka {
                lemma_same_name_same_slot(a[m], a[ka], key);
                lemma_same_name_same_slot(a[ka], a[m], key);
            }
        }
    }
}

/// Two non-standard fields that answer to one name answer to each other.
proof fn lemma_same_name_same_slot(f: FieldView, g: FieldView, key: Seq<char>)
    requires
        is_extra(f, key),
        is_extra(g, key),
    ensures
        same_slot(f, g),
{
}

/// A parse never succeeds with nothing. Input that holds blank text only is
/// the fault `EmptyBibliography`; that fault comes from no other input; and
/// where entries are returned there is at least one.
pub proof fn law_never_empty(s: Seq<char>, i: int)
    requires
        0 <= i <= s.len(),
    ensures
        skip_blank(s, i) >= s.len() <==> document_at(s, i) == Err::<Seq<RawEntryView>, ErrorView>(
            ErrorView::EmptyBibliography,
        ),
        document_at(s, i) matches Ok(entries) ==> entries.len() > 0,
        i == 0 ==> (bibliography(s) matches Ok(entries) ==> entries.len() > 0),
        i == 0 ==> (skip_blank(s, 0) >= s.len() <==> bibliography(s) == Err::<
            Seq<EntryView>,
            ErrorView,
        >(ErrorView::EmptyBibliography)),
{
    lemma_skip_blank(s, i, false);
    lemma_no_empty_fault(s, i);
    if let Ok(raw) = document_at(s, i) {
        lemma_typed_entries(raw, 0);
    }
}

/// Reading entries never gives the fault `EmptyBibliography`.
proof fn lemma_no_empty_fault(s: Seq<char>, i: int)
    requires
        0 <= i <= s.len(),
    ensures
        !(entries_at(s, i) matches Err(ErrorView::EmptyBibliography)),
    decreases s.len() - i,
{
    lemma_skip_blank(s, i, false);
    let j = skip_blank(s, i);
    if j < s.len() {
        lemma_entry_faults(s, j);
        lemma_entry_at(s, j);
        if let Ok((entry, n)) = entry_at(s, j) {
            lemma_no_empty_fault(s, n);
        }
    }
}

/// Reading an entry never gives the fault `EmptyBibliography`.
proof fn lemma_entry_faults(s: Seq<char>, i: int)
    requires
        0 <= i <= s.len(),
    ensures
        !(entry_at(s, i) matches Err(ErrorView::EmptyBibliography)),
{
    lemma_expect_char(s, i, '@');
    if let Ok(a) = expect_char(s, i, '@') {
        lemma_word_at(s, a);
        let (k0, k1) = word_at(s, a);
        lemma_expect_char(s, k1, '{');
        if let Ok(b) = expect_char(s, k1, '{') {
            lemma_word_at(s, b);
            let (c0, c1) = word_at(s, b);
            lemma_expect_char(s, c1, ',');
            if let Ok(d) = expect_char(s, c1, ',') {
                lemma_field_faults(s, d);
            }
        }
    }
}

/// Reading fields never gives the fault `EmptyBibliography`.
proof fn lemma_field_faults(s: Seq<char>, i: int)
    requires
        0 <= i <= s.len(),
    ensures
        !(fields_at(s, i) matches Err(ErrorView::EmptyBibliography)),
    decreases s.len() - i,
{
    lemma_skip_blank(s, i, false);
    let j = skip_blank(s, i);
    if !(j < s.len() && s[j] == '}') {
        super::parser::lemma_field_at(s, j);
        if let Ok((f, n)) = super::parser::field_at(s, j) {
            lemma_skip_blank(s, n, false);
            let m = skip_blank(s, n);
            if m < s.len() && s[m] == ',' {
                lemma_field_faults(s, m + 1);
            }
        }
    }
}

/// Decoding keeps the number of entries, and never gives the fault
/// `EmptyBibliography`.
pub proof fn lemma_typed_entries(raw: Seq<RawEntryView>, i: int)
    requires
        0 <= i <= raw.len(),
    ensures
        typed_entries(raw, i) matches Ok(entries) ==> entries.len() == raw.len() - i,
        !(typed_entries(raw, i) matches Err(ErrorView::EmptyBibliography)),
    decreases raw.len() - i,
{
    if i < raw.len() {
        lemma_typed_fields(raw[i].fields, 0);
        lemma_typed_entries(raw, i + 1);
    }
}

/// Decoding keeps the number of fields, and never gives the fault
/// `EmptyBibliography`.
pub proof fn lemma_typed_fields(raw: Seq<(Seq<char>, Seq<char>)>, i: int)
    requires
        0 <= i <= raw.len(),
    ensures
        typed_fields(raw, i) matches Ok(fields) ==> fields.len() == raw.len() - i,
        !(typed_fields(raw, i) matches Err(ErrorView::EmptyBibliography)),
    decreases raw.len() - i,
{
    if i < raw.len() {
        lemma_typed_fields(raw, i + 1);
    }
}

/// A parse depends on the source text alone: whatever two calls of `parse`
/// return for the same text, be it at different times or in different
/// threads, they return the same.
pub proof fn law_same_text_same_result(
    a: &str,
    b: &str,
    first: Result<Vec<BibTeXEntry>, ParseError>,
    second: Result<Vec<BibTeXEntry>, ParseError>,
)
    requires
        a@ == b@,
        model_of(first) == bibliography(a@),
        model_of(second) == bibliography(b@),
    ensures
        model_of(first) == model_of(second),
{
}

/// The lead author is the person written first. Where the text before the
/// first separator ` and ` names a person, that person stands first in the
/// list, whatever follows.
pub proof fn law_lead_author(raw: Seq<char>)
    ensures
        person_in(raw, 0, next_and(raw, 0)) matches Some(lead) ==> people(raw).len() > 0
            && people(raw)[0] == lead,
{
}

/// A kind of the table is written under the name that reads back as that
/// kind. `Conference` is left out: its name reads as `InProceedings`, whose
/// synonym it is.
pub proof fn law_kind_names(kind: KindView)
    requires
        !(kind is Unknown),
        !(kind is Conference),
    ensures
        kind_of(kind_name(kind)) == kind,
{
    reveal_strlit("article");
    reveal_strlit("book");
    reveal_strlit("booklet");
    reveal_strlit("conference");
    reveal_strlit("inbook");
    reveal_strlit("incollection");
    reveal_strlit("inproceedings");
    reveal_strlit("manual");
    reveal_strlit("mastersthesis");
    reveal_strlit("misc");
    reveal_strlit("phdthesis");
    reveal_strlit("proceedings");
    reveal_strlit("techreport");
    reveal_strlit("unpublished");
    assert(lower_text("article"@).len() == 7);
    assert(lower_text("book"@).len() == 4);
    assert(lower_text("booklet"@).len() == 7);
    assert(lower_text("conference"@).len() == 10);
    assert(lower_text("inbook"@).len() == 6);
    assert(lower_text("incollection"@).len() == 12);
    assert(lower_text("inproceedings"@).len() == 13);
    assert(lower_text("manual"@).len() == 6);
    assert(lower_text("mastersthesis"@).len() == 13);
    assert(lower_text("misc"@).len() == 4);
    assert(lower_text("phdthesis"@).len() == 9);
    assert(lower_text("proceedings"@).len() == 11);
    assert(lower_text("techreport"@).len() == 10);
    assert(lower_text("unpublished"@).len() == 11);
    assert(lower_text("article"@)[0] == 'a');
    assert(lower_text("book"@)[0] == 'b');
    assert(lower_text("booklet"@)[0] == 'b');
    assert(lower_text("conference"@)[0] == 'c');
    assert(lower_text("inbook"@)[0] == 'i');
    assert(lower_text("incollection"@)[0] == 'i');
    assert(lower_text("inproceedings"@)[0] == 'i');
    assert(lower_text("manual"@)[0] == 'm');
    assert(lower_text("mastersthesis"@)[0] == 'm');
    assert(lower_text("misc"@)[0] == 'm');
    assert(lower_text("phdthesis"@)[0] == 'p');
    assert(lower_text("proceedings"@)[0] == 'p');
    assert(lower_text("techreport"@)[0] == 't');
    assert(lower_text("unpublished"@)[0] == 'u');
}

/// Nothing enters a typed entry undecoded. Where a raw entry has a typed
/// entry, the two agree in kind and citekey, and each field of the typed
/// entry is what the raw field at the same position decodes to.
pub proof fn law_fields_decoded(raw: RawEntryView)
    ensures
        typed_entry(raw) matches Ok(entry) ==> {
            &&& entry.kind == raw.kind
            &&& entry.citekey == raw.citekey
            &&& entry.fields.len() == raw.fields.len()
            &&& forall|k: int|
                0 <= k < raw.fields.len() ==> super::fields::decode_field(
                    raw.fields[k].0,
                    raw.fields[k].1,
                ) == Ok::<FieldView, ErrorView>(#[trigger] entry.fields[k])
        },
{
    lemma_fields_decoded(raw.fields, 0);
}

/// Each decoded field is what the raw field at its position decodes to.
proof fn lemma_fields_decoded(raw: Seq<(Seq<char>, Seq<char>)>, i: int)
    requires
        0 <= i <= raw.len(),
    ensures
        typed_fields(raw, i) matches Ok(fields) ==> {
            &&& fields.len() == raw.len() - i
            &&& forall|k: int|
                0 <= k < fields.len() ==> super::fields::decode_field(
                    raw[i + k].0,
                    raw[i + k].1,
                ) == Ok::<FieldView, ErrorView>(#[trigger] fields[k])
        },
    decreases raw.len() - i,
{
    if i < raw.len() {
        lemma_fields_decoded(raw, i + 1);
        if let Ok(fields) = typed_fields(raw, i) {
            let rest = typed_fields(raw, i + 1)->Ok_0;
            assert forall|k: int| 0 <= k < fields.len() implies super::fields::decode_field(
                raw[i + k].0,
                raw[i + k].1,
            ) == Ok::<FieldView, ErrorView>(#[trigger] fields[k]) by {
                if k > 0 {
                    assert(fields[k] == rest[k - 1]);
                }
            }
        }
    }
}

/// Whether a text is a citekey: one or more identifier characters.
pub open spec fn is_citekey(key: Seq<char>) -> bool {
    key.len() > 0 && forall|k: int| 0 <= k < key.len() ==> is_word_char(#[trigger] key[k])
}

/// Citekeys are never empty after a successful parse: the citekey of every
/// typed entry that is returned is one or more identifier characters.
pub proof fn law_citekeys(s: Seq<char>)
    ensures
        bibliography(s) matches Ok(entries) ==> forall|k: int|
            0 <= k < entries.len() ==> is_citekey(#[trigger] entries[k].citekey),
{
    lemma_raw_citekeys(s, 0);
    if let Ok(raw) = document_at(s, 0) {
        lemma_typed_citekeys(raw, 0);
    }
}

/// Decoding keeps the citekeys.
proof fn lemma_typed_citekeys(raw: Seq<RawEntryView>, i: int)
    requires
        0 <= i <= raw.len(),
    ensures
        typed_entries(raw, i) matches Ok(entries) ==> entries.len() == raw.len() - i && forall|
            k: int,
        |
            0 <= k < entries.len() ==> (#[trigger] entries[k]).citekey == raw[i + k].citekey,
    decreases raw.len() - i,
{
    if i < raw.len() {
        lemma_typed_citekeys(raw, i + 1);
        if let Ok(entries) = typed_entries(raw, i) {
            let rest = typed_entries(raw, i + 1)->Ok_0;
            assert forall|k: int| 0 <= k < entries.len() implies (#[trigger] entries[k]).citekey
                == raw[i + k].citekey by {
                if k > 0 {
                    assert(entries[k] == rest[k - 1]);
                }
            }
        }
    }
}

/// The citekey of every raw entry that is returned is one or more
/// identifier characters.
pub proof fn lemma_raw_citekeys(s: Seq<char>, i: int)
    requires
        0 <= i <= s.len(),
    ensures
        entries_at(s, i) matches Ok(entries) ==> forall|k: int|
            0 <= k < entries.len() ==> is_citekey(#[trigger] entries[k].citekey),
    decreases s.len() - i,
{
    lemma_skip_blank(s, i, false);
    let j = skip_blank(s, i);
    if j < s.len() {
        lemma_entry_at(s, j);
        if let Ok((entry, n)) = entry_at(s, j) {
            lemma_entry_citekey(s, j);
            lemma_raw_citekeys(s, n);
            if let Ok(entries) = entries_at(s, i) {
                let rest = entries_at(s, n)->Ok_0;
                assert forall|k: int| 0 <= k < entries.len() implies is_citekey(
                    #[trigger] entries[k].citekey,
                ) by {
                    if k > 0 {
                        assert(entries[k] == rest[k - 1]);
                    }
                }
            }
        }
    }
}

/// The citekey of an entry that was read is one or more identifier
/// characters.
pub proof fn lemma_entry_citekey(s: Seq<char>, i: int)
    requires
        0 <= i <= s.len(),
    ensures
        entry_at(s, i) matches Ok((entry, n)) ==> is_citekey(entry.citekey),
{
    lemma_expect_char(s, i, '@');
    if let Ok(a) = expect_char(s, i, '@') {
        lemma_word_at(s, a);
        let (k0, k1) = word_at(s, a);
        lemma_expect_char(s, k1, '{');
        if let Ok(b) = expect_char(s, k1, '{') {
            lemma_word_at(s, b);
            let (c0, c1) = word_at(s, b);
            lemma_run_end(s, c0, s.len() as int, CharClass::Word);
        }
    }
}

/// The state in which a scan for blank text ends that starts at `i` in the
/// given state and reads all of `w`: inside a comment or not. There is none
/// where `w` holds anything but blank text.
pub open spec fn blank_end(w: Seq<char>, i: int, comment: bool) -> Option<bool>
    decreases w.len() - i,
{
    if i >= w.len() {
        Some(comment)
    } else if comment {
        blank_end(w, i + 1, w[i] != '\n')
    } else if w[i] == '%' {
        blank_end(w, i + 1, true)
    } else if is_space(w[i]) {
        blank_end(w, i + 1, false)
    } else {
        None
    }
}

/// Whether a text is blank: whitespace and whole comments and nothing else.
/// A comment is whole when its line feed is part of the text.
pub open spec fn is_blank(w: Seq<char>) -> bool {
    blank_end(w, 0, false) == Some(false)
}

/// Whether `w` stands in `s` at position `i`.
pub open spec fn stands_at(s: Seq<char>, i: int, w: Seq<char>) -> bool {
    0 <= i && i + w.len() <= s.len() && s.subrange(i, i + w.len()) == w
}

/// A comment line, from its `%` to its line feed, is blank text.
pub proof fn lemma_comment_line(text: Seq<char>)
    requires
        forall|k: int| 0 <= k < text.len() ==> text[k] != '\n',
    ensures
        is_blank(seq!['%'] + text + seq!['\n']),
{
    let w = seq!['%'] + text + seq!['\n'];
    lemma_comment_tail(w, 1);
}

/// From inside a comment that runs to the last character of `w`, a line
/// feed, the scan ends outside the comment.
proof fn lemma_comment_tail(w: Seq<char>, i: int)
    requires
        1 <= i < w.len(),
        w[w.len() - 1] == '\n',
        forall|k: int| 1 <= k < w.len() - 1 ==> w[k] != '\n',
    ensures
        blank_end(w, i, true) == Some(false),
    decreases w.len() - i,
{
    if i < w.len() - 1 {
        lemma_comment_tail(w, i + 1);
    } else {
        assert(blank_end(w, i + 1, false) == Some(false));
    }
}

/// Blank text is passed over: a scan that meets blank text goes on behind it
/// as if it had started there.
pub proof fn lemma_blank_passed(s: Seq<char>, i: int, w: Seq<char>, k: int, comment: bool)
    requires
        stands_at(s, i, w),
        0 <= k <= w.len(),
        blank_end(w, k, comment) == Some(false),
    ensures
        skip_blank_in(s, i + k, comment) == skip_blank(s, i + w.len()),
    decreases w.len() - k,
{
    if k < w.len() {
        assert(s[i + k] == s.subrange(i, i + w.len())[k]);
        if comment {
            lemma_blank_passed(s, i, w, k + 1, w[k] != '\n');
        } else if w[k] == '%' {
            lemma_blank_passed(s, i, w, k + 1, true);
        } else {
            lemma_blank_passed(s, i, w, k + 1, false);
        }
    }
}

/// Blank text starts with whitespace or `%`.
pub proof fn lemma_blank_start(w: Seq<char>)
    requires
        is_blank(w),
        w.len() > 0,
    ensures
        is_space(w[0]) || w[0] == '%',
{
}

/// The entry written as `@`, a kind, `{`, a citekey, `,` and `}`, with blank
/// text before, between and after them.
pub open spec fn bare_entry(kind: Seq<char>, citekey: Seq<char>, w: Seq<Seq<char>>) -> Seq<char> {
    w[0] + seq!['@'] + w[1] + kind + w[2] + seq!['{'] + w[3] + citekey + w[4] + seq![','] + w[5]
        + seq!['}'] + w[6]
}

/// Whether `s` is laid out as an entry without fields: the tokens and the
/// blank texts stand one behind the other and fill `s`.
spec fn laid_out(s: Seq<char>, kind: Seq<char>, citekey: Seq<char>, w: Seq<Seq<char>>) -> bool {
    let at = w[0].len() as int;
    let k0 = at + 1 + w[1].len();
    let k1 = k0 + kind.len();
    let brace = k1 + w[2].len();
    let c0 = brace + 1 + w[3].len();
    let c1 = c0 + citekey.len();
    let comma = c1 + w[4].len();
    let shut = comma + 1 + w[5].len();
    &&& s.len() == shut + 1 + w[6].len()
    &&& stands_at(s, 0, w[0])
    &&& s[at] == '@'
    &&& stands_at(s, at + 1, w[1])
    &&& stands_at(s, k0, kind)
    &&& stands_at(s, k1, w[2])
    &&& s[brace] == '{'
    &&& stands_at(s, brace + 1, w[3])
    &&& stands_at(s, c0, citekey)
    &&& stands_at(s, c1, w[4])
    &&& s[comma] == ','
    &&& stands_at(s, comma + 1, w[5])
    &&& s[shut] == '}'
    &&& stands_at(s, shut + 1, w[6])
}

/// The text of a bare entry is laid out as one.
proof fn lemma_bare_entry_layout(kind: Seq<char>, citekey: Seq<char>, w: Seq<Seq<char>>)
    requires
        w.len() == 7,
    ensures
        laid_out(bare_entry(kind, citekey, w), kind, citekey, w),
{
    let s = bare_entry(kind, citekey, w);
    let at = w[0].len() as int;
    let k0 = at + 1 + w[1].len();
    let k1 = k0 + kind.len();
    let brace = k1 + w[2].len();
    let c0 = brace + 1 + w[3].len();
    let c1 = c0 + citekey.len();
    let comma = c1 + w[4].len();
    let shut = comma + 1 + w[5].len();
    assert(s.subrange(0, at) =~= w[0]);
    assert(s.subrange(at + 1, k0) =~= w[1]);
    assert(s.subrange(k0, k1) =~= kind);
    assert(s.subrange(k1, brace) =~= w[2]);
    assert(s.subrange(brace + 1, c0) =~= w[3]);
    assert(s.subrange(c0, c1) =~= citekey);
    assert(s.subrange(c1, comma) =~= w[4]);
    assert(s.subrange(comma + 1, shut) =~= w[5]);
    assert(s.subrange(shut + 1, s.len() as int) =~= w[6]);
}

/// A token behind blank text is read, and the reading ends behind it.
proof fn lemma_token_behind_blank(s: Seq<char>, i: int, w: Seq<char>, c: char)
    requires
        stands_at(s, i, w),
        is_blank(w),
        i + w.len() < s.len(),
        s[i + w.len()] == c,
        !is_space(c) && c != '%',
    ensures
        skip_blank(s, i) == i + w.len(),
        expect_char(s, i, c) == Ok::<int, ErrorView>(i + w.len() + 1),
{
    lemma_blank_passed(s, i, w, 0, false);
}

/// An identifier behind blank text is read whole.
proof fn lemma_word_behind_blank(s: Seq<char>, i: int, w: Seq<char>, x: Seq<char>)
    requires
        stands_at(s, i, w),
        is_blank(w),
        stands_at(s, i + w.len(), x),
        x.len() > 0,
        forall|k: int| 0 <= k < x.len() ==> is_word_char(#[trigger] x[k]),
        i + w.len() + x.len() < s.len(),
        !is_word_char(s[i + w.len() + x.len()]),
    ensures
        word_at(s, i) == (i + w.len(), i + w.len() + x.len()),
{
    let a = i + w.len();
    let b = a + x.len();
    lemma_blank_passed(s, i, w, 0, false);
    assert(s[a] == s.subrange(a, b)[0]);
    assert(skip_blank(s, a) == a);
    assert forall|m: int| a <= m < b implies CharClass::Word.has(#[trigger] s[m]) by {
        assert(s[m] == s.subrange(a, b)[m - a]);
    }
    lemma_run_end_is(s, a, s.len() as int, CharClass::Word, b);
}

/// The character behind a text that is followed by blank text and a token
/// is no identifier character.
proof fn lemma_behind_word(s: Seq<char>, i: int, w: Seq<char>, c: char)
    requires
        stands_at(s, i, w),
        is_blank(w),
        i + w.len() < s.len(),
        s[i + w.len()] == c,
        !is_word_char(c),
    ensures
        !is_word_char(s[i]),
{
    if w.len() > 0 {
        lemma_blank_start(w);
        assert(s[i] == s.subrange(i, i + w.len())[0]);
    }
}

/// The length of a bare entry up to and with its comma.
spec fn head_len(kind: Seq<char>, citekey: Seq<char>, w: Seq<Seq<char>>) -> int {
    (w[0].len() + w[1].len() + kind.len() + w[2].len() + w[3].len() + citekey.len() + w[4].len()
        + 3) as int
}

/// The head of a bare entry is read: the kind, the citekey, and the place
/// behind the comma.
proof fn lemma_bare_entry_head(s: Seq<char>, kind: Seq<char>, citekey: Seq<char>, w: Seq<Seq<char>>)
    requires
        forall|k: int| 0 <= k < kind.len() ==> is_word_char(#[trigger] kind[k]),
        is_citekey(citekey),
        w.len() == 7,
        forall|k: int| 0 <= k < 7 ==> is_blank(#[trigger] w[k]),
        laid_out(s, kind, citekey, w),
    ensures
        ({
            let d = head_len(kind, citekey, w);
            entry_at(s, 0) == match fields_at(s, d) {
                Err(e) => Err::<(RawEntryView, int), ErrorView>(e),
                Ok((fields, end)) => Ok(
                    (RawEntryView { kind: kind_of(kind), citekey, fields }, end + 1),
                ),
            }
        }),
{
    let at = w[0].len() as int;
    let a = at + 1;
    let k0 = a + w[1].len();
    let k1 = k0 + kind.len();
    let brace = k1 + w[2].len();
    let b = brace + 1;
    let c0 = b + w[3].len();
    let c1 = c0 + citekey.len();
    let comma = c1 + w[4].len();
    assert(is_blank(w[0]) && is_blank(w[1]) && is_blank(w[2]) && is_blank(w[3]) && is_blank(
        w[4],
    ));
    lemma_token_behind_blank(s, 0, w[0], '@');
    lemma_token_behind_blank(s, k1, w[2], '{');
    if kind.len() > 0 {
        lemma_behind_word(s, k1, w[2], '{');
        lemma_word_behind_blank(s, a, w[1], kind);
    } else {
        lemma_blank_passed(s, a, w[1], 0, false);
        lemma_run_end_is(s, brace, s.len() as int, CharClass::Word, brace);
        assert(word_at(s, a) == (brace, brace));
        assert(s.subrange(brace, brace) =~= kind);
        assert(skip_blank(s, brace) == brace);
    }
    let (x0, x1) = word_at(s, a);
    assert(s.subrange(x0, x1) == kind);
    assert(expect_char(s, x1, '{') == Ok::<int, ErrorView>(b));
    lemma_token_behind_blank(s, c1, w[4], ',');
    lemma_behind_word(s, c1, w[4], ',');
    lemma_word_behind_blank(s, b, w[3], citekey);
    assert(word_at(s, b) == (c0, c1));
    assert(expect_char(s, c1, ',') == Ok::<int, ErrorView>(comma + 1));
}

/// An entry without fields is read as it is written. For every kind and
/// citekey made of identifier characters, the citekey not empty, and for
/// every choice of blank text between the tokens, the text of the entry
/// parses to exactly one entry, of that kind and that citekey and without
/// fields.
pub proof fn law_entry_without_fields(kind: Seq<char>, citekey: Seq<char>, w: Seq<Seq<char>>)
    requires
        forall|k: int| 0 <= k < kind.len() ==> is_word_char(#[trigger] kind[k]),
        is_citekey(citekey),
        w.len() == 7,
        forall|k: int| 0 <= k < 7 ==> is_blank(#[trigger] w[k]),
    ensures
        document_at(bare_entry(kind, citekey, w), 0) == Ok::<Seq<RawEntryView>, ErrorView>(
            seq![RawEntryView { kind: kind_of(kind), citekey, fields: Seq::empty() }],
        ),
        bibliography(bare_entry(kind, citekey, w)) == Ok::<Seq<EntryView>, ErrorView>(
            seq![EntryView { kind: kind_of(kind), citekey, fields: Seq::empty() }],
        ),
{
    let s = bare_entry(kind, citekey, w);
    lemma_bare_entry_layout(kind, citekey, w);
    lemma_bare_entry_head(s, kind, citekey, w);
    let at = w[0].len() as int;
    let d = head_len(kind, citekey, w);
    let shut = d + w[5].len();
    let e = shut + 1;
    assert(is_blank(w[0]) && is_blank(w[5]) && is_blank(w[6]));

    lemma_token_behind_blank(s, d, w[5], '}');
    assert(fields_at(s, d) == Ok::<(Seq<(Seq<char>, Seq<char>)>, int), ErrorView>(
        (Seq::empty(), shut),
    ));
    let entry = RawEntryView { kind: kind_of(kind), citekey, fields: Seq::empty() };
    assert(entry_at(s, 0) == Ok::<(RawEntryView, int), ErrorView>((entry, e)));

    lemma_blank_passed(s, e, w[6], 0, false);
    assert(skip_blank(s, s.len() as int) == s.len());
    assert(entries_at(s, e) == Ok::<Seq<RawEntryView>, ErrorView>(Seq::empty()));
    lemma_token_behind_blank(s, 0, w[0], '@');
    assert(entry_at(s, at) == entry_at(s, 0)) by {
        assert(skip_blank(s, at) == at);
    }
    assert(seq![entry] + Seq::<RawEntryView>::empty() =~= seq![entry]);
    assert(entries_at(s, 0) == Ok::<Seq<RawEntryView>, ErrorView>(seq![entry]));

    let typed = EntryView { kind: kind_of(kind), citekey, fields: Seq::empty() };
    assert(typed_fields(entry.fields, 0) == Ok::<Seq<FieldView>, ErrorView>(Seq::empty()));
    assert(typed_entry(entry) == Ok::<EntryView, ErrorView>(typed));
    assert(typed_entries(seq![entry], 1) == Ok::<Seq<EntryView>, ErrorView>(Seq::empty()));
    assert(seq![typed] + Seq::<EntryView>::empty() =~= seq![typed]);
    assert(typed_entries(seq![entry], 0) == Ok::<Seq<EntryView>, ErrorView>(seq![typed]));
}

} // verus!
