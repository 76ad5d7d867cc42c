//! From a page to its timetable: one time block for each grid entry, in
//! document order.

use crate::model::{lemma_missing_text, Subject, SubjectView, TimeBlock, TimeBlockView, MISSING};
use crate::page::{
    all_selected, attribute_value, first_within, has_class, lemma_selected_below, parent_of,
    selected_set, selects, ElementView, Page, Selector, SelectorView,
};
use crate::pattern::{Patterns, DAY_PATTERN, ROW_SPAN_PATTERN};
use crate::position::{
    day_index, group, lemma_day_table, lemma_row_span_decodes, position, position_of, search,
    UNKNOWN,
};
use crate::text::{
    is_short_number, lemma_trimmed, lemma_without, optional_text, remove_char, short_number, trim,
    trimmed, white_space, without,
};
use vstd::prelude::*;

verus! {

/// The class that marks an element as one scheduled class.
pub const ENTRY_CLASS: &'static str = "grid-entry";

/// The tag of the element that holds the subject's name.
pub const SUBJECT_TAG: &'static str = "a";

/// The class of the element that holds the kind of class.
pub const KIND_CLASS: &'static str = "entry-type";

/// The class of the element that holds the professor's name.
pub const PROFESSOR_CLASS: &'static str = "link-teacher";

/// The class of the element that holds the classroom's name.
pub const CLASSROOM_CLASS: &'static str = "link-classroom";

/// The attribute that holds an element's position declarations.
pub const STYLE: &'static str = "style";

/// The campus of every subject in this timetable.
pub const LOCATION: &'static str = "FRI";

/// The separator that the page writes before the kind of class.
pub const SEPARATOR: char = '|';

/// `text`, or `MISSING` where it is empty.
pub open spec fn or_missing(text: Seq<char>) -> Seq<char> {
    if text.len() == 0 {
        MISSING@
    } else {
        text
    }
}

/// The text of the first element that the selector looks for among element
/// `entry` and the elements below it, without the white space around it,
/// be it empty; `MISSING` where there is no such element.
pub open spec fn field_of(page: Seq<ElementView>, entry: int, selector: SelectorView) -> Seq<char> {
    match first_within(page, selector, entry) {
        Some(j) => trimmed(page[j].text),
        None => MISSING@,
    }
}

/// The name of the subject of entry `entry`: the text of its first link,
/// without the white space around it; `MISSING` where there is no link or
/// no text in it.
pub open spec fn subject_of(page: Seq<ElementView>, entry: int) -> Seq<char> {
    or_missing(field_of(page, entry, SelectorView::Tag(SUBJECT_TAG@)))
}

/// The kind of class of entry `entry`: the text of its first element of
/// class `KIND_CLASS`, without separators and without the white space
/// around the rest; `MISSING` where there is no such element or nothing is
/// left of its text.
pub open spec fn kind_of(page: Seq<ElementView>, entry: int) -> Seq<char> {
    match first_within(page, SelectorView::Class(KIND_CLASS@), entry) {
        Some(j) => or_missing(trimmed(without(page[j].text, SEPARATOR))),
        None => MISSING@,
    }
}

/// The `style` attribute of element `i`.
pub open spec fn style_of(page: Seq<ElementView>, i: int) -> Option<Seq<char>> {
    if 0 <= i < page.len() {
        attribute_value(page[i].attributes, STYLE@)
    } else {
        None
    }
}

/// The `style` attribute of the parent of element `i`.
pub open spec fn parent_style_of(page: Seq<ElementView>, i: int) -> Option<Seq<char>> {
    match parent_of(page, i) {
        Some(p) => style_of(page, p),
        None => None,
    }
}

/// The time block that entry `entry` of the page stands for.
pub open spec fn block_of(page: Seq<ElementView>, entry: int) -> TimeBlockView {
    let at = position_of(style_of(page, entry), parent_style_of(page, entry));
    let subject = subject_of(page, entry);
    TimeBlockView {
        day: at.day,
        time: at.time,
        duration: at.duration,
        professor: field_of(page, entry, SelectorView::Class(PROFESSOR_CLASS@)),
        classroom: field_of(page, entry, SelectorView::Class(CLASSROOM_CLASS@)),
        subject: SubjectView {
            name: subject,
            abbreviation: subject,
            location: LOCATION@,
            kind: kind_of(page, entry),
        },
    }
}

/// The entries of a page: the indices of the elements of class
/// `ENTRY_CLASS`, in document order.
pub open spec fn entries_of(page: Seq<ElementView>) -> Seq<int> {
    all_selected(page, SelectorView::Class(ENTRY_CLASS@))
}

/// The timetable of a page: the time block of each entry, in document
/// order.
pub open spec fn timetable_of(page: Seq<ElementView>) -> Seq<TimeBlockView> {
    entries_of(page).map_values(|entry: int| block_of(page, entry))
}

/// `text`, or `MISSING` where it is empty.
pub fn or_missing_text(text: String) -> (out: String)
    ensures
        out@ == or_missing(text@),
        out@.len() > 0,
{
    if text.as_str().is_empty() {
        proof {
            lemma_missing_text();
        }
        MISSING.to_string()
    } else {
        text
    }
}

/// The text of the first element that the selector looks for among element
/// `entry` and the elements below it, without the white space around it,
/// be it empty; `MISSING` where there is no such element.
pub fn field(page: &Page, entry: usize, selector: Selector<'_>) -> (out: String)
    ensures
        out@ == field_of(page@, entry as int, selector@),
        out@ == MISSING@ || out@.len() == 0 || (!white_space(out@.first()) && !white_space(
            out@.last(),
        )),
{
    proof {
        lemma_fields_are_trimmed(page@, entry as int, selector@);
    }
    match page.first_within(selector, entry) {
        Some(j) => {
            assert(page@[j as int] == page.elements@[j as int]@);
            trim(page.elements[j].text.as_str())
        },
        None => MISSING.to_string(),
    }
}

/// The name of the subject of entry `entry`: the text of its first link,
/// without the white space around it; `MISSING` where there is no link or
/// no text in it.
pub fn subject_name(page: &Page, entry: usize) -> (out: String)
    ensures
        out@ == subject_of(page@, entry as int),
        out@.len() > 0,
        out@ == MISSING@ || (!white_space(out@.first()) && !white_space(out@.last())),
{
    or_missing_text(field(page, entry, Selector::Tag(SUBJECT_TAG)))
}

/// The kind of class of entry `entry`: the text of its first element of
/// class `KIND_CLASS`, without separators and without the white space
/// around the rest; `MISSING` where there is no such element or nothing is
/// left of its text.
pub fn kind(page: &Page, entry: usize) -> (out: String)
    ensures
        out@ == kind_of(page@, entry as int),
        out@.len() > 0,
        !out@.contains(SEPARATOR),
        out@ == MISSING@ || (!white_space(out@.first()) && !white_space(out@.last())),
{
    proof {
        lemma_kind_has_no_separator(page@, entry as int);
        lemma_kind_is_trimmed(page@, entry as int);
    }
    match page.first_within(Selector::Class(KIND_CLASS), entry) {
        Some(j) => {
            assert(page@[j as int] == page.elements@[j as int]@);
            let bare = remove_char(page.elements[j].text.as_str(), SEPARATOR);
            or_missing_text(trim(bare.as_str()))
        },
        None => {
            proof {
                lemma_missing_text();
            }
            MISSING.to_string()
        },
    }
}

/// The `style` attribute of element `i`.
pub fn style(page: &Page, i: usize) -> (value: Option<&String>)
    ensures
        optional_text(value) == style_of(page@, i as int),
{
    if i < page.elements.len() {
        assert(page@[i as int] == page.elements@[i as int]@);
        page.elements[i].attribute(STYLE)
    } else {
        None
    }
}

/// The `style` attribute of the parent of element `i`.
pub fn parent_style(page: &Page, i: usize) -> (value: Option<&String>)
    ensures
        optional_text(value) == parent_style_of(page@, i as int),
{
    match page.parent(i) {
        Some(p) => style(page, p),
        None => None,
    }
}

/// The time block that entry `entry` of the page stands for.
pub fn block(patterns: &Patterns, page: &Page, entry: usize) -> (out: TimeBlock)
    ensures
        out@ == block_of(page@, entry as int),
        out@.well_formed(),
{
    let at = position(patterns, style(page, entry), parent_style(page, entry));
    let subject = subject_name(page, entry);
    proof {
        lemma_block_well_formed(page@, entry as int);
    }
    TimeBlock {
        day: at.day,
        time: at.time,
        duration: at.duration,
        professor: field(page, entry, Selector::Class(PROFESSOR_CLASS)),
        classroom: field(page, entry, Selector::Class(CLASSROOM_CLASS)),
        subject: Subject {
            name: subject.clone(),
            abbreviation: subject,
            location: LOCATION.to_string(),
            kind: kind(page, entry),
        },
    }
}

/// The timetable of a page: the time block of each entry, in document
/// order.
pub fn timetable(patterns: &Patterns, page: &Page) -> (blocks: Vec<TimeBlock>)
    ensures
        blocks@.map_values(|b: TimeBlock| b@) == timetable_of(page@),
        blocks.len() == entries_of(page@).len(),
        forall|k: int| 0 <= k < blocks.len() ==> (#[trigger] blocks[k])@.well_formed(),
{
    let entries = page.all(Selector::Class(ENTRY_CLASS));
    let ghost wanted = entries_of(page@);
    let mut blocks: Vec<TimeBlock> = Vec::new();
    let mut k: usize = 0;
    while k < entries.len()
        invariant
            k <= entries.len(),
            wanted == entries_of(page@),
            entries@.map_values(|j: usize| j as int) == wanted,
            blocks.len() == k,
            forall|n: int|
                0 <= n < k ==> (#[trigger] blocks[n])@ == block_of(page@, wanted[n]),
            forall|n: int| 0 <= n < k ==> (#[trigger] blocks[n])@.well_formed(),
        decreases entries.len() - k,
    {
        assert(wanted[k as int] == entries@[k as int] as int);
        let out = block(patterns, page, entries[k]);
        blocks.push(out);
        k += 1;
    }
    assert(blocks@.map_values(|b: TimeBlock| b@) =~= timetable_of(page@));
    blocks
}

/// Where the search of an entry's own style for row and span found two
/// numbers of one or two digits, the block starts at the row plus 6 and lasts
/// the span.
pub proof fn lemma_block_time(page: Seq<ElementView>, entry: int, row: Seq<char>, span: Seq<char>)
    requires
        group(search(ROW_SPAN_PATTERN@, style_of(page, entry)), 1) == Some(row),
        group(search(ROW_SPAN_PATTERN@, style_of(page, entry)), 2) == Some(span),
        is_short_number(row),
        is_short_number(span),
    ensures
        block_of(page, entry).time == 6 + short_number(row),
        block_of(page, entry).duration == short_number(span),
{
    lemma_row_span_decodes(search(ROW_SPAN_PATTERN@, style_of(page, entry)), row, span);
}

/// Where the entry has no style, or the search of it found no row and span,
/// the block's start hour and duration are `UNKNOWN`.
pub proof fn lemma_block_time_unknown(page: Seq<ElementView>, entry: int)
    requires
        search(ROW_SPAN_PATTERN@, style_of(page, entry)) is None,
    ensures
        block_of(page, entry).time == UNKNOWN,
        block_of(page, entry).duration == UNKNOWN,
{
}

/// Where the search of the parent's style found a day token, the block's day
/// is the token's place among `MON`, `TUE`, `WED`, `THU`, `FRI`, and
/// `UNKNOWN` for any other token.
pub proof fn lemma_block_day(page: Seq<ElementView>, entry: int, token: Seq<char>)
    requires
        group(search(DAY_PATTERN@, parent_style_of(page, entry)), 1) == Some(token),
    ensures
        block_of(page, entry).day == day_index(token),
        token == "MON"@ ==> block_of(page, entry).day == 0,
        token == "TUE"@ ==> block_of(page, entry).day == 1,
        token == "WED"@ ==> block_of(page, entry).day == 2,
        token == "THU"@ ==> block_of(page, entry).day == 3,
        token == "FRI"@ ==> block_of(page, entry).day == 4,
        token != "MON"@ && token != "TUE"@ && token != "WED"@ && token != "THU"@ && token
            != "FRI"@ ==> block_of(page, entry).day == UNKNOWN,
{
    lemma_day_table(token);
}

/// Where the entry has no parent, the parent has no style, or the search of
/// it found no day, the block's day is `UNKNOWN`.
pub proof fn lemma_block_day_unknown(page: Seq<ElementView>, entry: int)
    requires
        search(DAY_PATTERN@, parent_style_of(page, entry)) is None,
    ensures
        block_of(page, entry).day == UNKNOWN,
{
}

/// A field whose element the entry lacks is `MISSING`: the subject's name
/// and abbreviation without a link, the kind, the professor and the
/// classroom without an element of their class.
pub proof fn lemma_missing_fields(page: Seq<ElementView>, entry: int)
    ensures
        first_within(page, SelectorView::Tag(SUBJECT_TAG@), entry) is None ==> block_of(
            page,
            entry,
        ).subject.name == MISSING@ && block_of(page, entry).subject.abbreviation == MISSING@,
        first_within(page, SelectorView::Class(KIND_CLASS@), entry) is None ==> block_of(
            page,
            entry,
        ).subject.kind == MISSING@,
        first_within(page, SelectorView::Class(PROFESSOR_CLASS@), entry) is None ==> block_of(
            page,
            entry,
        ).professor == MISSING@,
        first_within(page, SelectorView::Class(CLASSROOM_CLASS@), entry) is None ==> block_of(
            page,
            entry,
        ).classroom == MISSING@,
{
}

/// A field whose element the entry has holds that element's text without
/// the white space around it: the professor and the classroom as it is, be
/// it empty; the subject's name and abbreviation where it is not empty, and
/// the kind, once the separators are taken out, where something is left.
pub proof fn lemma_present_fields(page: Seq<ElementView>, entry: int)
    ensures
        first_within(page, SelectorView::Class(PROFESSOR_CLASS@), entry) matches Some(j)
            ==> block_of(page, entry).professor == trimmed(page[j].text),
        first_within(page, SelectorView::Class(CLASSROOM_CLASS@), entry) matches Some(j)
            ==> block_of(page, entry).classroom == trimmed(page[j].text),
        first_within(page, SelectorView::Tag(SUBJECT_TAG@), entry) matches Some(j) ==> (trimmed(
            page[j].text,
        ).len() > 0 ==> block_of(page, entry).subject.name == trimmed(page[j].text) && block_of(
            page,
            entry,
        ).subject.abbreviation == trimmed(page[j].text)),
        first_within(page, SelectorView::Class(KIND_CLASS@), entry) matches Some(j) ==> (trimmed(
            without(page[j].text, SEPARATOR),
        ).len() > 0 ==> block_of(page, entry).subject.kind == trimmed(
            without(page[j].text, SEPARATOR),
        )),
{
}

/// The kind of class holds no separator.
pub proof fn lemma_kind_has_no_separator(page: Seq<ElementView>, entry: int)
    ensures
        !kind_of(page, entry).contains(SEPARATOR),
{
    lemma_missing_text();
    match first_within(page, SelectorView::Class(KIND_CLASS@), entry) {
        Some(j) => {
            let bare = without(page[j].text, SEPARATOR);
            lemma_without(page[j].text, SEPARATOR);
            let ends = lemma_trimmed(bare);
            assert forall|k: int| 0 <= k < trimmed(bare).len() implies trimmed(bare)[k]
                != SEPARATOR by {
                assert(trimmed(bare)[k] == bare[ends.0 + k]);
                assert(bare.contains(bare[ends.0 + k]));
            }
        },
        None => {},
    }
}

/// A text field of a block is `MISSING`, empty, or a text that neither
/// starts nor ends with white space.
pub proof fn lemma_fields_are_trimmed(page: Seq<ElementView>, entry: int, selector: SelectorView)
    ensures
        ({
            let text = field_of(page, entry, selector);
            text == MISSING@ || text.len() == 0 || (!white_space(text.first()) && !white_space(
                text.last(),
            ))
        }),
{
    match first_within(page, selector, entry) {
        Some(j) => {
            lemma_trimmed(page[j].text);
        },
        None => {},
    }
}

/// The kind of class is `MISSING`, or a text that neither starts nor ends
/// with white space.
pub proof fn lemma_kind_is_trimmed(page: Seq<ElementView>, entry: int)
    ensures
        ({
            let text = kind_of(page, entry);
            text == MISSING@ || (text.len() > 0 && !white_space(text.first()) && !white_space(
                text.last(),
            ))
        }),
{
    match first_within(page, SelectorView::Class(KIND_CLASS@), entry) {
        Some(j) => {
            lemma_trimmed(without(page[j].text, SEPARATOR));
        },
        None => {},
    }
}

/// Every block of a timetable is well formed, whatever the page holds.
pub proof fn lemma_block_well_formed(page: Seq<ElementView>, entry: int)
    ensures
        block_of(page, entry).well_formed(),
{
    lemma_missing_text();
    reveal_strlit("FRI");
    let at = position_of(style_of(page, entry), parent_style_of(page, entry));
    let day_groups = search(DAY_PATTERN@, parent_style_of(page, entry));
    match group(day_groups, 1) {
        Some(token) => {
            lemma_day_table(token);
        },
        None => {},
    }
}

/// A timetable has one block for each element of class `ENTRY_CLASS`, in
/// document order: it is as long as the page has such elements, and its
/// blocks are those of the entries taken in ascending order.
pub proof fn lemma_one_block_per_entry(page: Seq<ElementView>)
    ensures
        timetable_of(page).len() == entries_of(page).len(),
        selected_set(page, SelectorView::Class(ENTRY_CLASS@), page.len() as int).finite(),
        timetable_of(page).len() == selected_set(
            page,
            SelectorView::Class(ENTRY_CLASS@),
            page.len() as int,
        ).len(),
        forall|k: int|
            0 <= k < timetable_of(page).len() ==> #[trigger] timetable_of(page)[k] == block_of(
                page,
                entries_of(page)[k],
            ),
        forall|k: int|
            0 <= k < entries_of(page).len() ==> {
                let i = #[trigger] entries_of(page)[k];
                0 <= i < page.len() && has_class(page[i], ENTRY_CLASS@)
            },
        forall|k: int, m: int|
            0 <= k < m < entries_of(page).len() ==> entries_of(page)[k] < entries_of(page)[m],
        forall|i: int|
            0 <= i < page.len() && has_class(#[trigger] page[i], ENTRY_CLASS@) ==> entries_of(
                page,
            ).contains(i),
{
    let selector = SelectorView::Class(ENTRY_CLASS@);
    lemma_selected_below(page, selector, page.len() as int);
    assert forall|i: int|
        0 <= i < page.len() && has_class(#[trigger] page[i], ENTRY_CLASS@) implies entries_of(
        page,
    ).contains(i) by {
        assert(selects(selector, page[i]));
    }
}

/// The timetable depends on the page alone: two extractions from the same
/// page give the same blocks.
pub proof fn lemma_same_page_same_timetable(
    page: Seq<ElementView>,
    first: Seq<TimeBlockView>,
    second: Seq<TimeBlockView>,
)
    requires
        first == timetable_of(page),
        second == timetable_of(page),
    ensures
        first == second,
{
}

} // verus!
