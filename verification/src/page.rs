//! A parsed page as plain values: its elements in document order, each with
//! its tag name, its attributes, the text below it and the number of elements
//! it spans. Queries by tag, by class and for the parent work on that list.
//!
//! The library does not parse HTML. Whoever does hands over the elements of
//! the document as a `Page`, and may ask `Page::is_well_nested` whether the
//! extents are those of a tree.

use crate::text::{list_contains, list_has, optional_text, text_equals};
use vstd::prelude::*;

verus! {

/// One attribute of an element.
#[derive(Debug, Clone, PartialEq, Eq)]
pub struct Attribute {
    pub name: String,
    pub value: String,
}

/// An attribute as its two texts.
pub struct AttributeView {
    pub name: Seq<char>,
    pub value: Seq<char>,
}

impl View for Attribute {
    type V = AttributeView;

    open spec fn view(&self) -> AttributeView {
        AttributeView { name: self.name@, value: self.value@ }
    }
}

/// One element of a page.
///
/// `text` is the text of the element and of everything below it. `extent` is
/// the number of elements that the element spans in the page's list: itself
/// and all elements below it, which follow it directly.
#[derive(Debug, Clone, PartialEq, Eq)]
pub struct Element {
    pub name: String,
    pub attributes: Vec<Attribute>,
    pub text: String,
    pub extent: usize,
}

/// An element as texts and numbers.
pub struct ElementView {
    pub name: Seq<char>,
    pub attributes: Seq<AttributeView>,
    pub text: Seq<char>,
    pub extent: nat,
}

impl View for Element {
    type V = ElementView;

    open spec fn view(&self) -> ElementView {
        ElementView {
            name: self.name@,
            attributes: self.attributes@.map_values(|a: Attribute| a@),
            text: self.text@,
            extent: self.extent as nat,
        }
    }
}

/// What a query looks for: a tag name, or a class among those that the
/// element's `class` attribute lists.
#[derive(Debug, Clone, Copy, PartialEq, Eq)]
pub enum Selector<'a> {
    Tag(&'a str),
    Class(&'a str),
}

/// A selector as text.
pub enum SelectorView {
    Tag(Seq<char>),
    Class(Seq<char>),
}

impl<'a> View for Selector<'a> {
    type V = SelectorView;

    open spec fn view(&self) -> SelectorView {
        match *self {
            Selector::Tag(name) => SelectorView::Tag(name@),
            Selector::Class(class) => SelectorView::Class(class@),
        }
    }
}

/// The elements of a page in document order: each element stands before the
/// elements below it, and those before its next sibling.
#[derive(Debug, Clone, PartialEq, Eq)]
pub struct Page {
    pub elements: Vec<Element>,
}

impl View for Page {
    type V = Seq<ElementView>;

    open spec fn view(&self) -> Seq<ElementView> {
        self.elements@.map_values(|e: Element| e@)
    }
}

/// The value of the first attribute called `name`, if there is one.
pub open spec fn attribute_value(attributes: Seq<AttributeView>, name: Seq<char>) -> Option<
    Seq<char>,
>
    decreases attributes.len(),
{
    if attributes.len() == 0 {
        None
    } else if attributes.first().name == name {
        Some(attributes.first().value)
    } else {
        attribute_value(attributes.drop_first(), name)
    }
}

/// Whether a `class` attribute of the element lists `class`.
pub open spec fn has_class(element: ElementView, class: Seq<char>) -> bool {
    exists|k: int|
        0 <= k < element.attributes.len() && (#[trigger] element.attributes[k]).name == "class"@
            && list_has(element.attributes[k].value, class)
}

/// Whether the element is one that the selector looks for.
pub open spec fn selects(selector: SelectorView, element: ElementView) -> bool {
    match selector {
        SelectorView::Tag(name) => element.name == name,
        SelectorView::Class(class) => has_class(element, class),
    }
}

/// The index behind the last element that element `i` spans: `i` plus its
/// extent, but at least `i + 1`, since an element spans itself, and at most
/// the end of the page; the end of the page where there is no element `i`.
pub open spec fn reach(page: Seq<ElementView>, i: int) -> int {
    if 0 <= i < page.len() {
        if page[i].extent == 0 {
            i + 1
        } else if i + page[i].extent <= page.len() {
            i + page[i].extent
        } else {
            page.len() as int
        }
    } else {
        page.len() as int
    }
}

/// Whether the list is that of a tree's elements in document order: every
/// element spans itself and elements of the page only, and an element that
/// another spans spans nothing beyond what the other spans.
pub open spec fn well_nested(page: Seq<ElementView>) -> bool {
    &&& forall|i: int|
        0 <= i < page.len() ==> 1 <= (#[trigger] page[i]).extent && i + page[i].extent
            <= page.len()
    &&& forall|i: int, j: int|
        0 <= i < j < page.len() && j < i + (#[trigger] page[i]).extent ==> j + (
        #[trigger] page[j]).extent <= i + page[i].extent
}

/// The first index in `from..to` whose element the selector looks for.
pub open spec fn first_selected(
    page: Seq<ElementView>,
    selector: SelectorView,
    from: int,
    to: int,
) -> Option<int>
    decreases to - from,
{
    if from >= to {
        None
    } else if selects(selector, page[from]) {
        Some(from)
    } else {
        first_selected(page, selector, from + 1, to)
    }
}

/// The first element that the selector looks for among element `root` and
/// the elements below it.
pub open spec fn first_within(page: Seq<ElementView>, selector: SelectorView, root: int) -> Option<
    int,
> {
    if 0 <= root < page.len() {
        first_selected(page, selector, root, reach(page, root))
    } else {
        None
    }
}

/// The indices below `upto` whose elements the selector looks for, ascending.
pub open spec fn selected_below(page: Seq<ElementView>, selector: SelectorView, upto: int) -> Seq<
    int,
>
    decreases upto,
{
    if upto <= 0 {
        Seq::empty()
    } else if selects(selector, page[upto - 1]) {
        selected_below(page, selector, upto - 1).push(upto - 1)
    } else {
        selected_below(page, selector, upto - 1)
    }
}

/// The indices of all elements that the selector looks for, in document
/// order.
pub open spec fn all_selected(page: Seq<ElementView>, selector: SelectorView) -> Seq<int> {
    selected_below(page, selector, page.len() as int)
}

/// The nearest index below `below` whose element spans element `i`.
pub open spec fn spanning_below(page: Seq<ElementView>, i: int, below: int) -> Option<int>
    decreases below,
{
    if below <= 0 {
        None
    } else if below - 1 + page[below - 1].extent > i {
        Some(below - 1)
    } else {
        spanning_below(page, i, below - 1)
    }
}

/// The parent of element `i`: the nearest element before it that spans it.
pub open spec fn parent_of(page: Seq<ElementView>, i: int) -> Option<int> {
    if 0 <= i < page.len() {
        spanning_below(page, i, i)
    } else {
        None
    }
}

/// The first attribute called `name` gives the value: no attribute before
/// it has that name, and there is no value only where no attribute has it.
pub proof fn lemma_attribute_value(attributes: Seq<AttributeView>, name: Seq<char>)
    ensures
        match attribute_value(attributes, name) {
            Some(value) => exists|k: int|
                0 <= k < attributes.len() && (#[trigger] attributes[k]).name == name
                    && attributes[k].value == value && forall|j: int|
                    0 <= j < k ==> (#[trigger] attributes[j]).name != name,
            None => forall|j: int|
                0 <= j < attributes.len() ==> (#[trigger] attributes[j]).name != name,
        },
    decreases attributes.len(),
{
    if attributes.len() > 0 && attributes.first().name != name {
        let rest = attributes.drop_first();
        lemma_attribute_value(rest, name);
        match attribute_value(rest, name) {
            Some(value) => {
                let k = choose|k: int|
                    0 <= k < rest.len() && (#[trigger] rest[k]).name == name && rest[k].value
                        == value && forall|j: int| 0 <= j < k ==> (#[trigger] rest[j]).name != name;
                assert(attributes[k + 1] == rest[k]);
                assert forall|j: int| 0 <= j < k + 1 implies (#[trigger] attributes[j]).name
                    != name by {
                    if j > 0 {
                        assert(attributes[j] == rest[j - 1]);
                    }
                }
            },
            None => {
                assert forall|j: int| 0 <= j < attributes.len() implies (#[trigger] attributes[j]).name
                    != name by {
                    if j > 0 {
                        assert(attributes[j] == rest[j - 1]);
                    }
                }
            },
        }
    } else if attributes.len() > 0 {
        assert(attributes[0].name == name);
    }
}

/// `first_selected` gives the least index in `from..to` whose element the
/// selector looks for, and none only where there is no such index.
pub proof fn lemma_first_selected(
    page: Seq<ElementView>,
    selector: SelectorView,
    from: int,
    to: int,
)
    ensures
        match first_selected(page, selector, from, to) {
            Some(j) => from <= j < to && selects(selector, page[j]) && forall|i: int|
                from <= i < j ==> !selects(selector, #[trigger] page[i]),
            None => forall|i: int| from <= i < to ==> !selects(selector, #[trigger] page[i]),
        },
    decreases to - from,
{
    if from < to && !selects(selector, page[from]) {
        lemma_first_selected(page, selector, from + 1, to);
    }
}

/// The parent is the last element before element `i` that spans it: no
/// element between the two spans `i`, and there is no parent only where no
/// element before `i` spans it.
pub proof fn lemma_parent_of(page: Seq<ElementView>, i: int)
    requires
        0 <= i < page.len(),
    ensures
        match parent_of(page, i) {
            Some(p) => 0 <= p < i && p + page[p].extent > i && forall|q: int|
                p < q < i ==> q + (#[trigger] page[q]).extent <= i,
            None => forall|q: int| 0 <= q < i ==> q + (#[trigger] page[q]).extent <= i,
        },
{
    lemma_spanning_below(page, i, i);
}

/// `spanning_below` gives the greatest index below `below` whose element
/// spans element `i`.
pub proof fn lemma_spanning_below(page: Seq<ElementView>, i: int, below: int)
    ensures
        match spanning_below(page, i, below) {
            Some(p) => 0 <= p < below && p + page[p].extent > i && forall|q: int|
                p < q < below ==> q + (#[trigger] page[q]).extent <= i,
            None => forall|q: int| 0 <= q < below ==> q + (#[trigger] page[q]).extent <= i,
        },
    decreases below,
{
    if below > 0 && below - 1 + page[below - 1].extent <= i {
        lemma_spanning_below(page, i, below - 1);
    }
}

/// The indices below `upto` that the selector looks for, as a set.
pub open spec fn selected_set(page: Seq<ElementView>, selector: SelectorView, upto: int) -> Set<
    int,
> {
    Set::new(|i: int| 0 <= i < upto && selects(selector, page[i]))
}

/// `selected_below` lists exactly the indices below `upto` whose elements
/// the selector looks for, each once, in ascending order; so it is as long
/// as there are such elements.
pub proof fn lemma_selected_below(page: Seq<ElementView>, selector: SelectorView, upto: int)
    requires
        0 <= upto <= page.len(),
    ensures
        forall|k: int|
            0 <= k < selected_below(page, selector, upto).len() ==> {
                let i = #[trigger] selected_below(page, selector, upto)[k];
                0 <= i < upto && selects(selector, page[i])
            },
        forall|k: int, m: int|
            0 <= k < m < selected_below(page, selector, upto).len() ==> selected_below(
                page,
                selector,
                upto,
            )[k] < selected_below(page, selector, upto)[m],
        forall|i: int|
            0 <= i < upto && selects(selector, #[trigger] page[i]) ==> selected_below(
                page,
                selector,
                upto,
            ).contains(i),
        selected_set(page, selector, upto).finite(),
        selected_set(page, selector, upto).len() == selected_below(page, selector, upto).len(),
    decreases upto,
{
    let found = selected_below(page, selector, upto);
    if upto == 0 {
        assert(selected_set(page, selector, upto) =~= Set::<int>::empty());
    } else {
        let before = selected_below(page, selector, upto - 1);
        lemma_selected_below(page, selector, upto - 1);
        if selects(selector, page[upto - 1]) {
            assert(found == before.push(upto - 1));
            assert(found[before.len() as int] == upto - 1);
            assert forall|i: int|
                0 <= i < upto && selects(selector, #[trigger] page[i]) implies found.contains(
                i,
            ) by {
                if i < upto - 1 {
                    let k = choose|k: int| 0 <= k < before.len() && before[k] == i;
                    assert(found[k] == i);
                }
            }
            assert(selected_set(page, selector, upto) =~= selected_set(
                page,
                selector,
                upto - 1,
            ).insert(upto - 1));
        } else {
            assert(selected_set(page, selector, upto) =~= selected_set(page, selector, upto - 1));
        }
    }
}

/// In a well nested page the parent spans all that the element spans, and
/// every other element that spans the element stands before the parent and
/// spans the parent too.
pub proof fn lemma_parent_in_tree(page: Seq<ElementView>, i: int)
    requires
        well_nested(page),
        0 <= i < page.len(),
    ensures
        match parent_of(page, i) {
            Some(p) => {
                &&& 0 <= p < i < reach(page, p)
                &&& reach(page, i) <= reach(page, p)
                &&& forall|q: int|
                    0 <= q < i && q != p && q + (#[trigger] page[q]).extent > i ==> q < p && p
                        < q + page[q].extent
            },
            None => forall|q: int| 0 <= q < i ==> q + (#[trigger] page[q]).extent <= i,
        },
{
    lemma_parent_of(page, i);
}

impl Element {
    /// The value of the first attribute called `name`, if there is one.
    pub fn attribute(&self, name: &str) -> (value: Option<&String>)
        ensures
            optional_text(value) == attribute_value(self@.attributes, name@),
            value is None ==> forall|j: int|
                0 <= j < self@.attributes.len() ==> (#[trigger] self@.attributes[j]).name != name@,
    {
        let ghost all = self@.attributes;
        let mut k: usize = 0;
        proof {
            lemma_attribute_value(all, name@);
            assert(all.skip(0) =~= all);
        }
        while k < self.attributes.len()
            invariant
                k <= self.attributes.len(),
                all == self@.attributes,
                attribute_value(all, name@) == attribute_value(all.skip(k as int), name@),
            decreases self.attributes.len() - k,
        {
            proof {
                assert(all.skip(k as int).first() == self.attributes@[k as int]@);
                assert(all.skip(k as int).drop_first() =~= all.skip(k + 1));
            }
            if text_equals(self.attributes[k].name.as_str(), name) {
                return Some(&self.attributes[k].value);
            }
            k += 1;
        }
        assert(all.skip(k as int).len() == 0);
        None
    }

    /// Whether a `class` attribute of the element lists `class`.
    pub fn has_class(&self, class: &str) -> (found: bool)
        ensures
            found == has_class(self@, class@),
    {
        let mut k: usize = 0;
        while k < self.attributes.len()
            invariant
                k <= self.attributes.len(),
                forall|j: int|
                    0 <= j < k ==> !((#[trigger] self@.attributes[j]).name == "class"@ && list_has(
                        self@.attributes[j].value,
                        class@,
                    )),
            decreases self.attributes.len() - k,
        {
            assert(self@.attributes[k as int] == self.attributes@[k as int]@);
            if text_equals(self.attributes[k].name.as_str(), "class") && list_contains(
                self.attributes[k].value.as_str(),
                class,
            ) {
                return true;
            }
            k += 1;
        }
        false
    }

    /// Whether the element is one that the selector looks for.
    pub fn is_selected(&self, selector: Selector<'_>) -> (found: bool)
        ensures
            found == selects(selector@, self@),
    {
        match selector {
            Selector::Tag(name) => text_equals(self.name.as_str(), name),
            Selector::Class(class) => self.has_class(class),
        }
    }
}

impl Page {
    /// Whether the extents are those of a tree's elements in document
    /// order.
    pub fn is_well_nested(&self) -> (answer: bool)
        ensures
            answer == well_nested(self@),
    {
        let n = self.elements.len();
        let mut i: usize = 0;
        while i < n
            invariant
                n == self@.len(),
                i <= n,
                forall|a: int|
                    0 <= a < i ==> 1 <= (#[trigger] self@[a]).extent && a + self@[a].extent <= n,
                forall|a: int, b: int|
                    0 <= a < i && a < b < n && b < a + (#[trigger] self@[a]).extent ==> b + (
                    #[trigger] self@[b]).extent <= a + self@[a].extent,
            decreases n - i,
        {
            assert(self@[i as int] == self.elements@[i as int]@);
            let extent = self.elements[i].extent;
            if extent < 1 || extent > n - i {
                return false;
            }
            let end = i + extent;
            let mut j: usize = i + 1;
            while j < end
                invariant
                    n == self@.len(),
                    i < j <= end <= n,
                    end == i + self@[i as int].extent,
                    forall|b: int| i < b < j ==> b + (#[trigger] self@[b]).extent <= end,
                decreases end - j,
            {
                assert(self@[j as int] == self.elements@[j as int]@);
                if self.elements[j].extent > end - j {
                    return false;
                }
                j += 1;
            }
            i += 1;
        }
        true
    }

    /// The number of elements.
    pub fn len(&self) -> (n: usize)
        ensures
            n == self@.len(),
    {
        self.elements.len()
    }

    /// The index behind the last element that element `i` spans.
    pub fn reach(&self, i: usize) -> (end: usize)
        ensures
            end == reach(self@, i as int),
            end <= self@.len(),
            i < self@.len() ==> i < end,
    {
        if i >= self.elements.len() {
            return self.elements.len();
        }
        assert(self@[i as int] == self.elements@[i as int]@);
        let extent = self.elements[i].extent;
        if extent == 0 {
            i + 1
        } else if extent <= self.elements.len() - i {
            i + extent
        } else {
            self.elements.len()
        }
    }

    /// The first element that the selector looks for among element `root` and
    /// the elements below it. Returns `None` where there is none, or no
    /// element `root`.
    pub fn first_within(&self, selector: Selector<'_>, root: usize) -> (found: Option<usize>)
        ensures
            found is Some == first_within(self@, selector@, root as int) is Some,
            found matches Some(j) ==> {
                &&& first_within(self@, selector@, root as int) == Some(j as int)
                &&& root <= j < reach(self@, root as int)
                &&& selects(selector@, self@[j as int])
                &&& forall|i: int| root <= i < j ==> !selects(selector@, #[trigger] self@[i])
            },
            found is None ==> forall|i: int|
                root <= i < reach(self@, root as int) ==> !selects(selector@, #[trigger] self@[i]),
    {
        if root >= self.elements.len() {
            return None;
        }
        let end = self.reach(root);
        let mut j: usize = root;
        while j < end
            invariant
                root <= j <= end <= self@.len(),
                end == reach(self@, root as int),
                first_selected(self@, selector@, root as int, end as int) == first_selected(
                    self@,
                    selector@,
                    j as int,
                    end as int,
                ),
            decreases end - j,
        {
            assert(self@[j as int] == self.elements@[j as int]@);
            if self.elements[j].is_selected(selector) {
                proof {
                    assert(first_selected(self@, selector@, j as int, end as int) == Some(j as int));
                    lemma_first_selected(self@, selector@, root as int, end as int);
                }
                return Some(j);
            }
            assert(first_selected(self@, selector@, j as int, end as int) == first_selected(
                self@,
                selector@,
                j + 1,
                end as int,
            ));
            j += 1;
        }
        proof {
            lemma_first_selected(self@, selector@, root as int, end as int);
        }
        None
    }

    /// The indices of all elements that the selector looks for, in document
    /// order: each such index once, and ascending.
    pub fn all(&self, selector: Selector<'_>) -> (found: Vec<usize>)
        ensures
            found@.map_values(|j: usize| j as int) == all_selected(self@, selector@),
            forall|k: int|
                0 <= k < found.len() ==> (#[trigger] found[k]) < self@.len() && selects(
                    selector@,
                    self@[found[k] as int],
                ),
            forall|k: int, m: int| 0 <= k < m < found.len() ==> found[k] < found[m],
            forall|i: int|
                0 <= i < self@.len() && selects(selector@, #[trigger] self@[i]) ==> exists|k: int|
                    0 <= k < found.len() && found[k] == i,
    {
        let mut found: Vec<usize> = Vec::new();
        let mut j: usize = 0;
        assert(found@.map_values(|j: usize| j as int) =~= Seq::<int>::empty());
        while j < self.elements.len()
            invariant
                j <= self@.len(),
                found@.map_values(|j: usize| j as int) == selected_below(
                    self@,
                    selector@,
                    j as int,
                ),
            decreases self.elements.len() - j,
        {
            assert(self@[j as int] == self.elements@[j as int]@);
            if self.elements[j].is_selected(selector) {
                let ghost before = found@;
                found.push(j);
                assert(found@.map_values(|j: usize| j as int) =~= before.map_values(
                    |j: usize| j as int,
                ).push(j as int));
            }
            j += 1;
        }
        proof {
            let listed = all_selected(self@, selector@);
            lemma_selected_below(self@, selector@, self@.len() as int);
            assert forall|k: int| 0 <= k < found.len() implies (#[trigger] found[k]) as int
                == listed[k] by {
                assert(found@.map_values(|j: usize| j as int)[k] == found@[k] as int);
            }
            assert forall|i: int|
                0 <= i < self@.len() && selects(selector@, #[trigger] self@[i]) implies exists|
                k: int,
            |
                0 <= k < found.len() && found[k] == i by {
                let k = choose|k: int| 0 <= k < listed.len() && listed[k] == i;
                assert(found[k] as int == listed[k]);
            }
        }
        found
    }

    /// The parent of element `i`: the last element before it that spans it.
    /// Returns `None` where there is none, or no element `i`.
    pub fn parent(&self, i: usize) -> (found: Option<usize>)
        ensures
            found is Some == parent_of(self@, i as int) is Some,
            found matches Some(p) ==> {
                &&& parent_of(self@, i as int) == Some(p as int)
                &&& p < i < self@.len()
                &&& p + self@[p as int].extent > i
                &&& forall|q: int| p < q < i ==> q + (#[trigger] self@[q]).extent <= i
            },
            found is None && i < self@.len() ==> forall|q: int|
                0 <= q < i ==> q + (#[trigger] self@[q]).extent <= i,
            well_nested(self@) ==> (found matches Some(p) ==> reach(self@, i as int) <= reach(
                self@,
                p as int,
            )),
    {
        if i >= self.elements.len() {
            return None;
        }
        proof {
            if well_nested(self@) {
                lemma_parent_in_tree(self@, i as int);
            }
        }
        let mut below: usize = i;
        while below > 0
            invariant
                below <= i < self@.len(),
                spanning_below(self@, i as int, i as int) == spanning_below(
                    self@,
                    i as int,
                    below as int,
                ),
            decreases below,
        {
            assert(self@[below - 1] == self.elements@[below - 1]@);
            if self.elements[below - 1].extent > i - (below - 1) {
                proof {
                    lemma_parent_of(self@, i as int);
                }
                return Some(below - 1);
            }
            below -= 1;
        }
        proof {
            lemma_parent_of(self@, i as int);
        }
        None
    }
}

} // verus!
