//! The walk over a page of patch notes: headings set the context, and each
//! line of a list below them is classified in that context.

use crate::classify::{classified, normalize_line, normalized};
use crate::record::{PatchChange, PatchChangeView, SEPARATOR};
use crate::text::{text_equal, trim, trim_text};
use scraper::{ElementRef, Html, Selector};
use vstd::prelude::*;
use vstd::string::*;

verus! {

/// Selects the elements of a page that the walk goes through.
pub const CONTENT_SELECTOR: &'static str = ".mw-parser-output > *";

/// Selects, in a list, the elements that hold a label.
pub const LABEL_SELECTOR: &'static str = "b";

/// The name of an element that opens a section.
pub const SECTION_HEADING: &'static str = "h2";

/// The name of an element that opens a subsection.
pub const SUBSECTION_HEADING: &'static str = "h3";

/// The name of an element that lists changes.
pub const LIST: &'static str = "ul";

/// A section whose lists hold no changes to game mechanics.
pub const GENERAL: &'static str = "General";

/// Another section whose lists hold no changes to game mechanics.
pub const ADDITIONAL_CONTENT: &'static str = "Additional Content";

/// What the walk reads of one element of a page.
#[derive(Debug, PartialEq, Eq)]
pub struct PageElement {
    /// The element's name, such as `h2` or `ul`.
    pub name: String,
    /// The text nodes below the element, in the order of the document.
    pub texts: Vec<String>,
    /// For each label element below the element, the text nodes below it.
    pub labels: Vec<Vec<String>>,
}

/// The mathematical content of a `PageElement`.
pub struct PageElementView {
    pub name: Seq<char>,
    pub texts: Seq<Seq<char>>,
    pub labels: Seq<Seq<Seq<char>>>,
}

impl View for PageElement {
    type V = PageElementView;

    open spec fn view(&self) -> PageElementView {
        PageElementView {
            name: self.name@,
            texts: self.texts.deep_view(),
            labels: self.labels.deep_view(),
        }
    }
}

impl DeepView for PageElement {
    type V = PageElementView;

    open spec fn deep_view(&self) -> PageElementView {
        self@
    }
}

/// What `scraper` finds in the HTML document `body`: the elements that the
/// selector `elements` selects with `Html::select`, in the order in which it
/// gives them, and of each its name, its text nodes, and the text nodes of
/// each element below it that the selector `labels` selects. Nothing where
/// one of the two is no selector.
pub uninterp spec fn page_elements(body: Seq<char>, elements: Seq<char>, labels: Seq<char>)
    -> Option<Seq<PageElementView>>;

/// Parses `body` with `scraper::Html::parse_document` and both selectors with
/// `scraper::Selector::parse`, selects with `Html::select` and
/// `ElementRef::select`, and reads `Element::name` and `ElementRef::text`.
/// The contract claims only that the outcome is a function of the three
/// texts, and calls it `page_elements`.
#[verifier::external_body]
pub(crate) fn select_elements(body: &str, elements: &str, labels: &str) -> (found: Option<
    Vec<PageElement>,
>)
    ensures
        found.deep_view() == page_elements(body@, elements@, labels@),
{
    let elements = Selector::parse(elements).ok()?;
    let labels = Selector::parse(labels).ok()?;
    let document = Html::parse_document(body);
    let texts = |element: ElementRef| element.text().map(|text| text.to_string()).collect();
    let read = |element: ElementRef| PageElement {
        name: element.value().name().to_string(),
        texts: texts(element),
        labels: element.select(&labels).map(texts).collect(),
    };
    Some(document.select(&elements).map(read).collect())
}

/// Where the walk through a list stands.
pub struct ListWalk {
    /// How many labels have been met.
    pub met: int,
    /// The label under which the lines now stand; empty before the first.
    pub label: Seq<char>,
    /// The records of the lines read.
    pub records: Seq<PatchChangeView>,
}

/// The context of a line under `label` in a list at `context`.
pub open spec fn labelled_context(context: Seq<char>, label: Seq<char>) -> Seq<char> {
    if label.len() > 0 {
        context + SEPARATOR@ + label
    } else {
        context
    }
}

/// The text of a label: its first text node, as it stands.
pub open spec fn label_text(label: Seq<Seq<char>>) -> Option<Seq<char>> {
    if label.len() > 0 {
        Some(label[0])
    } else {
        None
    }
}

/// The walk after one more text node of a list.
///
/// Text that is white space only is passed over. Other text is normalized.
/// Where it is the text of the next label, it becomes the label of the lines
/// that follow; otherwise it is a line, and is classified under the label.
pub open spec fn list_step(
    walk: ListWalk,
    text: Seq<char>,
    labels: Seq<Seq<Seq<char>>>,
    context: Seq<char>,
    version: Seq<char>,
) -> ListWalk {
    let line = normalized(text);
    if trim(text).len() == 0 {
        walk
    } else if 0 <= walk.met < labels.len() && label_text(labels[walk.met]) == Some(line) {
        ListWalk { met: walk.met + 1, label: line, records: walk.records }
    } else {
        ListWalk {
            met: walk.met,
            label: walk.label,
            records: walk.records.push(
                classified(line, labelled_context(context, walk.label), version),
            ),
        }
    }
}

/// The walk through the text nodes of a list, from the first to the last.
pub open spec fn list_walk(
    texts: Seq<Seq<char>>,
    labels: Seq<Seq<Seq<char>>>,
    context: Seq<char>,
    version: Seq<char>,
) -> ListWalk
    decreases texts.len(),
{
    if texts.len() == 0 {
        ListWalk { met: 0, label: Seq::empty(), records: Seq::empty() }
    } else {
        list_step(
            list_walk(texts.drop_last(), labels, context, version),
            texts.last(),
            labels,
            context,
            version,
        )
    }
}

/// The records of the lines of a list.
pub open spec fn list_records(list: PageElementView, context: Seq<char>, version: Seq<char>) -> Seq<
    PatchChangeView,
> {
    list_walk(list.texts, list.labels, context, version).records
}

/// Where the walk through a page stands.
pub struct PageWalk {
    /// The heading of the section; empty before the first.
    pub section: Seq<char>,
    /// The heading of the subsection; empty before the first.
    pub subsection: Seq<char>,
    /// The records of the lists read.
    pub records: Seq<PatchChangeView>,
}

/// The text of a heading: its first text node, without the white space
/// around it.
pub open spec fn heading_text(heading: PageElementView) -> Seq<char> {
    if heading.texts.len() > 0 {
        trim(heading.texts[0])
    } else {
        Seq::empty()
    }
}

/// Whether the lists of a section are passed over.
pub open spec fn is_ignored(section: Seq<char>) -> bool {
    section == GENERAL@ || section == ADDITIONAL_CONTENT@
}

/// The context of the lists under a section and a subsection.
pub open spec fn list_context(section: Seq<char>, subsection: Seq<char>) -> Seq<char> {
    section + SEPARATOR@ + subsection
}

/// The walk after one more element of a page.
///
/// A heading replaces the section or the subsection. A list adds the records
/// of its lines, unless the section is one that is ignored. Any other
/// element is passed over.
pub open spec fn page_step(walk: PageWalk, element: PageElementView, version: Seq<char>)
    -> PageWalk {
    if element.name == SECTION_HEADING@ {
        PageWalk { section: heading_text(element), ..walk }
    } else if element.name == SUBSECTION_HEADING@ {
        PageWalk { subsection: heading_text(element), ..walk }
    } else if element.name == LIST@ && !is_ignored(walk.section) {
        PageWalk {
            records: walk.records + list_records(
                element,
                list_context(walk.section, walk.subsection),
                version,
            ),
            ..walk
        }
    } else {
        walk
    }
}

/// The walk through the elements of a page, from the first to the last.
pub open spec fn page_walk(elements: Seq<PageElementView>, version: Seq<char>) -> PageWalk
    decreases elements.len(),
{
    if elements.len() == 0 {
        PageWalk { section: Seq::empty(), subsection: Seq::empty(), records: Seq::empty() }
    } else {
        page_step(page_walk(elements.drop_last(), version), elements.last(), version)
    }
}

/// The records of a page.
pub open spec fn page_records(elements: Seq<PageElementView>, version: Seq<char>) -> Seq<
    PatchChangeView,
> {
    page_walk(elements, version).records
}

/// The records of a document: those of the elements that the content
/// selector finds in it.
pub open spec fn document_records(body: Seq<char>, version: Seq<char>) -> Seq<PatchChangeView> {
    match page_elements(body, CONTENT_SELECTOR@, LABEL_SELECTOR@) {
        Some(elements) => page_records(elements, version),
        None => Seq::empty(),
    }
}

/// The records of the lines of a list that stands at `tree_loc` in the notes
/// of `version`.
pub fn parse_ul_element(ul: &PageElement, tree_loc: String, version: &str) -> (records: Vec<
    PatchChange,
>)
    requires
        tree_loc@.len() > 0,
    ensures
        records.deep_view() == list_records(ul@, tree_loc@, version@),
{
    let mut records: Vec<PatchChange> = Vec::new();
    let mut met: usize = 0;
    let mut label: String = String::new();
    let mut i: usize = 0;
    assert(records.deep_view() =~= Seq::<PatchChangeView>::empty());
    while i < ul.texts.len()
        invariant
            tree_loc@.len() > 0,
            i <= ul.texts.len(),
            met <= ul.labels.len(),
            list_walk(ul@.texts.take(i as int), ul@.labels, tree_loc@, version@) == (ListWalk {
                met: met as int,
                label: label@,
                records: records.deep_view(),
            }),
        decreases ul.texts.len() - i,
    {
        let ghost before = records.deep_view();
        proof {
            assert(ul@.texts.take(i + 1).drop_last() =~= ul@.texts.take(i as int));
        }
        let text = &ul.texts[i];
        let trimmed = trim_text(text.as_str());
        if !trimmed.as_str().is_empty() {
            let line = normalize_line(text.as_str());
            let is_label = met < ul.labels.len() && ul.labels[met].len() > 0 && text_equal(
                ul.labels[met][0].as_str(),
                line.as_str(),
            );
            if is_label {
                label = line;
                met += 1;
            } else {
                let mut location = tree_loc.clone();
                if !label.as_str().is_empty() {
                    location.append(SEPARATOR);
                    location.append(label.as_str());
                }
                let record = PatchChange::classify_line(line.as_str(), location, version);
                records.push(record);
                assert(records.deep_view() =~= before.push(record@));
            }
        }
        i += 1;
    }
    assert(ul@.texts.take(ul.texts.len() as int) =~= ul@.texts);
    records
}

/// The text of a heading, as `heading_text` defines it.
fn heading_of(heading: &PageElement) -> (text: String)
    ensures
        text@ == heading_text(heading@),
{
    if heading.texts.len() > 0 {
        trim_text(heading.texts[0].as_str())
    } else {
        String::new()
    }
}

/// The records of the elements of a page of the notes of `version`.
pub fn parse_page_elements(elements: &Vec<PageElement>, version: &str) -> (records: Vec<
    PatchChange,
>)
    ensures
        records.deep_view() == page_records(elements.deep_view(), version@),
{
    let mut current_h2: String = String::new();
    let mut current_h3: String = String::new();
    let mut records: Vec<PatchChange> = Vec::new();
    let mut i: usize = 0;
    assert(records.deep_view() =~= Seq::<PatchChangeView>::empty());
    while i < elements.len()
        invariant
            i <= elements.len(),
            page_walk(elements.deep_view().take(i as int), version@) == (PageWalk {
                section: current_h2@,
                subsection: current_h3@,
                records: records.deep_view(),
            }),
        decreases elements.len() - i,
    {
        let ghost before = records.deep_view();
        proof {
            assert(elements.deep_view().take(i + 1).drop_last() =~= elements.deep_view().take(
                i as int,
            ));
        }
        let element = &elements[i];
        if text_equal(element.name.as_str(), SECTION_HEADING) {
            current_h2 = heading_of(element);
        } else if text_equal(element.name.as_str(), SUBSECTION_HEADING) {
            current_h3 = heading_of(element);
        } else if text_equal(element.name.as_str(), LIST) && !(text_equal(
            current_h2.as_str(),
            GENERAL,
        ) || text_equal(current_h2.as_str(), ADDITIONAL_CONTENT)) {
            let mut tree_loc = current_h2.clone();
            tree_loc.append(SEPARATOR);
            tree_loc.append(current_h3.as_str());
            proof {
                reveal_strlit(" > ");
            }
            let mut found = parse_ul_element(element, tree_loc, version);
            let ghost added = found.deep_view();
            records.append(&mut found);
            assert(records.deep_view() =~= before + added);
        }
        i += 1;
    }
    assert(elements.deep_view().take(elements.len() as int) =~= elements.deep_view());
    records
}

/// The records of the HTML document `body`, which holds the notes of
/// `version`.
pub fn parse_patch_document(body: &str, version: &str) -> (records: Vec<PatchChange>)
    ensures
        records.deep_view() == document_records(body@, version@),
{
    match select_elements(body, CONTENT_SELECTOR, LABEL_SELECTOR) {
        Some(elements) => parse_page_elements(&elements, version),
        None => Vec::new(),
    }
}

/// The records of several documents, one after the other. Each document
/// comes as the name of its version and its HTML text.
pub open spec fn documents_records(documents: Seq<(Seq<char>, Seq<char>)>) -> Seq<PatchChangeView>
    decreases documents.len(),
{
    if documents.len() == 0 {
        Seq::empty()
    } else {
        documents_records(documents.drop_last()) + document_records(
            documents.last().1,
            documents.last().0,
        )
    }
}

/// The records of several documents, one after the other. Each document
/// comes as the name of its version and its HTML text.
pub fn parse_patch_documents(documents: &Vec<(String, String)>) -> (records: Vec<PatchChange>)
    ensures
        records.deep_view() == documents_records(documents.deep_view()),
{
    let mut records: Vec<PatchChange> = Vec::new();
    let mut i: usize = 0;
    while i < documents.len()
        invariant
            i <= documents.len(),
            records.deep_view() == documents_records(documents.deep_view().take(i as int)),
        decreases documents.len() - i,
    {
        proof {
            assert(documents.deep_view().take(i + 1).drop_last() =~= documents.deep_view().take(
                i as int,
            ));
        }
        let mut found = parse_patch_document(documents[i].1.as_str(), documents[i].0.as_str());
        records.append(&mut found);
        i += 1;
    }
    assert(documents.deep_view().take(documents.len() as int) =~= documents.deep_view());
    records
}

} // verus!
