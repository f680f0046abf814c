//! The net changes as a page: a heading for each section and subsection, and
//! below them the changes as a list, with a list of its own for each label.

use crate::record::{PatchChange, PatchChangeView, SEPARATOR};
use crate::render::rendered;
use crate::text::{chars_match_at, split, split_text, text_equal, to_chars};
use vstd::prelude::*;
use vstd::string::*;

verus! {

/// The end of a line that tells of no net change.
pub const UNCHANGED_END: &'static str = "unchanged";

/// Opens the page.
pub const PAGE_OPEN: &'static str = "<div>";

/// Closes the last list and the page.
pub const PAGE_CLOSE: &'static str = "</ul></div>";

/// Closes the list of the last label, the last list and the page.
pub const LABELLED_PAGE_CLOSE: &'static str = "</ul></li></ul></div>";

/// Opens the first section heading.
pub const SECTION_OPEN: &'static str = "<h2>";

/// Closes the list before it and opens a section heading.
pub const NEXT_SECTION_OPEN: &'static str = "</ul><h2>";

/// Closes a section heading.
pub const SECTION_CLOSE: &'static str = "</h2>";

/// Opens the first subsection heading of a section.
pub const SUBSECTION_OPEN: &'static str = "<h3>";

/// Closes the list before it and opens a subsection heading.
pub const NEXT_SUBSECTION_OPEN: &'static str = "</ul><h3>";

/// Closes a subsection heading and opens its list.
pub const SUBSECTION_CLOSE: &'static str = "</h3><ul>";

/// Closes the list of a label.
pub const LABEL_CLOSE: &'static str = "</ul></li>";

/// Opens the first label of a list.
pub const LABEL_OPEN: &'static str = "<li>";

/// Closes the list of the label before it and opens a label.
pub const NEXT_LABEL_OPEN: &'static str = "</ul></li><li>";

/// Opens the list of a label.
pub const LABEL_LIST_OPEN: &'static str = "<ul>";

/// Opens a change.
pub const ITEM_OPEN: &'static str = "<li>";

/// Closes a change.
pub const ITEM_CLOSE: &'static str = "</li>";

/// A page under construction.
pub struct Page {
    /// What has been written.
    pub html: Seq<char>,
    /// The section that is open; empty before the first.
    pub section: Seq<char>,
    /// The subsection that is open; empty where none is.
    pub subsection: Seq<char>,
    /// The label whose list is open; empty where none is.
    pub label: Seq<char>,
}

/// Whether a line tells of no net change: it ends in `unchanged`.
pub open spec fn is_unchanged(line: Seq<char>) -> bool {
    line.len() >= UNCHANGED_END@.len() && line.skip(line.len() - UNCHANGED_END@.len())
        == UNCHANGED_END@
}

/// What closes the list of the open label, where one is open.
pub open spec fn label_end(page: Page) -> Seq<char> {
    if page.label.len() > 0 {
        LABEL_CLOSE@
    } else {
        Seq::empty()
    }
}

/// The page with `section` open. Another section than the open one closes
/// what is open and gets a heading.
pub open spec fn with_section(page: Page, section: Seq<char>) -> Page {
    if section == page.section {
        page
    } else {
        let opening = if page.section.len() == 0 {
            SECTION_OPEN@
        } else {
            label_end(page) + NEXT_SECTION_OPEN@
        };
        Page {
            html: page.html + opening + section + SECTION_CLOSE@,
            section,
            subsection: Seq::empty(),
            label: Seq::empty(),
        }
    }
}

/// The page with `subsection` open. Another subsection than the open one
/// closes what is open and gets a heading and a list.
pub open spec fn with_subsection(page: Page, subsection: Seq<char>) -> Page {
    if subsection == page.subsection {
        page
    } else {
        let opening = if page.subsection.len() == 0 {
            SUBSECTION_OPEN@
        } else {
            label_end(page) + NEXT_SUBSECTION_OPEN@
        };
        Page {
            html: page.html + opening + subsection + SUBSECTION_CLOSE@,
            section: page.section,
            subsection,
            label: Seq::empty(),
        }
    }
}

/// The page with `label` open. Another label than the open one closes the
/// list of that one and gets a list of its own.
pub open spec fn with_label(page: Page, label: Seq<char>) -> Page {
    if label == page.label {
        page
    } else {
        let opening = if page.label.len() == 0 {
            LABEL_OPEN@
        } else {
            NEXT_LABEL_OPEN@
        };
        Page {
            html: page.html + opening + label + LABEL_LIST_OPEN@,
            section: page.section,
            subsection: page.subsection,
            label,
        }
    }
}

/// The page with one more change in the open list.
pub open spec fn with_item(page: Page, item: Seq<char>) -> Page {
    Page {
        html: page.html + ITEM_OPEN@ + item + ITEM_CLOSE@,
        section: page.section,
        subsection: page.subsection,
        label: page.label,
    }
}

/// The page with one more line.
///
/// A line that tells of no net change is left out. Any other line is cut at
/// the separators: the first two parts name its section and subsection, the
/// third names its label where there are four parts, and the last part is
/// the change. A line of fewer than two parts has no place on the page.
pub open spec fn with_line(page: Page, line: Seq<char>) -> Option<Page> {
    let path = split(line, SEPARATOR@);
    if is_unchanged(line) {
        Some(page)
    } else if path.len() < 2 {
        None
    } else {
        let titled = with_subsection(with_section(page, path[0]), path[1]);
        let labelled = if path.len() == 4 {
            with_label(titled, path[2])
        } else {
            titled
        };
        Some(with_item(labelled, path.last()))
    }
}

/// The page with the lines given, from the first to the last; nothing where
/// one of them has no place on it.
pub open spec fn page_of(lines: Seq<Seq<char>>) -> Option<Page>
    decreases lines.len(),
{
    if lines.len() == 0 {
        Some(
            Page {
                html: PAGE_OPEN@,
                section: Seq::empty(),
                subsection: Seq::empty(),
                label: Seq::empty(),
            },
        )
    } else {
        match page_of(lines.drop_last()) {
            Some(page) => with_line(page, lines.last()),
            None => None,
        }
    }
}

/// What is written once the page is closed.
pub open spec fn closed(page: Page) -> Seq<char> {
    if page.label.len() == 0 {
        page.html + PAGE_CLOSE@
    } else {
        page.html + LABELLED_PAGE_CLOSE@
    }
}

/// The lines as a page; nothing where one of them has no place on it.
pub open spec fn html_of(lines: Seq<Seq<char>>) -> Option<Seq<char>> {
    match page_of(lines) {
        Some(page) => Some(closed(page)),
        None => None,
    }
}

/// The lines that tell of the records, one for each.
pub open spec fn rendered_lines(records: Seq<PatchChangeView>) -> Seq<Seq<char>> {
    Seq::new(records.len(), |i: int| rendered(records[i]))
}

/// Whether a line ends in `unchanged`.
pub fn ends_unchanged(line: &str) -> (unchanged: bool)
    ensures
        unchanged == is_unchanged(line@),
{
    let chars = to_chars(line);
    let end = to_chars(UNCHANGED_END);
    if chars.len() < end.len() {
        return false;
    }
    let at = chars.len() - end.len();
    chars_match_at(&chars, &end, at)
}

/// A page in the making: what has been written, and what is open.
struct Draft {
    html: String,
    section: String,
    subsection: String,
    label: String,
}

impl Draft {
    /// The page as it stands.
    spec fn page(&self) -> Page {
        Page {
            html: self.html@,
            section: self.section@,
            subsection: self.subsection@,
            label: self.label@,
        }
    }

    /// Closes the list of the open label, where one is open.
    fn close_label(&mut self)
        ensures
            final(self).page() == (Page {
                html: old(self).html@ + label_end(old(self).page()),
                ..old(self).page()
            }),
    {
        if !self.label.as_str().is_empty() {
            self.html.append(LABEL_CLOSE);
        }
    }

    /// Opens `section`, as `with_section` defines it.
    fn open_section(&mut self, section: &String)
        ensures
            final(self).page() == with_section(old(self).page(), section@),
    {
        if !text_equal(section.as_str(), self.section.as_str()) {
            let ghost before = self.html@;
            if self.section.as_str().is_empty() {
                self.html.append(SECTION_OPEN);
            } else {
                self.close_label();
                self.html.append(NEXT_SECTION_OPEN);
                assert(self.html@ =~= before + (label_end(old(self).page()) + NEXT_SECTION_OPEN@));
            }
            self.html.append(section.as_str());
            self.html.append(SECTION_CLOSE);
            self.section = section.clone();
            self.subsection = String::new();
            self.label = String::new();
        }
    }

    /// Opens `subsection`, as `with_subsection` defines it.
    fn open_subsection(&mut self, subsection: &String)
        ensures
            final(self).page() == with_subsection(old(self).page(), subsection@),
    {
        if !text_equal(subsection.as_str(), self.subsection.as_str()) {
            let ghost before = self.html@;
            if self.subsection.as_str().is_empty() {
                self.html.append(SUBSECTION_OPEN);
            } else {
                self.close_label();
                self.html.append(NEXT_SUBSECTION_OPEN);
                assert(self.html@ =~= before + (label_end(old(self).page())
                    + NEXT_SUBSECTION_OPEN@));
            }
            self.html.append(subsection.as_str());
            self.html.append(SUBSECTION_CLOSE);
            self.subsection = subsection.clone();
            self.label = String::new();
        }
    }

    /// Opens `label`, as `with_label` defines it.
    fn open_label(&mut self, label: &String)
        ensures
            final(self).page() == with_label(old(self).page(), label@),
    {
        if !text_equal(label.as_str(), self.label.as_str()) {
            if self.label.as_str().is_empty() {
                self.html.append(LABEL_OPEN);
            } else {
                self.html.append(NEXT_LABEL_OPEN);
            }
            self.html.append(label.as_str());
            self.html.append(LABEL_LIST_OPEN);
            self.label = label.clone();
        }
    }

    /// Writes one more change into the open list.
    fn add_item(&mut self, item: &String)
        ensures
            final(self).page() == with_item(old(self).page(), item@),
    {
        self.html.append(ITEM_OPEN);
        self.html.append(item.as_str());
        self.html.append(ITEM_CLOSE);
    }

    /// Places one more line, as `with_line` defines it, and tells whether it
    /// had a place.
    fn add_line(&mut self, line: &String) -> (placed: bool)
        ensures
            match with_line(old(self).page(), line@) {
                Some(page) => placed && final(self).page() == page,
                None => !placed,
            },
    {
        if ends_unchanged(line.as_str()) {
            return true;
        }
        let path = split_text(line.as_str(), SEPARATOR);
        if path.len() < 2 {
            return false;
        }
        proof {
            let parts = split(line@, SEPARATOR@);
            assert(parts[0] == path[0]@ && parts[1] == path[1]@);
            assert(parts.last() == path[path.len() - 1]@);
            if path.len() > 2 {
                assert(parts[2] == path[2]@);
            }
        }
        self.open_section(&path[0]);
        self.open_subsection(&path[1]);
        if path.len() == 4 {
            self.open_label(&path[2]);
        }
        self.add_item(&path[path.len() - 1]);
        true
    }
}

/// The lines as a page, as `html_of` defines it.
pub fn lines_to_html(lines: &Vec<String>) -> (html: Option<String>)
    ensures
        html_of(lines.deep_view()) == match html {
            Some(text) => Some(text@),
            None => None,
        },
{
    let mut draft = Draft {
        html: PAGE_OPEN.to_owned(),
        section: String::new(),
        subsection: String::new(),
        label: String::new(),
    };
    let mut i: usize = 0;
    while i < lines.len()
        invariant
            i <= lines.len(),
            page_of(lines.deep_view().take(i as int)) == Some(draft.page()),
        decreases lines.len() - i,
    {
        proof {
            assert(lines.deep_view().take(i + 1).drop_last() =~= lines.deep_view().take(i as int));
        }
        if !draft.add_line(&lines[i]) {
            proof {
                lemma_page_of_fails_on(lines.deep_view(), i + 1);
            }
            return None;
        }
        i += 1;
    }
    assert(lines.deep_view().take(lines.len() as int) =~= lines.deep_view());
    if draft.label.as_str().is_empty() {
        draft.html.append(PAGE_CLOSE);
    } else {
        draft.html.append(LABELLED_PAGE_CLOSE);
    }
    Some(draft.html)
}

/// Lines of which the first so many have no page have no page together.
proof fn lemma_page_of_fails_on(lines: Seq<Seq<char>>, n: int)
    requires
        0 <= n <= lines.len(),
        page_of(lines.take(n)) is None,
    ensures
        page_of(lines) is None,
    decreases lines.len(),
{
    if n == lines.len() {
        assert(lines.take(n) =~= lines);
    } else {
        assert(lines.drop_last().take(n) =~= lines.take(n));
        lemma_page_of_fails_on(lines.drop_last(), n);
    }
}

/// The net changes as a page: each is rendered, and the lines are laid out
/// as `html_of` defines it.
pub fn diff_as_html(diff_result: &Vec<PatchChange>) -> (html: Option<String>)
    ensures
        html_of(rendered_lines(diff_result.deep_view())) == match html {
            Some(text) => Some(text@),
            None => None,
        },
{
    let mut lines: Vec<String> = Vec::new();
    let mut i: usize = 0;
    while i < diff_result.len()
        invariant
            i <= diff_result.len(),
            lines.len() == i,
            forall|j: int| 0 <= j < i ==> (#[trigger] lines[j])@ == rendered(diff_result[j]@),
        decreases diff_result.len() - i,
    {
        lines.push(diff_result[i].write_text());
        i += 1;
    }
    assert(lines.deep_view() =~= rendered_lines(diff_result.deep_view()));
    lines_to_html(&lines)
}

} // verus!
