use patchnotes::outline::{
    parse_page_elements, parse_patch_document, parse_patch_documents, parse_ul_element, PageElement,
};
use patchnotes::{ChangeData, PatchChange};

fn record(property: &str, version: &str, data: ChangeData) -> PatchChange {
    PatchChange::new(&property.to_string(), &version.to_string(), data)
}

fn absolute(old: &str, new: &str) -> ChangeData {
    ChangeData::AbsoluteChange(old.to_string(), new.to_string())
}

fn note(text: &str) -> ChangeData {
    ChangeData::OtherChange(text.to_string())
}

fn element(name: &str, texts: &[&str], labels: &[&[&str]]) -> PageElement {
    PageElement {
        name: name.to_string(),
        texts: texts.iter().map(|t| t.to_string()).collect(),
        labels: labels.iter().map(|l| l.iter().map(|t| t.to_string()).collect()).collect(),
    }
}

const PAGE: &str = "<html><head><title>7.32</title></head><body>\
<div class=\"mw-parser-output\">\
<p>Released today</p>\
<h2><span class=\"mw-headline\">General</span></h2>\
<ul><li>Matchmaking time increased by 5</li></ul>\
<h2><span class=\"mw-headline\"> Items </span><span>[edit]</span></h2>\
<h3><span class=\"mw-headline\">Blade Mail</span></h3>\
<ul>\n<li>Duration increased from 4.5s to 5.5s (was too short)</li>\n\
<li> Random Change </li>\n</ul>\
<h2>Heroes</h2>\
<h3>Zeus</h3>\
<table><tr><td>Base armor increased by 9</td></tr></table>\
<ul><li><b>Arc Lightning</b><ul><li>Damage increased by 5</li></ul></li>\
<li><b>Static Field</b><ul><li>Level 10 Talent +1 Armor replaced with +2 Armor</li></ul></li>\
<li>Base armor decreased by 1</li></ul>\
<h2>Additional Content</h2>\
<h3>Cosmetics</h3>\
<ul><li>Price increased from 1 to 2</li></ul>\
</div>\
<ul><li>Outside increased by 1</li></ul>\
</body></html>";

#[test]
fn document_is_walked_heading_by_heading() {
    let expected = vec![
        record("Items > Blade Mail > Duration", "7.32", absolute("4.5s", "5.5s")),
        record("Items > Blade Mail", "7.32", note("Random Change")),
        record("Heroes > Zeus > Arc Lightning > Damage", "7.32", ChangeData::RelativeChange(5)),
        record(
            "Heroes > Zeus > Static Field > Level 10 Talent",
            "7.32",
            absolute("+1 Armor", "+2 Armor"),
        ),
        record("Heroes > Zeus > Static Field > Base armor", "7.32", ChangeData::RelativeChange(-1)),
    ];
    assert_eq!(expected, parse_patch_document(PAGE, "7.32"));
}

#[test]
fn document_without_content_has_no_records() {
    assert_eq!(Vec::<PatchChange>::new(), parse_patch_document("", "7.32"));
    assert_eq!(
        Vec::<PatchChange>::new(),
        parse_patch_document("<ul><li>Damage increased by 5</li></ul>", "7.32")
    );
}

#[test]
fn list_before_any_heading_stands_under_empty_headings() {
    let body = "<div class=\"mw-parser-output\"><ul><li>Damage increased by 5</li></ul></div>";
    assert_eq!(
        vec![record(" >  > Damage", "7.32", ChangeData::RelativeChange(5))],
        parse_patch_document(body, "7.32")
    );
}

#[test]
fn elements_are_walked_like_a_document() {
    let elements = vec![
        element("h2", &[" Items ", "[edit]"], &[]),
        element("h3", &["Blade Mail"], &[]),
        element("p", &["Duration increased by 9"], &[]),
        element("ul", &["\n", "Duration increased from 4.5s to 5.5s (was too short)", "\n"], &[]),
        element("h3", &["Bottle"], &[]),
        element("ul", &["Cost decreased by 25"], &[]),
        element("h2", &["General"], &[]),
        element("ul", &["Cost decreased by 1"], &[]),
        element("h2", &["Additional Content"], &[]),
        element("ul", &["Cost decreased by 2"], &[]),
        element("h2", &[], &[]),
        element("ul", &["Cost decreased by 3"], &[]),
    ];
    let expected = vec![
        record("Items > Blade Mail > Duration", "7.32", absolute("4.5s", "5.5s")),
        record("Items > Bottle > Cost", "7.32", ChangeData::RelativeChange(-25)),
        record(" > Bottle > Cost", "7.32", ChangeData::RelativeChange(-3)),
    ];
    assert_eq!(expected, parse_page_elements(&elements, "7.32"));
}

#[test]
fn labels_are_met_in_their_order_only() {
    let list = element(
        "ul",
        &[
            "Second",
            "Damage increased by 1",
            "First",
            "Damage increased by 2",
            "Second (again)",
            "Damage increased by 3",
            "First",
        ],
        &[&["First"], &["Second", "rest"]],
    );
    let expected = vec![
        record("Heroes > Zeus", "7.32", note("Second")),
        record("Heroes > Zeus > Damage", "7.32", ChangeData::RelativeChange(1)),
        record("Heroes > Zeus > First > Damage", "7.32", ChangeData::RelativeChange(2)),
        record("Heroes > Zeus > Second > Damage", "7.32", ChangeData::RelativeChange(3)),
        record("Heroes > Zeus > Second", "7.32", note("First")),
    ];
    assert_eq!(expected, parse_ul_element(&list, "Heroes > Zeus".to_string(), "7.32"));
}

#[test]
fn label_without_text_is_never_met() {
    let list = element("ul", &["First", "Damage increased by 2"], &[&[], &["First"]]);
    let expected = vec![
        record("Heroes > Zeus", "7.32", note("First")),
        record("Heroes > Zeus > Damage", "7.32", ChangeData::RelativeChange(2)),
    ];
    assert_eq!(expected, parse_ul_element(&list, "Heroes > Zeus".to_string(), "7.32"));
}

#[test]
fn label_is_compared_as_it_stands() {
    // The line is normalized, the label is not: a label with white space
    // around it is not met.
    let list = element("ul", &[" First ", "Damage increased by 2"], &[&[" First "]]);
    let expected = vec![
        record("Heroes > Zeus", "7.32", note("First")),
        record("Heroes > Zeus > Damage", "7.32", ChangeData::RelativeChange(2)),
    ];
    assert_eq!(expected, parse_ul_element(&list, "Heroes > Zeus".to_string(), "7.32"));
}

#[test]
fn empty_list_has_no_records() {
    let list = element("ul", &[], &[]);
    assert_eq!(Vec::<PatchChange>::new(), parse_ul_element(&list, "Heroes".to_string(), "7.32"));
    let list = element("ul", &["  ", "\n\t"], &[&["  "]]);
    assert_eq!(Vec::<PatchChange>::new(), parse_ul_element(&list, "Heroes".to_string(), "7.32"));
}

#[test]
fn documents_are_read_one_after_the_other() {
    let first = "<div class=\"mw-parser-output\"><h2>Items</h2><h3>Bottle</h3>\
<ul><li>Cost decreased by 25</li></ul></div>";
    let second = "<div class=\"mw-parser-output\"><h2>Items</h2><h3>Bottle</h3>\
<ul><li>Cost increased by 5</li><li>Random Change</li></ul></div>";
    let documents = vec![
        ("./html/7.32.html".to_string(), first.to_string()),
        ("./html/7.32a.html".to_string(), second.to_string()),
    ];
    let expected = vec![
        record("Items > Bottle > Cost", "./html/7.32.html", ChangeData::RelativeChange(-25)),
        record("Items > Bottle > Cost", "./html/7.32a.html", ChangeData::RelativeChange(5)),
        record("Items > Bottle", "./html/7.32a.html", note("Random Change")),
    ];
    assert_eq!(expected, parse_patch_documents(&documents));
    assert_eq!(Vec::<PatchChange>::new(), parse_patch_documents(&Vec::new()));
}
