use patchnotes::html::{diff_as_html, ends_unchanged, lines_to_html};
use patchnotes::range::{files_between, version_path};
use patchnotes::{ChangeData, PatchChange};

fn record(property: &str, version: &str, data: ChangeData) -> PatchChange {
    PatchChange::new(&property.to_string(), &version.to_string(), data)
}

fn lines(texts: &[&str]) -> Vec<String> {
    texts.iter().map(|t| t.to_string()).collect()
}

#[test]
fn sections_and_subsections_get_headings() {
    let page = lines_to_html(&lines(&[
        "Heroes > Zeus > Base Armor increased by 3",
        "Heroes > Zeus > Random Change",
        "Items > Blade Mail > Duration increased from 4.5s to 6.5s",
    ]));
    let expected = "<div><h2>Heroes</h2><h3>Zeus</h3><ul><li>Base Armor increased by 3</li>\
<li>Random Change</li></ul><h2>Items</h2><h3>Blade Mail</h3><ul>\
<li>Duration increased from 4.5s to 6.5s</li></ul></div>";
    assert_eq!(Some(expected.to_string()), page);
}

#[test]
fn labels_get_lists_of_their_own() {
    let page = lines_to_html(&lines(&[
        "Heroes > Zeus > Arc Lightning > Damage increased from 1 to 2",
        "Heroes > Zeus > Arc Lightning > Cooldown decreased from 2 to 1",
        "Heroes > Zeus > Static Field > Range increased by 5",
        "Heroes > Lina > Dragon Slave > Damage increased by 1",
    ]));
    let expected = "<div><h2>Heroes</h2><h3>Zeus</h3><ul><li>Arc Lightning<ul>\
<li>Damage increased from 1 to 2</li><li>Cooldown decreased from 2 to 1</li></ul></li>\
<li>Static Field<ul><li>Range increased by 5</li></ul></li></ul><h3>Lina</h3><ul>\
<li>Dragon Slave<ul><li>Damage increased by 1</li></ul></li></ul></div>";
    assert_eq!(Some(expected.to_string()), page);
}

#[test]
fn new_section_closes_the_open_label() {
    let page = lines_to_html(&lines(&[
        "Heroes > Zeus > Arc Lightning > Damage increased by 1",
        "Items > Bottle > Cost decreased by 25",
    ]));
    let expected = "<div><h2>Heroes</h2><h3>Zeus</h3><ul><li>Arc Lightning<ul>\
<li>Damage increased by 1</li></ul></li></ul><h2>Items</h2><h3>Bottle</h3><ul>\
<li>Cost decreased by 25</li></ul></div>";
    assert_eq!(Some(expected.to_string()), page);
}

#[test]
fn lines_that_end_unchanged_are_left_out() {
    let page = lines_to_html(&lines(&[
        "Heroes > Zeus > Base Armor unchanged",
        "unchanged",
        "Heroes > Zeus > Random Change",
    ]));
    let expected = "<div><h2>Heroes</h2><h3>Zeus</h3><ul><li>Random Change</li></ul></div>";
    assert_eq!(Some(expected.to_string()), page);
}

#[test]
fn line_of_one_part_has_no_page() {
    assert_eq!(None, lines_to_html(&lines(&["Heroes > Zeus > Random Change", "Random Change"])));
    assert_eq!(None, lines_to_html(&lines(&[""])));
    assert_eq!(None, lines_to_html(&lines(&["unchanged ", "Heroes > Zeus > x"])));
}

#[test]
fn page_of_no_lines_is_closed_all_the_same() {
    assert_eq!(Some("<div></ul></div>".to_string()), lines_to_html(&Vec::new()));
}

#[test]
fn line_of_two_parts_is_its_own_change() {
    let expected = "<div><h2>Heroes</h2><h3>Zeus</h3><ul><li>Zeus</li></ul></div>";
    assert_eq!(Some(expected.to_string()), lines_to_html(&lines(&["Heroes > Zeus"])));
}

#[test]
fn line_of_five_parts_has_no_label() {
    let expected = "<div><h2>a</h2><h3>b</h3><ul><li>e</li></ul></div>";
    assert_eq!(Some(expected.to_string()), lines_to_html(&lines(&["a > b > c > d > e"])));
}

#[test]
fn ends_unchanged_looks_at_the_end_only() {
    assert!(ends_unchanged("Heroes > Zeus > Base Armor unchanged"));
    assert!(ends_unchanged("unchanged"));
    assert!(!ends_unchanged("unchanged since 7.31"));
    assert!(!ends_unchanged("nchanged"));
    assert!(!ends_unchanged(""));
}

#[test]
fn net_changes_are_rendered_onto_the_page() {
    let diff = vec![
        record("Heroes > Zeus", "7.32", ChangeData::OtherChange("Something random".to_string())),
        record("Heroes > Zeus > Base Armor", "7.32a", ChangeData::RelativeChange(3)),
        record("Heroes > Zeus > Base Damage", "7.32a", ChangeData::RelativeChange(0)),
        record(
            "Items > Blade Mail > Duration",
            "7.32a",
            ChangeData::AbsoluteChange("4.5s".to_string(), "6.5s".to_string()),
        ),
    ];
    let expected = "<div><h2>Heroes</h2><h3>Zeus</h3><ul><li>Something random</li>\
<li>Base Armor increased by 3</li></ul><h2>Items</h2><h3>Blade Mail</h3><ul>\
<li>Duration increased from 4.5s to 6.5s</li></ul></div>";
    assert_eq!(Some(expected.to_string()), diff_as_html(&diff));
}

#[test]
fn record_on_a_bare_property_has_no_page() {
    let diff = vec![record("Zeus", "7.32", ChangeData::RelativeChange(3))];
    assert_eq!(None, diff_as_html(&diff));
}

#[test]
fn version_path_names_the_file() {
    assert_eq!("./html/7.32.html", version_path("7.32"));
    assert_eq!("./html/.html", version_path(""));
}

#[test]
fn files_between_takes_the_range_with_both_ends() {
    let files = lines(&[
        "./html/7.31.html",
        "./html/7.32.html",
        "./html/7.32a.html",
        "./html/7.32b.html",
        "./html/7.32c.html",
        "./html/7.33.html",
    ]);
    let expected =
        lines(&["./html/7.32.html", "./html/7.32a.html", "./html/7.32b.html", "./html/7.32c.html"]);
    assert_eq!(expected, files_between(&files, "7.32", "7.32c"));
    assert_eq!(expected, files_between(&files, "7.32c", "7.32"));
    assert_eq!(lines(&["./html/7.32a.html"]), files_between(&files, "7.32a", "7.32a"));
}

#[test]
fn files_between_goes_by_the_order_of_the_list() {
    let files =
        lines(&["./html/7.32c.html", "./html/7.31.html", "./html/7.32.html", "./html/7.33.html"]);
    assert_eq!(
        lines(&["./html/7.32.html", "./html/7.33.html"]),
        files_between(&files, "7.32", "7.32c")
    );
    assert_eq!(Vec::<String>::new(), files_between(&files, "7.30", "7.32"));
    assert_eq!(Vec::<String>::new(), files_between(&Vec::new(), "7.30", "7.32"));
}

#[test]
fn range_opens_again_at_another_first_file() {
    let files = lines(&[
        "./html/a.html",
        "./html/b.html",
        "./html/x.html",
        "./html/a.html",
        "./html/y.html",
    ]);
    assert_eq!(
        lines(&["./html/a.html", "./html/b.html", "./html/a.html", "./html/y.html"]),
        files_between(&files, "a", "b")
    );
}
