use patchnotes::merge::sort_records;
use patchnotes::{patch_diff, try_patch_diff, ChangeData, PatchChange};

fn record(property: &str, version: &str, data: ChangeData) -> PatchChange {
    PatchChange::new(&property.to_string(), &version.to_string(), data)
}

fn absolute(old: &str, new: &str) -> ChangeData {
    ChangeData::AbsoluteChange(old.to_string(), new.to_string())
}

fn note(text: &str) -> ChangeData {
    ChangeData::OtherChange(text.to_string())
}

#[test]
fn patch_diff_works() {
    let old_patch_name = "7.32".to_string();
    let old_change_1 = PatchChange::new(
        &"Items > Blade Mail > Duration".to_string(),
        &old_patch_name,
        ChangeData::AbsoluteChange("4.5s".to_string(), "5.5s".to_string()),
    );
    let old_change_2 = PatchChange::new(
        &"Items > Blade Mail > Armor".to_string(),
        &old_patch_name,
        ChangeData::AbsoluteChange("4".to_string(), "5".to_string()),
    );
    let old_change_3 = PatchChange::new(
        &"Heroes > Zeus > Base Armor".to_string(),
        &old_patch_name,
        ChangeData::RelativeChange(2),
    );
    let old_change_4 = PatchChange::new(
        &"Heroes > Zeus".to_string(),
        &old_patch_name,
        ChangeData::OtherChange("Something random".to_string()),
    );
    let mut old_patch = vec![old_change_1, old_change_2, old_change_3, old_change_4];

    let new_patch_name = "7.32a".to_string();
    let new_change_1 = PatchChange::new(
        &"Items > Blade Mail > Duration".to_string(),
        &new_patch_name,
        ChangeData::AbsoluteChange("5.5s".to_string(), "6.5s".to_string()),
    );
    let new_change_2 = PatchChange::new(
        &"Items > Blade Mail > Damage".to_string(),
        &new_patch_name,
        ChangeData::AbsoluteChange("11".to_string(), "60".to_string()),
    );
    let new_change_3 = PatchChange::new(
        &"Heroes > Zeus > Base Armor".to_string(),
        &new_patch_name,
        ChangeData::RelativeChange(1),
    );
    let new_change_4 = PatchChange::new(
        &"Heroes > Crystal Maiden".to_string(),
        &new_patch_name,
        ChangeData::OtherChange(
            "Auto-attacks now take priority when determining kill credit".to_string(),
        ),
    );
    let mut new_patch = vec![new_change_1, new_change_2, new_change_3, new_change_4];

    old_patch.append(&mut new_patch);
    let result = patch_diff(old_patch);

    assert_eq!(
        PatchChange::new(
            &"Items > Blade Mail > Duration".to_string(),
            &"7.32a".to_string(),
            ChangeData::AbsoluteChange("4.5s".to_string(), "6.5s".to_string())
        ),
        result[5]
    )
}

#[test]
fn patch_diff_gives_every_net_change_in_order() {
    let input = vec![
        record("Items > Blade Mail > Duration", "7.32", absolute("4.5s", "5.5s")),
        record("Items > Blade Mail > Armor", "7.32", absolute("4", "5")),
        record("Heroes > Zeus > Base Armor", "7.32", ChangeData::RelativeChange(2)),
        record("Heroes > Zeus", "7.32", note("Something random")),
        record("Items > Blade Mail > Duration", "7.32a", absolute("5.5s", "6.5s")),
        record("Items > Blade Mail > Damage", "7.32a", absolute("11", "60")),
        record("Heroes > Zeus > Base Armor", "7.32a", ChangeData::RelativeChange(1)),
        record("Heroes > Crystal Maiden", "7.32a", note("Auto-attacks")),
    ];
    let expected = vec![
        record("Heroes > Crystal Maiden", "7.32a", note("Auto-attacks")),
        record("Heroes > Zeus", "7.32", note("Something random")),
        record("Heroes > Zeus > Base Armor", "7.32a", ChangeData::RelativeChange(3)),
        record("Items > Blade Mail > Armor", "7.32", absolute("4", "5")),
        record("Items > Blade Mail > Damage", "7.32a", absolute("11", "60")),
        record("Items > Blade Mail > Duration", "7.32a", absolute("4.5s", "6.5s")),
    ];
    assert_eq!(expected, patch_diff(input));
}

#[test]
fn patch_diff_of_nothing_is_nothing() {
    assert_eq!(Vec::<PatchChange>::new(), patch_diff(Vec::new()));
}

#[test]
fn single_record_survives_unchanged() {
    let input = vec![
        record("Heroes > Zeus > Base Armor", "7.32", ChangeData::RelativeChange(2)),
        record("Items > Blade Mail > Armor", "7.32a", absolute("4", "5")),
        record("Heroes > Zeus > Base Armor", "7.32a", ChangeData::RelativeChange(1)),
    ];
    let net = patch_diff(input);
    let kept: Vec<&PatchChange> =
        net.iter().filter(|r| r.property().as_str() == "Items > Blade Mail > Armor").collect();
    assert_eq!(vec![&record("Items > Blade Mail > Armor", "7.32a", absolute("4", "5"))], kept);
}

#[test]
fn three_absolute_changes_accumulate_whatever_the_input_order() {
    let expected = vec![record("Items > Bottle > Cost", "7.32b", absolute("A", "D"))];
    let orders: [[usize; 3]; 6] =
        [[0, 1, 2], [0, 2, 1], [1, 0, 2], [1, 2, 0], [2, 0, 1], [2, 1, 0]];
    for order in orders {
        let make = |i: usize| match i {
            0 => record("Items > Bottle > Cost", "7.32", absolute("A", "B")),
            1 => record("Items > Bottle > Cost", "7.32a", absolute("B", "C")),
            _ => record("Items > Bottle > Cost", "7.32b", absolute("C", "D")),
        };
        let input = vec![make(order[0]), make(order[1]), make(order[2])];
        assert_eq!(expected, patch_diff(input));
    }
}

#[test]
fn opposite_relative_changes_collapse_to_zero() {
    let input = vec![
        record("Heroes > Zeus > Base Armor", "7.32a", ChangeData::RelativeChange(-2)),
        record("Heroes > Zeus > Base Armor", "7.32", ChangeData::RelativeChange(2)),
    ];
    let net = patch_diff(input);
    assert_eq!(
        vec![record("Heroes > Zeus > Base Armor", "7.32a", ChangeData::RelativeChange(0))],
        net
    );
    assert_eq!("Heroes > Zeus > Base Armor unchanged", net[0].write_text());
}

#[test]
fn note_between_absolute_changes_breaks_the_run() {
    let input = vec![
        record("Items > Bottle > Cost", "7.32b", absolute("C", "D")),
        record("Items > Bottle > Cost", "7.32a", note("Now sold in the side shop")),
        record("Items > Bottle > Cost", "7.32", absolute("A", "B")),
    ];
    let expected = vec![
        record("Items > Bottle > Cost", "7.32", absolute("A", "B")),
        record("Items > Bottle > Cost", "7.32a", note("Now sold in the side shop")),
        record("Items > Bottle > Cost", "7.32b", absolute("C", "D")),
    ];
    assert_eq!(expected, patch_diff(input));
}

#[test]
fn two_notes_on_one_property_stay_apart() {
    let input = vec![
        record("Heroes > Zeus", "7.32", note("first")),
        record("Heroes > Zeus", "7.32a", note("second")),
    ];
    let expected = vec![
        record("Heroes > Zeus", "7.32", note("first")),
        record("Heroes > Zeus", "7.32a", note("second")),
    ];
    assert_eq!(expected, patch_diff(input));
}

#[test]
fn records_of_one_version_merge_by_kind() {
    // In one version the absolute change sorts before the relative one, and
    // the relative one before the note.
    let input = vec![
        record("Heroes > Zeus > Armor", "7.32", note("reworked")),
        record("Heroes > Zeus > Armor", "7.32", ChangeData::RelativeChange(1)),
        record("Heroes > Zeus > Armor", "7.32", absolute("1", "2")),
        record("Heroes > Zeus > Armor", "7.32", ChangeData::RelativeChange(-3)),
    ];
    let expected = vec![
        record("Heroes > Zeus > Armor", "7.32", absolute("1", "2")),
        record("Heroes > Zeus > Armor", "7.32", ChangeData::RelativeChange(-2)),
        record("Heroes > Zeus > Armor", "7.32", note("reworked")),
    ];
    assert_eq!(expected, patch_diff(input));
}

#[test]
fn sort_records_orders_by_property_version_and_data() {
    let input = vec![
        record("b", "2", absolute("x", "y")),
        record("b", "1", note("n")),
        record("a", "9", ChangeData::RelativeChange(5)),
        record("b", "1", ChangeData::RelativeChange(-1)),
        record("b", "1", absolute("x", "z")),
        record("b", "1", absolute("x", "y")),
        record("ab", "0", note("m")),
        record("b", "1", ChangeData::RelativeChange(-2)),
    ];
    let expected = vec![
        record("a", "9", ChangeData::RelativeChange(5)),
        record("ab", "0", note("m")),
        record("b", "1", absolute("x", "y")),
        record("b", "1", absolute("x", "z")),
        record("b", "1", ChangeData::RelativeChange(-2)),
        record("b", "1", ChangeData::RelativeChange(-1)),
        record("b", "1", note("n")),
        record("b", "2", absolute("x", "y")),
    ];
    let sorted = sort_records(input);
    assert_eq!(expected, sorted);
    let mut by_std = sort_records(expected);
    by_std.sort();
    assert_eq!(sorted, by_std);
}

#[test]
fn sorting_agrees_with_the_derived_order_beyond_ascii() {
    let input = vec![
        record("\u{e9}clair", "1", note("a")),
        record("z", "1", note("a")),
        record("\u{1f600}", "1", note("a")),
        record("\u{ffff}", "1", note("a")),
        record("Z", "1", note("a")),
    ];
    let mut expected: Vec<PatchChange> = input.iter().map(|r| r.clone()).collect();
    expected.sort();
    assert_eq!(expected, sort_records(input));
}

#[test]
fn try_patch_diff_tells_when_an_amount_cannot_be_held() {
    let input = vec![
        record("Heroes > Zeus > Armor", "7.32", ChangeData::RelativeChange(i32::MAX)),
        record("Heroes > Zeus > Armor", "7.32a", ChangeData::RelativeChange(1)),
    ];
    assert_eq!(None, try_patch_diff(input));
    let input = vec![
        record("Heroes > Zeus > Armor", "7.32", ChangeData::RelativeChange(i32::MAX)),
        record("Heroes > Zeus > Armor", "7.32a", ChangeData::RelativeChange(-1)),
    ];
    let net = record("Heroes > Zeus > Armor", "7.32a", ChangeData::RelativeChange(i32::MAX - 1));
    assert_eq!(Some(vec![net]), try_patch_diff(input));
}

#[test]
fn large_amounts_on_different_properties_never_meet() {
    let input = vec![
        record("Heroes > Zeus > Armor", "7.32", ChangeData::RelativeChange(i32::MAX)),
        record("Heroes > Lina > Armor", "7.32a", ChangeData::RelativeChange(i32::MAX)),
    ];
    let expected = vec![
        record("Heroes > Lina > Armor", "7.32a", ChangeData::RelativeChange(i32::MAX)),
        record("Heroes > Zeus > Armor", "7.32", ChangeData::RelativeChange(i32::MAX)),
    ];
    assert_eq!(Some(expected), try_patch_diff(input));
}
