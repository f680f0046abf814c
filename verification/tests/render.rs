use patchnotes::{patch_diff, ChangeData, PatchChange};

fn record(property: &str, version: &str, data: ChangeData) -> PatchChange {
    PatchChange::new(&property.to_string(), &version.to_string(), data)
}

fn absolute(old: &str, new: &str) -> ChangeData {
    ChangeData::AbsoluteChange(old.to_string(), new.to_string())
}

#[test]
fn abs_change_write_works() {
    let change = PatchChange::new(
        &"Items > Blade Mail > Duration".to_string(),
        &"7.32".to_string(),
        ChangeData::AbsoluteChange("4.5s".to_string(), "5.5s".to_string()),
    );
    let result = change.write_text();
    assert_eq!("Items > Blade Mail > Duration increased from 4.5s to 5.5s".to_string(), result)
}

#[test]
fn rel_change_write_works() {
    let change = PatchChange::new(
        &"Heroes > Zeus > Base armor".to_string(),
        &"7.32".to_string(),
        ChangeData::RelativeChange(1),
    );
    let result = change.write_text();
    assert_eq!("Heroes > Zeus > Base armor increased by 1".to_string(), result)
}

#[test]
fn other_change_write_works() {
    let change = PatchChange::new(
        &"Heroes > Zeus".to_string(),
        &"7.32".to_string(),
        ChangeData::OtherChange("Random Change".to_string()),
    );
    let result = change.write_text();
    assert_eq!("Heroes > Zeus > Random Change".to_string(), result)
}

#[test]
fn talent_is_told_as_replaced() {
    let property = "Heroes > Dark Willow > Talent > Level 10 Talent";
    let change = record(property, "7.32", absolute("+10 Damage", "+20 Damage"));
    assert_eq!(
        "Heroes > Dark Willow > Talent > Level 10 Talent +10 Damage replaced with +20 Damage",
        change.write_text()
    );
    let change = record("Heroes > Lina > Talent", "7.32", absolute("5", "1"));
    assert_eq!("Heroes > Lina > Talent 5 replaced with 1", change.write_text());
}

#[test]
fn lower_case_talent_is_no_talent() {
    let change = record("Heroes > Lina > talent", "7.32", absolute("5", "1"));
    assert_eq!("Heroes > Lina > talent decreased from 5 to 1", change.write_text());
}

#[test]
fn relative_change_is_told_without_sign() {
    let change = record("Heroes > Zeus > Base armor", "7.32", ChangeData::RelativeChange(-3));
    assert_eq!("Heroes > Zeus > Base armor decreased by 3", change.write_text());
    let change = record("Heroes > Zeus > Base armor", "7.32", ChangeData::RelativeChange(120));
    assert_eq!("Heroes > Zeus > Base armor increased by 120", change.write_text());
    let change = record("Heroes > Zeus > Base armor", "7.32", ChangeData::RelativeChange(i32::MIN));
    assert_eq!("Heroes > Zeus > Base armor decreased by 2147483648", change.write_text());
    let change = record("Heroes > Zeus > Base armor", "7.32", ChangeData::RelativeChange(i32::MAX));
    assert_eq!("Heroes > Zeus > Base armor increased by 2147483647", change.write_text());
}

#[test]
fn zero_is_told_as_unchanged() {
    let change = record("Heroes > Zeus > Base armor", "7.32", ChangeData::RelativeChange(0));
    assert_eq!("Heroes > Zeus > Base armor unchanged", change.write_text());
}

#[test]
fn absolute_change_is_told_with_its_direction() {
    let change = record("Items > Bottle > Cost", "7.32", absolute("650", "625"));
    assert_eq!("Items > Bottle > Cost decreased from 650 to 625", change.write_text());
    let data = absolute("450/650/850", "500/650/800");
    let change = record("Heroes > Lina > Laguna Blade damage", "7.32", data);
    assert_eq!(
        "Heroes > Lina > Laguna Blade damage rescaled from 450/650/850 to 500/650/800",
        change.write_text()
    );
    let change = record("Heroes > Lina > Attack type", "7.32", absolute("melee", "ranged"));
    assert_eq!("Heroes > Lina > Attack type changed from melee to ranged", change.write_text());
}

#[test]
fn two_releases_merge_into_one_line() {
    let context = "Items > Blade Mail".to_string();
    let first =
        PatchChange::parse_text("Duration increased from 4.5s to 5.5s", context.clone(), "7.32");
    let second = PatchChange::parse_text("Duration increased from 5.5s to 6.5s", context, "7.32a");
    let net = patch_diff(vec![second, first]);
    let expected = record("Items > Blade Mail > Duration", "7.32a", absolute("4.5s", "6.5s"));
    assert_eq!(vec![expected], net);
    assert_eq!("Items > Blade Mail > Duration increased from 4.5s to 6.5s", net[0].write_text());
}
