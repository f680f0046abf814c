use patchnotes::decimal::decimal_less;
use patchnotes::merge::sort_records;
use patchnotes::number::parse_i32;
use patchnotes::text::{split_text, text_contains, text_less, trim_text};
use patchnotes::{absolute_change_direction, try_patch_diff, ChangeData, PatchChange};

/// A small generator of numbers that look random and are the same on every run.
struct Numbers(u64);

impl Numbers {
    fn next(&mut self) -> u64 {
        self.0 = self.0.wrapping_mul(6364136223846793005).wrapping_add(1442695040888963407);
        self.0 >> 33
    }

    fn below(&mut self, n: u64) -> usize {
        (self.next() % n) as usize
    }

    fn text(&mut self, alphabet: &[&str], longest: u64) -> String {
        let len = self.below(longest + 1);
        (0..len).map(|_| alphabet[self.below(alphabet.len() as u64)]).collect()
    }
}

fn some_record(numbers: &mut Numbers) -> PatchChange {
    let words = ["a", "b", "B", " > ", "\u{e9}", "\u{1f600}", "7", "."];
    let mut property = numbers.text(&words, 3);
    property.push('p');
    let version = numbers.text(&["7", ".", "3", "a"], 3);
    let data = match numbers.below(3) {
        0 => ChangeData::AbsoluteChange(numbers.text(&words, 2), numbers.text(&words, 2)),
        1 => ChangeData::RelativeChange(numbers.below(7) as i32 - 3),
        _ => ChangeData::OtherChange(numbers.text(&words, 2)),
    };
    PatchChange::new(&property, &version, data)
}

#[test]
fn merge_order_is_the_derived_order() {
    let mut numbers = Numbers(1);
    for _ in 0..200 {
        let count = numbers.below(12);
        let records: Vec<PatchChange> = (0..count).map(|_| some_record(&mut numbers)).collect();
        let mut expected: Vec<PatchChange> = records.iter().map(|r| r.clone()).collect();
        expected.sort();
        assert_eq!(expected, sort_records(records));
    }
}

#[test]
fn net_changes_do_not_depend_on_the_input_order() {
    let mut numbers = Numbers(2);
    for _ in 0..200 {
        let count = numbers.below(10);
        let records: Vec<PatchChange> = (0..count).map(|_| some_record(&mut numbers)).collect();
        let mut shuffled: Vec<PatchChange> = records.iter().map(|r| r.clone()).collect();
        for i in (1..shuffled.len()).rev() {
            shuffled.swap(i, numbers.below(i as u64 + 1));
        }
        assert_eq!(try_patch_diff(records), try_patch_diff(shuffled));
    }
}

#[test]
fn net_changes_are_the_fold_of_the_sorted_records() {
    let mut numbers = Numbers(3);
    for _ in 0..200 {
        let count = numbers.below(10);
        let records: Vec<PatchChange> = (0..count).map(|_| some_record(&mut numbers)).collect();
        let mut sorted: Vec<PatchChange> = records.iter().map(|r| r.clone()).collect();
        sorted.sort();
        let mut expected: Vec<PatchChange> = Vec::new();
        for current in sorted {
            let merged = match expected.last() {
                Some(last) => PatchChange::diff(last, &current).ok(),
                None => None,
            };
            match merged {
                Some(net) => {
                    expected.pop();
                    expected.push(net);
                }
                None => expected.push(current),
            }
        }
        assert_eq!(Some(expected), try_patch_diff(records));
    }
}

#[test]
fn text_order_is_the_order_of_strings() {
    let mut numbers = Numbers(4);
    let alphabet = ["a", "b", "A", " ", "\u{e9}", "\u{7ff}", "\u{800}", "\u{ffff}", "\u{10000}"];
    for _ in 0..2000 {
        let a = numbers.text(&alphabet, 4);
        let b = numbers.text(&alphabet, 4);
        assert_eq!(a < b, text_less(&a, &b), "{:?} {:?}", a, b);
    }
}

#[test]
fn search_and_split_are_those_of_strings() {
    let mut numbers = Numbers(5);
    let alphabet = ["a", " ", ">", "/", "\u{e9}"];
    for _ in 0..2000 {
        let text = numbers.text(&alphabet, 8);
        let sep = numbers.text(&alphabet, 2);
        assert_eq!(text.contains(&sep), text_contains(&text, &sep), "{:?} {:?}", text, sep);
        if !sep.is_empty() {
            let expected: Vec<String> = text.split(&sep).map(|s| s.to_string()).collect();
            assert_eq!(expected, split_text(&text, &sep), "{:?} {:?}", text, sep);
        }
    }
}

#[test]
fn trim_is_that_of_strings() {
    let mut numbers = Numbers(6);
    let alphabet = ["a", " ", "\t", "\n", "\u{a0}", "\u{2003}", "\u{200b}", "("];
    for _ in 0..2000 {
        let text = numbers.text(&alphabet, 6);
        assert_eq!(text.trim(), trim_text(&text), "{:?}", text);
    }
}

#[test]
fn integers_are_read_as_the_standard_parser_reads_them() {
    let mut numbers = Numbers(7);
    let alphabet = ["0", "1", "2", "4", "7", "8", "9", "-", "+", " ", "a"];
    for _ in 0..5000 {
        let text = numbers.text(&alphabet, 12);
        assert_eq!(text.parse::<i32>().ok(), parse_i32(&text), "{:?}", text);
    }
    for n in [i32::MIN, i32::MIN + 1, -1, 0, 1, i32::MAX - 1, i32::MAX] {
        assert_eq!(Some(n), parse_i32(&n.to_string()));
    }
}

#[test]
fn short_decimals_compare_as_floats_do() {
    let mut numbers = Numbers(8);
    let alphabet = ["0", "1", "2", "5", "9", "."];
    for _ in 0..5000 {
        let a = numbers.text(&alphabet, 6);
        let b = numbers.text(&alphabet, 6);
        let wrong = |t: &str| t.matches('.').count() > 1 || !t.chars().any(|c| c.is_ascii_digit());
        let expected = if wrong(&a) || wrong(&b) {
            false
        } else {
            a.parse::<f64>().unwrap() < b.parse::<f64>().unwrap()
        };
        assert_eq!(expected, decimal_less(&a, &b), "{:?} {:?}", a, b);
    }
}

#[test]
fn direction_of_one_level_is_the_order_of_floats() {
    let mut numbers = Numbers(9);
    for _ in 0..300 {
        let a = numbers.below(400) as f64 / 8.0;
        let b = numbers.below(400) as f64 / 8.0;
        let expected = if a < b {
            "increased"
        } else if a > b {
            "decreased"
        } else {
            "changed"
        };
        let old = format!("{}s", a);
        let new = format!("+{} damage", b);
        assert_eq!(expected, absolute_change_direction(&old, &new), "{:?} {:?}", old, new);
    }
}
