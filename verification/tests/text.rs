use patchnotes::number::{parse_i32, write_decimal, write_magnitude};
use patchnotes::text::{
    split_text, text_before_first, text_contains, text_equal, text_less, to_chars, trim_text,
};

#[test]
fn to_chars_gives_the_characters() {
    assert_eq!(vec!['a', '\u{e9}', '\u{1f600}'], to_chars("a\u{e9}\u{1f600}"));
    assert_eq!(Vec::<char>::new(), to_chars(""));
}

#[test]
fn text_less_is_the_dictionary_order() {
    assert!(text_less("7.32", "7.32a"));
    assert!(!text_less("7.32a", "7.32"));
    assert!(!text_less("7.32", "7.32"));
    assert!(text_less("", "a"));
    assert!(!text_less("", ""));
    assert!(text_less("Heroes > Zeus", "Items"));
    assert!(text_less("Z", "a"));
    assert!(text_less("ab", "b"));
    assert!(text_less("7.32c", "7.33"));
}

#[test]
fn text_less_agrees_with_the_order_of_strings() {
    let words =
        ["", "a", "ab", "b", "\u{e9}", "\u{ffff}", "\u{10000}", "z\u{e9}", "Z", "7.32", "7.32a"];
    for a in words {
        for b in words {
            assert_eq!(a < b, text_less(a, b), "{:?} {:?}", a, b);
            assert_eq!(a == b, text_equal(a, b), "{:?} {:?}", a, b);
        }
    }
}

#[test]
fn text_contains_finds_a_word_anywhere() {
    assert!(text_contains("Heroes > Lina > Talent", "Talent"));
    assert!(text_contains("Talent", "Talent"));
    assert!(text_contains("Level 10 Talents", "Talent"));
    assert!(!text_contains("Heroes > Lina > talent", "Talent"));
    assert!(!text_contains("Talen", "Talent"));
    assert!(text_contains("anything", ""));
    assert!(text_contains("", ""));
    assert!(!text_contains("", "a"));
}

#[test]
fn split_text_cuts_at_each_separator() {
    assert_eq!(vec!["1", "3", "4", "6s"], split_text("1/3/4/6s", "/"));
    let path = split_text("Heroes > Zeus > Base Armor", " > ");
    assert_eq!(vec!["Heroes", "Zeus", "Base Armor"], path);
    assert_eq!(vec![""], split_text("", "/"));
    assert_eq!(vec!["", ""], split_text("/", "/"));
    assert_eq!(vec!["a", "", "b", ""], split_text("a//b/", "/"));
    assert_eq!(vec!["abc"], split_text("abc", " > "));
    assert_eq!(vec!["abc"], split_text("abc", ""));
    assert_eq!(vec!["", "", ""], split_text("aaaa", "aa"));
    assert_eq!(vec!["", "a"], split_text("aaa", "aa"));
}

#[test]
fn split_text_agrees_with_the_split_of_strings() {
    let texts = ["", "/", "a/b", "//", "a > b > c", " >  > ", "x >", "\u{e9}/\u{1f600}/"];
    for text in texts {
        for sep in ["/", " > ", ">"] {
            let expected: Vec<String> = text.split(sep).map(|s| s.to_string()).collect();
            assert_eq!(expected, split_text(text, sep), "{:?} {:?}", text, sep);
        }
    }
}

#[test]
fn text_before_first_cuts_at_the_first_only() {
    assert_eq!("abc", text_before_first("abc (d) (e)", " ("));
    assert_eq!("abc", text_before_first("abc", " ("));
    assert_eq!("", text_before_first(" (d)", " ("));
    assert_eq!("", text_before_first("", " ("));
}

#[test]
fn trim_text_drops_white_space_at_both_ends() {
    assert_eq!("a b", trim_text("  a b \n\t"));
    assert_eq!("a b", trim_text("a b"));
    assert_eq!("", trim_text(" \r\n "));
    assert_eq!("", trim_text(""));
    assert_eq!("x", trim_text("\u{a0}\u{2003}x\u{3000}"));
    for text in ["  a ", "\u{85}b\u{2028}", " \u{200b} ", "c"] {
        assert_eq!(text.trim(), trim_text(text));
    }
}

#[test]
fn parse_i32_reads_what_the_standard_parser_reads() {
    let texts = [
        "0", "1", "-1", "+1", "007", "-0", "2147483647", "2147483648", "-2147483648",
        "-2147483649", "99999999999999999999", "", "+", "-", "--1", "1 ", " 1", "1.5", "1e3",
        "١٢", "12a", "a12", "+-1", "0000000000000000000000012",
    ];
    for text in texts {
        assert_eq!(text.parse::<i32>().ok(), parse_i32(text), "{:?}", text);
    }
    assert_eq!(Some(-2147483648), parse_i32("-2147483648"));
    assert_eq!(None, parse_i32("2147483648"));
}

#[test]
fn write_decimal_writes_base_ten() {
    assert_eq!("0", write_decimal(0));
    assert_eq!("9", write_decimal(9));
    assert_eq!("10", write_decimal(10));
    assert_eq!("4294967295", write_decimal(u32::MAX));
    for n in [0u32, 1, 19, 100, 101, 65535, 1000000] {
        assert_eq!(n.to_string(), write_decimal(n));
    }
}

#[test]
fn write_magnitude_leaves_the_sign_out() {
    assert_eq!("3", write_magnitude(-3));
    assert_eq!("3", write_magnitude(3));
    assert_eq!("0", write_magnitude(0));
    assert_eq!("2147483648", write_magnitude(i32::MIN));
    assert_eq!("2147483647", write_magnitude(i32::MAX));
}
