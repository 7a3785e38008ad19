use mini_httpd::text::{
    decimal_text, is_whitespace_char, range_is, split_ranges, str_ends_with, to_chars, trim_range,
};

fn split(text: &str, sep: char) -> Vec<String> {
    let chars = to_chars(text);
    split_ranges(&chars, 0, chars.len(), sep)
        .into_iter()
        .map(|(from, to)| chars[from..to].iter().collect())
        .collect()
}

fn trim(text: &str) -> String {
    let chars = to_chars(text);
    let (from, to) = trim_range(&chars, 0, chars.len());
    chars[from..to].iter().collect()
}

#[test]
fn chars_are_the_characters_in_order() {
    assert_eq!(to_chars(""), Vec::<char>::new());
    assert_eq!(to_chars("a\u{e9}\u{1f600}\n"), vec!['a', '\u{e9}', '\u{1f600}', '\n']);
}

#[test]
fn split_gives_the_pieces_between_separators() {
    assert_eq!(split("a b c", ' '), vec!["a", "b", "c"]);
    assert_eq!(split("", ' '), vec![""]);
    assert_eq!(split("abc", ' '), vec!["abc"]);
    assert_eq!(split(" ", ' '), vec!["", ""]);
    assert_eq!(split("a  b", ' '), vec!["a", "", "b"]);
    assert_eq!(split(" a ", ' '), vec!["", "a", ""]);
    assert_eq!(split("k:v:w", ':'), vec!["k", "v", "w"]);
}

#[test]
fn split_agrees_with_the_standard_library() {
    let samples = [
        "",
        "\n",
        "\n\n",
        "GET / HTTP/1.0\r\nHost: x\r\n\r\n",
        "no separator",
        "\u{e9}\n\u{1f600}\n\nz",
        "a\nb",
        "trailing\n",
        "\nleading",
    ];
    for sample in samples {
        for sep in ['\n', ' ', ':', '\u{e9}'] {
            let expected: Vec<String> = sample.split(sep).map(|piece| piece.to_string()).collect();
            assert_eq!(split(sample, sep), expected);
        }
    }
}

#[test]
fn split_of_a_range_stays_inside_the_range() {
    let chars = to_chars("ab cd ef");
    assert_eq!(split_ranges(&chars, 3, 8, ' '), vec![(3, 5), (6, 8)]);
    assert_eq!(split_ranges(&chars, 2, 3, ' '), vec![(2, 2), (3, 3)]);
    assert_eq!(split_ranges(&chars, 4, 4, ' '), vec![(4, 4)]);
}

#[test]
fn trim_takes_white_space_off_both_ends() {
    assert_eq!(trim("  x  "), "x");
    assert_eq!(trim(" a b \r"), "a b");
    assert_eq!(trim("\t\n\u{b}\u{c}\r x"), "x");
    assert_eq!(trim(""), "");
    assert_eq!(trim(" \t "), "");
    assert_eq!(trim("x"), "x");
    assert_eq!(trim("\u{a0}\u{2003}x\u{3000}\u{85}"), "x");
    assert_eq!(trim("\u{200b}x\u{200b}"), "\u{200b}x\u{200b}");
}

#[test]
fn trim_of_a_range_stays_inside_the_range() {
    let chars = to_chars("  ab  cd  ");
    assert_eq!(trim_range(&chars, 0, 10), (2, 8));
    assert_eq!(trim_range(&chars, 3, 7), (3, 7));
    assert_eq!(trim_range(&chars, 3, 6), (3, 4));
    assert_eq!(trim_range(&chars, 4, 8), (6, 8));
    assert_eq!(trim_range(&chars, 4, 6), (6, 6));
    assert_eq!(trim_range(&chars, 5, 5), (5, 5));
}

#[test]
fn white_space_is_what_the_standard_library_calls_white_space() {
    let mut code: u32 = 0;
    while code <= 0x10ffff {
        if let Some(c) = char::from_u32(code) {
            assert_eq!(is_whitespace_char(c), c.is_whitespace(), "U+{:04X}", code);
        }
        code += 1;
    }
}

#[test]
fn trim_agrees_with_the_standard_library() {
    let samples = [
        "",
        " ",
        " x",
        "x ",
        " \u{1680}x y\u{2028}\u{2029}\u{202f}\u{205f}",
        "\r\n",
        " value\r",
        "\u{feff}x",
    ];
    for sample in samples {
        assert_eq!(trim(sample), sample.trim());
    }
}

#[test]
fn ends_with_looks_at_the_last_character() {
    assert!(str_ends_with("/", '/'));
    assert!(str_ends_with("/a/", '/'));
    assert!(!str_ends_with("/a", '/'));
    assert!(!str_ends_with("", '/'));
    assert!(!str_ends_with("/a/ ", '/'));
    assert!(str_ends_with("x\u{e9}", '\u{e9}'));
    assert!(!str_ends_with("x\u{e9}", '\u{a9}'));
}

#[test]
fn range_is_compares_with_the_whole_word() {
    let chars = to_chars("GET HEAD");
    assert!(range_is(&chars, 0, 3, "GET"));
    assert!(range_is(&chars, 4, 8, "HEAD"));
    assert!(!range_is(&chars, 0, 3, "GE"));
    assert!(!range_is(&chars, 0, 3, "GETS"));
    assert!(!range_is(&chars, 0, 3, "GEt"));
    assert!(!range_is(&chars, 0, 4, "GET"));
    assert!(range_is(&chars, 2, 2, ""));
}

#[test]
fn decimal_is_the_usual_numeral() {
    assert_eq!(decimal_text(0), "0");
    assert_eq!(decimal_text(7), "7");
    assert_eq!(decimal_text(9), "9");
    assert_eq!(decimal_text(10), "10");
    assert_eq!(decimal_text(404), "404");
    assert_eq!(decimal_text(1203405), "1203405");
    assert_eq!(decimal_text(usize::MAX), usize::MAX.to_string());
    let mut n: usize = 0;
    while n < 2000 {
        assert_eq!(decimal_text(n), n.to_string());
        n += 1;
    }
}
