use asset_extractor::text::{is_whitespace, substring, trim_bounds};

#[test]
fn whitespace_is_the_unicode_property() {
    for code in 0..=0x10FFFFu32 {
        if let Some(c) = char::from_u32(code) {
            assert_eq!(is_whitespace(c), c.is_whitespace(), "U+{:04X}", code);
        }
    }
}

#[test]
fn trimming_agrees_with_str_trim() {
    let samples = [
        "",
        " ",
        "a",
        "  a  ",
        "\t a b \r\n",
        "\u{2003}x\u{3000}",
        "x\u{200b}",
        " \u{a0} ",
        "a \u{85}",
    ];
    for sample in samples {
        let chars: Vec<char> = sample.chars().collect();
        let (from, to) = trim_bounds(&chars);
        assert_eq!(substring(&chars, from, to), sample.trim());
    }
}

#[test]
fn trim_bounds_delimit_the_trimmed_text() {
    let chars: Vec<char> = "  ab c \t".chars().collect();
    assert_eq!(trim_bounds(&chars), (2, 6));
    let blank: Vec<char> = " \n ".chars().collect();
    let (from, to) = trim_bounds(&blank);
    assert_eq!(from, to);
}

#[test]
fn substring_copies_the_range() {
    let chars: Vec<char> = "héllo".chars().collect();
    assert_eq!(substring(&chars, 1, 4), "éll");
    assert_eq!(substring(&chars, 2, 2), "");
    assert_eq!(substring(&chars, 0, 5), "héllo");
}
