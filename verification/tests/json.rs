use bambangshop::json::{quote, unquote};
use bambangshop::text::{chars_of, expect_text, same_text};

fn read(text: &str, start: usize) -> Option<(String, usize)> {
    unquote(&chars_of(text), start)
}

#[test]
fn quote_puts_plain_text_between_quotes() {
    assert_eq!(quote("shoes"), "\"shoes\"");
    assert_eq!(quote("Red Sneaker"), "\"Red Sneaker\"");
    assert_eq!(quote(""), "\"\"");
}

#[test]
fn quote_is_not_the_identity() {
    assert_ne!(quote("shoes"), "shoes");
    assert_eq!(quote("shoes").len(), "shoes".len() + 2);
}

#[test]
fn quote_escapes_quote_and_backslash() {
    assert_eq!(quote("say \"hi\""), "\"say \\\"hi\\\"\"");
    assert_eq!(quote("a\\b"), "\"a\\\\b\"");
    assert_eq!(quote("\\\""), "\"\\\\\\\"\"");
}

#[test]
fn quote_uses_the_short_escapes() {
    assert_eq!(quote("\u{8}"), "\"\\b\"");
    assert_eq!(quote("\t"), "\"\\t\"");
    assert_eq!(quote("\n"), "\"\\n\"");
    assert_eq!(quote("\u{c}"), "\"\\f\"");
    assert_eq!(quote("\r"), "\"\\r\"");
}

#[test]
fn quote_writes_other_control_characters_in_hex() {
    assert_eq!(quote("\u{0}"), "\"\\u0000\"");
    assert_eq!(quote("\u{1}"), "\"\\u0001\"");
    assert_eq!(quote("\u{b}"), "\"\\u000b\"");
    assert_eq!(quote("\u{e}"), "\"\\u000e\"");
    assert_eq!(quote("\u{1a}"), "\"\\u001a\"");
    assert_eq!(quote("\u{1f}"), "\"\\u001f\"");
}

#[test]
fn quote_leaves_the_rest_alone() {
    assert_eq!(quote(" "), "\" \"");
    assert_eq!(quote("/"), "\"/\"");
    assert_eq!(quote("\u{7f}"), "\"\u{7f}\"");
    assert_eq!(quote("caf\u{e9}"), "\"caf\u{e9}\"");
    assert_eq!(quote("\u{2028}\u{1f45f}"), "\"\u{2028}\u{1f45f}\"");
}

fn expected_escape(c: char) -> String {
    match c {
        '"' => "\\\"".to_string(),
        '\\' => "\\\\".to_string(),
        '\u{8}' => "\\b".to_string(),
        '\t' => "\\t".to_string(),
        '\n' => "\\n".to_string(),
        '\u{c}' => "\\f".to_string(),
        '\r' => "\\r".to_string(),
        c if (c as u32) < 0x20 => format!("\\u{:04x}", c as u32),
        c => c.to_string(),
    }
}

#[test]
fn quote_of_every_character_up_to_u_0250() {
    for code in 0u32..0x250 {
        let c = char::from_u32(code).unwrap();
        let text = c.to_string();
        assert_eq!(quote(&text), format!("\"{}\"", expected_escape(c)), "U+{:04X}", code);
    }
}

#[test]
fn unquote_reads_back_every_character_up_to_u_0250() {
    for code in 0u32..0x250 {
        let c = char::from_u32(code).unwrap();
        let text = format!("a{}z", c);
        let literal = quote(&text);
        let end = literal.chars().count();
        assert_eq!(read(&literal, 0), Some((text, end)), "U+{:04X}", code);
    }
}

#[test]
fn unquote_reads_a_literal_in_the_middle() {
    assert_eq!(read("x:\"shoes\",y", 2), Some(("shoes".to_string(), 9)));
    assert_eq!(read("\"\"", 0), Some((String::new(), 2)));
    assert_eq!(read("\"a\\\"b\"tail", 0), Some(("a\"b".to_string(), 6)));
    assert_eq!(read("\"\\u001f\\n\"", 0), Some(("\u{1f}\n".to_string(), 10)));
}

#[test]
fn unquote_counts_characters_not_bytes() {
    assert_eq!(read("\u{e9}\"\u{e9}\u{1f45f}\"", 1), Some(("\u{e9}\u{1f45f}".to_string(), 5)));
}

#[test]
fn unquote_refuses_what_is_no_literal() {
    assert_eq!(read("shoes", 0), None);
    assert_eq!(read("\"shoes", 0), None);
    assert_eq!(read("\"shoes\"", 1), None);
    assert_eq!(read("\"shoes\"", 7), None);
    assert_eq!(read("\"shoes\"", 100), None);
    assert_eq!(read("", 0), None);
    assert_eq!(read("\"a\\", 0), None);
}

#[test]
fn unquote_refuses_raw_control_characters() {
    assert_eq!(read("\"a\nb\"", 0), None);
    assert_eq!(read("\"\u{0}\"", 0), None);
    assert_eq!(read("\"\u{1f}\"", 0), None);
}

#[test]
fn unquote_refuses_escapes_that_quote_never_writes() {
    assert_eq!(read("\"\\/\"", 0), None);
    assert_eq!(read("\"\\u0041\"", 0), None);
    assert_eq!(read("\"\\u000A\"", 0), None);
    assert_eq!(read("\"\\u000a\"", 0), None);
    assert_eq!(read("\"\\u0008\"", 0), None);
    assert_eq!(read("\"\\u0020\"", 0), None);
    assert_eq!(read("\"\\u00\"", 0), None);
    assert_eq!(read("\"\\x\"", 0), None);
    assert_eq!(read("\"\\u001g\"", 0), None);
}

#[test]
fn chars_of_gives_the_characters_in_order() {
    assert_eq!(chars_of("a\u{e9}\u{1f45f}"), vec!['a', '\u{e9}', '\u{1f45f}']);
    assert_eq!(chars_of(""), Vec::<char>::new());
}

#[test]
fn same_text_compares_the_characters() {
    assert!(same_text("shoes", "shoes"));
    assert!(same_text("", ""));
    assert!(!same_text("shoes", "shoe"));
    assert!(!same_text("shoes", "Shoes"));
}

#[test]
fn expect_text_finds_a_part_where_it_stands() {
    let text = chars_of("{\"status\":1}");
    assert_eq!(expect_text(&text, 0, "{\"status\":"), Some(10));
    assert_eq!(expect_text(&text, 1, "\"status\""), Some(9));
    assert_eq!(expect_text(&text, 11, "}"), Some(12));
    assert_eq!(expect_text(&text, 12, ""), Some(12));
    assert_eq!(expect_text(&text, 3, ""), Some(3));
}

#[test]
fn expect_text_misses_a_part_that_is_not_there() {
    let text = chars_of("{\"status\":1}");
    assert_eq!(expect_text(&text, 0, "{\"Status\":"), None);
    assert_eq!(expect_text(&text, 11, "}}"), None);
    assert_eq!(expect_text(&text, 12, "}"), None);
    assert_eq!(expect_text(&text, 13, ""), None);
    assert_eq!(expect_text(&text, usize::MAX, "}"), None);
}
