use page_extract::cleaner::text_cleaner;
use page_extract::page::clean_all;

#[test]
fn cleaner_deletes_breaks_without_spacing() {
    assert_eq!(text_cleaner("Hello\nWorld"), "HelloWorld");
    assert_eq!(text_cleaner("a\r\nb\tc"), "abc");
}

#[test]
fn cleaner_trims_surrounding_white_space() {
    assert_eq!(text_cleaner("   padded text  "), "padded text");
    assert_eq!(text_cleaner("\u{a0}\u{3000}wide\u{2003} "), "wide");
}

#[test]
fn cleaner_keeps_inner_spaces() {
    assert_eq!(text_cleaner("  two  words "), "two  words");
}

#[test]
fn cleaner_on_empty_and_blank() {
    assert_eq!(text_cleaner(""), "");
    assert_eq!(text_cleaner(" \r\n\t "), "");
}

#[test]
fn cleaner_breaks_between_spaces_then_trim() {
    assert_eq!(text_cleaner(" \n x \t"), "x");
}

#[test]
fn cleaner_is_idempotent_on_samples() {
    for s in ["", " a\nb ", "\t\tx y\r\n", "\u{a0} z \u{85}", "plain"] {
        let once = text_cleaner(s);
        assert_eq!(text_cleaner(&once), once);
    }
}

#[test]
fn cleaner_output_has_no_breaks() {
    for s in ["a\rb\tc\nd", "\n\n", " x\t\ty \r"] {
        let out = text_cleaner(s);
        assert!(!out.contains('\r'));
        assert!(!out.contains('\t'));
        assert!(!out.contains('\n'));
    }
}

#[test]
fn clean_all_keeps_order_and_length() {
    let items = vec![
        String::from(" one\n"),
        String::from("\ttwo"),
        String::new(),
        String::from("th\rree "),
    ];
    assert_eq!(clean_all(&items), vec!["one", "two", "", "three"]);
    assert!(clean_all(&Vec::new()).is_empty());
}
