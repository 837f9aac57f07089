use exprlang::text::{
    chars_of, copy_range, count, find_line_end, found_at, push_decimal, push_integer, push_text,
    replaced, same_chars, search, skip_blank, split_at_separator, string_of, trimmed,
};

fn chars(text: &str) -> Vec<char> {
    text.chars().collect()
}

fn text(chars: &[char]) -> String {
    chars.iter().collect()
}

#[test]
fn strings_and_characters() {
    assert_eq!(chars_of("aé✓"), vec!['a', 'é', '✓']);
    assert_eq!(chars_of(""), Vec::<char>::new());
    assert_eq!(string_of(&chars("hello"), 1, 4), "ell");
    assert_eq!(string_of(&chars("hello"), 2, 2), "");
    assert_eq!(copy_range(&chars("hello"), 0, 5), chars("hello"));
    assert!(same_chars(&chars("ab"), &chars("ab")));
    assert!(!same_chars(&chars("ab"), &chars("ac")));
    assert!(!same_chars(&chars("ab"), &chars("abc")));
}

#[test]
fn blanks_and_lines() {
    assert_eq!(skip_blank(&chars(" \t\r\nx "), 0), 4);
    assert_eq!(skip_blank(&chars("x "), 0), 0);
    assert_eq!(skip_blank(&chars("  "), 1), 2);
    assert_eq!(find_line_end(&chars("ab\ncd"), 0), 2);
    assert_eq!(find_line_end(&chars("ab\rcd"), 3), 5);
    assert_eq!(find_line_end(&chars("\n"), 0), 0);
    assert_eq!(text(&trimmed(&chars("  a b \t"), 0, 7)), "a b");
    assert_eq!(text(&trimmed(&chars("xx a yy"), 2, 5)), "a");
    assert_eq!(text(&trimmed(&chars("   "), 0, 3)), "");
}

#[test]
fn searching_and_counting() {
    let hay = chars("NAME(ARGS) NAME");
    assert!(found_at(&hay, &chars("NAME"), 0));
    assert!(!found_at(&hay, &chars("NAME"), 1));
    assert!(!found_at(&hay, &chars("NAME"), 13));
    assert_eq!(search(&hay, &chars("NAME"), 1), 11);
    assert_eq!(search(&hay, &chars("ARGS"), 0), 5);
    assert_eq!(search(&hay, &chars("none"), 0), hay.len());
    assert_eq!(count(&hay, &chars("NAME")), 2);
    assert_eq!(count(&hay, &chars("ARGS")), 1);
    assert_eq!(count(&chars("aaaa"), &chars("aa")), 2);
    assert_eq!(count(&chars(""), &chars("a")), 0);
}

#[test]
fn replacing_and_splitting() {
    assert_eq!(text(&replaced(&chars("a-b-c"), &chars("-"), &chars("+-"))), "a+-b+-c");
    assert_eq!(text(&replaced(&chars("aaa"), &chars("aa"), &chars("b"))), "ba");
    assert_eq!(text(&replaced(&chars("abc"), &chars("x"), &chars("y"))), "abc");
    let pieces: Vec<String> =
        split_at_separator(&chars("a, b,,c,"), &chars(",")).iter().map(|p| text(p)).collect();
    assert_eq!(pieces, vec!["a", " b", "", "c", ""]);
    let whole: Vec<String> =
        split_at_separator(&chars("abc"), &chars("--")).iter().map(|p| text(p)).collect();
    assert_eq!(whole, vec!["abc"]);
    let empty: Vec<String> =
        split_at_separator(&chars(""), &chars(",")).iter().map(|p| text(p)).collect();
    assert_eq!(empty, vec![""]);
}

#[test]
fn numbers_in_base_ten() {
    let mut out = String::from("n=");
    push_decimal(&mut out, 0);
    push_text(&mut out, ";");
    push_decimal(&mut out, 9);
    push_text(&mut out, ";");
    push_decimal(&mut out, 10);
    push_text(&mut out, ";");
    push_decimal(&mut out, u64::MAX);
    push_text(&mut out, ";");
    push_integer(&mut out, -1);
    push_integer(&mut out, i64::MIN);
    assert_eq!(out, format!("n=0;9;10;{};-1{}", u64::MAX, i64::MIN));
}
