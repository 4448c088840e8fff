use video_diffusion::error::Error;
use video_diffusion::text::{
    chars_of, contains_text, decimal_text, decimal_wide, ends_with, insert_text, join2, join3, join_with,
    list_contains, lower_bound, pad_zeros, parse_usize, replace, same_text, signed_text, sort_unique,
    split, starts_with, strip_prefix, strip_suffix, text_less, text_of, to_ascii_lower, trim,
};
use video_diffusion::weights::check_present;

fn texts(list: &[&str]) -> Vec<String> {
    list.iter().map(|s| s.to_string()).collect()
}

#[test]
fn texts_are_searched_and_cut() {
    assert!(contains_text("abc", "bc") && !contains_text("abc", "cb"));
    assert!(starts_with("abc", "ab") && ends_with("abc", "bc"));
    assert_eq!(strip_prefix("abc", "a"), Some("bc".to_string()));
    assert_eq!(strip_prefix("abc", "b"), None);
    assert_eq!(strip_suffix("abc", "c"), Some("ab".to_string()));
    assert_eq!(replace("a.b.c", ".", "_"), "a_b_c");
    assert_eq!(replace("aaa", "aa", "b"), "ba");
    assert_eq!(split("a.b..c", '.'), texts(&["a", "b", "", "c"]));
    assert_eq!(split("", '.'), texts(&[""]));
    assert!(same_text("x", "x") && !same_text("x", "y"));
    assert_eq!(text_of(&chars_of("héllo")), "héllo");
}

#[test]
fn texts_are_changed_and_joined() {
    assert_eq!(to_ascii_lower("DPM++ É"), "dpm++ É");
    assert_eq!(trim(" \t x y \n"), "x y");
    assert_eq!(join2("a", "b"), "ab");
    assert_eq!(join3("a", "b", "c"), "abc");
    assert_eq!(join_with(&texts(&["a", "b", "c"]), ", "), "a, b, c");
    assert_eq!(join_with(&vec![], ", "), "");
    assert_eq!(pad_zeros("42", 6), "000042");
    assert_eq!(pad_zeros("1234567", 6), "1234567");
}

#[test]
fn numbers_are_read_and_written() {
    assert_eq!(parse_usize("0"), Some(0));
    assert_eq!(parse_usize("+7"), Some(7));
    assert_eq!(parse_usize("18446744073709551616"), None);
    assert_eq!(parse_usize(""), None);
    assert_eq!(parse_usize("-1"), None);
    assert_eq!(parse_usize("1a"), None);
    assert_eq!(decimal_text(0), "0");
    assert_eq!(decimal_wide(u128::MAX), u128::MAX.to_string());
    assert_eq!(signed_text(i32::MIN), "-2147483648");
    assert_eq!(signed_text(5), "5");
}

#[test]
fn lists_are_kept_in_order() {
    assert!(text_less("a", "b") && !text_less("b", "a") && text_less("a", "aa"));
    let mut list = texts(&["a", "c"]);
    assert_eq!(lower_bound(&list, "b"), 1);
    insert_text(&mut list, "b".to_string());
    assert_eq!(list, texts(&["a", "b", "c"]));
    assert_eq!(sort_unique(&texts(&["b", "a", "b"])), texts(&["a", "b"]));
    assert!(list_contains(&list, "c") && !list_contains(&list, "d"));
}

#[test]
fn errors_explain_themselves() {
    assert_eq!(Error::Msg("m".to_string()).message(), "m");
    assert_eq!(Error::Unsupported("u".to_string()).message(), "u");
    assert_eq!(Error::MissingTensor("k".to_string()).message(), "missing tensor: k");
    assert_eq!(Error::Canceled.message(), "canceled");
}

#[test]
fn the_first_missing_tensor_is_named() {
    assert!(check_present(&texts(&["a", "b"]), &texts(&["b", "a", "c"])).is_ok());
    match check_present(&texts(&["a", "b"]), &texts(&["a"])) {
        Err(Error::MissingTensor(k)) => assert_eq!(k, "b"),
        other => panic!("got {other:?}"),
    }
}
