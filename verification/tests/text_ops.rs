use rpc_core::text::{
    ascii_lowercase, parse_base36_u32, parse_bool, parse_i64, split_str, str_contains, str_eq,
    trim_str, u64_to_dec,
};

#[test]
fn split_on_commas() {
    let fields = split_str("a,b,,c", ',');
    assert_eq!(fields, vec!["a".to_string(), "b".to_string(), "".to_string(), "c".to_string()]);
}

#[test]
fn split_without_separator_is_whole() {
    assert_eq!(split_str("alone", ','), vec!["alone".to_string()]);
    assert_eq!(split_str("", ','), vec!["".to_string()]);
}

#[test]
fn split_trailing_separator_yields_empty_field() {
    assert_eq!(split_str("a,", ','), vec!["a".to_string(), "".to_string()]);
}

#[test]
fn trim_strips_both_ends() {
    assert_eq!(trim_str("  hi\t"), "hi".to_string());
    assert_eq!(trim_str("hi"), "hi".to_string());
    assert_eq!(trim_str(" \r\n "), "".to_string());
}

#[test]
fn str_eq_compares_content() {
    assert!(str_eq("abc", "abc"));
    assert!(!str_eq("abc", "abd"));
    assert!(!str_eq("abc", "ab"));
}

#[test]
fn parse_i64_plain_and_signed() {
    assert_eq!(parse_i64("42"), Some(42));
    assert_eq!(parse_i64("+42"), Some(42));
    assert_eq!(parse_i64("-42"), Some(-42));
    assert_eq!(parse_i64("0"), Some(0));
}

#[test]
fn parse_i64_limits() {
    assert_eq!(parse_i64("9223372036854775807"), Some(i64::MAX));
    assert_eq!(parse_i64("-9223372036854775808"), Some(i64::MIN));
    assert_eq!(parse_i64("9223372036854775808"), None);
    assert_eq!(parse_i64("-9223372036854775809"), None);
}

#[test]
fn parse_i64_rejects_junk() {
    assert_eq!(parse_i64(""), None);
    assert_eq!(parse_i64("-"), None);
    assert_eq!(parse_i64("1a"), None);
    assert_eq!(parse_i64(" 1"), None);
}

#[test]
fn parse_bool_exact_words() {
    assert_eq!(parse_bool("true"), Some(true));
    assert_eq!(parse_bool("false"), Some(false));
    assert_eq!(parse_bool("True"), None);
    assert_eq!(parse_bool(""), None);
}

#[test]
fn base36_decodes_engine_codes() {
    // The two SQLSTATE shapes the error taxonomy is built from.
    assert_eq!(parse_base36_u32("R0001"), Some(45349633));
    assert_eq!(parse_base36_u32("22P02"), Some(3484946));
    assert_eq!(parse_base36_u32("r0001"), Some(45349633));
}

#[test]
fn base36_rejects_junk_and_overflow() {
    assert_eq!(parse_base36_u32(""), None);
    assert_eq!(parse_base36_u32("+"), None);
    assert_eq!(parse_base36_u32("R000!"), None);
    assert_eq!(parse_base36_u32("zzzzzzzz"), None);
    assert_eq!(parse_base36_u32("+10"), Some(36));
}

#[test]
fn decimal_formatting() {
    assert_eq!(u64_to_dec(0), "0".to_string());
    assert_eq!(u64_to_dec(42), "42".to_string());
    assert_eq!(u64_to_dec(u64::MAX), "18446744073709551615".to_string());
}

#[test]
fn substring_search() {
    assert!(str_contains("AddCrmLeadHandler", "AddCrmLeadHandler"));
    assert!(str_contains("crate::AddCrmLeadHandler", "AddCrmLead"));
    assert!(!str_contains("AddCrmLead", "AddCrmLeadHandler"));
    assert!(str_contains("anything", ""));
}

#[test]
fn lowercase_ascii_only() {
    assert_eq!(ascii_lowercase("AddCrmLead"), "addcrmlead".to_string());
    assert_eq!(ascii_lowercase("=5"), "=5".to_string());
    assert_eq!(ascii_lowercase("abc"), "abc".to_string());
}
