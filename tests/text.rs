use rusty_knight_core::text::{parse_index, same_bytes, split, words};

fn b(s: &str) -> Vec<u8> {
    s.as_bytes().to_vec()
}

#[test]
fn split_keeps_empty_fields() {
    assert_eq!(split(&b("a//c"), b'/'), vec![b("a"), b(""), b("c")]);
    assert_eq!(split(&b(""), b'/'), vec![b("")]);
    assert_eq!(split(&b("1/2/3"), b'/'), vec![b("1"), b("2"), b("3")]);
}

#[test]
fn words_skip_blanks() {
    assert_eq!(words(&b("  f 1/1/1\t2/2/2 \r")), vec![b("f"), b("1/1/1"), b("2/2/2")]);
    assert!(words(&b("   ")).is_empty());
    assert!(words(&b("")).is_empty());
}

#[test]
fn parse_index_reads_decimal_digits() {
    assert_eq!(parse_index(&b("0")), Some(0));
    assert_eq!(parse_index(&b("42")), Some(42));
    assert_eq!(parse_index(&b("007")), Some(7));
    assert_eq!(parse_index(&b("")), None);
    assert_eq!(parse_index(&b("4a")), None);
    assert_eq!(parse_index(&b("-1")), None);
    assert_eq!(parse_index(&b("99999999999999999999999999")), None);
    assert_eq!(parse_index(&b(&usize::MAX.to_string())), Some(usize::MAX));
}

#[test]
fn same_bytes_compares_contents() {
    assert!(same_bytes(&b("abc"), &b("abc")));
    assert!(!same_bytes(&b("abc"), &b("abd")));
    assert!(!same_bytes(&b("ab"), &b("abc")));
}
