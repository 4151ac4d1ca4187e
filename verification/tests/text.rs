use forgekv::error::{ConfigError, ForgeError, ProtocolError, StoreError};
use forgekv::order::{order_of, Order};
use forgekv::text::{
    chars_of, decimal_string, find_first, find_last, lowercase, parse_unsigned, push_hexadecimal,
    split, string_of, trim,
};

fn chars(text: &str) -> Vec<char> {
    chars_of(text)
}

#[test]
fn numbers_survive_as_text() {
    for value in [0, 7, 10, 99, 12_345, u64::MAX] {
        let text = decimal_string(value);
        assert_eq!(text, format!("{value}"));
        assert_eq!(parse_unsigned(&chars(&text), u64::MAX), Some(value));
    }
    assert_eq!(parse_unsigned(&chars("+12"), u64::MAX), Some(12));
    assert_eq!(parse_unsigned(&chars("256"), 255), None);
    for text in ["", "+", "-1", "1 ", "0x1", "1a"] {
        assert_eq!(parse_unsigned(&chars(text), u64::MAX), None);
    }
}

#[test]
fn hexadecimal_is_padded() {
    let mut text = String::new();
    push_hexadecimal(&mut text, 0xbeef, 6);
    assert_eq!(text, "00beef");
}

#[test]
fn texts_are_taken_apart() {
    assert_eq!(string_of(trim(&chars(" \t a b\n"))), "a b");
    let parts: Vec<String> = split(&chars("a,,b"), ',')
        .iter()
        .map(|part| string_of(part))
        .collect();
    assert_eq!(parts, ["a", "", "b"]);
    assert_eq!(find_first(&chars("a@b@c"), '@'), Some(1));
    assert_eq!(find_last(&chars("a@b@c"), '@'), Some(3));
    assert_eq!(find_last(&chars("abc"), '@'), None);
    assert_eq!(lowercase("ABC-\u{c4}z"), "abc-\u{c4}z");
}

#[test]
fn byte_runs_are_ordered() {
    assert_eq!(order_of(b"a", b"ab"), Order::Before);
    assert_eq!(order_of(b"b", b"ab"), Order::After);
    assert_eq!(order_of(b"ab", b"ab"), Order::Same);
    assert_eq!(order_of(b"", b"\0"), Order::Before);
}

#[test]
fn errors_show_the_error_inside() {
    assert_eq!(
        ForgeError::Store(StoreError::LockPoisoned).message(),
        "store shard lock is poisoned"
    );
    assert_eq!(
        ForgeError::Protocol(ProtocolError::Truncated).message(),
        "truncated frame"
    );
    assert_eq!(
        ForgeError::Config(ConfigError::InvalidCombination("no".to_owned())).message(),
        "no"
    );
    assert_eq!(
        ConfigError::InvalidValue {
            name: "N",
            value: "a\"b\u{7f}".to_owned(),
            expected: "thing",
        }
        .message(),
        "N must be a valid thing, got \"a\\\"b\\u{7f}\""
    );
}
