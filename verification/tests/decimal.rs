use await_values::decimal::{append_u64, parse_u64, parse_usize};

fn written(n: u64) -> String {
    let mut text = String::from("<");
    append_u64(&mut text, n);
    text
}

#[test]
fn numbers_are_written_without_superfluous_zeros() {
    assert_eq!(written(0), "<0");
    assert_eq!(written(7), "<7");
    assert_eq!(written(10), "<10");
    assert_eq!(written(1234567890), "<1234567890");
    assert_eq!(written(u64::MAX), "<18446744073709551615");
}

#[test]
fn numbers_are_read_as_std_reads_them() {
    for text in [
        "",
        "+",
        "-",
        "0",
        "-0",
        "+0",
        "++1",
        "007",
        "+42",
        " 42",
        "42 ",
        "4 2",
        "4_2",
        "0x10",
        "abc",
        "\u{662}",
        "18446744073709551615",
        "18446744073709551616",
        "18446744073709551620",
        "99999999999999999999",
        "000000000000000000000000000001",
    ] {
        assert_eq!(parse_u64(text), text.parse::<u64>().ok(), "{text:?}");
        assert_eq!(parse_usize(text), text.parse::<usize>().ok(), "{text:?}");
    }
}

#[test]
fn what_is_written_can_be_read() {
    for n in [0, 1, 9, 10, 99, 100, 12345, u64::MAX - 1, u64::MAX] {
        assert_eq!(parse_u64(&written(n)[1..]), Some(n));
    }
}
