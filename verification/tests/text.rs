use root::addr::{append_ipv4, ipv4_in_cidr, read_ipv4};
use root::text::{append_decimal, chars_of, read_number, string_of, to_lower, white};
use root::Ipv4Addr;

fn number(s: &str, max: u32) -> Option<u32> {
    read_number(&chars_of(s), max)
}

fn ip(s: &str) -> Option<Ipv4Addr> {
    read_ipv4(&chars_of(s))
}

#[test]
fn numbers_are_read_up_to_a_limit() {
    assert_eq!(number("0", 255), Some(0));
    assert_eq!(number("255", 255), Some(255));
    assert_eq!(number("256", 255), None);
    assert_eq!(number("99999999999999999999", 65535), None);
    assert_eq!(number("+7", 255), Some(7));
    assert_eq!(number("0007", 255), Some(7));
    assert_eq!(number("", 255), None);
    assert_eq!(number("+", 255), None);
    assert_eq!(number("-1", 255), None);
    assert_eq!(number("1 ", 255), None);
}

#[test]
fn numbers_are_read_back_from_their_digits() {
    for x in [0u64, 9, 10, 99, 100, 12345, 65535] {
        let mut out = Vec::new();
        append_decimal(&mut out, x);
        assert_eq!(string_of(&out), x.to_string());
        assert_eq!(read_number(&out, 65535), Some(x as u32));
    }
    let mut out = vec!['x'];
    append_decimal(&mut out, u64::MAX);
    assert_eq!(string_of(&out), "x18446744073709551615");
}

#[test]
fn ipv4_addresses_are_read_strictly() {
    assert_eq!(ip("1.2.3.4"), Some(Ipv4Addr::new(1, 2, 3, 4)));
    assert_eq!(ip("255.0.255.0"), Some(Ipv4Addr::new(255, 0, 255, 0)));
    for bad in [
        "", "1.2.3", "1.2.3.4.5", "1..3.4", "256.1.1.1", "01.2.3.4", "1.2.3.+4", "1.2.3.4 ", "a.b.c.d",
        "1.2.3.",
    ] {
        assert_eq!(ip(bad), None, "{}", bad);
    }
}

#[test]
fn ipv4_addresses_are_read_back_from_their_text() {
    for a in [Ipv4Addr::new(0, 0, 0, 0), Ipv4Addr::new(10, 200, 3, 255), Ipv4Addr::new(127, 0, 0, 1)] {
        let mut out = Vec::new();
        append_ipv4(&mut out, a);
        assert_eq!(read_ipv4(&out), Some(a));
    }
}

#[test]
fn smaller_blocks_lie_in_larger_ones() {
    let net = Ipv4Addr::new(172, 16, 5, 4);
    let near = Ipv4Addr::new(172, 16, 5, 7);
    assert!(ipv4_in_cidr(near, net, 30));
    assert!(!ipv4_in_cidr(near, net, 31));
    for prefix in 0..=30 {
        assert!(ipv4_in_cidr(near, net, prefix));
    }
    assert!(ipv4_in_cidr(net, net, 255));
}

#[test]
fn white_space_and_small_letters() {
    for c in [' ', '\t', '\r', '\n', '\u{b}', '\u{85}', '\u{a0}', '\u{2003}', '\u{3000}'] {
        assert!(white(c) && c.is_whitespace());
    }
    for c in ['a', '0', '\u{200b}', '\u{180e}'] {
        assert!(!white(c) && !c.is_whitespace());
    }
    assert_eq!(string_of(&to_lower(&chars_of("AbZ\u{c4}9"))), "abz\u{c4}9");
}
