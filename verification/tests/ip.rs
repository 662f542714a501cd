use switchdns::ip::{
    count_groups, find_double_colon, is_digit_char, is_hex_digit_char, is_hex_group_range,
    is_ip_address, is_ip_range, is_ipv4_range, is_ipv6_range, is_octet_range,
};
use switchdns::text::chars_of;

fn accepted() -> Vec<&'static str> {
    vec![
        "1.1.1.1",
        "0.0.0.0",
        "255.255.255.255",
        "149.112.112.112",
        "10.0.0.1",
        "::",
        "::1",
        "1::",
        "1::2",
        "2606:4700:4700::1111",
        "2001:4860:4860::8888",
        "2001:db8:0:0:0:0:0:1",
        "2001:DB8:aBcD:0000:0001:ffff:FFFF:0",
        "1:2:3:4:5:6:7:8",
        "1:2:3:4:5:6:7::",
        "::2:3:4:5:6:7:8",
        "1:2:3:4::6:7:8",
        "::ffff:192.168.0.1",
        "::1.2.3.4",
        "1:2:3:4:5:6:1.2.3.4",
        "1:2:3:4:5::1.2.3.4",
        "64:ff9b::192.0.2.33",
        "0:0:0:0:0:0:0:0",
        "::0.0.0.0",
        "1::1.2.3.4",
        "::1:2:3:4:5:1.2.3.4",
        "1:2:3:4:5:6:7.7.7.7",
        "FFFF:ffff:FFFF:ffff:FFFF:ffff:255.255.255.255",
        "0000:0000:0000:0000:0000:0000:0000:0000",
    ]
}

fn refused() -> Vec<&'static str> {
    vec![
        "",
        " ",
        "not-an-ip",
        "1.1.1",
        "1.1.1.1.1",
        "1.1.1.",
        ".1.1.1",
        "1..1.1",
        "256.1.1.1",
        "1.1.1.256",
        "01.1.1.1",
        "1.1.1.00",
        "1.1.1.0001",
        "1.1.1.1 ",
        " 1.1.1.1",
        "1.1.1.-1",
        "1.1.1.+1",
        "1.1.1.1a",
        "a.b.c.d",
        "１.1.1.1",
        ":",
        ":::",
        "::1::",
        "1::2::3",
        "1:2:3:4:5:6:7",
        "1:2:3:4:5:6:7:8:9",
        "1:2:3:4:5:6:7:8::",
        "::1:2:3:4:5:6:7:8",
        "1:2:3:4::5:6:7:8",
        ":1:2:3:4:5:6:7",
        "1:2:3:4:5:6:7:",
        "12345::",
        "::12345",
        "g::",
        "::g",
        "1:2:3:4:5:6:7:1.2.3.4",
        "1:2:3:4:5:1.2.3.4",
        "1:2:3:4:5:6::1.2.3.4",
        "1.2.3.4::",
        "1.2.3.4::1",
        "::1.2.3.4:5",
        "::1.2.3",
        "::1.2.3.256",
        "::01.2.3.4",
        "[::1]",
        "::1%eth0",
        "fe80::1%1",
        "1::2:",
        "1:::2",
        "1:2:3:4:5:6:7::8",
        "::1:2:3:4:5:6:1.2.3.4",
        "::ffff:01.2.3.4",
        "::ffff:1.2.3.4.5",
        "::ffff:1.2.3",
        "1.2.3.4:1:2:3:4:5:6",
        "00000:0:0:0:0:0:0:0",
        "0:0:0:0:0:0:0:00000",
        "1:2:3:4:5:6:7:8 ",
        "٣.1.1.1",
        "1,1,1,1",
        "::é",
        "1.1.1.1\n",
        "0x1.0.0.1",
        "1e1.0.0.1",
        "1.1.1.1/24",
        "::/0",
    ]
}

#[test]
fn addresses_are_accepted() {
    for text in accepted() {
        assert!(is_ip_address(text), "{:?}", text);
    }
}

#[test]
fn other_texts_are_refused() {
    for text in refused() {
        assert!(!is_ip_address(text), "{:?}", text);
    }
}

#[test]
fn digits_are_told_apart() {
    for c in ['0', '5', '9'] {
        assert!(is_digit_char(c));
        assert!(is_hex_digit_char(c));
    }
    for c in ['a', 'f', 'A', 'F', 'c'] {
        assert!(!is_digit_char(c));
        assert!(is_hex_digit_char(c));
    }
    for c in ['g', 'G', '/', ':', '@', '`', ' ', '٣', 'é'] {
        assert!(!is_digit_char(c));
        assert!(!is_hex_digit_char(c));
    }
}

#[test]
fn octets_are_told_apart() {
    let cases = [
        ("0", true),
        ("7", true),
        ("10", true),
        ("255", true),
        ("199", true),
        ("256", false),
        ("999", false),
        ("00", false),
        ("01", false),
        ("", false),
        ("1000", false),
        ("1a", false),
        ("-1", false),
    ];
    for (text, expected) in cases {
        let chars = chars_of(text);
        assert_eq!(is_octet_range(&chars, 0, chars.len()), expected, "{:?}", text);
    }
}

#[test]
fn hex_groups_are_told_apart() {
    let cases = [
        ("0", true),
        ("0000", true),
        ("fFfF", true),
        ("abcd", true),
        ("", false),
        ("00000", false),
        ("g", false),
        ("1.2", false),
    ];
    for (text, expected) in cases {
        let chars = chars_of(text);
        assert_eq!(is_hex_group_range(&chars, 0, chars.len()), expected, "{:?}", text);
    }
}

#[test]
fn ranges_are_judged_alone() {
    let chars = chars_of("x1.2.3.4y::1z");
    assert!(is_ipv4_range(&chars, 1, 8));
    assert!(!is_ipv4_range(&chars, 0, 8));
    assert!(!is_ipv4_range(&chars, 1, 9));
    assert!(is_ipv6_range(&chars, 9, 12));
    assert!(!is_ipv6_range(&chars, 9, 13));
    assert!(is_ip_range(&chars, 1, 8));
    assert!(is_ip_range(&chars, 9, 12));
    assert!(!is_ip_range(&chars, 0, chars.len()));
}

#[test]
fn the_first_double_colon_is_found() {
    let chars = chars_of("1:2::3::4");
    assert_eq!(find_double_colon(&chars, 0, chars.len()), 3);
    assert_eq!(find_double_colon(&chars, 4, chars.len()), 6);
    assert_eq!(find_double_colon(&chars, 7, chars.len()), 9);
    assert_eq!(find_double_colon(&chars, 0, 4), 4);
    assert_eq!(find_double_colon(&chars, 0, 0), 0);
}

#[test]
fn groups_are_counted_up_to_the_limit() {
    let cases = [
        ("", true, 8, Some(0)),
        ("", false, 0, Some(0)),
        ("1", false, 7, Some(1)),
        ("1:2:3", false, 7, Some(3)),
        ("1:2:3", false, 3, Some(3)),
        ("1:2:3", false, 2, None),
        ("1:2:1.2.3.4", true, 8, Some(4)),
        ("1:2:1.2.3.4", true, 4, Some(4)),
        ("1:2:1.2.3.4", true, 3, None),
        ("1:2:1.2.3.4", false, 8, None),
        ("1.2.3.4", true, 7, Some(2)),
        ("1.2.3.4:1", true, 7, None),
        ("1::2", true, 8, None),
        (":1", true, 8, None),
        ("1:", true, 8, None),
        ("1:2:3:4:5:6:7:8", true, 8, Some(8)),
        ("1:2:3:4:5:6:7:8:9", true, 8, None),
    ];
    for (text, quad, max, expected) in cases {
        let chars = chars_of(text);
        assert_eq!(count_groups(&chars, 0, chars.len(), quad, max), expected, "{:?}", text);
    }
}
