use ozone::fmt::{hex, push_decimal, push_hex, push_signed};

#[test]
fn hex_matches_std_formatting() {
    assert_eq!(hex(0, 0), "0x0");
    assert_eq!(hex(0xabc, 0), "0xabc");
    assert_eq!(hex(255, 18), "0x00000000000000ff");
    assert_eq!(hex(0x92000007, 10), "0x92000007");
    assert_eq!(hex(0, 6), "0x0000");
    assert_eq!(hex(u64::MAX, 18), "0xffffffffffffffff");
    for (n, w) in [(0u64, 0usize), (1, 3), (0x10, 6), (0xdead_beef, 18), (u64::MAX, 0), (0x1234, 2)] {
        assert_eq!(hex(n, w), format!("{:#0w$x}", n, w = w));
    }
}

#[test]
fn push_appends() {
    let mut s = "X[".to_string();
    push_decimal(&mut s, 5, 2);
    s.push_str("] ");
    push_hex(&mut s, 0x40, 0);
    assert_eq!(s, "X[05] 0x40");
}

#[test]
fn decimal_matches_std_formatting() {
    for (n, w) in [(0u64, 0usize), (7, 2), (28, 2), (123, 2), (u64::MAX, 0), (42, 5)] {
        let mut s = String::new();
        push_decimal(&mut s, n, w);
        assert_eq!(s, format!("{:0w$}", n, w = w));
    }
}

#[test]
fn signed_matches_std_formatting() {
    for n in [0i64, 42, -42, i64::MAX, i64::MIN, -1] {
        let mut s = String::new();
        push_signed(&mut s, n);
        assert_eq!(s, n.to_string());
    }
}
