use port_scanner::text::{debug_bytes_string, decimal_string};

#[test]
fn decimal_of_small_and_large_numbers() {
    assert_eq!(decimal_string(0), "0");
    assert_eq!(decimal_string(7), "7");
    assert_eq!(decimal_string(9), "9");
    assert_eq!(decimal_string(10), "10");
    assert_eq!(decimal_string(99), "99");
    assert_eq!(decimal_string(100), "100");
    assert_eq!(decimal_string(255), "255");
    assert_eq!(decimal_string(8080), "8080");
    assert_eq!(decimal_string(65535), "65535");
    assert_eq!(decimal_string(4294967295), "4294967295");
}

#[test]
fn decimal_agrees_with_the_formatter() {
    let mut n: u32 = 0;
    while n <= 70000 {
        assert_eq!(decimal_string(n), format!("{}", n));
        n += 1;
    }
}

#[test]
fn byte_list_of_no_byte() {
    assert_eq!(debug_bytes_string(&[]), "[]");
}

#[test]
fn byte_list_of_one_byte() {
    assert_eq!(debug_bytes_string(&[0]), "[0]");
    assert_eq!(debug_bytes_string(&[255]), "[255]");
}

#[test]
fn byte_list_of_several_bytes() {
    assert_eq!(debug_bytes_string(&[72, 0, 255]), "[72, 0, 255]");
    assert_eq!(debug_bytes_string(&[1, 2, 3, 10, 100]), "[1, 2, 3, 10, 100]");
}

#[test]
fn byte_list_agrees_with_the_formatter() {
    let mut bytes: Vec<u8> = Vec::new();
    let mut b: u32 = 0;
    while b <= 255 {
        bytes.push(b as u8);
        assert_eq!(debug_bytes_string(&bytes), format!("{:?}", bytes));
        b += 1;
    }
}

#[test]
fn different_bytes_have_different_lists() {
    assert_ne!(debug_bytes_string(&[1, 2]), debug_bytes_string(&[12]));
    assert_ne!(debug_bytes_string(&[1, 23]), debug_bytes_string(&[12, 3]));
    assert_ne!(debug_bytes_string(&[0]), debug_bytes_string(&[0, 0]));
}
