use spg::text::chars_of;
use spg::text::precedes;
use spg::text::starts_with;
use spg::text::to_lower_hex;

#[test]
fn hex_of_zero_is_one_digit() {
    assert_eq!(to_lower_hex(0), "0");
}

#[test]
fn hex_has_no_leading_zeros() {
    assert_eq!(to_lower_hex(1), "1");
    assert_eq!(to_lower_hex(15), "f");
    assert_eq!(to_lower_hex(16), "10");
    assert_eq!(to_lower_hex(255), "ff");
    assert_eq!(to_lower_hex(4096), "1000");
    assert_eq!(to_lower_hex(0xdead_beef), "deadbeef");
}

#[test]
fn hex_of_the_largest_number() {
    assert_eq!(to_lower_hex(u128::MAX), "ffffffffffffffffffffffffffffffff");
}

#[test]
fn hex_agrees_with_the_standard_formatter() {
    let numbers: [u128; 6] = [0, 9, 10, 0x1234_5678_9abc_def0, 1 << 64, (1 << 127) + 7];
    for n in numbers {
        assert_eq!(to_lower_hex(n), format!("{:x}", n));
    }
}

#[test]
fn chars_of_keeps_every_character() {
    assert_eq!(chars_of("a/é.jpg"), vec!['a', '/', 'é', '.', 'j', 'p', 'g']);
    assert_eq!(chars_of(""), Vec::<char>::new());
}

#[test]
fn prefix_is_told_by_characters() {
    assert!(starts_with("/photos/a.jpg", "/photos"));
    assert!(starts_with("/photos", "/photos"));
    assert!(starts_with("/photos", ""));
    assert!(!starts_with("/photo", "/photos"));
    assert!(!starts_with("/Photos/a.jpg", "/photos"));
}

#[test]
fn order_is_that_of_the_standard_library() {
    let names = ["", "a", "ab", "b", "B", "summer", "Summer 2020", "été", "z", "日本"];
    for a in names {
        for b in names {
            assert_eq!(precedes(a, b), a < b, "{:?} before {:?}", a, b);
        }
    }
}
