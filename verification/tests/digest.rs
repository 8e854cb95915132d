use spg::digest::file_md5;
use spg::digest::hash_of_digest;
use spg::text::to_lower_hex;

#[test]
fn digest_bytes_are_taken_least_significant_first() {
    let mut digest = [0u8; 16];
    digest[0] = 1;
    assert_eq!(hash_of_digest(&digest), 1);
    digest[1] = 2;
    assert_eq!(hash_of_digest(&digest), 0x201);
    let mut top = [0u8; 16];
    top[15] = 0x80;
    assert_eq!(hash_of_digest(&top), 1u128 << 127);
}

#[test]
fn digest_is_read_as_little_endian() {
    let digest: [u8; 16] = [0, 1, 2, 3, 4, 5, 6, 7, 8, 9, 10, 11, 12, 13, 14, 15];
    assert_eq!(hash_of_digest(&digest), u128::from_le_bytes(digest));
    assert_eq!(hash_of_digest(&[0xff; 16]), u128::MAX);
}

#[test]
fn hash_of_empty_content() {
    // MD5 of nothing is d41d8cd98f00b204e9800998ecf8427e.
    assert_eq!(file_md5(b""), 0x7e42f8ec980980e904b2008fd98c1dd4);
}

#[test]
fn hash_of_known_content() {
    // MD5 of "abc" is 900150983cd24fb0d6963f7d28e17f72.
    assert_eq!(file_md5(b"abc"), 0x727fe1287d3f96d6b04fd23c98500190);
    assert_eq!(to_lower_hex(file_md5(b"abc")), "727fe1287d3f96d6b04fd23c98500190");
}

#[test]
fn hash_depends_on_content_alone() {
    let one = vec![7u8; 1000];
    let other = vec![7u8; 1000];
    assert_eq!(file_md5(&one), file_md5(&other));
    let mut changed = vec![7u8; 1000];
    changed[999] = 8;
    assert_ne!(file_md5(&one), file_md5(&changed));
}
