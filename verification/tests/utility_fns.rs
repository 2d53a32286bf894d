use bucket_store::digest::digest_hex;
use bucket_store::utility::{file_extension, get_file_type, str_eq, u8_to_hex_str, uuid_to_string};

#[test]
fn hex_rendering_is_two_lowercase_digits_per_byte() {
    assert_eq!(u8_to_hex_str(&[]), "");
    assert_eq!(u8_to_hex_str(&[0x00]), "00");
    assert_eq!(u8_to_hex_str(&[0x00, 0xff, 0x1a]), "00ff1a");
    assert_eq!(u8_to_hex_str(&[0xde, 0xad, 0xbe, 0xef]), "deadbeef");
}

#[test]
fn digest_hex_matches_the_known_sha256_vectors() {
    assert_eq!(
        digest_hex(b"abc"),
        "ba7816bf8f01cfea414140de5dae2223b00361a396177a9cb410ff61f20015ad"
    );
    assert_eq!(
        digest_hex(b""),
        "e3b0c44298fc1c149afbf4c8996fb92427ae41e4649b934ca495991b7852b855"
    );
}

#[test]
fn file_type_is_the_part_after_the_last_dot() {
    assert_eq!(get_file_type("report.pdf"), "pdf");
    assert_eq!(get_file_type("archive.tar.gz"), "gz");
    assert_eq!(get_file_type("a.b"), "b");
}

#[test]
fn names_without_an_extension_have_none() {
    assert_eq!(file_extension("README"), None);
    assert_eq!(file_extension(".gitignore"), None);
    assert_eq!(file_extension(""), None);
    assert_eq!(file_extension("photo.jpeg"), Some("jpeg".to_owned()));
    assert_eq!(file_extension("trailing."), Some("".to_owned()));
}

#[test]
fn uuid_rendering_is_the_hyphenated_form() {
    assert_eq!(
        uuid_to_string(0),
        "00000000-0000-0000-0000-000000000000"
    );
    let id: u128 = 0x0123456789abcdef0123456789abcdef;
    assert_eq!(uuid_to_string(id), uuid::Uuid::from_u128(id).to_string());
    assert_eq!(uuid_to_string(id).len(), 36);
}

#[test]
fn string_equality_compares_contents() {
    assert!(str_eq("", ""));
    assert!(str_eq("abc", "abc"));
    assert!(!str_eq("abc", "abd"));
    assert!(!str_eq("abc", "ab"));
}
