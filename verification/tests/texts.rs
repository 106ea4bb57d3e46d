//! Text, numbers and paths.

use filerecovery::hash::{digest, Sha256};
use filerecovery::numbers::{parse_hex32, parse_number, to_hex};
use filerecovery::paths::{claimed_type, extension_of, is_json_path, numbered_path};
use filerecovery::recover::options::glob_match;
use filerecovery::recover::parse_at;
use filerecovery::signatures::{category_of, has_signature, Category};
use filerecovery::source::Source;
use filerecovery::times::from_dos;

fn chars(s: &str) -> Vec<char> {
    s.chars().collect()
}

#[test]
fn digests_match_known_vectors() {
    assert_eq!(
        to_hex(&digest(b"")),
        "e3b0c44298fc1c149afbf4c8996fb92427ae41e4649b934ca495991b7852b855"
    );
    assert_eq!(
        to_hex(&digest(b"abc")),
        "ba7816bf8f01cfea414140de5dae2223b00361a396177a9cb410ff61f20015ad"
    );
    assert_eq!(
        to_hex(&digest(b"abcdbcdecdefdefgefghfghighijhijkijkljklmklmnlmnomnopnopq")),
        "248d6a61d20638b8e5c026930c3e6039a33ce45964ff2167f6ecedd419db06c1"
    );
}

#[test]
fn a_digest_can_be_taken_in_parts() {
    let data: Vec<u8> = (0..1000u32).map(|i| (i % 256) as u8).collect();
    for cut in [0usize, 1, 63, 64, 65, 500, 1000] {
        let parts = Sha256::new().update(&data[..cut]).update(&data[cut..]);
        assert_eq!(parts.finalize(), digest(&data));
    }
}

#[test]
fn numbers_read_back() {
    for n in [0u64, 9, 10, 12345, u64::MAX] {
        assert_eq!(parse_number(&chars(&n.to_string())), Some(n));
    }
    assert_eq!(parse_number(&chars("18446744073709551616")), None);
    assert_eq!(parse_number(&chars("")), None);
    assert_eq!(parse_number(&chars("1x")), None);
    let d = digest(b"abc");
    assert_eq!(parse_hex32(&chars(&to_hex(&d))), Some(d));
    assert_eq!(parse_hex32(&chars("00")), None);
    assert_eq!(parse_hex32(&chars(&"0F".repeat(32))), Some(vec![0x0F; 32]));
    assert_eq!(parse_hex32(&chars(&format!("+{}", "0".repeat(63)))), None);
    assert_eq!(parse_hex32(&chars(&format!("{}+0", "0".repeat(62)))), None);
}

#[test]
fn extensions_of_paths() {
    assert_eq!(extension_of("a/b.tar.gz").as_deref(), Some("gz"));
    assert_eq!(extension_of("a.d/b"), None);
    assert_eq!(extension_of(".profile"), None);
    assert_eq!(claimed_type("x/Photo.JPG"), "jpg");
    assert_eq!(claimed_type("x/none"), "");
    assert!(is_json_path("out.JSON"));
    assert!(!is_json_path("json"));
    assert!(!is_json_path("out.json.csv"));
}

#[test]
fn patterns_fold_case_beyond_ascii() {
    assert!(glob_match("*.TXT", "notes.txt"));
    assert!(glob_match("ÜBER*", "über uns.doc"));
    assert!(glob_match("a?c", "abc"));
    assert!(!glob_match("a?c", "ac"));
    assert!(glob_match("*", ""));
}

#[test]
fn categories() {
    assert!(category_of("png") == Category::Image);
    assert!(category_of("nope") == Category::Other);
    assert_eq!(Category::Image.as_str(), "image");
    assert!(Category::from_name("image") == Some(Category::Image));
    assert!(Category::from_name("nope").is_none());
    assert!(has_signature("png"));
    assert!(!has_signature("nope"));
}

#[test]
fn dos_dates() {
    // 2000-02-29 12:34:56.
    let date = ((2000 - 1980) << 9) | (2 << 5) | 29;
    let time = (12 << 11) | (34 << 5) | 28;
    let t = from_dos(date, time).unwrap();
    assert_eq!(t.secs, 951_827_696);
    assert!(from_dos(0, 0).is_none());
}

/// A label that is not UTF-8 is read with replacement characters.
#[test]
fn labels_are_decoded_lossily() {
    let mut img = vec![0u8; 8192];
    img[1024 + 0x38] = 0x53;
    img[1024 + 0x39] = 0xEF;
    img[1024] = 16;
    img[1024 + 4] = 8;
    img[1024 + 0x14] = 1;
    img[1024 + 0x21] = 0x20;
    img[1024 + 0x28] = 16;
    img[1024 + 0x78..1024 + 0x7D].copy_from_slice(b"a\xFFb\xC3\xA9");
    let vol = parse_at(&Source::new(img), 0).unwrap();
    assert_eq!(vol.volume_label().as_deref(), Some("a\u{FFFD}bé"));
}

#[test]
fn a_taken_path_gets_a_counter() {
    assert_eq!(numbered_path("a/b.tar.gz", 0), "a/b.tar.gz");
    assert_eq!(numbered_path("a/b.tar.gz", 1), "a/b.tar_1.gz");
    assert_eq!(numbered_path("a.d/b", 12), "a.d/b_12");
    assert_eq!(numbered_path(".profile", 2), ".profile_2");
    assert_eq!(numbered_path("x.", 3), "x_3.");
    assert_ne!(numbered_path("a_1.txt", 1), numbered_path("a_1.txt", 11));
}
