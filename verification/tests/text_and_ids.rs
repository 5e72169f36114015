use rfdb::graph::normalize_db_path;
use rfdb::datalog::trace::shown_as;
use rfdb::graph::id_gen::{id_from_digest, node_id_bytes};
use rfdb::graph::{compute_node_id, string_id_to_u128};
use rfdb::index::{append_id, decode_ids};
use rfdb::text::{id_to_decimal, matches_pattern, parse_id};
use rfdb::wire::{frame, frame_len, id_to_string, string_to_id};

#[test]
fn ids_are_the_first_sixteen_bytes_of_the_digest() {
    let digest = blake3::hash(b"FUNCTION|foo|mod|f.js");
    let mut first = [0u8; 16];
    first.copy_from_slice(&digest.as_bytes()[0..16]);
    assert_eq!(compute_node_id("FUNCTION", "foo", "mod", "f.js"), u128::from_le_bytes(first));
    let digest = blake3::hash(b"SERVICE:x");
    first.copy_from_slice(&digest.as_bytes()[0..16]);
    assert_eq!(string_id_to_u128("SERVICE:x"), u128::from_le_bytes(first));
    // the separator keeps fields apart
    assert_ne!(compute_node_id("ab", "c", "", ""), compute_node_id("a", "bc", "", ""));
    assert_eq!(compute_node_id("a", "b", "c", "d"), string_id_to_u128("a|b|c|d"));
}

#[test]
fn ids_from_digests() {
    let mut digest = [0u8; 32];
    assert_eq!(id_from_digest(&digest), 0);
    digest[0] = 1;
    assert_eq!(id_from_digest(&digest), 1);
    digest[1] = 2;
    assert_eq!(id_from_digest(&digest), 513);
    digest[15] = 0x80;
    assert_eq!(id_from_digest(&digest), (1u128 << 127) + 513);
    // the bytes behind the sixteenth do not count
    digest[16] = 0xff;
    digest[31] = 0xff;
    assert_eq!(id_from_digest(&digest), (1u128 << 127) + 513);
    assert_eq!(id_from_digest(&[0xff; 32]), u128::MAX);
    assert_eq!(node_id_bytes("FUNCTION", "foo", "mod", "f.js"), b"FUNCTION|foo|mod|f.js".to_vec());
    assert_eq!(node_id_bytes("", "", "", ""), b"|||".to_vec());
    assert_eq!(shown_as("Var", "\"X\""), "Var(\"X\")");
    assert_eq!(shown_as("", ""), "()");
}

#[test]
fn wire_ids() {
    assert_eq!(string_to_id("42"), 42);
    assert_eq!(string_to_id("007"), 7);
    assert_eq!(string_to_id("340282366920938463463374607431768211455"), u128::MAX);
    // too large for 128 bits, a sign, or no digits at all: hashed
    assert_eq!(
        string_to_id("340282366920938463463374607431768211456"),
        string_id_to_u128("340282366920938463463374607431768211456")
    );
    assert_eq!(string_to_id("+5"), string_id_to_u128("+5"));
    assert_eq!(string_to_id(""), string_id_to_u128(""));
    assert_eq!(string_to_id("FUNCTION:x"), string_id_to_u128("FUNCTION:x"));
    assert_eq!(id_to_string(0), "0");
    assert_eq!(id_to_string(1234567890), "1234567890");
    assert_eq!(id_to_string(u128::MAX), "340282366920938463463374607431768211455");
    for id in [0u128, 9, 10, 99, 100, 12345, u128::MAX] {
        assert_eq!(string_to_id(&id_to_string(id)), id);
        assert_eq!(parse_id(&id_to_decimal(id)), Some(id));
    }
    assert_eq!(parse_id("12a"), None);
}

#[test]
fn patterns() {
    assert!(matches_pattern("http:*", "http:route"));
    assert!(matches_pattern("http:*", "http:"));
    assert!(!matches_pattern("http:*", "http"));
    assert!(matches_pattern("*", ""));
    assert!(matches_pattern("a**", "ab"));
    assert!(matches_pattern("a*b", "a*b"));
    assert!(!matches_pattern("a*b", "axb"));
    assert!(matches_pattern("FUNCTION", "FUNCTION"));
    assert!(!matches_pattern("FUNCTION", "FUNCTIONS"));
}

#[test]
fn database_paths() {
    assert_eq!(normalize_db_path("/path/to/db/"), "/path/to/db.rfdb");
    assert_eq!(normalize_db_path("/path.d/to/db"), "/path.d/to/db.rfdb");
    assert_eq!(normalize_db_path(".hidden"), ".hidden.rfdb");
    assert_eq!(normalize_db_path(".hidden.db"), ".hidden.rfdb");
    assert_eq!(normalize_db_path("archive.tar.gz"), "archive.tar.rfdb");
    assert_eq!(normalize_db_path("name."), "name.rfdb");
    assert_eq!(normalize_db_path(""), "db.rfdb");
    assert_eq!(normalize_db_path("/"), "/db.rfdb");
    assert_eq!(normalize_db_path("a/.."), "a/../db.rfdb");
    assert_eq!(normalize_db_path("."), "./db.rfdb");
    assert_eq!(normalize_db_path("d\u{e9}j\u{e0}.vu"), "d\u{e9}j\u{e0}.rfdb");
}

#[test]
fn frames() {
    assert_eq!(frame(b"abc"), Some(vec![0, 0, 0, 3, b'a', b'b', b'c']));
    assert_eq!(frame(b""), Some(vec![0, 0, 0, 0]));
    let big = vec![7u8; 70000];
    let f = frame(&big).unwrap();
    assert_eq!(&f[0..4], &[0, 1, 0x11, 0x70]);
    assert_eq!(frame_len(&[0, 1, 0x11, 0x70]), Some(70000));
    assert_eq!(frame_len(&[0, 0, 0, 0]), Some(0));
    assert_eq!(frame_len(&[6, 0x40, 0, 0]), Some(100 * 1024 * 1024));
    assert_eq!(frame_len(&[6, 0x40, 0, 1]), None);
    assert_eq!(frame_len(&[255, 255, 255, 255]), None);
}

#[test]
fn index_values() {
    let v = append_id(None, 5);
    assert_eq!(v, 5u128.to_le_bytes().to_vec());
    let v = append_id(Some(&v), u128::MAX);
    assert_eq!(decode_ids(&v), vec![5, u128::MAX]);
    assert_eq!(decode_ids(&v[..31]), vec![5]);
    assert_eq!(decode_ids(&[]), Vec::<u128>::new());
}
