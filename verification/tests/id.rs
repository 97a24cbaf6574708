use std::collections::hash_map::DefaultHasher;
use std::hash::{Hash, Hasher};

use typid::ID;

#[derive(Debug)]
struct Foo {
    pub id: ID<Foo>,
}

#[derive(Debug, Hash, PartialEq, Eq, PartialOrd, Ord)]
struct Doc;

#[derive(Debug)]
struct User;

fn sample_bytes() -> [u8; 16] {
    [
        0x55, 0x0e, 0x84, 0x00, 0xe2, 0x9b, 0x41, 0xd4, 0xa7, 0x16, 0x44, 0x66, 0x55, 0x44, 0x00,
        0x00,
    ]
}

fn hash_of<T: Hash>(value: &T) -> u64 {
    let mut hasher = DefaultHasher::new();
    value.hash(&mut hasher);
    hasher.finish()
}

#[test]
fn test_general() {
    let a = Foo { id: ID::new() };
    let b = Foo { id: ID::new() };
    assert_ne!(a.id, b.id);
}

#[test]
fn text_round_trip() {
    let x = ID::<Doc>::from_bytes(sample_bytes());
    let text = x.to_string();
    assert_eq!(text, "550e8400-e29b-41d4-a716-446655440000");
    let y = ID::<Doc>::from_str(&text).unwrap();
    assert_eq!(x, y);
}

#[test]
fn structured_round_trip() {
    let x = ID::<Doc>::from_bytes(sample_bytes());
    let field = x.to_string();
    let encoded = serde_json::to_string(&field).unwrap();
    assert_eq!(encoded, "\"550e8400-e29b-41d4-a716-446655440000\"");
    let decoded: String = serde_json::from_str(&encoded).unwrap();
    let y = ID::<Doc>::from_str(&decoded).unwrap();
    assert_eq!(x, y);
    assert_eq!(y.to_string(), field);
}

#[test]
fn parse_failure_carries_input() {
    match ID::<Doc>::from_str("not-a-uuid") {
        Ok(_) => panic!("parsing must fail on malformed input"),
        Err(e) => assert_eq!(e, "not-a-uuid"),
    }
}

#[test]
fn parse_rejects_near_misses() {
    assert!(ID::<Doc>::from_str("").is_err());
    assert!(ID::<Doc>::from_str("550e8400-e29b-41d4-a716-44665544000").is_err());
    assert!(ID::<Doc>::from_str("550e8400-e29b-41d4-a716-4466554400000").is_err());
    assert!(ID::<Doc>::from_str("550e8400e29b41d4a716446655440000").is_err());
    assert!(ID::<Doc>::from_str("550e8400-e29b-41d4-a716-44665544000g").is_err());
    assert!(ID::<Doc>::from_str("550e8400-e29b-41d4-a716_446655440000").is_err());
}

#[test]
fn parse_accepts_uppercase_digits() {
    let upper = ID::<Doc>::from_str("550E8400-E29B-41D4-A716-446655440000").unwrap();
    assert_eq!(upper, ID::<Doc>::from_bytes(sample_bytes()));
    assert_eq!(upper.to_string(), "550e8400-e29b-41d4-a716-446655440000");
}

#[test]
fn equality_and_hash_agree() {
    let a = ID::<Doc>::from_bytes(sample_bytes());
    let b = ID::<Doc>::from_bytes(sample_bytes());
    assert_eq!(a, b);
    assert_eq!(hash_of(&a), hash_of(&b));
}

#[test]
fn copy_preserves_value() {
    let a = ID::<Doc>::from_bytes(sample_bytes());
    let b = a;
    let c = a.clone();
    assert_eq!(a, b);
    assert_eq!(a, c);
}

#[test]
fn ordering_is_total_and_transitive() {
    let mut lo = sample_bytes();
    lo[0] = 0x00;
    let mut hi = sample_bytes();
    hi[15] = 0x01;
    let ids = [
        ID::<Doc>::from_bytes(lo),
        ID::<Doc>::from_bytes(sample_bytes()),
        ID::<Doc>::from_bytes(hi),
    ];
    for x in ids.iter() {
        for y in ids.iter() {
            let outcomes = [x < y, x == y, x > y];
            assert_eq!(outcomes.iter().filter(|&&held| held).count(), 1);
        }
    }
    assert!(ids[0] < ids[1] && ids[1] < ids[2]);
    assert!(ids[0] < ids[2]);
}

#[test]
fn sorting_is_deterministic() {
    let mut lo = sample_bytes();
    lo[0] = 0x00;
    let mut hi = sample_bytes();
    hi[15] = 0x01;
    let a = ID::<Doc>::from_bytes(lo);
    let b = ID::<Doc>::from_bytes(sample_bytes());
    let c = ID::<Doc>::from_bytes(hi);
    let mut first = vec![c, a, b];
    let mut second = vec![b, c, a];
    first.sort_by(|x, y| x.partial_cmp(y).unwrap());
    second.sort();
    assert_eq!(first, second);
    assert!(first[0] < first[1] && first[1] < first[2]);
}

#[test]
fn tags_share_representation() {
    let doc_id = ID::<Doc>::from_bytes(sample_bytes());
    let user_id = ID::<User>::from_bytes(sample_bytes());
    assert_eq!(doc_id.uuid(), user_id.uuid());
    assert_eq!(doc_id.to_string(), user_id.to_string());
}

#[test]
fn generated_ids_follow_v4_layout() {
    let fresh = ID::<Doc>::new().uuid();
    assert_eq!(fresh[6] & 0xf0, 0x40);
    assert_eq!(fresh[8] & 0xc0, 0x80);
    let defaulted = ID::<Doc>::default().uuid();
    assert_eq!(defaulted[6] & 0xf0, 0x40);
    assert_eq!(defaulted[8] & 0xc0, 0x80);
    assert_ne!(ID::<Doc>::default(), ID::<Doc>::default());
}

#[test]
fn from_bytes_is_verbatim() {
    let raw = [0xff; 16];
    let id = ID::<Doc>::from_bytes(raw);
    assert_eq!(id.uuid(), raw);
    assert_eq!(id.to_string(), "ffffffff-ffff-ffff-ffff-ffffffffffff");
}
