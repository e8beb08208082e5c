use rconfd::checksum::Checksums;
use rconfd::json::parse_json;
use rconfd::secret::Secret;
use rconfd::secrets::Secrets;
use rconfd::value::{json_eq, Json};

#[test]
fn replace_reports_change() {
    let mut store = Secrets::new();
    // no slot at all: a first replace is a change
    assert!(store.replace("env:str:A", Secret::new(Json::Str("x".to_string()), None, 0)));
    // same payload again: no change
    assert!(!store.replace("env:str:A", Secret::new(Json::Str("x".to_string()), None, 5)));
    // different payload: change
    assert!(store.replace("env:str:A", Secret::new(Json::Str("y".to_string()), None, 9)));
    // a placeholder slot counts as a change too
    store.insert_none("env:str:B".to_string());
    assert!(store.replace("env:str:B", Secret::new(Json::Null, None, 1)));
}

#[test]
fn get_after_insert() {
    let mut store = Secrets::new();
    assert!(store.get("p").is_none());
    store.insert_none("p".to_string());
    assert_eq!(store.get("p"), Some(&None));
    store.replace("p", Secret::new(Json::Bool(true), Some(3), 7));
    let slot = store.get("p").unwrap().as_ref().unwrap();
    assert!(json_eq(&slot.value, &Json::Bool(true)));
    assert_eq!(slot.lease_duration, Some(3));
    assert_eq!(slot.fetched_at, 7);
}

#[test]
fn any_leased_scans_values() {
    let mut store = Secrets::new();
    assert!(!store.any_leased());
    store.replace("a", Secret::new(Json::Null, None, 0));
    assert!(!store.any_leased());
    // a zero-second lease still counts as leased
    store.replace("b", Secret::new(Json::Null, Some(0), 0));
    assert!(store.any_leased());
}

#[test]
fn secret_validity() {
    // no lease: always valid, never renewed
    let s = Secret::new(Json::Null, None, 100);
    assert!(s.is_valid(100));
    assert!(s.is_valid(u64::MAX));
    assert!(!s.to_renew(u64::MAX));
    assert!(!s.has_lease());
    // zero lease: stale at once
    let s = Secret::new(Json::Null, Some(0), 100);
    assert!(!s.is_valid(100));
    assert!(s.has_lease());
    // leased: valid until the lease runs out
    let s = Secret::leased(Json::Str("v".to_string()), 90, true, 1000);
    assert!(s.is_valid(1089));
    assert!(!s.is_valid(1090));
    assert_eq!(s.renew_delay(), Some(60));
    assert!(!s.to_renew(1059));
    assert!(s.to_renew(1060));
    // non-renewable: no renew delay
    let s = Secret::leased(Json::Str("v".to_string()), 90, false, 1000);
    assert_eq!(s.renew_delay(), None);
    assert!(!s.to_renew(5000));
}

#[test]
fn checksums_detect_change() {
    let mut ck = Checksums::new();
    // first insertion counts as a change
    assert!(ck.hash_file("/tmp/f", b"abc"));
    assert!(!ck.hash_file("/tmp/f", b"abc"));
    assert!(ck.hash_file("/tmp/f", b"abcd"));
    assert!(ck.hash_file("/tmp/f", b"abc"));
    // distinct paths do not interfere
    assert!(ck.hash_file("/tmp/g", b"abc"));
}

#[test]
fn checksum_is_sha1() {
    let mut ck = Checksums::new();
    ck.hash_file("/f", b"abc");
    let expected: Vec<u8> = vec![
        0xa9, 0x99, 0x3e, 0x36, 0x47, 0x06, 0x81, 0x6a, 0xba, 0x3e, 0x25, 0x71, 0x78, 0x50,
        0xc2, 0x6c, 0x9c, 0xd0, 0xd8, 0x9d,
    ];
    assert_eq!(ck.digest("/f"), Some(&expected));
    assert_eq!(ck.digest("/missing"), None);
}

#[test]
fn json_parsing() {
    assert_eq!(
        parse_json("{\"a\":1}"),
        Some(Json::Obj(vec![("a".to_string(), Json::Num("1".to_string()))]))
    );
    assert_eq!(
        parse_json("[1, true, null, \"x\"]"),
        Some(Json::Arr(vec![
            Json::Num("1".to_string()),
            Json::Bool(true),
            Json::Null,
            Json::Str("x".to_string())
        ]))
    );
    assert_eq!(parse_json("\"\""), Some(Json::Str(String::new())));
    assert_eq!(parse_json("not json"), None);
}

#[test]
fn json_equality_is_structural() {
    let a = parse_json("{\"k\":[1,2]}").unwrap();
    let b = parse_json("{\"k\":[1,2]}").unwrap();
    let c = parse_json("{\"k\":[1,3]}").unwrap();
    assert!(json_eq(&a, &b));
    assert!(!json_eq(&a, &c));
}
