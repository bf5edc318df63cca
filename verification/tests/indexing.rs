use client_3dsdb::json::{build_index, decode_releases, Release};

fn record(name: &str, title_id: &str) -> Release {
    Release {
        name: name.to_string(),
        uid: "0".to_string(),
        title_id: title_id.to_string(),
        version: "N/A".to_string(),
        size: "1 MB".to_string(),
        product_code: "CTR-XXXX".to_string(),
        publisher: "P".to_string(),
    }
}

#[test]
fn index_lookup_finds_each_record() {
    let ix = build_index(vec![record("a", "T1"), record("b", "T2")]);
    assert_eq!(ix.len(), 2);
    assert_eq!(ix.get(&"T1".to_string()).unwrap().name, "a");
    assert_eq!(ix.get(&"T2".to_string()).unwrap().name, "b");
    assert!(ix.get(&"T3".to_string()).is_none());
}

#[test]
fn colliding_keys_keep_the_later_record() {
    let ix = build_index(vec![record("first", "T"), record("second", "T")]);
    assert_eq!(ix.len(), 1);
    assert_eq!(ix.get(&"T".to_string()).unwrap().name, "second");
}

#[test]
fn reordering_non_colliding_records_builds_the_same_index() {
    let forward = build_index(vec![record("a", "T1"), record("b", "T2"), record("c", "T3")]);
    let backward = build_index(vec![record("c", "T3"), record("b", "T2"), record("a", "T1")]);
    assert_eq!(forward.len(), backward.len());
    for key in ["T1", "T2", "T3"] {
        let k = key.to_string();
        assert_eq!(forward.get(&k).unwrap().name, backward.get(&k).unwrap().name);
    }
}

#[test]
fn empty_list_builds_empty_index() {
    let ix = build_index(Vec::new());
    assert_eq!(ix.len(), 0);
    assert!(ix.get(&"T".to_string()).is_none());
}

#[test]
fn fixture_round_trip_through_index() {
    let doc = r#"[{"Name":"Kid Icarus: Uprising","UID":"50010000000085","TitleID":"0004000000030200","Version":"N/A","Size":"3.2 GB","Product Code":"CTR-AKDP","Publisher":"Nintendo"}]"#;
    let releases = decode_releases(doc).unwrap();
    let ix = build_index(releases);
    let hit = ix.get(&"0004000000030200".to_string()).unwrap();
    assert_eq!(hit.name, "Kid Icarus: Uprising");
    assert_eq!(hit.uid, "50010000000085");
    assert_eq!(hit.product_code, "CTR-AKDP");
}
