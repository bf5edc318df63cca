use client_3dsdb::error::Error;
use client_3dsdb::json::{decode_releases, merge_region_results, Release};

fn record(name: &str, title_id: &str) -> Release {
    Release {
        name: name.to_string(),
        uid: "0".to_string(),
        title_id: title_id.to_string(),
        version: "N/A".to_string(),
        size: "1 MB".to_string(),
        product_code: "CTR-XXXX".to_string(),
        publisher: "P".to_string(),
    }
}

#[test]
fn merges_in_region_enumeration_order() {
    let mut results = vec![
        Ok(vec![record("gb1", "1"), record("gb2", "2")]),
        Ok(vec![record("jp1", "3")]),
        Ok(vec![]),
        Ok(vec![record("tw1", "4")]),
        Ok(vec![record("us1", "5")]),
    ];
    let merged = merge_region_results(&mut results).unwrap();
    let names: Vec<&str> = merged.iter().map(|r| r.name.as_str()).collect();
    assert_eq!(names, vec!["gb1", "gb2", "jp1", "tw1", "us1"]);
}

#[test]
fn merge_order_ignores_how_partitions_were_produced() {
    // Build the same per-region lists twice, filling the buffer in two
    // different "completion orders"; the merged output must not change.
    let gb = || vec![record("gb1", "1")];
    let us = || vec![record("us1", "5")];
    let mut first: Vec<Result<Vec<Release>, Error>> = vec![
        Ok(vec![]),
        Ok(vec![]),
        Ok(vec![]),
        Ok(vec![]),
        Ok(vec![]),
    ];
    first[0] = Ok(gb());
    first[4] = Ok(us());
    let mut second: Vec<Result<Vec<Release>, Error>> = vec![
        Ok(vec![]),
        Ok(vec![]),
        Ok(vec![]),
        Ok(vec![]),
        Ok(vec![]),
    ];
    second[4] = Ok(us());
    second[0] = Ok(gb());
    let a = merge_region_results(&mut first).unwrap();
    let b = merge_region_results(&mut second).unwrap();
    let names_a: Vec<&str> = a.iter().map(|r| r.name.as_str()).collect();
    let names_b: Vec<&str> = b.iter().map(|r| r.name.as_str()).collect();
    assert_eq!(names_a, names_b);
    assert_eq!(names_a, vec!["gb1", "us1"]);
}

#[test]
fn single_failed_region_fails_the_whole_merge() {
    let mut results = vec![
        Ok(vec![record("gb1", "1")]),
        Ok(vec![record("jp1", "2")]),
        Err(Error::transport("connection refused".to_string())),
        Ok(vec![record("tw1", "3")]),
        Ok(vec![record("us1", "4")]),
    ];
    let err = merge_region_results(&mut results).unwrap_err();
    assert!(err.is_transport());
    assert_eq!(err.message(), "connection refused");
}

#[test]
fn first_failed_region_in_buffer_order_is_reported() {
    let mut results: Vec<Result<Vec<Release>, Error>> = vec![
        Ok(vec![]),
        Err(Error::transport("first".to_string())),
        Err(Error::decode("second".to_string())),
        Ok(vec![]),
        Ok(vec![]),
    ];
    let err = merge_region_results(&mut results).unwrap_err();
    assert!(err.is_transport());
    assert_eq!(err.message(), "first");
}

#[test]
fn region_slice_of_merged_list_matches_lone_fetch() {
    // One region's documents decoded alone, and the all-regions merge
    // sliced at that region's offset, hold the same records.
    let gb_doc = r#"[{"Name":"G1","UID":"1","TitleID":"A","Version":"v","Size":"s","Product Code":"p","Publisher":"x"},
                     {"Name":"G2","UID":"2","TitleID":"B","Version":"v","Size":"s","Product Code":"p","Publisher":"x"}]"#;
    let jp_doc = r#"[{"Name":"J1","UID":"3","TitleID":"C","Version":"v","Size":"s","Product Code":"p","Publisher":"x"}]"#;
    let empty_doc = "[]";

    let gb_alone = decode_releases(gb_doc).unwrap();
    let jp_alone = decode_releases(jp_doc).unwrap();
    let gb_len = gb_alone.len();
    let jp_len = jp_alone.len();

    let mut results = vec![
        decode_releases(gb_doc),
        decode_releases(jp_doc),
        decode_releases(empty_doc),
        decode_releases(empty_doc),
        decode_releases(empty_doc),
    ];
    let merged = merge_region_results(&mut results).unwrap();
    assert_eq!(merged.len(), gb_len + jp_len);
    for (i, r) in gb_alone.iter().enumerate() {
        assert_eq!(merged[i].name, r.name);
        assert_eq!(merged[i].title_id, r.title_id);
    }
    for (i, r) in jp_alone.iter().enumerate() {
        assert_eq!(merged[gb_len + i].name, r.name);
        assert_eq!(merged[gb_len + i].title_id, r.title_id);
    }
}
