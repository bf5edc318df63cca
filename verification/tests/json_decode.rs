use client_3dsdb::json::{decode_releases, all_regions, Region};

const FIXTURE: &str = r#"[
  {
    "Name": "Shovel Software Insurance Claim",
    "UID": "50010000049535",
    "TitleID": "000400000F715C00",
    "Version": "N/A",
    "Size": "25.7 MB [206 blocks]",
    "Product Code": "KTR-N-CF6P",
    "Publisher": "Batafurai"
  },
  {
    "Name": "Kid Icarus: Uprising",
    "UID": "50010000000085",
    "TitleID": "0004000000030200",
    "Version": "N/A",
    "Size": "3.2 GB",
    "Product Code": "CTR-AKDP",
    "Publisher": "Nintendo"
  }
]"#;

#[test]
fn decodes_fixture_fields_exactly() {
    let releases = decode_releases(FIXTURE).unwrap();
    assert_eq!(releases.len(), 2);
    let first = &releases[0];
    assert_eq!(first.name, "Shovel Software Insurance Claim");
    assert_eq!(first.uid, "50010000049535");
    assert_eq!(first.title_id, "000400000F715C00");
    assert_eq!(first.version, "N/A");
    assert_eq!(first.size, "25.7 MB [206 blocks]");
    assert_eq!(first.product_code, "KTR-N-CF6P");
    assert_eq!(first.publisher, "Batafurai");
}

#[test]
fn decodes_canonical_field_names_too() {
    let text = r#"[{"name":"A","uid":"1","title_id":"T","version":"v","size":"s","product_code":"p","publisher":"pub"}]"#;
    let releases = decode_releases(text).unwrap();
    assert_eq!(releases.len(), 1);
    assert_eq!(releases[0].name, "A");
    assert_eq!(releases[0].title_id, "T");
}

#[test]
fn decodes_empty_array() {
    let releases = decode_releases("  [ ]  ").unwrap();
    assert_eq!(releases.len(), 0);
}

#[test]
fn decodes_string_escapes() {
    let text = r#"[{"Name":"a\nb\t\"q\" \\ \/ A","UID":"1","TitleID":"T","Version":"v","Size":"s","Product Code":"p","Publisher":"x"}]"#;
    let releases = decode_releases(text).unwrap();
    assert_eq!(releases[0].name, "a\nb\t\"q\" \\ / A");
}

#[test]
fn ignores_unknown_fields() {
    let text = r#"[{"Name":"A","UID":"1","TitleID":"T","Version":"v","Size":"s","Product Code":"p","Publisher":"x","Extra":"ignored"}]"#;
    let releases = decode_releases(text).unwrap();
    assert_eq!(releases[0].name, "A");
}

#[test]
fn truncated_document_is_decode_error() {
    let err = decode_releases(r#"[{"Name": "x""#).unwrap_err();
    assert!(err.is_decode());
    assert!(!err.is_transport());
}

#[test]
fn wrong_root_shape_is_decode_error() {
    let err = decode_releases(r#"{"Name": "x"}"#).unwrap_err();
    assert!(err.is_decode());
}

#[test]
fn non_string_value_is_decode_error() {
    let text = r#"[{"Name": 3, "UID":"1","TitleID":"T","Version":"v","Size":"s","Product Code":"p","Publisher":"x"}]"#;
    assert!(decode_releases(text).unwrap_err().is_decode());
}

#[test]
fn missing_field_is_decode_error() {
    let text = r#"[{"Name":"A","UID":"1","TitleID":"T","Version":"v","Size":"s","Product Code":"p"}]"#;
    assert!(decode_releases(text).unwrap_err().is_decode());
}

#[test]
fn duplicate_field_is_decode_error() {
    let text = r#"[{"Name":"A","name":"B","UID":"1","TitleID":"T","Version":"v","Size":"s","Product Code":"p","Publisher":"x"}]"#;
    assert!(decode_releases(text).unwrap_err().is_decode());
}

#[test]
fn trailing_garbage_is_decode_error() {
    let err = decode_releases("[] tail").unwrap_err();
    assert!(err.is_decode());
}

#[test]
fn lone_surrogate_escape_is_decode_error() {
    let text = r#"[{"Name":"\uD800","UID":"1","TitleID":"T","Version":"v","Size":"s","Product Code":"p","Publisher":"x"}]"#;
    assert!(decode_releases(text).unwrap_err().is_decode());
}

#[test]
fn region_codes_are_canonical() {
    assert_eq!(Region::GB.code(), "GB");
    assert_eq!(Region::JP.code(), "JP");
    assert_eq!(Region::KR.code(), "KR");
    assert_eq!(Region::TW.code(), "TW");
    assert_eq!(Region::US.code(), "US");
}

#[test]
fn region_urls_substitute_the_code() {
    for region in all_regions() {
        let url = region.url();
        let expected = format!(
            "https://raw.githubusercontent.com/hax0kartik/3dsdb/master/jsons/list_{}.json",
            region.code()
        );
        assert_eq!(url, expected);
    }
}

#[test]
fn all_regions_enumeration_order_is_fixed() {
    let regions = all_regions();
    assert_eq!(regions.len(), 5);
    assert_eq!(regions[0], Region::GB);
    assert_eq!(regions[1], Region::JP);
    assert_eq!(regions[2], Region::KR);
    assert_eq!(regions[3], Region::TW);
    assert_eq!(regions[4], Region::US);
}
