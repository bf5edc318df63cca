use client_3dsdb::error::{Error, ErrorKind};
use client_3dsdb::xml;

const FIXTURE: &str = r#"<?xml version="1.0" encoding="utf-8"?>
<releases>
  <release>
    <id>1</id>
    <name>Tom Clancys Ghost Recon: Shadow Wars</name>
    <publisher>Ubisoft</publisher>
    <region>EUR</region>
    <languages>en,fr,de,it,es</languages>
    <group>Legacy</group>
    <imagesize>2048</imagesize>
    <serial>CTR-AGRP</serial>
    <titleid>0004000000037500</titleid>
    <imgcrc>5BD0B123</imgcrc>
    <filename>lgc-grsw</filename>
    <releasename>Tom_Clancys_Ghost_Recon_Shadow_Wars_EUR_3DS-LGC</releasename>
    <trimmedsize>229750272</trimmedsize>
    <firmware>1.0.0E</firmware>
    <type>1</type>
    <card>1</card>
  </release>
</releases>"#;

#[test]
fn decodes_fixture_fields_exactly_xml() {
    let releases = xml::decode_releases(FIXTURE).unwrap();
    assert_eq!(releases.len(), 1);
    let r = &releases[0];
    assert_eq!(r.id, "1");
    assert_eq!(r.name, "Tom Clancys Ghost Recon: Shadow Wars");
    assert_eq!(r.publisher, "Ubisoft");
    assert_eq!(r.region, "EUR");
    assert_eq!(r.languages, "en,fr,de,it,es");
    assert_eq!(r.group, "Legacy");
    assert_eq!(r.image_size, 2048);
    assert_eq!(r.serial, "CTR-AGRP");
    assert_eq!(r.title_id, "0004000000037500");
    assert_eq!(r.img_crc, "5BD0B123");
    assert_eq!(r.filename, "lgc-grsw");
    assert_eq!(r.release_name, "Tom_Clancys_Ghost_Recon_Shadow_Wars_EUR_3DS-LGC");
    assert_eq!(r.trimmed_size, 229750272);
    assert_eq!(r.firmware, "1.0.0E");
    assert_eq!(r._type, "1");
    assert_eq!(r.card, "1");
}

fn one_record(name_field: &str) -> String {
    format!(
        "<releases><release><id>1</id>{}<publisher>U</publisher><region>EUR</region>\
         <languages>en</languages><group>G</group><imagesize>10</imagesize><serial>S</serial>\
         <titleid>T</titleid><imgcrc>C</imgcrc><filename>F</filename><releasename>R</releasename>\
         <trimmedsize>5</trimmedsize><firmware>1.0</firmware><type>1</type><card>1</card>\
         </release></releases>",
        name_field
    )
}

#[test]
fn decodes_entities_in_text() {
    let doc = one_record("<name>A &amp; B &lt;3 &gt; &quot;q&quot; &apos;a&apos;</name>");
    let releases = xml::decode_releases(&doc).unwrap();
    assert_eq!(releases[0].name, "A & B <3 > \"q\" 'a'");
}

#[test]
fn self_closing_field_is_empty_text() {
    let doc = one_record("<name/>");
    let releases = xml::decode_releases(&doc).unwrap();
    assert_eq!(releases[0].name, "");
}

#[test]
fn canonical_field_names_decode_too() {
    let doc = "<releases><release><id>1</id><name>N</name><publisher>U</publisher>\
               <region>EUR</region><languages>en</languages><group>G</group>\
               <image_size>10</image_size><serial>S</serial><title_id>T</title_id>\
               <img_crc>C</img_crc><filename>F</filename><release_name>R</release_name>\
               <trimmed_size>5</trimmed_size><firmware>1.0</firmware><_type>1</_type>\
               <card>1</card></release></releases>";
    let releases = xml::decode_releases(doc).unwrap();
    assert_eq!(releases[0].image_size, 10);
    assert_eq!(releases[0].title_id, "T");
    assert_eq!(releases[0]._type, "1");
}

#[test]
fn empty_root_decodes_to_no_records() {
    let releases = xml::decode_releases("<releases></releases>").unwrap();
    assert_eq!(releases.len(), 0);
}

#[test]
fn size_overflowing_u64_is_decode_error() {
    let doc = one_record("<name>N</name>").replace(
        "<imagesize>10</imagesize>",
        "<imagesize>99999999999999999999</imagesize>",
    );
    assert!(xml::decode_releases(&doc).unwrap_err().is_decode());
}

#[test]
fn non_numeric_size_is_decode_error() {
    let doc = one_record("<name>N</name>").replace(
        "<imagesize>10</imagesize>",
        "<imagesize>2 MB</imagesize>",
    );
    assert!(xml::decode_releases(&doc).unwrap_err().is_decode());
}

#[test]
fn largest_u64_size_still_decodes() {
    let doc = one_record("<name>N</name>").replace(
        "<imagesize>10</imagesize>",
        "<imagesize>18446744073709551615</imagesize>",
    );
    let releases = xml::decode_releases(&doc).unwrap();
    assert_eq!(releases[0].image_size, u64::MAX);
}

#[test]
fn mismatched_close_tag_is_decode_error() {
    let doc = one_record("<name>N</nome>");
    assert!(xml::decode_releases(&doc).unwrap_err().is_decode());
}

#[test]
fn truncated_xml_is_decode_error() {
    let err = xml::decode_releases("<releases><release><id>1").unwrap_err();
    assert!(err.is_decode());
    assert!(!err.is_transport());
}

#[test]
fn wrong_root_shape_xml_is_decode_error() {
    assert!(xml::decode_releases("just text, no markup").unwrap_err().is_decode());
}

#[test]
fn bare_ampersand_is_decode_error() {
    let doc = one_record("<name>A & B</name>");
    assert!(xml::decode_releases(&doc).unwrap_err().is_decode());
}

#[test]
fn missing_field_is_decode_error_xml() {
    let doc = one_record("");
    assert!(xml::decode_releases(&doc).unwrap_err().is_decode());
}

#[test]
fn duplicate_field_is_decode_error_xml() {
    let doc = one_record("<name>A</name><name>B</name>");
    assert!(xml::decode_releases(&doc).unwrap_err().is_decode());
}

#[test]
fn xml_index_round_trip() {
    let releases = xml::decode_releases(FIXTURE).unwrap();
    let ix = xml::build_index(releases);
    let hit = ix.get(&"0004000000037500".to_string()).unwrap();
    assert_eq!(hit.name, "Tom Clancys Ghost Recon: Shadow Wars");
    assert_eq!(hit.trimmed_size, 229750272);
}

#[test]
fn error_carrier_keeps_kind_and_message() {
    let t = Error::transport("connection refused".to_string());
    assert!(t.is_transport());
    assert!(!t.is_decode());
    assert_eq!(t.kind, ErrorKind::Transport);
    assert_eq!(t.message(), "connection refused");
    let d = Error::decode("bad payload".to_string());
    assert!(d.is_decode());
    assert_eq!(d.kind, ErrorKind::Decode);
    assert_eq!(d.message, "bad payload");
}
