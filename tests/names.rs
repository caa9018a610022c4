use unzip_legacy::codec::{decode_zip_filename, parse_encoding, NameError};
use unzip_legacy::listing::{list_names, try_all_encodings};

fn latin1_deja() -> Vec<u8> {
    vec![0x64, 0xE9, 0x6A, 0xE0, 0x2E, 0x74, 0x78, 0x74]
}

#[test]
fn latin1_name_fails_under_utf8() {
    let codec = parse_encoding("utf-8").unwrap();
    assert_eq!(codec.name, "utf-8");
    match decode_zip_filename(&codec, &latin1_deja(), "entry0") {
        Err(NameError::Undecodable { codec, entry }) => {
            assert_eq!(codec, "utf-8");
            assert_eq!(entry, "entry0");
        }
        other => panic!("unexpected {:?}", other),
    }
}

#[test]
fn latin1_name_decodes_under_iso_8859_1() {
    let codec = parse_encoding("iso-8859-1").unwrap();
    let name = decode_zip_filename(&codec, &latin1_deja(), "entry0").unwrap();
    assert_eq!(name, "déjà.txt");
}

#[test]
fn utf8_name_decodes() {
    let codec = parse_encoding("UTF8").unwrap();
    let name = decode_zip_filename(&codec, "déjà.txt".as_bytes(), "e").unwrap();
    assert_eq!(name, "déjà.txt");
}

#[test]
fn invalid_utf8_is_not_replaced() {
    let codec = parse_encoding("utf-8").unwrap();
    let r = decode_zip_filename(&codec, &[0x61, 0xFF, 0x62], "bad");
    assert!(matches!(r, Err(NameError::Undecodable { .. })));
}

#[test]
fn unknown_label_is_rejected() {
    match parse_encoding("no-such-charset") {
        Err(NameError::UnknownEncoding { label }) => assert_eq!(label, "no-such-charset"),
        other => panic!("unexpected {:?}", other),
    }
}

#[test]
fn error_messages_name_codec_and_entry() {
    let e = NameError::Undecodable { codec: "utf-8".to_string(), entry: "x.txt".to_string() };
    assert_eq!(e.message(), "Encoding utf-8 doesn't work for file x.txt");
    let u = NameError::UnknownEncoding { label: "zz".to_string() };
    assert_eq!(u.message(), "Unknown encoding: zz");
}

#[test]
fn list_prints_names_in_directory_order() {
    let codec = parse_encoding("utf-8").unwrap();
    let raws = vec![b"a.txt".to_vec(), b"b/".to_vec(), b"b/c.txt".to_vec()];
    let entries = vec!["a.txt".to_string(), "b/".to_string(), "b/c.txt".to_string()];
    let (names, err) = list_names(&codec, &raws, &entries);
    assert!(err.is_none());
    assert_eq!(names, vec!["a.txt", "b/", "b/c.txt"]);
}

#[test]
fn list_stops_at_first_undecodable_name() {
    let codec = parse_encoding("utf-8").unwrap();
    let raws = vec![b"a.txt".to_vec(), latin1_deja(), b"c.txt".to_vec()];
    let entries = vec!["a.txt".to_string(), "d?j?.txt".to_string(), "c.txt".to_string()];
    let (names, err) = list_names(&codec, &raws, &entries);
    assert_eq!(names, vec!["a.txt"]);
    match err {
        Some(NameError::Undecodable { codec, entry }) => {
            assert_eq!(codec, "utf-8");
            assert_eq!(entry, "d?j?.txt");
        }
        other => panic!("unexpected {:?}", other),
    }
}

#[test]
fn probe_reports_each_working_codec() {
    let names = vec!["utf-8".to_string(), "windows-1252".to_string(), "iso-8859-2".to_string()];
    let lines = try_all_encodings(&names, b"abc");
    assert_eq!(lines, vec!["utf-8: abc", "windows-1252: abc", "iso-8859-2: abc"]);
}

#[test]
fn probe_skips_failing_codec() {
    let names = vec!["utf-8".to_string(), "windows-1252".to_string()];
    let lines = try_all_encodings(&names, &latin1_deja());
    assert_eq!(lines, vec!["windows-1252: déjà.txt"]);
}
