use meow_engine::encoding::{
    charset_parameter, encoding_after_labels, sniff_encoding, sniff_encoding_checked,
    sniff_meta_charset, CharsetSource,
};
use meow_engine::storage::{origin_file_name, StorageArea, StorageError, DEFAULT_STORAGE_QUOTA_BYTES};

#[test]
fn quota_failure_restores_the_previous_value() {
    let mut area = StorageArea::empty(None, 12);
    area.set("cat".to_owned(), "meow".to_owned()).unwrap();
    let error = area
        .set("cat".to_owned(), "this value is too large".to_owned())
        .unwrap_err();
    assert!(matches!(error, StorageError::QuotaExceeded { limit: 12 }));
    assert_eq!(area.get("cat").as_deref(), Some("meow"));
    assert!(
        area.set("another".to_owned(), "overflow".to_owned())
            .is_err()
    );
    assert_eq!(area.get("another"), None);
}

#[test]
fn keys_come_back_in_order_and_reads_follow_writes() {
    let mut area = StorageArea::empty(None, DEFAULT_STORAGE_QUOTA_BYTES);
    area.set("pear".to_owned(), "1".to_owned()).unwrap();
    area.set("apple".to_owned(), "2".to_owned()).unwrap();
    area.set("fig".to_owned(), "3".to_owned()).unwrap();
    area.set("apple".to_owned(), "4".to_owned()).unwrap();
    assert_eq!(area.len(), 3);
    assert_eq!(area.key(0).as_deref(), Some("apple"));
    assert_eq!(area.key(1).as_deref(), Some("fig"));
    assert_eq!(area.key(2).as_deref(), Some("pear"));
    assert_eq!(area.key(3), None);
    assert_eq!(area.get("apple").as_deref(), Some("4"));
    area.remove("fig").unwrap();
    assert_eq!(area.get("fig"), None);
    assert_eq!(area.len(), 2);
    area.clear().unwrap();
    assert_eq!(area.len(), 0);
}

#[test]
fn quota_counts_utf8_bytes_of_keys_and_values() {
    let mut area = StorageArea::empty(None, 5);
    assert!(area.set("é".to_owned(), "abc".to_owned()).is_ok());
    assert!(area.set("é".to_owned(), "abcd".to_owned()).is_err());
    assert_eq!(area.get("é").as_deref(), Some("abc"));
}

#[test]
fn origin_file_names_are_hex_of_the_origin() {
    assert_eq!(origin_file_name("a:"), "613a.json");
}

#[test]
fn charset_sniffing_prefers_bom_header_meta_then_default() {
    assert_eq!(
        sniff_encoding(b"\xef\xbb\xbf<p>x", Some("text/html; charset=shift_jis")).1,
        CharsetSource::Bom
    );
    assert_eq!(
        sniff_encoding(b"<p>x", Some("text/html; charset=utf-8")).1,
        CharsetSource::HttpHeader
    );
    assert_eq!(
        sniff_encoding(b"<meta charset='utf-8'><p>x", Some("text/html")).1,
        CharsetSource::Meta
    );
    assert_eq!(
        sniff_encoding(b"<p>x", Some("text/html")).1,
        CharsetSource::Default
    );
}

#[test]
fn sniffed_encodings_have_canonical_names() {
    assert_eq!(sniff_encoding(b"\xef\xbb\xbfx", None).0, "UTF-8");
    assert_eq!(sniff_encoding(b"\xff\xfex", None).0, "UTF-16LE");
    assert_eq!(sniff_encoding(b"\xfe\xffx", None).0, "UTF-16BE");
    assert_eq!(sniff_encoding(b"x", Some("text/html; charset=latin1")).0, "windows-1252");
    assert_eq!(sniff_encoding(b"x", Some("text/html; charset=shift_jis")).0, "Shift_JIS");
    assert_eq!(sniff_encoding(b"x", None), ("windows-1252".to_owned(), CharsetSource::Default));
}

#[test]
fn charset_parameter_reads_the_first_charset_after_the_media_type() {
    assert_eq!(charset_parameter("text/html; CharSet = \"UTF-8\" ").as_deref(), Some("UTF-8"));
    assert_eq!(charset_parameter("charset=utf-8"), None);
    assert_eq!(charset_parameter("text/html; charset=''; charset=koi8-r").as_deref(), Some("koi8-r"));
    assert_eq!(charset_parameter("text/html; boundary=x"), None);
}

#[test]
fn meta_charset_is_found_in_the_first_kilobyte() {
    assert_eq!(sniff_meta_charset(b"<META CHARSET = \"Big5\">").as_deref(), Some("big5"));
    assert_eq!(sniff_meta_charset(b"text/html; charset=EUC-JP; x").as_deref(), Some("euc-jp"));
    assert_eq!(sniff_meta_charset(b"content='text/html; charset=euc-jp'").as_deref(), Some("euc-jp'"));
    assert_eq!(sniff_meta_charset(b"<meta charset>"), None);
    let mut late = vec![b' '; 1030];
    late.extend_from_slice(b"charset=utf-8");
    assert_eq!(sniff_meta_charset(&late), None);
}

#[test]
fn an_empty_declaration_at_the_end_is_reported() {
    assert_eq!(sniff_encoding_checked(b"<meta charset=", None), None);
    assert_eq!(
        sniff_encoding_checked(b"<meta charset=", Some("text/html; charset=utf-8")),
        Some(("UTF-8".to_owned(), CharsetSource::HttpHeader))
    );
}

#[test]
fn header_label_wins_over_declaration_label() {
    assert_eq!(
        encoding_after_labels(Some("UTF-8".to_owned()), Some("Big5".to_owned())),
        ("UTF-8".to_owned(), CharsetSource::HttpHeader)
    );
    assert_eq!(
        encoding_after_labels(None, Some("Big5".to_owned())),
        ("Big5".to_owned(), CharsetSource::Meta)
    );
    assert_eq!(
        encoding_after_labels(None, None),
        ("windows-1252".to_owned(), CharsetSource::Default)
    );
}
