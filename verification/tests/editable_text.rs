use duskterm::editable_text::{decode_editable_text, encode_editable_text};
use duskterm::sftp_files::{build_text_cas_token, check_save_preconditions, scratch_file_name, sibling_path, split_remote_path, OriginalFile, SaveDecision};

#[test]
fn cas_token_uses_exact_remote_bytes() {
    assert_ne!(build_text_cas_token(b"a\n"), build_text_cas_token(b"a\r\n"));
}

#[test]
fn utf8_bom_and_crlf_round_trip_without_format_drift() {
    let original = b"\xef\xbb\xbfkey=value\r\nnext=line\r\n";
    let decoded = decode_editable_text(original).expect("decode UTF-8 BOM text");

    assert_eq!(decoded.content, "key=value\nnext=line\n");
    assert_eq!(decoded.encoding, "utf-8-bom");
    assert_eq!(decoded.line_ending, "crlf");

    let encoded = encode_editable_text(&decoded.content, decoded.encoding, decoded.line_ending)
        .expect("encode UTF-8 BOM text");
    assert_eq!(encoded.bytes, original);
}

#[test]
fn utf16le_round_trip_preserves_bom_and_line_endings() {
    let encoded = encode_editable_text("标题\n正文\n", "utf-16le", "crlf").expect("encode UTF-16 LE text");
    let decoded = decode_editable_text(&encoded.bytes).expect("decode UTF-16 LE text");

    assert_eq!(decoded.content, "标题\n正文\n");
    assert_eq!(decoded.encoding, "utf-16le");
    assert_eq!(decoded.line_ending, "crlf");
}

#[test]
fn gbk_round_trip_preserves_chinese_text() {
    let encoded = encode_editable_text("中文配置=启用\n", "gbk", "lf").expect("encode GBK text");
    let decoded = decode_editable_text(&encoded.bytes).expect("decode GBK text");

    assert_eq!(decoded.content, "中文配置=启用\n");
    assert_eq!(decoded.encoding, "gbk");
    assert_eq!(decoded.line_ending, "lf");
}

#[test]
fn cas_token_is_the_sha256_in_hex() {
    assert_eq!(
        build_text_cas_token(b""),
        "sha256:e3b0c44298fc1c149afbf4c8996fb92427ae41e4649b934ca495991b7852b855"
    );
    assert_eq!(
        build_text_cas_token(b"abc"),
        "sha256:ba7816bf8f01cfea414140de5dae2223b00361a396177a9cb410ff61f20015ad"
    );
}

#[test]
fn other_encodings_and_errors() {
    let be = encode_editable_text("a😀\r\n", "utf-16be", "cr").unwrap();
    assert_eq!(be.bytes, vec![0xfe, 0xff, 0x00, 0x61, 0xd8, 0x3d, 0xde, 0x00, 0x00, 0x0d]);
    let back = decode_editable_text(&be.bytes).unwrap();
    assert_eq!(back.content, "a😀\n");
    assert_eq!(back.line_ending, "cr");
    assert_eq!(
        encode_editable_text("😀", "gbk", "lf").unwrap_err(),
        "Save Error: content cannot be encoded as gbk"
    );
    assert_eq!(encode_editable_text("é", "windows-1252", "lf").unwrap().bytes, vec![0xe9]);
    assert_eq!(encode_editable_text("x\ny", "unknown", "crlf").unwrap().bytes, b"x\r\ny".to_vec());
    assert_eq!(decode_editable_text(b"\xef\xbb\xbf\xff").unwrap_err(), "Read Error: invalid UTF-8 BOM text");
    assert_eq!(decode_editable_text(b"\xff\xfe\x00").unwrap_err(), "Read Error: invalid UTF-16 LE text");
    assert_eq!(decode_editable_text(b"\xfe\xff\xd8\x00").unwrap_err(), "Read Error: invalid UTF-16 BE text");
    assert_eq!(
        decode_editable_text(b"a\x00b").unwrap_err(),
        "Read Error: file contains binary content and cannot be edited here"
    );
    let plain = decode_editable_text(b"one\rtwo").unwrap();
    assert_eq!((plain.content.as_str(), plain.encoding, plain.line_ending), ("one\ntwo", "utf-8", "cr"));
    let latin = decode_editable_text(b"caf\xe9").unwrap();
    assert_eq!(latin.encoding, "windows-1252");
}

#[test]
fn save_preconditions() {
    let file = OriginalFile { bytes: b"old".to_vec(), modified: 10, size: 3 };
    let token = build_text_cas_token(b"old");
    assert_eq!(check_save_preconditions(&Some(file.clone()), b"new", Some(10), Some(3), Some(&token)).unwrap(), SaveDecision::Write);
    assert_eq!(check_save_preconditions(&Some(file.clone()), b"old", None, None, None).unwrap(), SaveDecision::Unchanged);
    assert_eq!(
        check_save_preconditions(&Some(file.clone()), b"new", None, None, Some("sha256:00")).unwrap_err(),
        "CAS mismatch: remote file changed; please reopen before saving"
    );
    assert_eq!(
        check_save_preconditions(&Some(file.clone()), b"old", None, None, Some("sha256:00")).unwrap(),
        SaveDecision::Unchanged
    );
    assert_eq!(
        check_save_preconditions(&Some(file.clone()), b"new", Some(11), None, None).unwrap_err(),
        "CAS mismatch: remote file changed (mtime 10 != expected 11)"
    );
    assert_eq!(
        check_save_preconditions(&Some(file), b"new", None, Some(4), None).unwrap_err(),
        "CAS mismatch: remote file changed (size 3 != expected 4)"
    );
    assert_eq!(
        check_save_preconditions(&None, b"new", None, None, Some("t")).unwrap_err(),
        "CAS mismatch: remote file no longer exists"
    );
    assert_eq!(
        check_save_preconditions(&None, b"new", None, Some(1), None).unwrap_err(),
        "CAS mismatch: remote file no longer exists"
    );
    assert_eq!(check_save_preconditions(&None, b"new", None, None, None).unwrap(), SaveDecision::Write);
}

#[test]
fn remote_paths_and_scratch_names() {
    assert_eq!(split_remote_path("/etc/app.conf"), ("/etc".to_string(), "app.conf".to_string()));
    assert_eq!(split_remote_path("/app.conf"), ("/".to_string(), "app.conf".to_string()));
    assert_eq!(split_remote_path("app.conf"), (String::new(), "app.conf".to_string()));
    assert_eq!(sibling_path("/", "x"), "/x");
    assert_eq!(sibling_path("", "x"), "x");
    assert_eq!(sibling_path("/etc", "x"), "/etc/x");
    assert_eq!(scratch_file_name("app.conf", "tmp", 42, 123456789012345678901), ".app.conf.tmp.42.123456789012345678901");
}
