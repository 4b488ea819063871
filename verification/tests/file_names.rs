use duskterm::file_names::{
    describe_payload, is_windows_reserved_name, mime_for_extension, sanitize_action_key, sanitize_field,
    sanitize_file_name, sanitize_remote_file_name, validate_resource_id,
};

#[test]
fn file_name_sanitizer_handles_invalid_and_reserved_names() {
    assert_eq!(sanitize_file_name("a<b>.txt".to_string()), "a_b_.txt");
    assert_eq!(sanitize_file_name("CON".to_string()), "_CON");
    assert_eq!(sanitize_file_name("lpt9.log".to_string()), "_lpt9.log");
    assert_eq!(sanitize_file_name("...".to_string()), "download");
}

#[test]
fn sanitizes_remote_paths_and_windows_names_consistently() {
    assert_eq!(sanitize_remote_file_name(b"../../report?.zip"), "report_.zip");
    assert_eq!(sanitize_remote_file_name(b"folder\\CON.txt"), "_CON.txt");
    assert_eq!(sanitize_remote_file_name(b".."), "download");
    assert!(is_windows_reserved_name("COM1"));
    assert!(!is_windows_reserved_name("COM10"));
    assert!(sanitize_remote_file_name("😀".repeat(200).as_bytes()).encode_utf16().count() <= 180);
}

#[test]
fn remote_names_keep_whole_characters_within_the_limit() {
    let long = sanitize_remote_file_name("😀".repeat(200).as_bytes());
    assert_eq!(long.chars().count(), 90);
    let ascii = sanitize_remote_file_name("a".repeat(300).as_bytes());
    assert_eq!(ascii.len(), 180);
    assert_eq!(sanitize_remote_file_name(b"  . report.txt . "), "report.txt");
    assert_eq!(sanitize_remote_file_name(b"tab\there"), "tab_here");
    assert_eq!(sanitize_remote_file_name(b"dir/"), "download");
    assert_eq!(sanitize_remote_file_name(b"nul.tar.gz"), "nul.tar.gz");
    assert_eq!(sanitize_remote_file_name(b"aux.log"), "_aux.log");
    assert_eq!(sanitize_remote_file_name(&[0x66, 0xff, 0x67]), "f\u{fffd}g");
}

#[test]
fn drag_names_use_the_part_before_the_first_dot() {
    assert_eq!(sanitize_file_name("nul.tar.gz".to_string()), "_nul.tar.gz");
    assert_eq!(sanitize_file_name("  report. . ".to_string()), "report");
    assert_eq!(sanitize_file_name("COM0".to_string()), "COM0");
    assert_eq!(sanitize_file_name("a|b?c*".to_string()), "a_b_c_");
}

#[test]
fn reserved_device_names() {
    for name in ["CON", "PRN", "AUX", "NUL", "COM9", "LPT1"] {
        assert!(is_windows_reserved_name(name), "{name}");
    }
    for name in ["con", "COM0", "LPT", "CONSOLE", ""] {
        assert!(!is_windows_reserved_name(name), "{name}");
    }
}

#[test]
fn action_keys_and_resource_ids() {
    assert_eq!(sanitize_action_key("open file!"), "openfile");
    assert_eq!(sanitize_action_key("  "), "action");
    assert_eq!(sanitize_action_key("a-b_c"), "a-b_c");
    assert!(validate_resource_id("bg-123").is_ok());
    assert_eq!(validate_resource_id("").unwrap_err(), "Invalid background resource id");
    assert_eq!(validate_resource_id("../x").unwrap_err(), "Invalid background resource id");
}

#[test]
fn mime_types_by_extension() {
    assert_eq!(mime_for_extension("png"), "image/png");
    assert_eq!(mime_for_extension("jpeg"), "image/jpeg");
    assert_eq!(mime_for_extension("jpg"), "image/jpeg");
    assert_eq!(mime_for_extension("svg"), "image/svg+xml");
    assert_eq!(mime_for_extension("PNG"), "application/octet-stream");
}

#[test]
fn log_fields_and_payload_kinds() {
    assert_eq!(sanitize_field("a\nb\tc"), "a b c");
    assert_eq!(describe_payload(b""), "empty");
    assert_eq!(describe_payload(b"\r\n"), "control");
    assert_eq!(describe_payload(b"ls"), "text");
    assert_eq!(describe_payload(b"ls\r"), "mixed");
}
