use duskterm::accounts::{parse_account_names, split_chars};

#[test]
fn passwd_lines_map_uid_to_name() {
    let text = "root:x:0:0:root:/root:/bin/bash\n# comment\n\nalice:x:1000:1000::/home/alice:/bin/sh\r\nbob:x:notanumber:1\nshort:x\n";
    let names = parse_account_names(text);
    assert_eq!(names.len(), 2);
    assert_eq!(names.get(&0).map(String::as_str), Some("root"));
    assert_eq!(names.get(&1000).map(String::as_str), Some("alice"));
}

#[test]
fn group_lines_later_entries_win() {
    let names = parse_account_names("wheel:x:10:alice\nstaff:x:10:\nbig:x:4294967296:\n");
    assert_eq!(names.len(), 1);
    assert_eq!(names.get(&10).map(String::as_str), Some("staff"));
}

#[test]
fn a_final_line_without_line_feed_is_read() {
    let names = parse_account_names("daemon:x:+1:1");
    assert_eq!(names.get(&1).map(String::as_str), Some("daemon"));
    assert!(parse_account_names("").is_empty());
}

#[test]
fn split_keeps_empty_pieces() {
    let chars: Vec<char> = "a::b:".chars().collect();
    let pieces: Vec<String> = split_chars(&chars, ':').into_iter().map(|p| p.into_iter().collect()).collect();
    assert_eq!(pieces, vec!["a", "", "b", ""]);
}
