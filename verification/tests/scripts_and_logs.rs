use duskterm::file_names::connection_log_line;
use duskterm::serial::serial_script_lines;

#[test]
fn serial_script_is_sent_line_by_line() {
    let script = "\r\n\nlogin admin\r\r\n\nshow version\r\n\r\n".to_string();
    assert_eq!(serial_script_lines(Some(&script), "\r"), vec!["login admin\r", "\r", "show version\r"]);
}

#[test]
fn a_blank_serial_script_sends_nothing() {
    assert!(serial_script_lines(None, "\n").is_empty());
    assert!(serial_script_lines(Some(&"\r\n\r\n".to_string()), "\n").is_empty());
    assert_eq!(serial_script_lines(Some(&"  ls  ".to_string()), "\n"), vec!["  ls  \n"]);
}

#[test]
fn log_lines_carry_time_session_and_event() {
    assert_eq!(connection_log_line(1700000000123, "s-1", "connected"), "1700000000123 [s-1] connected");
    assert_eq!(connection_log_line(0, "a\tb", "x\ny"), "0 [a b] x y");
}
