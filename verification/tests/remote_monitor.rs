use duskterm::remote_monitor::{build_stats_command, parse_cpu_line, parse_net_counters, parse_u64, scan_stats_output, split_whitespace, StatsSection};

fn chars(s: &str) -> Vec<char> {
    s.chars().collect()
}

#[test]
fn cpu_lines() {
    assert_eq!(parse_cpu_line("cpu  10 20 30 40 5 6 7 8 9 10"), Some((126, 45)));
    assert_eq!(parse_cpu_line("cpu 1 2 3 4"), Some((10, 4)));
    assert_eq!(parse_cpu_line("cpu 1 2 3 4 bad"), Some((10, 4)));
    assert_eq!(parse_cpu_line("cpu 1 2 3"), None);
    assert_eq!(parse_cpu_line("cpu 1 2 x 4"), None);
    assert_eq!(parse_cpu_line("cpu 18446744073709551615 1 0 0"), Some((0, 0)));
}

#[test]
fn net_lines() {
    assert_eq!(parse_net_counters("eth0: 100 1 0 0 0 0 0 0 200 2"), Some((100, 200)));
    assert_eq!(parse_net_counters("eth0:100 1 0 0 0 0 0 0 200 2"), Some((100, 200)));
    assert_eq!(parse_net_counters("Inter-|   Receive |  Transmit"), None);
    assert_eq!(parse_net_counters("lo: 1 2 3"), None);
    assert_eq!(parse_net_counters("wl0: x 1 0 0 0 0 0 0 y 2"), Some((0, 0)));
}

#[test]
fn numbers_and_words() {
    assert_eq!(parse_u64(&chars("+42")), Some(42));
    assert_eq!(parse_u64(&chars("+")), None);
    assert_eq!(parse_u64(&chars("")), None);
    assert_eq!(parse_u64(&chars("-1")), None);
    assert_eq!(parse_u64(&chars("18446744073709551615")), Some(u64::MAX));
    assert_eq!(parse_u64(&chars("18446744073709551616")), None);
    assert_eq!(parse_u64(&chars("99999999999999999999x")), None);
    let words = split_whitespace(&chars("  a  bc\td \n"));
    assert_eq!(words, vec![chars("a"), chars("bc"), chars("d")]);
    assert!(build_stats_command().starts_with("echo '>>>CPU'; head -1 /proc/stat;"));
}

#[test]
fn stats_output_is_read_by_section() {
    let output = ">>>CPU\ncpu  10 20 30 40 5 0 0 0\n>>>MEM\nMemTotal:       8000 kB\nMemFree: 1000 kB\nBuffers: 500 kB\nCached: 1500 kB\n>>>DISK\n/dev/sda1 100 50 50 57% /\n>>>NET\n  eth0: 100 1 0 0 0 0 0 0 200 2 0 0 0 0 0 0\n  eth1: 7 1 0 0 0 0 0 0 9 2 0 0 0 0 0 0\n";
    let fields = scan_stats_output(output);
    assert_eq!(fields.section, StatsSection::Net);
    assert_eq!((fields.cpu_total, fields.cpu_idle), (105, 45));
    assert_eq!(fields.mem_total.as_deref(), Some("8000"));
    assert_eq!(fields.mem_available, None);
    assert_eq!(fields.mem_free.as_deref(), Some("1000"));
    assert_eq!(fields.buffers.as_deref(), Some("500"));
    assert_eq!(fields.cached.as_deref(), Some("1500"));
    assert_eq!(fields.disk_use.as_deref(), Some("57"));
    assert_eq!((fields.net_rx, fields.net_tx), (107, 209));
}

#[test]
fn stats_lines_outside_their_section_are_ignored() {
    let fields = scan_stats_output("cpu 1 2 3 4\nMemTotal: 5 kB\n>>>OTHER\n eth0: 1 2 3 4 5 6 7 8 9 10\n>>>MEM\r\nMemAvailable: 42 kB\r\n");
    assert_eq!((fields.cpu_total, fields.cpu_idle), (0, 0));
    assert_eq!(fields.mem_total, None);
    assert_eq!(fields.mem_available.as_deref(), Some("42"));
    assert_eq!((fields.net_rx, fields.net_tx), (0, 0));
}
