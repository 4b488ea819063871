use duskterm::serial::{parse_clear_target, serial_port_label, serial_port_option, serial_write_suffix, ClearTarget};
use duskterm::serial::{
    encode_runtime_input, normalize_serial_line_endings, serial_baud_rate, serial_line_ending,
    serial_login_line_ending, serial_port_path, serial_port_stable_id, validate_serial_config,
    DataBits, SerialPortInfo, SerialPortKind, TerminalInputSettings, SERIAL_MIN_BAUD_RATE,
};
use duskterm::ssh_config::{extract_jump_host, is_local_protocol, normalized_protocol, sanitize_optional, SshConfig};
use duskterm::telnet::{normalize_telnet_term_type, TelnetNegotiator};

fn serial_config() -> SshConfig {
    SshConfig {
        protocol: Some("serial".to_string()),
        host: String::new(),
        port: 0,
        username: String::new(),
        password: None,
        private_key_path: None,
        passphrase: None,
        connect_timeout: None,
        keep_alive_interval: None,
        term_type: None,
        encoding: Some("UTF-8".to_string()),
        login_script: None,
        jump_host: None,
        jump_port: None,
        jump_username: None,
        jump_auth_type: None,
        jump_password: None,
        jump_private_key_path: None,
        jump_passphrase: None,
        serial_path: Some("COM1".to_string()),
        baud_rate: Some(9600),
        data_bits: Some(8),
        stop_bits: Some("1".to_string()),
        parity: Some("none".to_string()),
        flow_control: Some("none".to_string()),
        serial_line_ending: Some("cr".to_string()),
        serial_device_id: None,
        serial_connect_delay_ms: Some(0),
        serial_line_delay_ms: Some(0),
        local_profile: None,
        local_working_directory: None,
        initial_cols: None,
        initial_rows: None,
    }
}

#[test]
fn validates_serial_baud_rate_range() {
    let mut config = serial_config();
    config.baud_rate = Some(SERIAL_MIN_BAUD_RATE);
    assert_eq!(serial_baud_rate(&config).unwrap(), SERIAL_MIN_BAUD_RATE);
    config.baud_rate = Some(SERIAL_MIN_BAUD_RATE - 1);
    assert!(serial_baud_rate(&config).is_err());
    config.baud_rate = Some(4_000_000);
    assert_eq!(serial_baud_rate(&config).unwrap(), 4_000_000);
}

#[test]
fn normalizes_mixed_line_endings() {
    assert_eq!(
        normalize_serial_line_endings("one\rtwo\nthree\r\nfour", "\r\n"),
        "one\r\ntwo\r\nthree\r\nfour"
    );
    assert_eq!(serial_line_ending(None).unwrap(), "\r");
    assert_eq!(serial_login_line_ending(None).unwrap(), "\r\n");
}

#[test]
fn encodes_serial_input_with_configured_encoding_and_line_ending() {
    let settings = TerminalInputSettings {
        input_encoding: Some("GBK".to_string()),
        input_line_ending: Some("\r\n".to_string()),
    };

    let bytes = encode_runtime_input(&settings, "中文\r").unwrap();
    let (decoded, _, had_errors) = encoding_rs::GBK.decode(&bytes);

    assert!(!had_errors);
    assert_eq!(decoded, "中文\r\n");
}

#[test]
fn rejects_missing_path_and_unknown_encoding() {
    let mut config = serial_config();
    config.serial_path = Some("  ".to_string());
    assert!(validate_serial_config(&config).is_err());

    config.serial_path = Some("COM1".to_string());
    config.encoding = Some("not-an-encoding".to_string());
    assert!(validate_serial_config(&config).is_err());
}

#[test]
fn serial_errors_come_in_order_with_their_messages() {
    let mut config = serial_config();
    assert!(validate_serial_config(&config).is_ok());
    config.data_bits = Some(9);
    config.parity = Some("mark".to_string());
    assert_eq!(validate_serial_config(&config).unwrap_err(), "不支持的数据位: 9");
    config.data_bits = Some(7);
    assert_eq!(validate_serial_config(&config).unwrap_err(), "不支持的校验位: mark");
    config.parity = Some(" EVEN ".to_string());
    config.serial_line_delay_ms = Some(60_001);
    assert_eq!(
        validate_serial_config(&config).unwrap_err(),
        "串口脚本行延迟不能超过 60000 毫秒"
    );
    assert_eq!(duskterm::serial::serial_data_bits(&serial_config()).unwrap(), DataBits::Eight);
}

#[test]
fn stable_ids_and_port_resolution() {
    let usb = SerialPortKind::Usb {
        vid: 0x1a86,
        pid: 0x7523,
        serial_number: Some(" 42 ".to_string()),
        manufacturer: None,
        product: None,
    };
    assert_eq!(serial_port_stable_id("/dev/ttyUSB0", &usb), "usb:1a86:7523:42");
    let bare = SerialPortKind::Usb { vid: 1, pid: 0xabc, serial_number: None, manufacturer: None, product: None };
    assert_eq!(serial_port_stable_id("COM3", &bare), "usb:0001:0abc:COM3");
    assert_eq!(serial_port_stable_id("COM4", &SerialPortKind::Pci), "pci:COM4");

    let mut config = serial_config();
    config.serial_device_id = Some("usb:1a86:7523:42".to_string());
    let ports = vec![
        SerialPortInfo { port_name: "COM7".to_string(), port_type: SerialPortKind::Unknown },
        SerialPortInfo { port_name: "COM9".to_string(), port_type: usb },
    ];
    assert_eq!(serial_port_path(&config, Some(ports)).unwrap(), "COM9");
    assert_eq!(serial_port_path(&config, None).unwrap(), "COM1");
}

#[test]
fn protocol_names_and_jump_hosts() {
    assert_eq!(normalized_protocol(Some("  TELNET ")), "telnet");
    assert_eq!(normalized_protocol(None), "ssh");
    assert_eq!(normalized_protocol(Some("rdp")), "ssh");
    let mut config = serial_config();
    config.protocol = Some("Local".to_string());
    assert!(is_local_protocol(&config));
    assert_eq!(sanitize_optional(Some("  x ".to_string())), Some("x".to_string()));
    assert_eq!(sanitize_optional(Some("   ".to_string())), None);

    assert!(extract_jump_host(&config).is_none());
    config.jump_host = Some(" bastion ".to_string());
    config.jump_username = Some("ops".to_string());
    config.jump_auth_type = Some("key".to_string());
    config.jump_password = Some("secret".to_string());
    config.jump_private_key_path = Some("/k".to_string());
    let jump = extract_jump_host(&config).unwrap();
    assert_eq!(jump.host, "bastion");
    assert_eq!(jump.port, 22);
    assert_eq!(jump.password, None);
    assert_eq!(jump.private_key_path, Some("/k".to_string()));
}

#[test]
fn telnet_accepts_remote_echo() {
    let mut negotiator = TelnetNegotiator::new("xterm-256color".to_string(), 80, 24);
    let (_data, responses, remainder) = negotiator.parse(&[
        TelnetNegotiator::IAC,
        TelnetNegotiator::WILL,
        TelnetNegotiator::OPT_ECHO,
    ]);

    assert!(remainder.is_empty());
    assert_eq!(
        responses,
        vec![
            TelnetNegotiator::IAC,
            TelnetNegotiator::DO,
            TelnetNegotiator::OPT_ECHO,
        ]
    );
}

#[test]
fn telnet_reports_configured_terminal_type() {
    let term_type = normalize_telnet_term_type(Some("network"));
    let mut negotiator = TelnetNegotiator::new(term_type, 80, 24);
    let (_data, responses, remainder) = negotiator.parse(&[
        TelnetNegotiator::IAC,
        TelnetNegotiator::DO,
        TelnetNegotiator::OPT_TTYPE,
        TelnetNegotiator::IAC,
        TelnetNegotiator::SB,
        TelnetNegotiator::OPT_TTYPE,
        TelnetNegotiator::TTYPE_SEND,
        TelnetNegotiator::IAC,
        TelnetNegotiator::SE,
    ]);

    let mut expected = vec![
        TelnetNegotiator::IAC,
        TelnetNegotiator::WILL,
        TelnetNegotiator::OPT_TTYPE,
        TelnetNegotiator::IAC,
        TelnetNegotiator::SB,
        TelnetNegotiator::OPT_TTYPE,
        TelnetNegotiator::TTYPE_IS,
    ];
    expected.extend_from_slice(b"xterm-256color");
    expected.extend_from_slice(&[TelnetNegotiator::IAC, TelnetNegotiator::SE]);

    assert!(remainder.is_empty());
    assert_eq!(responses, expected);
}

#[test]
fn telnet_sends_naws_and_updates_on_resize() {
    let mut negotiator = TelnetNegotiator::new("xterm-256color".to_string(), 80, 24);
    let (_data, responses, remainder) = negotiator.parse(&[
        TelnetNegotiator::IAC,
        TelnetNegotiator::DO,
        TelnetNegotiator::OPT_NAWS,
    ]);

    assert!(remainder.is_empty());
    assert_eq!(
        responses,
        vec![
            TelnetNegotiator::IAC,
            TelnetNegotiator::WILL,
            TelnetNegotiator::OPT_NAWS,
            TelnetNegotiator::IAC,
            TelnetNegotiator::SB,
            TelnetNegotiator::OPT_NAWS,
            0,
            80,
            0,
            24,
            TelnetNegotiator::IAC,
            TelnetNegotiator::SE,
        ]
    );

    assert_eq!(
        negotiator.set_window_size(100, 40),
        vec![
            TelnetNegotiator::IAC,
            TelnetNegotiator::SB,
            TelnetNegotiator::OPT_NAWS,
            0,
            100,
            0,
            40,
            TelnetNegotiator::IAC,
            TelnetNegotiator::SE,
        ]
    );
}

#[test]
fn telnet_keeps_partial_iac_as_remainder() {
    let mut negotiator = TelnetNegotiator::new("xterm-256color".to_string(), 80, 24);
    let (data, responses, remainder) = negotiator.parse(&[b'a', TelnetNegotiator::IAC]);

    assert_eq!(data, b"a");
    assert!(responses.is_empty());
    assert_eq!(remainder, vec![TelnetNegotiator::IAC]);

    let mut combined = remainder;
    combined.extend_from_slice(&[TelnetNegotiator::WILL, TelnetNegotiator::OPT_ECHO]);
    let (_data, responses, remainder) = negotiator.parse(&combined);

    assert!(remainder.is_empty());
    assert_eq!(
        responses,
        vec![
            TelnetNegotiator::IAC,
            TelnetNegotiator::DO,
            TelnetNegotiator::OPT_ECHO,
        ]
    );
}

#[test]
fn telnet_doubles_iac_in_window_size_and_unescapes_data() {
    let mut negotiator = TelnetNegotiator::new("vt100".to_string(), 0x1ff, 0);
    let (data, responses, _) = negotiator.parse(&[
        b'x',
        TelnetNegotiator::IAC,
        TelnetNegotiator::IAC,
        TelnetNegotiator::IAC,
        TelnetNegotiator::DO,
        TelnetNegotiator::OPT_NAWS,
        TelnetNegotiator::IAC,
        TelnetNegotiator::DO,
        99,
    ]);
    assert_eq!(data, vec![b'x', 255]);
    assert_eq!(
        responses,
        vec![255, 251, 31, 255, 250, 31, 1, 255, 255, 0, 1, 255, 240, 255, 252, 99]
    );
    assert_eq!(normalize_telnet_term_type(Some(" vt100 ")), "vt100");
    assert_eq!(normalize_telnet_term_type(Some("bad term")), "xterm-256color");
}

#[test]
fn port_labels_and_write_options() {
    let usb = SerialPortKind::Usb {
        vid: 0x1a86,
        pid: 0x7523,
        serial_number: Some(" A1 ".to_string()),
        manufacturer: Some(" QinHeng ".to_string()),
        product: Some("  ".to_string()),
    };
    assert_eq!(serial_port_label("/dev/ttyUSB0", &usb), "/dev/ttyUSB0 (QinHeng / VID:1A86 PID:7523 / SN:A1)");
    let plain = SerialPortKind::Usb { vid: 0xabc, pid: 1, serial_number: None, manufacturer: None, product: None };
    assert_eq!(serial_port_label("COM3", &plain), "COM3 (VID:0ABC PID:0001)");
    assert_eq!(serial_port_label("COM4", &SerialPortKind::Bluetooth), "COM4 (Bluetooth)");
    assert_eq!(serial_port_label("COM5", &SerialPortKind::Pci), "COM5 (PCI)");
    assert_eq!(serial_port_label("COM6", &SerialPortKind::Unknown), "COM6");
    let option = serial_port_option(SerialPortInfo { port_name: "/dev/ttyUSB0".to_string(), port_type: usb });
    assert_eq!(option.vid, Some(0x1a86));
    assert_eq!(option.serial_number.as_deref(), Some(" A1 "));
    assert_eq!(option.stable_id, "usb:1a86:7523:A1");
    assert_eq!(serial_write_suffix(None).unwrap(), "");
    assert_eq!(serial_write_suffix(Some(" CRLF ")).unwrap(), "\r\n");
    assert_eq!(serial_write_suffix(Some("lf")).unwrap(), "\n");
    assert_eq!(serial_write_suffix(Some("x")).unwrap_err(), "发送行尾必须为 none、cr、lf 或 crlf");
    assert_eq!(parse_clear_target(" RX ").unwrap(), ClearTarget::Input);
    assert_eq!(parse_clear_target("tx").unwrap(), ClearTarget::Output);
    assert_eq!(parse_clear_target("all").unwrap(), ClearTarget::All);
    assert_eq!(parse_clear_target("both").unwrap_err(), "清理目标必须为 input、output 或 all");
}

#[test]
fn serial_rates_are_per_second() {
    assert_eq!(duskterm::serial::serial_byte_rate(3000, 1000, 500), 4000);
    assert_eq!(duskterm::serial::serial_byte_rate(10, 20, 1000), 0);
    assert_eq!(duskterm::serial::serial_byte_rate(7, 0, 0), 7000);
}

#[test]
fn one_serial_file_send_at_a_time() {
    let mut active = false;
    assert_eq!(duskterm::serial::begin_serial_control(&mut active, false), Ok(()));
    assert!(!active);
    assert_eq!(duskterm::serial::begin_serial_control(&mut active, true), Ok(()));
    assert!(active);
    assert_eq!(
        duskterm::serial::begin_serial_control(&mut active, true),
        Err("已有串口文件正在发送".to_string())
    );
    assert_eq!(
        duskterm::serial::begin_serial_control(&mut active, false),
        Err("串口文件发送期间暂不接受其他写入或控制操作".to_string())
    );
    assert!(active);
}
