use duskterm::zmodem::{
    crc16_xmodem, crc32_iso_hdlc, unescape_zdle, StreamError, StreamEvent, StreamMode,
    is_stale, TerminalStreamMux, TransferDirection, ZmodemProbe, ZDLE,
};
use std::time::Duration;
use zmodem2::{Action, Receiver, Sender};

fn hex_header(frame_type: u8) -> Vec<u8> {
    let payload = [frame_type, 0, 0, 0, 0];
    let mut encoded = payload.to_vec();
    encoded.extend_from_slice(&crc16_xmodem(&payload).to_be_bytes());
    let mut result = b"**\x18B".to_vec();
    for byte in encoded {
        result.extend_from_slice(format!("{byte:02x}").as_bytes());
    }
    result.extend_from_slice(b"\r\n\x11");
    result
}

fn binary32_header(frame_type: u8) -> Vec<u8> {
    let payload = [frame_type, 0, 0, 0, 0];
    let mut encoded = payload.to_vec();
    encoded.extend_from_slice(&crc32_iso_hdlc(&payload).to_le_bytes());
    let mut result = b"*\x18C".to_vec();
    for byte in encoded {
        if matches!(byte, 0x0d | 0x10 | 0x11 | 0x13 | 0x18 | 0x7f | 0xff) {
            result.push(ZDLE);
            result.push(match byte {
                0x7f => 0x6c,
                0xff => 0x6d,
                _ => byte ^ 0x40,
            });
        } else {
            result.push(byte);
        }
    }
    result
}

#[test]
fn normal_data_is_delayed_only_for_a_possible_header_prefix() {
    let mut probe = ZmodemProbe::new();
    let first = probe.inspect(b"shell output **");
    assert_eq!(first.terminal_data, b"shell output ");
    assert!(first.detection.is_none());

    let second = probe.inspect(b"not-zmodem");
    assert_eq!(second.terminal_data, b"**not-zmodem");
    assert!(second.detection.is_none());
}

#[test]
fn hex_header_with_non_hex_digits_is_not_held_back() {
    let mut probe = ZmodemProbe::new();
    let data = [b"**\x18B".as_slice(), &[b'z'; 14]].concat();
    let result = probe.inspect(&data);
    assert_eq!(result.terminal_data, data);
    assert!(result.detection.is_none());
    assert!(probe.flush().is_empty());

    let mut short = ZmodemProbe::new();
    let partial = short.inspect(b"**\x18B0g");
    assert_eq!(partial.terminal_data, b"**\x18B0g");
    assert!(short.flush().is_empty());

    let mut prefix = ZmodemProbe::new();
    let held = prefix.inspect(b"**\x18B01");
    assert!(held.terminal_data.is_empty());
    assert_eq!(prefix.flush(), b"**\x18B01");
}

#[test]
fn detects_valid_hex_headers_at_every_packet_boundary_without_leaking_bytes() {
    let header = hex_header(1);
    for split in 0..=header.len() {
        let mut probe = ZmodemProbe::new();
        let mut terminal = Vec::new();
        let first = probe.inspect(&[b"prompt> ".as_slice(), &header[..split]].concat());
        terminal.extend(first.terminal_data);
        let detection = if first.detection.is_some() {
            first.detection
        } else {
            let second = probe.inspect(&header[split..]);
            terminal.extend(second.terminal_data);
            second.detection
        };

        assert_eq!(terminal, b"prompt> ", "split={split}");
        assert_eq!(
            detection.map(|value| value.direction),
            Some(TransferDirection::Upload),
            "split={split}"
        );
    }
}

#[test]
fn detects_binary32_download_header() {
    let header = binary32_header(0);
    let mut probe = ZmodemProbe::new();
    let output = probe.inspect(&header);
    assert_eq!(
        output.detection.map(|value| value.direction),
        Some(TransferDirection::Download)
    );
    assert_eq!(output.protocol_data, header);
}

#[test]
fn detects_initial_frames_emitted_by_the_protocol_engine() {
    let mut sender = Sender::new().unwrap();
    let sender_wire = match sender.poll() {
        Action::WriteWire(bytes) => bytes.to_vec(),
        action => panic!("unexpected sender action: {action:?}"),
    };
    assert_eq!(
        ZmodemProbe::new()
            .inspect(&sender_wire)
            .detection
            .map(|value| value.direction),
        Some(TransferDirection::Download)
    );

    let mut receiver = Receiver::new().unwrap();
    let receiver_wire = match receiver.poll() {
        Action::WriteWire(bytes) => bytes.to_vec(),
        action => panic!("unexpected receiver action: {action:?}"),
    };
    assert_eq!(
        ZmodemProbe::new()
            .inspect(&receiver_wire)
            .detection
            .map(|value| value.direction),
        Some(TransferDirection::Upload)
    );
}

#[test]
fn decodes_zdle_delete_and_ff_escapes() {
    assert_eq!(unescape_zdle(0x6c), 0x7f);
    assert_eq!(unescape_zdle(0x6d), 0xff);
}

#[test]
fn invalid_crc_does_not_claim_the_terminal_stream() {
    let mut header = hex_header(1);
    header[10] = if header[10] == b'0' { b'1' } else { b'0' };
    let mut probe = ZmodemProbe::new();
    let output = probe.inspect(&header);
    assert!(output.detection.is_none());
    assert_eq!(output.terminal_data, header);
}

#[test]
fn mux_buffers_protocol_until_accepted() {
    let header = hex_header(1);
    let mut mux = TerminalStreamMux::new(1024);
    let events = mux.push_remote(&header).unwrap();
    assert!(matches!(events.as_slice(), [StreamEvent::Detected(_)]));
    mux.push_remote(b"more").unwrap();
    assert_eq!(mux.accept().unwrap(), [header, b"more".to_vec()].concat());
    assert_eq!(mux.mode(), StreamMode::Transferring);
}

#[test]
fn mux_flushes_an_incomplete_header_prefix_after_timeout() {
    let mut mux = TerminalStreamMux::new(1024);
    let events = mux.push_remote(b"grep *").unwrap();
    assert_eq!(events, vec![StreamEvent::TerminalData(b"grep ".to_vec())]);

    assert!(mux
        .flush_stale_terminal_data(Duration::from_secs(1))
        .is_empty());
    assert_eq!(mux.flush_stale_terminal_data(Duration::ZERO), b"*".to_vec());
    assert!(mux.flush_stale_terminal_data(Duration::ZERO).is_empty());
}

#[test]
fn mux_bounds_the_decision_buffer() {
    let header = hex_header(1);
    let mut mux = TerminalStreamMux::new(header.len() + 1);
    mux.push_remote(&header).unwrap();
    let error = mux.push_remote(b"overflow").unwrap_err();
    assert!(matches!(error, StreamError::PendingBufferOverflow { .. }));
    assert_eq!(mux.mode(), StreamMode::Recovering);
}

#[test]
fn mux_exposes_recovery_bytes_for_prompt_restoration() {
    let mut mux = TerminalStreamMux::new(1024);
    mux.begin_recovery();
    assert_eq!(
        mux.push_remote(b"\r\nprompt> ").unwrap(),
        vec![StreamEvent::ProtocolData(b"\r\nprompt> ".to_vec())]
    );
}

#[test]
fn probe_keeps_every_byte_in_order_across_calls() {
    let mut probe = ZmodemProbe::new();
    let first = probe.inspect(b"abc*");
    assert_eq!(first.terminal_data, b"abc");
    assert!(probe.has_pending());
    assert_eq!(probe.flush(), b"*".to_vec());
    assert!(!probe.has_pending());
}

#[test]
fn crc_values_match_the_published_check_values() {
    assert_eq!(crc16_xmodem(b"123456789"), 0x31c3);
    assert_eq!(crc32_iso_hdlc(b"123456789"), 0xcbf4_3926);
}

#[test]
fn accept_and_reject_need_a_pending_decision() {
    let mut mux = TerminalStreamMux::new(1024);
    assert_eq!(mux.accept().unwrap_err(), StreamError::InvalidTransition);
    assert_eq!(mux.reject().unwrap_err(), StreamError::InvalidTransition);
    mux.push_remote(&hex_header(0)).unwrap();
    assert_eq!(mux.mode(), StreamMode::AwaitingDecision);
    mux.reject().unwrap();
    assert_eq!(mux.mode(), StreamMode::Recovering);
    mux.restore_terminal();
    assert_eq!(mux.mode(), StreamMode::Normal);
}

#[test]
fn new_mux_has_a_limit_of_at_least_one() {
    let mut mux = TerminalStreamMux::new(0);
    let header = hex_header(1);
    let error = mux.push_remote(&header).unwrap_err();
    assert_eq!(error, StreamError::PendingBufferOverflow { limit: 1 });
}

#[test]
fn held_bytes_are_stale_once_old_enough() {
    assert!(is_stale(0, 0));
    assert!(is_stale(5, 5));
    assert!(is_stale(6, 5));
    assert!(!is_stale(4, 5));
}
