use duskterm::native_drag::{
    descriptor_file_name, descriptor_file_size, drop_completion_error, end_operation_outcome, is_copy_drop, query_continue_drag, seek_supported, CompletionState,
    DataFormat, DragStreamReader, OfferedData, OfferedFormats, ReadStep, StreamEvent, DVASPECT_CONTENT, TYMED_HGLOBAL,
    TYMED_ISTREAM, DRAGDROP_S_CANCEL, DRAGDROP_S_DROP, DROPEFFECT_COPY, MK_LBUTTON, S_OK,
};
use duskterm::sftp_files::{SftpStreamCompletion, SftpStreamMessage};

fn ready_completion() -> CompletionState {
    let mut completion = CompletionState::new();
    assert_eq!(completion.drop_finished(true, None), None);
    completion
}

#[test]
fn stream_hands_out_data_in_order_and_reports_consumed() {
    let mut reader = DragStreamReader::new(5);
    let mut completion = ready_completion();
    assert!(!reader.pending_data());
    let (step, report) =
        reader.on_event(StreamEvent::Message(SftpStreamMessage::Data(vec![1, 2, 3, 4, 5])), &mut completion);
    assert_eq!(step, ReadStep::Continue);
    assert_eq!(report, None);
    assert!(reader.pending_data());

    let mut out = Vec::new();
    assert_eq!(reader.copy_out(&mut out, 3, &mut completion), None);
    assert_eq!(out, vec![1, 2, 3]);
    assert_eq!(reader.position(), 3);
    assert!(!reader.fully_consumed());

    let mut rest = Vec::new();
    let report = reader.copy_out(&mut rest, 10, &mut completion);
    assert_eq!(rest, vec![4, 5]);
    assert_eq!(reader.position(), 5);
    assert!(reader.fully_consumed());
    assert_eq!(report, Some(SftpStreamCompletion::Consumed));
    assert!(!reader.pending_data());
}

#[test]
fn stream_end_marks_consumed_for_unknown_size() {
    let mut reader = DragStreamReader::new(0);
    let mut completion = ready_completion();
    reader.on_event(StreamEvent::Message(SftpStreamMessage::Data(vec![9, 8])), &mut completion);
    let mut out = Vec::new();
    assert_eq!(reader.copy_out(&mut out, 100, &mut completion), None);
    assert_eq!(out, vec![9, 8]);
    assert!(!reader.fully_consumed());
    let (step, report) = reader.on_event(StreamEvent::Message(SftpStreamMessage::End), &mut completion);
    assert_eq!(step, ReadStep::Continue);
    assert_eq!(report, Some(SftpStreamCompletion::Consumed));
    assert!(reader.ended());
    assert!(reader.fully_consumed());
}

#[test]
fn stream_error_timeout_and_disconnect_fail_the_read() {
    let mut reader = DragStreamReader::new(10);
    let mut completion = CompletionState::new();
    let (step, report) = reader.on_event(StreamEvent::TimedOut { cancelled: false }, &mut completion);
    assert_eq!(step, ReadStep::Continue);
    assert_eq!(report, None);
    let (step, report) =
        reader.on_event(StreamEvent::Message(SftpStreamMessage::Error("boom".to_string())), &mut completion);
    assert_eq!(step, ReadStep::Fault);
    assert_eq!(report, Some(SftpStreamCompletion::Failed("boom".to_string())));
    let (step, report) = reader.on_event(StreamEvent::Disconnected, &mut completion);
    assert_eq!(step, ReadStep::Fault);
    assert_eq!(report, None);

    let mut other = DragStreamReader::new(10);
    let mut fresh = CompletionState::new();
    let (step, report) = other.on_event(StreamEvent::TimedOut { cancelled: true }, &mut fresh);
    assert_eq!(step, ReadStep::Fault);
    assert_eq!(report, Some(SftpStreamCompletion::Cancelled));

    let mut lost = DragStreamReader::new(10);
    let mut fresh = CompletionState::new();
    let (_, report) = lost.on_event(StreamEvent::Disconnected, &mut fresh);
    assert_eq!(report, Some(SftpStreamCompletion::Failed("SFTP 下载流意外关闭".to_string())));
}

#[test]
fn stream_seek_only_reports_position() {
    assert!(seek_supported(true, false, 0, 42));
    assert!(!seek_supported(true, false, 3, 42));
    assert!(seek_supported(false, true, 42, 42));
    assert!(!seek_supported(false, true, 41, 42));
    assert!(!seek_supported(false, false, 0, 0));
}

#[test]
fn copy_drop_requires_drop_result_and_copy_effect() {
    assert!(is_copy_drop(DRAGDROP_S_DROP, DROPEFFECT_COPY));
    assert!(!is_copy_drop(DRAGDROP_S_DROP, 0));
    assert!(!is_copy_drop(DRAGDROP_S_CANCEL, DROPEFFECT_COPY));
}

#[test]
fn completion_waits_for_consumption_and_drop_acceptance() {
    let mut tracker = CompletionState::new();

    assert_eq!(tracker.data_consumed(), None);

    assert!(matches!(tracker.drop_finished(true, None), Some(SftpStreamCompletion::Consumed)));
}

#[test]
fn async_completion_waits_for_end_operation() {
    let mut tracker = CompletionState::new();

    tracker.set_async_mode(true);
    tracker.start_operation();
    assert_eq!(tracker.data_consumed(), None);
    assert_eq!(tracker.drop_finished(true, None), None);

    assert!(matches!(tracker.end_operation(true, None), Some(SftpStreamCompletion::Consumed)));
}

#[test]
fn drag_goes_on_until_release_or_escape() {
    assert_eq!(query_continue_drag(true, MK_LBUTTON), DRAGDROP_S_CANCEL);
    assert_eq!(query_continue_drag(false, 0), DRAGDROP_S_DROP);
    assert_eq!(query_continue_drag(false, MK_LBUTTON), S_OK);
    assert_eq!(query_continue_drag(false, 2), DRAGDROP_S_DROP);
}

#[test]
fn refused_drop_and_failed_operation_carry_codes() {
    assert_eq!(drop_completion_error(DRAGDROP_S_DROP, DROPEFFECT_COPY), None);
    assert_eq!(drop_completion_error(DRAGDROP_S_CANCEL, 0), None);
    assert_eq!(
        drop_completion_error(DRAGDROP_S_DROP, 0),
        Some("Windows 拖放目标未接受文件: hresult=262400 effect=0".to_string())
    );
    assert_eq!(
        drop_completion_error(-2147467259, 5),
        Some("Windows 拖放目标未接受文件: hresult=-2147467259 effect=5".to_string())
    );
    assert_eq!(end_operation_outcome(0, DROPEFFECT_COPY), (true, None));
    assert_eq!(
        end_operation_outcome(-1, DROPEFFECT_COPY),
        (false, Some("Windows 异步文件拖放失败: hresult=-1 effect=1".to_string()))
    );
    assert_eq!(
        end_operation_outcome(0, 2),
        (false, Some("Windows 异步文件拖放失败: hresult=0 effect=2".to_string()))
    );
}

#[test]
fn descriptor_carries_utf16_name_and_split_size() {
    assert_eq!(descriptor_file_name("a\u{1F600}b"), vec![0x61, 0xD83D, 0xDE00, 0x62]);
    assert_eq!(descriptor_file_name("报告.txt"), "报告.txt".encode_utf16().collect::<Vec<u16>>());
    let long = "x".repeat(300);
    assert_eq!(descriptor_file_name(&long).len(), 259);
    let edge = format!("{}\u{1F600}", "x".repeat(258));
    assert_eq!(descriptor_file_name(&edge), vec![0x78u16; 258]);
    assert_eq!(descriptor_file_size(0x1_0000_0005), (1, 5));
    assert_eq!(descriptor_file_size(42), (0, 42));
    assert_eq!(descriptor_file_size(u64::MAX), (u32::MAX, u32::MAX));
}

#[test]
fn offered_formats_match_requests() {
    let offered = OfferedFormats { descriptor: 49400, contents: 49401, preferred_effect: 49402 };
    let listed = offered.listed_formats();
    assert_eq!(listed.len(), 3);
    assert_eq!(offered.offered_data(listed[0]), Some(OfferedData::Descriptor));
    assert_eq!(offered.offered_data(listed[1]), Some(OfferedData::Contents));
    assert_eq!(offered.offered_data(listed[2]), Some(OfferedData::PreferredEffect));
    let contents_any_index =
        DataFormat { format: 49401, aspect: DVASPECT_CONTENT, index: -1, media: TYMED_ISTREAM | TYMED_HGLOBAL };
    assert_eq!(offered.offered_data(contents_any_index), Some(OfferedData::Contents));
    let wrong_index = DataFormat { format: 49401, aspect: DVASPECT_CONTENT, index: 3, media: TYMED_ISTREAM };
    assert_eq!(offered.offered_data(wrong_index), None);
    let wrong_medium = DataFormat { format: 49400, aspect: DVASPECT_CONTENT, index: -1, media: TYMED_ISTREAM };
    assert_eq!(offered.offered_data(wrong_medium), None);
    let wrong_aspect = DataFormat { format: 49402, aspect: 4, index: -1, media: TYMED_HGLOBAL };
    assert_eq!(offered.offered_data(wrong_aspect), None);
    let unknown = DataFormat { format: 13, aspect: DVASPECT_CONTENT, index: -1, media: TYMED_HGLOBAL };
    assert_eq!(offered.offered_data(unknown), None);
}
