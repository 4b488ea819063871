use duskterm::range_download::RangeDownload;

fn file(n: usize) -> Vec<u8> {
    (0..n).map(|i| (i * 7 % 251) as u8).collect()
}

#[test]
fn requests_tile_the_file_within_the_window() {
    let mut d = RangeDownload::new(10, 4, 2);
    assert_eq!(d.next_request(), Some((0, 4)));
    assert_eq!(d.next_request(), Some((4, 4)));
    assert_eq!(d.next_request(), None);
    assert!(d.awaits(4, 4));
    assert!(!d.awaits(4, 3));
    assert!(!d.awaits(8, 2));
}

#[test]
fn out_of_order_ranges_are_written_in_file_order() {
    let bytes = file(10);
    let mut d = RangeDownload::new(10, 4, 3);
    let mut requests = Vec::new();
    while let Some(r) = d.next_request() {
        requests.push(r);
    }
    assert_eq!(requests, vec![(0, 4), (4, 4), (8, 2)]);
    let chunk = |(o, l): (u64, u64)| bytes[o as usize..(o + l) as usize].to_vec();
    assert!(d.complete(8, chunk((8, 2))).is_empty());
    assert!(d.complete(4, chunk((4, 4))).is_empty());
    assert!(!d.finished());
    let ready = d.complete(0, chunk((0, 4)));
    assert_eq!(ready.concat(), bytes);
    assert!(d.finished());
    assert_eq!(d.written_len(), 10);
}

#[test]
fn a_window_of_one_reads_one_range_at_a_time() {
    let bytes = file(7);
    let mut d = RangeDownload::new(7, 3, 1);
    let mut out = Vec::new();
    while !d.finished() {
        let (o, l) = d.next_request().unwrap();
        assert_eq!(d.next_request(), None);
        out.extend(d.complete(o, bytes[o as usize..(o + l) as usize].to_vec()).concat());
    }
    assert_eq!(out, bytes);
}

#[test]
fn an_empty_file_is_finished_at_once() {
    let mut d = RangeDownload::new(0, 4, 2);
    assert!(d.finished());
    assert_eq!(d.next_request(), None);
}
