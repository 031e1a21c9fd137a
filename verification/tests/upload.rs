use nettest::counter::{ByteCounter, Progress, ReadEvent};
use nettest::pool::RandomPool;
use nettest::protocol::{parse_command, Command};
use nettest::random::Generator;
use nettest::upload::{upload_bytes, upload_stream, Upload, UploadReceipt};
use nettest::{Failure, MB};

fn bytes(len: usize, last: u8) -> ReadEvent {
    ReadEvent::Bytes { len, last }
}

#[test]
fn counter_counts_until_a_chunk_ends_the_line() {
    let mut c = ByteCounter::new(100);
    assert_eq!(c.read_size(), 100);
    assert_eq!(c.on_read(bytes(10, b'a')), Progress::Continue);
    assert_eq!(c.count(), 10);
    assert_eq!(c.read_size(), 90);
    assert_eq!(c.on_read(bytes(5, b'\r')), Progress::Continue);
    assert_eq!(c.on_read(bytes(7, b'\n')), Progress::Done(22));
    assert_eq!(c, ByteCounter { budget: 100, count: 22, finished: true });
    assert_eq!(c.read_size(), 0);
    assert_eq!(c.on_read(bytes(3, b'x')), Progress::Done(22));
    assert_eq!(c.count(), 22);
}

#[test]
fn counter_is_not_ended_by_a_line_feed_within_a_chunk() {
    let mut c = ByteCounter::new(100);
    assert_eq!(c.on_read(bytes(10, b'a')), Progress::Continue);
    assert_eq!(c.on_read(bytes(1, b'\n')), Progress::Done(11));
}

#[test]
fn counter_takes_an_empty_read_as_the_end() {
    let mut c = ByteCounter::new(100);
    assert_eq!(c.on_read(bytes(40, b'a')), Progress::Continue);
    assert_eq!(c.on_read(bytes(0, 0)), Progress::Done(40));
    assert_eq!(c, ByteCounter { budget: 100, count: 40, finished: true });
    let mut empty = ByteCounter::new(100);
    assert_eq!(empty.on_read(bytes(0, b'\n')), Progress::Done(0));
}

#[test]
fn counter_keeps_its_count_when_a_read_is_not_ready() {
    let mut c = ByteCounter::new(100);
    assert_eq!(c.on_read(ReadEvent::NotReady), Progress::Suspend);
    assert_eq!(c.on_read(bytes(40, b'a')), Progress::Continue);
    let before = c;
    assert_eq!(c.on_read(ReadEvent::NotReady), Progress::Suspend);
    assert_eq!(c.on_read(ReadEvent::NotReady), Progress::Suspend);
    assert_eq!(c, before);
    assert_eq!(c.read_size(), 60);
    assert_eq!(c.on_read(bytes(2, b'\n')), Progress::Done(42));
}

#[test]
fn counter_stops_at_its_budget() {
    let mut c = ByteCounter::new(8);
    assert_eq!(c.on_read(bytes(5, b'a')), Progress::Continue);
    assert_eq!(c.read_size(), 3);
    assert_eq!(c.on_read(bytes(3, b'a')), Progress::Done(8));
    assert_eq!(c.read_size(), 0);
    let mut none = ByteCounter::new(0);
    assert_eq!(none.read_size(), 0);
    assert_eq!(none.on_read(bytes(1, b'a')), Progress::Done(0));
}

#[test]
fn counter_reads_a_mebibyte_at_most() {
    let mut c = ByteCounter::new(3 * MB + 5);
    assert_eq!(c.read_size(), MB);
    assert_eq!(c.on_read(bytes(MB, b'a')), Progress::Continue);
    assert_eq!(c.on_read(bytes(MB, b'a')), Progress::Continue);
    assert_eq!(c.on_read(bytes(MB, b'a')), Progress::Continue);
    assert_eq!(c.read_size(), 5);
}

#[test]
fn counter_refuses_more_than_it_asked_for() {
    let mut c = ByteCounter::new(8);
    assert_eq!(c.on_read(bytes(9, b'a')), Progress::Failed(Failure::ProtocolViolation));
    assert_eq!(c, ByteCounter { budget: 8, count: 0, finished: true });
    let mut big = ByteCounter::new(usize::MAX);
    assert_eq!(big.on_read(bytes(MB + 1, b'a')), Progress::Failed(Failure::ProtocolViolation));
}

#[test]
fn counter_ends_when_the_transport_fails() {
    let mut c = ByteCounter::new(8);
    assert_eq!(c.on_read(bytes(2, b'a')), Progress::Continue);
    assert_eq!(c.on_read(ReadEvent::Failed), Progress::Failed(Failure::Transport));
    assert_eq!(c, ByteCounter { budget: 8, count: 2, finished: true });
}

#[test]
fn upload_begins_with_a_budget_of_one_more_than_declared() {
    let u = Upload::begin(1000, 15).unwrap();
    assert_eq!(u.read_size(), 1001);
    let big = Upload::begin(5 * MB, 18).unwrap();
    assert_eq!(big.read_size(), MB);
}

#[test]
fn upload_that_cannot_be_counted_is_refused() {
    assert!(matches!(Upload::begin(10, 0), Err(Failure::ProtocolViolation)));
    assert!(matches!(Upload::begin(usize::MAX, 10), Err(Failure::ProtocolViolation)));
    assert!(matches!(Upload::begin(usize::MAX - 10, 10), Err(Failure::ProtocolViolation)));
    assert!(Upload::begin(usize::MAX - 11, 10).is_ok());
    assert!(Upload::begin(0, 1).is_ok());
}

#[test]
fn upload_reports_every_byte_less_one() {
    let mut u = Upload::begin(1000, 15).unwrap();
    assert_eq!(u.on_read(bytes(500, b'a')), Progress::Continue);
    assert_eq!(u.on_read(bytes(486, b'\n')), Progress::Done(986));
    assert_eq!(u.receipt(), UploadReceipt { reported: 1000, missing: 0 });
    assert_eq!(u.acknowledge(1600000000), b"Ok 1000 1600000000\n".to_vec());
}

#[test]
fn upload_that_falls_short_is_noted() {
    let mut u = Upload::begin(1000, 15).unwrap();
    assert_eq!(u.on_read(bytes(100, b'a')), Progress::Continue);
    assert_eq!(u.on_read(bytes(0, 0)), Progress::Done(100));
    assert_eq!(u.receipt(), UploadReceipt { reported: 114, missing: 886 });
    assert_eq!(u.acknowledge(7), b"Ok 114 7\n".to_vec());
}

#[test]
fn upload_of_one_byte_more_than_declared_is_reported_as_such() {
    let mut u = Upload::begin(1000, 15).unwrap();
    assert_eq!(u.on_read(bytes(987, b'\n')), Progress::Done(987));
    assert_eq!(u.receipt(), UploadReceipt { reported: 1001, missing: 0 });
}

#[test]
fn upload_with_nothing_behind_the_line() {
    let mut u = Upload::begin(0, 10).unwrap();
    assert_eq!(u.read_size(), 1);
    assert_eq!(u.on_read(bytes(0, 0)), Progress::Done(0));
    assert_eq!(u.receipt(), UploadReceipt { reported: 9, missing: 0 });
}

#[test]
fn upload_stream_sends_line_content_and_closing_bytes() {
    let mut gen = Generator::seeded(21);
    let pool = RandomPool::generate(&mut gen);
    let mut stream = upload_stream(1000).unwrap();
    assert_eq!(stream.len(), 1001);
    let mut parts: Vec<Vec<u8>> = Vec::new();
    while let Some(chunk) = stream.next_chunk(&pool, &mut gen) {
        parts.push(chunk.to_vec());
    }
    assert_eq!(parts.len(), 3);
    assert_eq!(parts[0], b"UPLOAD 1000 0\r\n".to_vec());
    assert_eq!(parts[1].len(), 1000 - 15 - 1);
    assert!(parts[1].iter().all(|b| (0x20..=0x7e).contains(b)));
    assert_eq!(parts[2], b"\r\n".to_vec());
}

#[test]
fn upload_stream_needs_room_for_its_line() {
    assert!(upload_stream(0).is_none());
    assert!(upload_stream(9).is_none());
    assert!(upload_stream(13).is_none());
    assert!(upload_stream(14).is_some());
    assert_eq!(upload_stream(14).unwrap().len(), 15);
    assert!(upload_stream(usize::MAX).is_none());
    assert!(upload_stream(usize::MAX - 1).is_some());
    assert!(upload_stream(1000).is_some());
}

#[test]
fn upload_stream_cuts_content_into_mebibytes() {
    let mut gen = Generator::seeded(22);
    let pool = RandomPool::generate(&mut gen);
    let declared = 2 * MB + 100;
    let mut stream = upload_stream(declared).unwrap();
    let mut sizes = Vec::new();
    while let Some(chunk) = stream.next_chunk(&pool, &mut gen) {
        sizes.push(chunk.len());
    }
    let line = format!("UPLOAD {} 0\r\n", declared).len();
    assert_eq!(sizes, vec![line, MB, MB, 100 - line - 1, 2]);
    assert_eq!(sizes.iter().sum::<usize>(), declared + 1);
}

#[test]
fn upload_is_acknowledged_as_declared_whatever_the_chunks() {
    let mut gen = Generator::seeded(23);
    let pool = RandomPool::generate(&mut gen);
    for declared in [16usize, 17, 1000, 70000] {
        let sent = upload_bytes(declared, &pool, &mut gen).unwrap();
        assert_eq!(sent.len(), declared + 1);
        let line_end = sent.iter().position(|b| *b == b'\n').unwrap() + 1;
        let (line, payload) = sent.split_at(line_end);
        assert_eq!(parse_command(line), Ok(Some(Command::Upload(declared))));
        for cut in [1usize, 3, 64, 4096, 100000] {
            let mut upload = Upload::begin(declared, line.len()).unwrap();
            let mut last = Progress::Continue;
            for chunk in payload.chunks(cut) {
                assert_eq!(last, Progress::Continue);
                assert!(chunk.len() <= upload.read_size());
                last = upload.on_read(bytes(chunk.len(), chunk[chunk.len() - 1]));
            }
            assert_eq!(last, Progress::Done(payload.len()));
            assert_eq!(upload.receipt(), UploadReceipt { reported: declared, missing: 0 });
            let ack = upload.acknowledge(1600000000);
            assert_eq!(ack, format!("Ok {} 1600000000\n", declared).into_bytes());
        }
    }
}

#[test]
fn upload_bytes_are_line_content_and_closing_bytes() {
    let mut gen = Generator::seeded(24);
    let pool = RandomPool::generate(&mut gen);
    assert_eq!(upload_bytes(14, &pool, &mut gen), Some(b"UPLOAD 14 0\r\n\r\n".to_vec()));
    assert_eq!(upload_bytes(13, &pool, &mut gen), None);
    assert_eq!(upload_bytes(usize::MAX, &pool, &mut gen), None);
    let sent = upload_bytes(100, &pool, &mut gen).unwrap();
    assert_eq!(sent.len(), 101);
    assert!(sent.starts_with(b"UPLOAD 100 0\r\n"));
    assert!(sent.ends_with(b"\r\n"));
    assert!(sent[14..99].iter().all(|b| (0x20..=0x7e).contains(b)));
}
