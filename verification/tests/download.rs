use nettest::counter::{ByteCounter, Progress, ReadEvent};
use nettest::download::{download_counter, download_response, download_stream};
use nettest::pool::{RandomPool, POOL_SIZE};
use nettest::random::Generator;
use nettest::MB;
use rand::SeedableRng;
use rand_xoshiro::Xoshiro256Plus;

fn contains(haystack: &[u8], needle: &[u8]) -> bool {
    haystack.windows(needle.len()).any(|w| w == needle)
}

#[test]
fn pool_is_two_mebibytes_of_printable_bytes() {
    let mut gen = Generator::seeded(1);
    let pool = RandomPool::generate(&mut gen);
    let bytes = pool.as_slice();
    assert_eq!(bytes.len(), POOL_SIZE);
    assert_eq!(bytes.len(), 2 * 1024 * 1024);
    assert!(bytes.iter().all(|b| (0x20..=0x7e).contains(b)));
    assert!(bytes.iter().any(|b| *b != bytes[0]));
}

#[test]
fn pool_windows_stay_within_the_pool() {
    let mut gen = Generator::seeded(2);
    let pool = RandomPool::generate(&mut gen);
    let all = pool.as_slice().to_vec();
    assert_eq!(pool.window(0, 0), Some(&all[0..0]));
    assert_eq!(pool.window(10, 20), Some(&all[10..30]));
    assert_eq!(pool.window(MB - 1, MB), Some(&all[MB - 1..2 * MB - 1]));
    assert_eq!(pool.window(0, POOL_SIZE), Some(&all[..]));
    assert_eq!(pool.window(1, POOL_SIZE), None);
    assert_eq!(pool.window(POOL_SIZE, 1), None);
    assert_eq!(pool.window(usize::MAX, 2), None);
}

#[test]
fn offsets_stay_below_their_bound() {
    let mut gen = Generator::seeded(3);
    let drawn: Vec<usize> = (0..1000).map(|_| gen.offset_below(MB)).collect();
    assert!(drawn.iter().any(|n| *n != drawn[0]));
    assert!(drawn.iter().any(|n| *n >= MB / 2));
    for _ in 0..1000 {
        assert!(gen.offset_below(MB) < MB);
        assert!(gen.offset_below(7) < 7);
        assert_eq!(gen.offset_below(1), 0);
        assert_eq!(gen.offset_below(0), 0);
        let b = gen.byte_in(0x20, 0x7f);
        assert!((0x20..0x7f).contains(&b));
        assert_eq!(gen.byte_in(5, 6), 5);
    }
}

#[test]
fn download_response_has_the_requested_length() {
    let mut gen = Generator::seeded(4);
    let pool = RandomPool::generate(&mut gen);
    for n in [0usize, 1, 2, 11, 12, 1000] {
        assert_eq!(download_response(n, &pool, &mut gen).len(), n);
    }
    for n in 0usize..64 {
        assert_eq!(download_response(n, &pool, &mut gen).len(), n);
    }
    for n in [MB + 10, MB + 11, MB + 12, 2 * MB + 11, 3 * MB + 500] {
        assert_eq!(download_response(n, &pool, &mut gen).len(), n);
    }
}

#[test]
fn short_download_responses_are_exact() {
    let mut gen = Generator::seeded(5);
    let pool = RandomPool::generate(&mut gen);
    assert_eq!(download_response(0, &pool, &mut gen), b"".to_vec());
    assert_eq!(download_response(1, &pool, &mut gen), b"\r".to_vec());
    assert_eq!(download_response(2, &pool, &mut gen), b"\r\n".to_vec());
    assert_eq!(download_response(3, &pool, &mut gen), b"D\r\n".to_vec());
    assert_eq!(download_response(10, &pool, &mut gen), b"DOWNLOAD\r\n".to_vec());
    assert_eq!(download_response(11, &pool, &mut gen), b"DOWNLOAD \r\n".to_vec());
}

#[test]
fn download_of_a_thousand_bytes() {
    let mut gen = Generator::seeded(6);
    let pool = RandomPool::generate(&mut gen);
    let r = download_response(1000, &pool, &mut gen);
    assert_eq!(r.len(), 1000);
    assert!(r.starts_with(b"DOWNLOAD "));
    assert!(r.ends_with(b"\r\n"));
    let filler = &r[9..998];
    assert!(filler.iter().all(|b| (0x20..=0x7e).contains(b)));
    assert!(contains(&pool.as_slice()[..MB + 989], filler));
}

#[test]
fn download_of_twelve_bytes_holds_one_byte_of_filler() {
    let mut gen = Generator::seeded(7);
    let pool = RandomPool::generate(&mut gen);
    let r = download_response(12, &pool, &mut gen);
    assert_eq!(&r[..9], b"DOWNLOAD ");
    assert!((0x20..=0x7e).contains(&r[9]));
    assert_eq!(&r[10..], b"\r\n");
}

#[test]
fn download_stream_hands_out_head_windows_and_tail() {
    let mut gen = Generator::seeded(8);
    let pool = RandomPool::generate(&mut gen);
    let n = 2 * MB + 11 + 5;
    let mut stream = download_stream(n);
    assert_eq!(stream.len(), n);
    assert_eq!(stream.sent(), 0);
    let mut sizes = Vec::new();
    let mut all = Vec::new();
    while let Some(chunk) = stream.next_chunk(&pool, &mut gen) {
        sizes.push(chunk.len());
        all.extend_from_slice(chunk);
    }
    assert_eq!(sizes, vec![9, MB, MB, 5, 2]);
    assert_eq!(stream.sent(), n);
    assert_eq!(all.len(), n);
    assert!(stream.next_chunk(&pool, &mut gen).is_none());
    assert!(all.starts_with(b"DOWNLOAD "));
    assert!(all.ends_with(b"\r\n"));
    assert!(contains(pool.as_slice(), &all[9..9 + MB]));
    assert!(contains(pool.as_slice(), &all[9 + MB..9 + 2 * MB]));
    assert!(contains(pool.as_slice(), &all[9 + 2 * MB..9 + 2 * MB + 5]));
}

#[test]
fn download_stream_of_nothing_is_over_at_once() {
    let mut gen = Generator::seeded(9);
    let pool = RandomPool::generate(&mut gen);
    let mut stream = download_stream(0);
    assert_eq!(stream.len(), 0);
    assert!(stream.next_chunk(&pool, &mut gen).is_none());
    let mut two = download_stream(2);
    assert_eq!(two.next_chunk(&pool, &mut gen), Some(&b"\r\n"[..]));
    assert!(two.next_chunk(&pool, &mut gen).is_none());
}

#[test]
fn client_counts_the_whole_response_whatever_the_chunks() {
    let mut gen = Generator::seeded(10);
    let pool = RandomPool::generate(&mut gen);
    let n = 5000;
    let response = download_response(n, &pool, &mut gen);
    for cut in [1usize, 2, 7, 999, 4999, 5000, 8000] {
        let mut counter = download_counter(n);
        let mut last = Progress::Continue;
        let mut chunks = 0;
        for chunk in response.chunks(cut) {
            assert_eq!(last, Progress::Continue);
            assert!(chunk.len() <= counter.read_size());
            last = counter.on_read(ReadEvent::Bytes {
                len: chunk.len(),
                last: chunk[chunk.len() - 1],
            });
            chunks += 1;
        }
        assert_eq!(chunks, (n + cut - 1) / cut);
        assert_eq!(last, Progress::Done(n));
        assert_eq!(counter.count(), n);
    }
}

#[test]
fn download_counter_starts_empty() {
    assert_eq!(download_counter(12), ByteCounter { budget: 12, count: 0, finished: false });
}

#[test]
fn a_seed_determines_the_pool() {
    let one = RandomPool::generate(&mut Generator::seeded(77));
    let same = RandomPool::generate(&mut Generator::seeded(77));
    let other = RandomPool::generate(&mut Generator::seeded(78));
    assert_eq!(one.as_slice(), same.as_slice());
    assert_ne!(one.as_slice(), other.as_slice());
}

#[test]
fn a_generator_goes_on_from_the_state_it_is_given() {
    let mut given = Generator::new(Xoshiro256Plus::seed_from_u64(9));
    let mut seeded = Generator::seeded(9);
    let mut other = Generator::seeded(10);
    let mut differs = false;
    for _ in 0..200 {
        let a = given.offset_below(MB);
        assert_eq!(a, seeded.offset_below(MB));
        differs |= a != other.offset_below(MB);
        assert_eq!(given.byte_in(0, 200), seeded.byte_in(0, 200));
    }
    assert!(differs);
}
