use nettest::probe::{
    advance_seq, check_echo, classify_receive, classify_setup, udp_payload, IoFault,
};
use nettest::quic::{QuicDownload, QuicStep, DOWNLOAD_STREAM, MAX_DATAGRAM_SIZE};
use nettest::sampler::{transfer_size, RateSampler};
use nettest::session::{Session, DEFAULT_COUNT};
use nettest::stats::Summary;
use nettest::{Elapsed, Failure, Measurement, Task, MB};

fn time(ms: u64) -> Measurement {
    Measurement::Time(Elapsed::from_nanos(ms * 1_000_000))
}

struct Scripted {
    outcomes: Vec<Result<Measurement, Failure>>,
    runs: usize,
}

impl Task for Scripted {
    fn run(&mut self) -> Result<Measurement, Failure> {
        let outcome = self.outcomes[self.runs % self.outcomes.len()];
        self.runs += 1;
        outcome
    }
}

fn runs_of(mut session: Session) -> usize {
    let mut runs = 0;
    while session.wants_run() {
        session = session.record(Ok(time(1)));
        runs += 1;
    }
    runs
}

#[test]
fn a_session_of_no_probe_is_refused() {
    assert!(matches!(Session::start(Some(0)), Err(Failure::Usage)));
}

#[test]
fn a_session_makes_five_probes_unless_told_otherwise() {
    assert_eq!(DEFAULT_COUNT, 5);
    assert_eq!(runs_of(Session::start(None).unwrap()), 5);
    assert_eq!(runs_of(Session::start(Some(1)).unwrap()), 1);
    assert_eq!(runs_of(Session::start(Some(12)).unwrap()), 12);
}

#[test]
fn a_timeout_is_counted_as_loss_and_the_session_goes_on() {
    assert_eq!(classify_receive(IoFault::TimedOut), Failure::Timeout);
    let mut session = Session::start(Some(4)).unwrap();
    session = session.record(Ok(time(10)));
    session = session.record(Err(classify_receive(IoFault::TimedOut)));
    assert!(session.wants_run());
    session = session.record(Ok(time(20)));
    session = session.record(Ok(time(30)));
    assert!(!session.wants_run());
    match session.summary() {
        Summary::Time(s) => {
            assert_eq!(s.transmitted, 4);
            assert_eq!(s.received, 3);
            assert_eq!(s.lost, 1);
            assert_eq!(s.loss_basis_points(), 2500);
            assert_eq!(s.avg, Elapsed::from_nanos(20_000_000));
        }
        other => panic!("not a summary of latencies: {:?}", other),
    }
}

#[test]
fn every_kind_of_failure_is_counted_alike() {
    let failures = [
        Failure::AddressResolution,
        Failure::PermissionDenied,
        Failure::SocketSetup,
        Failure::ProtocolViolation,
        Failure::Timeout,
        Failure::SizeMismatch,
        Failure::UnknownCommand,
        Failure::Transport,
        Failure::Usage,
    ];
    let mut session = Session::start(Some(failures.len() + 1)).unwrap();
    for f in failures {
        assert!(session.wants_run());
        session = session.record(Err(f));
    }
    assert!(session.wants_run());
    assert_eq!(session.summary(), Summary::AllFailed);
    session = session.record(Ok(time(5)));
    assert!(!session.wants_run());
    match session.summary() {
        Summary::Time(s) => {
            assert_eq!(s.lost, 9);
            assert_eq!(s.transmitted, 10);
            assert_eq!(s.loss_basis_points(), 9000);
        }
        other => panic!("not a summary of latencies: {:?}", other),
    }
}

#[test]
fn a_session_that_is_over_takes_nothing_more() {
    let mut session = Session::start(Some(1)).unwrap();
    session = session.record(Ok(time(5)));
    session = session.record(Ok(time(500)));
    session = session.record(Err(Failure::Timeout));
    match session.summary() {
        Summary::Time(s) => {
            assert_eq!(s.transmitted, 1);
            assert_eq!(s.max, Elapsed::from_nanos(5_000_000));
        }
        other => panic!("not a summary of latencies: {:?}", other),
    }
}

#[test]
fn a_measurement_of_another_shape_is_counted_as_a_failure() {
    let mut session = Session::start(Some(3)).unwrap();
    session = session.record(Ok(Measurement::Speed(100, Elapsed::from_nanos(5))));
    session = session.record(Ok(time(5)));
    session = session.record(Ok(Measurement::Speed(300, Elapsed::from_nanos(5))));
    match session.summary() {
        Summary::Speed(s) => {
            assert_eq!(s.total_bytes, 400);
            assert_eq!(s.total_nanos, 10);
        }
        other => panic!("not a summary of speeds: {:?}", other),
    }
}

#[test]
fn a_session_runs_its_task() {
    let mut task = Scripted {
        outcomes: vec![Ok(time(10)), Err(Failure::Timeout), Ok(time(30))],
        runs: 0,
    };
    let mut session = Session::start(Some(6)).unwrap();
    while session.wants_run() {
        session = session.run_once(&mut task);
    }
    assert_eq!(task.runs, 6);
    match session.summary() {
        Summary::Time(s) => {
            assert_eq!((s.received, s.lost), (4, 2));
            assert_eq!(s.avg, Elapsed::from_nanos(20_000_000));
        }
        other => panic!("not a summary of latencies: {:?}", other),
    }
}

#[test]
fn failed_socket_calls() {
    assert_eq!(classify_receive(IoFault::WouldBlock), Failure::Timeout);
    assert_eq!(classify_receive(IoFault::TimedOut), Failure::Timeout);
    assert_eq!(classify_receive(IoFault::PermissionDenied), Failure::Transport);
    assert_eq!(classify_receive(IoFault::Other), Failure::Transport);
    assert_eq!(classify_setup(IoFault::PermissionDenied), Failure::PermissionDenied);
    assert_eq!(classify_setup(IoFault::WouldBlock), Failure::SocketSetup);
    assert_eq!(classify_setup(IoFault::TimedOut), Failure::SocketSetup);
    assert_eq!(classify_setup(IoFault::Other), Failure::SocketSetup);
}

#[test]
fn failures_have_their_messages() {
    assert_eq!(Failure::Timeout.message(), "Timed out");
    assert_eq!(Failure::UnknownCommand.message(), "unknown command");
    assert_eq!(Failure::Usage.message(), "count = 0 means don't run anything");
    assert!(Failure::PermissionDenied.message().contains("sudo sysctl -w net.ipv4.ping_group_range"));
    let all = [
        Failure::AddressResolution,
        Failure::PermissionDenied,
        Failure::SocketSetup,
        Failure::ProtocolViolation,
        Failure::Timeout,
        Failure::SizeMismatch,
        Failure::UnknownCommand,
        Failure::Transport,
        Failure::Usage,
    ];
    for (i, a) in all.iter().enumerate() {
        for b in &all[i + 1..] {
            assert_ne!(a.message(), b.message());
        }
    }
}

#[test]
fn sequence_numbers_wrap() {
    assert_eq!(advance_seq(0), 1);
    assert_eq!(advance_seq(41), 42);
    assert_eq!(advance_seq(u16::MAX - 1), u16::MAX);
    assert_eq!(advance_seq(u16::MAX), 0);
}

#[test]
fn udp_payload_is_stamp_and_alphanumeric_filler() {
    let p = udp_payload(0x0807060504030201, 60).unwrap();
    assert_eq!(p.len(), 60);
    assert_eq!(&p[..8], &[1, 2, 3, 4, 5, 6, 7, 8]);
    assert!(p[8..].iter().all(|b| b.is_ascii_alphanumeric()));
    assert!(p[8..].iter().any(|b| *b != p[8]));
    let again = udp_payload(0x0807060504030201, 30).unwrap();
    assert_eq!(&again[..], &p[..30]);
    assert_eq!(udp_payload(5, 8).unwrap(), vec![5, 0, 0, 0, 0, 0, 0, 0]);
}

#[test]
fn udp_payload_must_hold_its_stamp() {
    assert_eq!(udp_payload(5, 7), Err(Failure::SizeMismatch));
    assert_eq!(udp_payload(5, 0), Err(Failure::SizeMismatch));
}

#[test]
fn an_echo_must_go_out_and_come_back_whole() {
    assert_eq!(check_echo(60, 60, 60), Ok(()));
    assert_eq!(check_echo(60, 59, 59), Err(Failure::SizeMismatch));
    assert_eq!(check_echo(60, 60, 59), Err(Failure::SizeMismatch));
    assert_eq!(check_echo(60, 60, 61), Err(Failure::SizeMismatch));
}

#[test]
fn transfers_are_sized_in_mebibytes() {
    assert_eq!(MB, 1024 * 1024);
    assert_eq!(transfer_size(0), Some(0));
    assert_eq!(transfer_size(60), Some(60 * 1024 * 1024));
    assert_eq!(transfer_size(usize::MAX / MB), Some(usize::MAX / MB * MB));
    assert_eq!(transfer_size(usize::MAX / MB + 1), None);
    assert_eq!(transfer_size(usize::MAX), None);
}

#[test]
fn samples_are_a_thirty_second_of_the_transfer_apart() {
    assert_eq!(RateSampler::new(64 * MB), RateSampler { step: 2 * MB, pending: 0 });
    assert_eq!(RateSampler::new(32 * MB).step, MB);
    assert_eq!(RateSampler::new(32 * MB + 32).step, MB + 1);
    assert_eq!(RateSampler::new(MB).step, MB);
    assert_eq!(RateSampler::new(0).step, MB);
}

#[test]
fn a_sample_is_due_when_a_step_is_full() {
    let mut s = RateSampler::new(64 * MB);
    assert_eq!(s.record(MB), None);
    assert_eq!(s.record(MB - 1), None);
    assert_eq!(s.pending, 2 * MB - 1);
    assert_eq!(s.record(1), Some(2 * MB));
    assert_eq!(s.pending, 0);
    assert_eq!(s.record(5 * MB), Some(5 * MB));
    assert_eq!(s.record(0), None);
    assert_eq!(s.record(usize::MAX), Some(usize::MAX));
    assert_eq!(s.record(3), None);
    assert_eq!(s.record(usize::MAX), Some(usize::MAX));
    assert_eq!(s, RateSampler { step: 2 * MB, pending: 0 });
}

#[test]
fn a_quic_download_counts_what_arrives_on_any_stream() {
    assert_eq!(DOWNLOAD_STREAM, 3);
    assert_eq!(MAX_DATAGRAM_SIZE, 1350);
    let mut d = QuicDownload::new(64 * MB);
    assert_eq!(d.sampler.step, 2 * MB);
    assert_eq!(d.on_read(3, MB, false), QuicStep { sample: None, close: false });
    assert_eq!(d.on_read(7, MB, true), QuicStep { sample: Some(2 * MB), close: false });
    assert_eq!(d.on_read(3, 5, true), QuicStep { sample: None, close: true });
    assert_eq!(d.received, 2 * MB + 5);
    let t = Elapsed::from_nanos(9);
    assert_eq!(d.finish(true, t), Ok(Measurement::Speed(2 * MB + 5, t)));
    assert_eq!(d.finish(false, t), Err(Failure::ProtocolViolation));
    assert_eq!(d.on_read(3, usize::MAX, false).sample, Some(usize::MAX));
    assert_eq!(d.received, usize::MAX);
}
