use mock_io::{Builder, Direction, Mock, MockError, Packet};

use futures::Future;
use std::time::{Duration, Instant};

fn read_all(mock: &mut Mock) -> Vec<u8> {
    let mut out = Vec::new();
    let mut buf = [0u8; 16];
    loop {
        let n = mock.read(&mut buf).unwrap();
        if n == 0 {
            return out;
        }
        out.extend_from_slice(&buf[..n]);
    }
}

#[test]
fn doc_ping_pong() {
    let mut mock = Builder::new().write(b"ping").read(b"pong").build();

    let n = mock.write(b"ping").unwrap();
    assert_eq!(n, 4);

    assert_eq!(read_all(&mut mock), b"pong");
}

#[test]
fn reads_come_one_action_at_a_time_in_order() {
    let mut mock = Builder::new().read(b"ab").read(b"cde").build();
    let mut buf = [0u8; 10];
    assert_eq!(2, mock.read(&mut buf).unwrap());
    assert_eq!(&buf[..2], b"ab");
    assert_eq!(3, mock.read(&mut buf).unwrap());
    assert_eq!(&buf[..3], b"cde");
    assert_eq!(0, mock.read(&mut buf).unwrap());
}

#[test]
fn small_buffers_split_a_read_in_order() {
    let mut mock = Builder::new().read(b"hello world").build();
    let mut buf = [9u8; 3];
    assert_eq!(3, mock.read(&mut buf).unwrap());
    assert_eq!(&buf, b"hel");
    assert_eq!(3, mock.read(&mut buf).unwrap());
    assert_eq!(&buf, b"lo ");
    assert_eq!(3, mock.read(&mut buf).unwrap());
    assert_eq!(&buf, b"wor");
    assert_eq!(2, mock.read(&mut buf).unwrap());
    assert_eq!(&buf[..2], b"ld");
    // the rest of the buffer is left as it was
    assert_eq!(buf[2], b'r');
    assert_eq!(0, mock.read(&mut buf).unwrap());
}

#[test]
fn empty_read_action_reads_zero_bytes_then_moves_on() {
    let mut mock = Builder::new().read(b"").read(b"x").build();
    let mut buf = [0u8; 4];
    assert_eq!(0, mock.read(&mut buf).unwrap());
    assert_eq!(1, mock.read(&mut buf).unwrap());
    assert_eq!(buf[0], b'x');
    assert_eq!(0, mock.read(&mut buf).unwrap());
}

#[test]
fn writes_consume_expected_bytes_in_order() {
    let mut mock = Builder::new().write(b"abcdef").build();
    assert_eq!(2, mock.write(b"ab").unwrap());
    assert_eq!(4, mock.write(b"cdefgh").unwrap());
    assert!(matches!(mock.write(b"x"), Err(MockError::BrokenPipe)));
}

#[test]
fn mismatching_bytes_are_detected_before_writing() {
    let mock = Builder::new().write(b"hello").build();
    assert!(!mock.write_matches(b"help"));
    assert!(mock.write_matches(b"hel"));
    assert!(mock.write_matches(b"hello world"));
    // a wait that has not started makes the write block before any byte is compared
    let mut mock = Builder::new().wait(Duration::from_millis(1)).write(b"ab").build();
    assert!(mock.write_matches(b"x"));
    // once the wait is in progress, the bytes are held against the write after it
    assert!(matches!(mock.write(b"a"), Err(MockError::UnexpectedWrite)));
    assert!(!mock.write_matches(b"x"));
    assert!(mock.write_matches(b"a"));
    // nothing to mismatch when a read is expected
    let mock = Builder::new().read(b"ab").build();
    assert!(mock.write_matches(b"x"));
}

#[test]
fn write_may_block_while_no_write_is_expected() {
    assert!(Builder::new().read(b"x").build().write_may_block());
    assert!(!Builder::new().read(b"x").write(b"y").build().write_may_block());
    assert!(Builder::new().read(b"x").wait(Duration::from_secs(1)).write(b"y").build().write_may_block());
    assert!(Builder::new().wait(Duration::from_secs(1)).write(b"x").build().write_may_block());
    assert!(!Builder::new().write(b"x").build().write_may_block());
    assert!(!Builder::new().build().write_may_block());
}

#[test]
fn read_stalls_when_a_write_comes_first() {
    assert!(Builder::new().write(b"x").read(b"y").build().read_stalls());
    assert!(Builder::new().wait(Duration::from_millis(1)).write(b"x").build().read_stalls());
    assert!(!Builder::new().read(b"y").write(b"x").build().read_stalls());
    assert!(!Builder::new().build().read_stalls());
    // an empty write followed by a wait is skipped by a blocking read
    assert!(!Builder::new()
        .write(b"")
        .wait(Duration::from_millis(1))
        .read(b"y")
        .build()
        .read_stalls());
    assert!(Builder::new().write(b"").read(b"y").build().read_stalls());
}

#[test]
fn empty_write_then_wait_is_skipped_by_a_blocking_read() {
    let mut mock = Builder::new()
        .set_async(false)
        .write(b"")
        .wait(Duration::from_millis(5))
        .read(b"y")
        .build();
    let mut buf = [0u8; 4];
    assert_eq!(1, mock.read(&mut buf).unwrap());
    assert_eq!(buf[0], b'y');
}

#[test]
fn poll_outcomes_decide_the_read() {
    assert!(mock_io::after_poll(Ok(true)).is_none());
    assert!(matches!(mock_io::after_poll(Ok(false)), Some(MockError::WouldBlock)));
    assert!(matches!(
        mock_io::after_poll(Err(tokio_timer::TimerError::TooLong)),
        Some(MockError::TimerFailed(tokio_timer::TimerError::TooLong))
    ));
}

#[test]
fn async_setting_reports_the_builder_mode() {
    assert_eq!(Builder::new().build().async_setting(), None);
    assert_eq!(Builder::new().set_async(false).build().async_setting(), Some(false));
    assert_eq!(Builder::new().set_async(true).build().async_setting(), Some(true));
}

#[test]
fn async_read_after_a_read_goes_on_without_a_timer() {
    let res = futures::future::lazy(|| {
        let mut mock = Builder::new().set_async(true).read(b"hello world").build();
        let mut buf = [0u8; 6];
        let first = mock.read(&mut buf).unwrap();
        let second = mock.read(&mut buf).unwrap();
        let third = mock.read(&mut buf).unwrap();
        Ok::<(usize, usize, usize, [u8; 6]), ()>((first, second, third, buf))
    })
    .wait()
    .unwrap();
    assert_eq!((res.0, res.1, res.2), (6, 5, 0));
    assert_eq!(&res.3[..5], b"world");
}

#[test]
fn write_with_no_write_after_the_reads_is_refused() {
    let mut mock = Builder::new().read(b"x").build();
    assert!(matches!(mock.write(b"x"), Err(MockError::UnexpectedWrite)));
    let mut mock = Builder::new().read(b"x").wait(Duration::from_secs(60)).write(b"y").build();
    assert!(matches!(mock.write(b"y"), Err(MockError::UnexpectedWrite)));
}

#[test]
fn write_goes_to_the_write_after_the_reads() {
    let mut mock = Builder::new().read(b"ab").read(b"cd").write(b"hello").read(b"ef").build();
    let mut buf = [0u8; 8];
    assert_eq!(1, mock.read(&mut buf[..1]).unwrap());
    assert_eq!(&buf[..1], b"a");
    // the reads in progress stay; the write is matched against the write after them
    assert_eq!(3, mock.write(b"hel").unwrap());
    assert!(mock.write_matches(b"lo"));
    assert!(!mock.write_matches(b"xx"));
    assert_eq!(2, mock.write(b"lo!").unwrap());
    // the write is used up: the reads go on, straight through to the last one
    assert_eq!(1, mock.read(&mut buf).unwrap());
    assert_eq!(&buf[..1], b"b");
    assert_eq!(2, mock.read(&mut buf).unwrap());
    assert_eq!(&buf[..2], b"cd");
    assert_eq!(2, mock.read(&mut buf).unwrap());
    assert_eq!(&buf[..2], b"ef");
    assert_eq!(0, mock.read(&mut buf).unwrap());
    assert!(matches!(mock.write(b"x"), Err(MockError::BrokenPipe)));
}

#[test]
fn partial_write_after_the_reads_keeps_the_rest() {
    let mut mock = Builder::new().read(b"r").write(b"wxyz").build();
    assert_eq!(2, mock.write(b"wx").unwrap());
    let mut buf = [0u8; 4];
    assert_eq!(1, mock.read(&mut buf).unwrap());
    assert_eq!(&buf[..1], b"r");
    // the rest of the write is now the operation in progress
    assert!(matches!(mock.read(&mut buf), Err(MockError::ExpectedWrite)));
    assert_eq!(2, mock.write(b"yz").unwrap());
    assert_eq!(0, mock.read(&mut buf).unwrap());
}

#[test]
fn write_while_waiting_is_refused() {
    let mut mock = Builder::new().wait(Duration::from_secs(60)).write(b"x").build();
    assert!(matches!(mock.write(b"x"), Err(MockError::UnexpectedWrite)));
}

#[test]
fn blocking_read_while_a_write_is_expected_fails() {
    let mut mock = Builder::new().write(b"x").build();
    let mut buf = [0u8; 4];
    assert!(matches!(mock.read(&mut buf), Err(MockError::ExpectedWrite)));
}

#[test]
fn finished_mock_stays_finished() {
    let mut mock = Builder::new().read(b"a").build();
    let mut buf = [0u8; 4];
    assert_eq!(1, mock.read(&mut buf).unwrap());
    for _ in 0..3 {
        assert_eq!(0, mock.read(&mut buf).unwrap());
        assert!(matches!(mock.write(b"a"), Err(MockError::BrokenPipe)));
    }
}

#[test]
fn wait_blocks_for_its_duration() {
    let dur = Duration::from_millis(50);
    let mut mock = Builder::new().wait(dur).read(b"x").build();
    let mut buf = [0u8; 4];
    let now = Instant::now();
    assert_eq!(1, mock.read(&mut buf).unwrap());
    assert!(now.elapsed() >= dur);
}

#[test]
fn wait_nanos_blocks_for_its_duration() {
    let mut mock = Builder::new().wait_nanos(30_000_000).read(b"x").build();
    let mut buf = [0u8; 4];
    let now = Instant::now();
    assert_eq!(1, mock.read(&mut buf).unwrap());
    assert!(now.elapsed() >= Duration::from_millis(30));
}

#[test]
fn wait_is_at_least_a_millisecond() {
    let mut mock = Builder::new().wait(Duration::from_nanos(1)).read(b"x").build();
    let mut buf = [0u8; 4];
    let now = Instant::now();
    assert_eq!(1, mock.read(&mut buf).unwrap());
    assert!(now.elapsed() >= Duration::from_millis(1));
}

#[test]
fn builder_builds_independent_mocks() {
    let mut builder = Builder::new();
    builder.read(b"x");
    let mut first = builder.build();
    let mut second = builder.build();
    assert_eq!(read_all(&mut first), b"x");
    assert_eq!(read_all(&mut second), b"x");
}

#[test]
fn set_async_chooses_the_mode() {
    assert!(!Builder::new().set_async(false).build().is_async());
    assert!(Builder::new().set_async(true).build().is_async());
    // outside a task, the mode follows the context
    assert!(!Builder::new().build().is_async());
}

#[test]
fn task_context_is_detected() {
    assert!(!mock_io::is_task_ctx());
    let inside = futures::future::lazy(|| Ok::<bool, ()>(mock_io::is_task_ctx())).wait().unwrap();
    assert!(inside);
    let mode = futures::future::lazy(|| Ok::<bool, ()>(Builder::new().build().is_async()))
        .wait()
        .unwrap();
    assert!(mode);
}

#[test]
fn async_mode_outside_a_task_cannot_block() {
    let mut mock = Builder::new().set_async(true).write(b"x").build();
    let mut buf = [0u8; 4];
    assert!(matches!(mock.read(&mut buf), Err(MockError::NotInTask)));
}

#[test]
fn async_write_while_a_read_is_expected_would_block() {
    let res = futures::future::lazy(|| {
        let mut mock = Builder::new().read(b"x").build();
        Ok::<bool, ()>(matches!(mock.write(b"x"), Err(MockError::WouldBlock)))
    })
    .wait()
    .unwrap();
    assert!(res);
}

#[test]
fn async_read_while_a_write_is_expected_would_block() {
    let res = futures::future::lazy(|| {
        let mut mock = Builder::new().write(b"x").build();
        let mut buf = [0u8; 4];
        Ok::<bool, ()>(matches!(mock_io::async_read(&mut mock, &mut buf), Err(MockError::WouldBlock)))
    })
    .wait()
    .unwrap();
    assert!(res);
}

#[test]
fn async_write_goes_through_when_expected() {
    let res = futures::future::lazy(|| {
        let mut mock = Builder::new().write(b"hello").build();
        Ok::<usize, ()>(mock_io::async_write(&mut mock, b"hel").unwrap())
    })
    .wait()
    .unwrap();
    assert_eq!(res, 3);
}

#[test]
fn too_long_async_wait_fails_in_the_timer() {
    let res = futures::future::lazy(|| {
        let mut mock = Builder::new()
            .set_async(true)
            .wait(Duration::from_secs(7200))
            .read(b"x")
            .build();
        let mut buf = [0u8; 4];
        Ok::<bool, ()>(matches!(mock.read(&mut buf), Err(MockError::TimerFailed(_))))
    })
    .wait()
    .unwrap();
    assert!(res);
}

#[test]
fn flush_succeeds() {
    let mut mock = Builder::new().read(b"x").build();
    assert!(mock.flush().is_ok());
    assert_eq!(read_all(&mut mock), b"x");
}

#[test]
fn packets_replay_writes_waits_and_reads() {
    let packets = vec![
        Packet { direction: Direction::Write, elapsed: Duration::from_millis(0), data: b"hi".to_vec() },
        Packet { direction: Direction::Read, elapsed: Duration::from_millis(40), data: b"yo".to_vec() },
    ];
    let mut mock = Builder::from_packets(&packets).build();
    assert_eq!(2, mock.write(b"hi").unwrap());
    let mut buf = [0u8; 4];
    let now = Instant::now();
    assert_eq!(2, mock.read(&mut buf).unwrap());
    assert!(now.elapsed() >= Duration::from_millis(40));
    assert_eq!(&buf[..2], b"yo");
    assert_eq!(0, mock.read(&mut buf).unwrap());
}

#[test]
fn packets_wait_from_the_previous_packet() {
    let packets = vec![
        Packet { direction: Direction::Read, elapsed: Duration::from_millis(10), data: b"a".to_vec() },
        Packet { direction: Direction::Read, elapsed: Duration::from_millis(40), data: b"b".to_vec() },
    ];
    let mut mock = Builder::from_packets(&packets).build();
    let mut buf = [0u8; 4];
    assert_eq!(1, mock.read(&mut buf).unwrap());
    assert_eq!(buf[0], b'a');
    let now = Instant::now();
    assert_eq!(1, mock.read(&mut buf).unwrap());
    assert_eq!(buf[0], b'b');
    let waited = now.elapsed();
    assert!(waited >= Duration::from_millis(30));
}

#[test]
fn cloned_builder_builds_the_same_script() {
    let mut builder = Builder::new();
    builder.write(b"a").read(b"b");
    let mut copy = builder.clone();
    let mut mock = copy.build();
    assert_eq!(1, mock.write(b"a").unwrap());
    assert_eq!(read_all(&mut mock), b"b");
}

#[test]
fn step_functions_follow_the_given_task_context() {
    let mut buf = [0u8; 4];
    // async mode with no task: nothing could be woken, so the read says so
    let mut mock = Builder::new().set_async(true).write(b"x").build();
    assert!(matches!(mock.read_with(&mut buf, &None), Err(MockError::NotInTask)));
    // mode not set and no task: the blocking path runs
    let mut mock = Builder::new().read(b"x").build();
    assert!(matches!(mock.write_with(b"y", &None), Err(MockError::UnexpectedWrite)));
    assert_eq!(1, mock.read_with(&mut buf, &None).unwrap());
    assert_eq!(&buf[..1], b"x");
    // async mode with no task
    let mut mock = Builder::new().set_async(true).read(b"x").build();
    assert!(matches!(mock.write_with(b"y", &None), Err(MockError::NotInTask)));
    assert!(matches!(mock_io::async_write_with(&mut mock, b"y", &None), Err(MockError::NotInTask)));
    assert_eq!(1, mock_io::async_read_with(&mut mock, &mut buf, &None).unwrap());
    assert_eq!(0, mock_io::async_read_with(&mut mock, &mut buf, &None).unwrap());
}
