use aya_log_core::buffer::{BufferPool, LogBuf, LOG_BUF_CAPACITY};
use aya_log_core::hint::DisplayHint;
use aya_log_core::level::Level;
use aya_log_core::value::Value;
use aya_log_core::wire::Binding;

fn bindings() -> Vec<Binding> {
    vec![Binding { hint: DisplayHint::Default, value: Value::U32(42) }]
}

#[test]
fn new_buffer_is_zeroed() {
    assert_eq!(LOG_BUF_CAPACITY, 8192);
    let buf = LogBuf::new(LOG_BUF_CAPACITY);
    assert_eq!(buf.capacity(), 8192);
    assert!(buf.filled(8192).unwrap().iter().all(|b| *b == 0));
    assert!(buf.filled(8193).is_none());
    assert_eq!(buf.filled(0), Some(&[][..]));
    assert_eq!(LogBuf::new(0).capacity(), 0);
}

#[test]
fn record_fills_the_front_of_the_buffer() {
    let mut buf = LogBuf::new(32);
    let n = buf.write_record("t", Level::Info, "m", "f", 7, &bindings()).unwrap();
    assert_eq!(n, 18 + 6);
    assert_eq!(
        buf.filled(n).unwrap(),
        &[1u8, 0, b't', 3, 1, 0, b'm', 1, 0, b'f', 7, 0, 0, 0, 1, 0, 0, 0, 1, 3, 42, 0, 0, 0][..]
    );
    assert_eq!(buf.capacity(), 32);
    let mut small = LogBuf::new(23);
    assert_eq!(small.write_record("t", Level::Info, "m", "f", 7, &bindings()), None);
    assert_eq!(small.capacity(), 23);
}

#[test]
fn a_unit_without_a_buffer_logs_nothing() {
    let mut pool = BufferPool::new(2);
    assert!(pool.acquire_buffer(0).is_none());
    assert!(pool.acquire_buffer(1).is_none());
    assert!(pool.acquire_buffer(2).is_none());
    assert!(pool.build_record(0, "t", Level::Info, "m", "f", 7, &bindings()).is_none());
    assert!(pool.build_record(5, "t", Level::Info, "m", "f", 7, &bindings()).is_none());
}

#[test]
fn each_unit_has_its_own_buffer() {
    let mut pool = BufferPool::new(2);
    assert!(pool.release(0, LogBuf::new(16)).is_none());
    assert!(pool.release(1, LogBuf::new(64)).is_none());
    // a slot holds one buffer, and there is no slot for a unit that does not exist
    assert_eq!(pool.release(0, LogBuf::new(1)).map(|b| b.capacity()), Some(1));
    assert_eq!(pool.release(2, LogBuf::new(3)).map(|b| b.capacity()), Some(3));
    let first = pool.acquire_buffer(0).unwrap();
    assert_eq!(first.capacity(), 16);
    // while the buffer is out the unit cannot log again
    assert!(pool.acquire_buffer(0).is_none());
    let second = pool.acquire_buffer(1).unwrap();
    assert_eq!(second.capacity(), 64);
    assert!(pool.release(0, first).is_none());
    assert_eq!(pool.acquire_buffer(0).unwrap().capacity(), 16);
}

#[test]
fn build_record_hands_out_the_record_or_nothing() {
    let mut pool = BufferPool::new(2);
    assert!(pool.release(0, LogBuf::new(16)).is_none());
    assert!(pool.release(1, LogBuf::new(64)).is_none());
    // too small: the record is dropped and the buffer is back in its slot
    assert!(pool.build_record(0, "t", Level::Info, "m", "f", 7, &bindings()).is_none());
    assert_eq!(pool.acquire_buffer(0).map(|b| b.capacity()), Some(16));
    let (buffer, length) =
        pool.build_record(1, "t", Level::Info, "m", "f", 7, &bindings()).unwrap();
    assert_eq!(length, 24);
    assert_eq!(buffer.filled(length).unwrap()[18..], [1, 3, 42, 0, 0, 0]);
    // the buffer is out until it is given back
    assert!(pool.build_record(1, "t", Level::Info, "m", "f", 7, &bindings()).is_none());
    assert!(pool.release(1, buffer).is_none());
    assert!(pool.build_record(1, "t", Level::Info, "m", "f", 7, &bindings()).is_some());
}

#[test]
fn a_record_is_submitted_once_or_not_at_all() {
    let mut pool = BufferPool::new(2);
    assert!(pool.release(0, LogBuf::new(16)).is_none());
    assert!(pool.release(1, LogBuf::new(64)).is_none());
    let mut calls = 0;
    let mut seen = Vec::new();
    let answer = pool.submit_record(
        1,
        "t",
        Level::Info,
        "m",
        "f",
        7,
        &bindings(),
        |record: &[u8], flags: u64| {
            calls += 1;
            seen = record.to_vec();
            flags + 40
        },
    );
    assert_eq!(answer, Some(40));
    assert_eq!(calls, 1);
    assert_eq!(
        seen,
        vec![1u8, 0, b't', 3, 1, 0, b'm', 1, 0, b'f', 7, 0, 0, 0, 1, 0, 0, 0, 1, 3, 42, 0, 0, 0]
    );
    // the buffer is back in its slot
    assert_eq!(pool.acquire_buffer(1).map(|b| b.capacity()), Some(64));
    // the record does not fit, the unit has no buffer, the unit does not exist
    for unit in [0, 1, 2] {
        let mut called = false;
        let answer = pool.submit_record(
            unit,
            "t",
            Level::Info,
            "m",
            "f",
            7,
            &bindings(),
            |_: &[u8], _: u64| called = true,
        );
        assert_eq!(answer, None);
        assert!(!called);
    }
    assert_eq!(pool.acquire_buffer(0).map(|b| b.capacity()), Some(16));
}
