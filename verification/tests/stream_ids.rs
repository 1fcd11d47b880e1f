use redis_server::error::ErrorKind;
use redis_server::stream::{
    parse_stream_id_spec, parse_xrange_bound, resolve_stream_id, stream_id_to_bytes, StreamId,
    StreamIdSpec, XaddError,
};

fn id(milliseconds: u64, sequence_number: u64) -> StreamId {
    StreamId { milliseconds, sequence_number }
}

#[test]
fn requested_ids_are_read() {
    assert_eq!(parse_stream_id_spec(b"*").unwrap(), StreamIdSpec::Auto);
    assert_eq!(parse_stream_id_spec(b"5-*").unwrap(), StreamIdSpec::AutoSequence(5));
    assert_eq!(parse_stream_id_spec(b"5-7").unwrap(), StreamIdSpec::Explicit(id(5, 7)));
    assert_eq!(
        parse_stream_id_spec(b"18446744073709551615-18446744073709551615").unwrap(),
        StreamIdSpec::Explicit(StreamId::max())
    );
}

#[test]
fn bad_requested_ids_are_rejected() {
    let message = |text: &[u8]| {
        let error = parse_stream_id_spec(text).unwrap_err();
        assert_eq!(error.kind, ErrorKind::InvalidData);
        error.message
    };
    assert_eq!(message(b"5"), "invalid stream id");
    assert_eq!(message(b""), "invalid stream id");
    assert_eq!(message(b"\xff-1"), "invalid stream id");
    assert_eq!(message(b"-1"), "invalid stream ID");
    assert_eq!(message(b"+1-1"), "invalid stream ID");
    assert_eq!(message(b"1-"), "invalid stream ID");
    assert_eq!(message(b"1-2-3"), "invalid stream ID");
    assert_eq!(message("1-\u{e9}".as_bytes()), "invalid stream ID");
    assert_eq!(message(b"18446744073709551616-1"), "invalid Stream ID");
    assert_eq!(message(b"1-18446744073709551616"), "invalid Stream ID");
}

#[test]
fn bounds_are_read() {
    assert_eq!(parse_xrange_bound(b"5-7", 9).unwrap(), id(5, 7));
    assert_eq!(parse_xrange_bound(b"5", 9).unwrap(), id(5, 9));
    assert_eq!(parse_xrange_bound(b"005", u64::MAX).unwrap(), id(5, u64::MAX));
    for text in ["", "-", "5-", "-5", "+5", "5-x", "5-6-7", "18446744073709551616"] {
        let error = parse_xrange_bound(text.as_bytes(), 0).unwrap_err();
        assert_eq!(error.kind, ErrorKind::InvalidData);
        assert_eq!(error.message, "invalid stream id");
    }
}

#[test]
fn written_ids_read_back() {
    for value in [StreamId::zero(), id(1526919030474, 55), StreamId::max()] {
        let text = stream_id_to_bytes(value);
        assert_eq!(parse_xrange_bound(&text, 3).unwrap(), value);
        assert_eq!(parse_stream_id_spec(&text).unwrap(), StreamIdSpec::Explicit(value));
    }
    assert_eq!(stream_id_to_bytes(id(1526919030474, 55)), b"1526919030474-55".to_vec());
}

#[test]
fn ids_are_ordered_by_time_and_sequence_number() {
    assert!(id(1, 9).precedes(&id(2, 0)));
    assert!(id(2, 0).precedes(&id(2, 1)));
    assert!(!id(2, 1).precedes(&id(2, 1)));
    assert!(!id(2, 1).precedes(&id(2, 0)));
    assert!(id(1, 9) < id(2, 0));
}

#[test]
fn explicit_ids_must_grow() {
    let last = id(5, 5);
    let spec = |milliseconds, sequence| StreamIdSpec::Explicit(id(milliseconds, sequence));
    assert_eq!(resolve_stream_id(spec(5, 6), Some(&last), None), Ok(id(5, 6)));
    assert_eq!(resolve_stream_id(spec(6, 0), Some(&last), None), Ok(id(6, 0)));
    assert_eq!(resolve_stream_id(spec(5, 5), Some(&last), None), Err(XaddError::IdNotGreater));
    assert_eq!(resolve_stream_id(spec(4, 9), Some(&last), None), Err(XaddError::IdNotGreater));
    assert_eq!(resolve_stream_id(spec(0, 1), None, None), Ok(id(0, 1)));
}

#[test]
fn sequence_numbers_are_made() {
    let auto = StreamIdSpec::AutoSequence;
    assert_eq!(resolve_stream_id(auto(0), None, None), Ok(id(0, 1)));
    assert_eq!(resolve_stream_id(auto(7), None, None), Ok(id(7, 0)));
    assert_eq!(resolve_stream_id(auto(7), Some(&id(7, 3)), None), Ok(id(7, 4)));
    assert_eq!(resolve_stream_id(auto(8), Some(&id(7, 3)), None), Ok(id(8, 0)));
    let refused = Err(XaddError::IdNotGreater);
    assert_eq!(resolve_stream_id(auto(6), Some(&id(7, 3)), None), refused);
    assert_eq!(resolve_stream_id(auto(7), Some(&id(7, u64::MAX)), None), refused);
}

#[test]
fn whole_ids_are_made() {
    let auto = StreamIdSpec::Auto;
    assert_eq!(resolve_stream_id(auto, None, Some(100)), Ok(id(100, 0)));
    assert_eq!(resolve_stream_id(auto, Some(&id(99, 5)), Some(100)), Ok(id(100, 0)));
    assert_eq!(resolve_stream_id(auto, Some(&id(100, 5)), Some(100)), Ok(id(100, 6)));
    // The clock went back.
    assert_eq!(resolve_stream_id(auto, Some(&id(200, 5)), Some(100)), Ok(id(200, 6)));
    assert_eq!(
        resolve_stream_id(auto, Some(&id(100, u64::MAX)), Some(100)),
        Err(XaddError::IdNotGreater)
    );
    assert_eq!(resolve_stream_id(auto, None, None), Err(XaddError::ClockUnavailable));
}
