use redis_server::decode::{read_bulk_string, read_command, read_resp_line, Fetch};
use redis_server::encode::{
    encode_bulk_string, write_array, write_array_header, write_bulk_header, write_bulk_string,
    write_integer, write_stream_entries, write_xread_response,
};
use redis_server::error::{Error, ErrorKind};
use redis_server::stream::{StreamEntry, StreamId, StreamReadResult};

fn words(list: &[&str]) -> Vec<Vec<u8>> {
    list.iter().map(|word| word.as_bytes().to_vec()).collect()
}

fn ready<T>(result: Result<Fetch<T>, Error>) -> (T, usize) {
    match result {
        Ok(Fetch::Ready(value, next)) => (value, next),
        _ => panic!("nothing was read"),
    }
}

fn is_pending<T>(result: Result<Fetch<T>, Error>) -> bool {
    matches!(result, Ok(Fetch::Pending))
}

fn failure<T>(result: Result<Fetch<T>, Error>) -> (ErrorKind, String) {
    match result {
        Err(error) => (error.kind, error.message),
        Ok(_) => panic!("no failure"),
    }
}

#[test]
fn lines_end_in_carriage_return_and_line_feed() {
    assert_eq!(ready(read_resp_line(b"+OK\r\nrest", 0, false)), (b"+OK".to_vec(), 5));
    assert_eq!(ready(read_resp_line(b"\r\n", 0, false)), (b"".to_vec(), 2));
    assert!(is_pending(read_resp_line(b"+OK\r", 0, false)));
    assert!(matches!(read_resp_line(b"", 0, true), Ok(Fetch::Closed)));
    assert!(matches!(read_resp_line(b"ab", 2, true), Ok(Fetch::Closed)));
    let invalid = (ErrorKind::InvalidData, "invalid RESP line".to_string());
    assert_eq!(failure(read_resp_line(b"+OK\n", 0, false)), invalid);
    assert_eq!(failure(read_resp_line(b"\n", 0, false)), invalid);
    assert_eq!(failure(read_resp_line(b"+OK\r", 0, true)), invalid);
}

#[test]
fn bulk_strings_are_read() {
    assert_eq!(ready(read_bulk_string(b"$3\r\nfoo\r\nx", 0, false)), (b"foo".to_vec(), 9));
    assert_eq!(ready(read_bulk_string(b"$0\r\n\r\n", 0, true)), (b"".to_vec(), 6));
    // A bulk string may hold any bytes.
    assert_eq!(ready(read_bulk_string(b"$4\r\n\r\n\x00\xff\r\n", 0, false)).0, b"\r\n\x00\xff");
    assert!(is_pending(read_bulk_string(b"$3\r\nfoo\r", 0, false)));
    assert!(is_pending(read_bulk_string(b"$18446744073709551615\r\nfoo\r\n", 0, false)));
    assert!(matches!(read_bulk_string(b"", 0, true), Ok(Fetch::Closed)));
}

#[test]
fn bad_bulk_strings_are_rejected() {
    let data = |message: &str| (ErrorKind::InvalidData, message.to_string());
    assert_eq!(
        failure(read_bulk_string(b"*3\r\n", 0, false)),
        data("expected RESP bulk string")
    );
    assert_eq!(failure(read_bulk_string(b"\r\n", 0, false)), data("expected RESP bulk string"));
    assert_eq!(failure(read_bulk_string(b"$x\r\n", 0, false)), data("invalid number"));
    assert_eq!(failure(read_bulk_string(b"$-1\r\n", 0, false)), data("invalid number"));
    assert_eq!(
        failure(read_bulk_string(b"$3\r\nfooxx", 0, false)),
        data("bulk string missing CRLF")
    );
    assert_eq!(
        failure(read_bulk_string(b"$3\r\nfo", 0, true)),
        (ErrorKind::UnexpectedEof, "early eof".to_string())
    );
}

#[test]
fn commands_are_read() {
    let input = b"*2\r\n$4\r\nECHO\r\n$2\r\nhi\r\n*1\r\n$4\r\nPING\r\n";
    let (first, next) = ready(read_command(input, 0, false));
    assert_eq!(first, words(&["ECHO", "hi"]));
    let (second, end) = ready(read_command(input, next, false));
    assert_eq!(second, words(&["PING"]));
    assert_eq!(end, input.len());
    assert!(is_pending(read_command(input, end, false)));
    assert!(matches!(read_command(input, end, true), Ok(Fetch::Closed)));
    assert_eq!(ready(read_command(b"*0\r\n", 0, false)).0, words(&[]));
}

#[test]
fn bad_commands_are_rejected() {
    let data = |message: &str| (ErrorKind::InvalidData, message.to_string());
    assert_eq!(failure(read_command(b"PING\r\n", 0, false)), data("expected RESP array"));
    assert_eq!(failure(read_command(b"*-1\r\n", 0, false)), data("invalid number"));
    assert_eq!(
        failure(read_command(b"*2\r\n$4\r\nECHO\r\n", 0, true)),
        data("unexpected end of input")
    );
    assert_eq!(
        failure(read_command(b"*2\r\n$4\r\nECHO\r\n+hi\r\n", 0, true)),
        data("expected RESP bulk string")
    );
    assert_eq!(
        failure(read_command(b"*1\r\n$4\r\nEC", 0, true)),
        (ErrorKind::UnexpectedEof, "early eof".to_string())
    );
}

#[test]
fn every_proper_beginning_of_a_command_is_pending() {
    let input = b"*3\r\n$3\r\nSET\r\n$3\r\nfoo\r\n$5\r\na\r\nbc\r\n";
    for length in 0..input.len() {
        assert!(is_pending(read_command(&input[..length], 0, false)));
    }
    assert_eq!(ready(read_command(input, 0, false)).1, input.len());
}

#[test]
fn written_commands_read_back() {
    let command = vec![b"SET".to_vec(), Vec::new(), b"\r\n$1\r\n".to_vec()];
    let mut bytes = b"before".to_vec();
    write_array(&mut bytes, &command);
    let end = bytes.len();
    bytes.extend_from_slice(b"after");
    assert_eq!(ready(read_command(&bytes, 6, false)), (command, end));
}

#[test]
fn what_came_before_a_command_does_not_matter() {
    let (alone, end) = ready(read_command(b"*1\r\n$1\r\na\r\n", 0, false));
    let (behind, later) = ready(read_command(b"\r\n*9\r\n*1\r\n$1\r\na\r\n", 6, false));
    assert_eq!(alone, behind);
    assert_eq!(end + 6, later);
}

#[test]
fn replies_are_written() {
    let mut out = Vec::new();
    write_integer(&mut out, -12);
    write_bulk_header(&mut out, 88);
    write_bulk_string(&mut out, b"foo");
    write_array_header(&mut out, 3);
    write_array(&mut out, &words(&["a", ""]));
    assert_eq!(
        out,
        b":-12\r\n$88\r\n$3\r\nfoo\r\n*3\r\n*2\r\n$1\r\na\r\n$0\r\n\r\n".to_vec()
    );
    assert_eq!(encode_bulk_string(b"hello"), b"$5\r\nhello\r\n".to_vec());
}

#[test]
fn stream_entries_are_written() {
    let entry = StreamEntry {
        id: StreamId { milliseconds: 5, sequence_number: 1 },
        fields: vec![(b"f".to_vec(), b"v".to_vec()), (b"g".to_vec(), b"ww".to_vec())],
    };
    let expected = "*1\r\n*2\r\n$3\r\n5-1\r\n*4\r\n$1\r\nf\r\n$1\r\nv\r\n$1\r\ng\r\n$2\r\nww\r\n";
    let mut out = Vec::new();
    let entries = vec![entry];
    write_stream_entries(&mut out, &entries);
    assert_eq!(out, expected.as_bytes().to_vec());
    let mut out = Vec::new();
    write_xread_response(&mut out, &[StreamReadResult { key: b"key".to_vec(), entries }]);
    assert_eq!(out, format!("*1\r\n*2\r\n$3\r\nkey\r\n{}", expected).into_bytes());
}
