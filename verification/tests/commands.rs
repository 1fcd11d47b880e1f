use redis_server::commands::{Clock, Reaction, Wait};
use redis_server::database::{DatabaseState, RedisValue};
use redis_server::lists::{invalid_timeout_reply, normalize_range, poll_list};
use redis_server::reply::{null_array_reply, null_bulk_string_reply};
use redis_server::session::Session;
use redis_server::stream::StreamId;
use redis_server::streams::{poll_streams, read_streams_now};
use redis_server::strings::increment_numeric_string;

const WRONG_TYPE: &str =
    "-WRONGTYPE Operation against a key holding the wrong kind of value\r\n";

/// A server with one client, and clocks that stand still unless they are set.
struct Server {
    db: DatabaseState,
    session: Session,
    clock: Clock,
}

impl Server {
    fn new() -> Server {
        Server {
            db: DatabaseState::new(),
            session: Session::new(),
            clock: Clock { now: 0, unix_milliseconds: Some(1000) },
        }
    }

    fn send(&mut self, words: &[&str]) -> Reaction {
        self.send_bytes(words.iter().map(|word| word.as_bytes().to_vec()).collect())
    }

    fn send_bytes(&mut self, command: Vec<Vec<u8>>) -> Reaction {
        self.session.handle_command_at(&mut self.db, command, self.clock, false)
    }

    /// The reply to a command, whatever else is to be done about it.
    fn ask(&mut self, words: &[&str]) -> String {
        match self.send(words) {
            Reaction::Reply(reply) => text(reply),
            Reaction::ListExtended { reply, .. } => text(reply),
            Reaction::StreamExtended { reply } => text(reply),
            Reaction::ReadStreams { keys, starts, wait: Wait::No } => {
                text(read_streams_now(&mut self.db, &keys, &starts, self.clock.now))
            }
            _ => panic!("no reply"),
        }
    }

    fn version(&self, key: &str) -> u64 {
        self.db.version(key.as_bytes())
    }
}

fn text(bytes: Vec<u8>) -> String {
    String::from_utf8(bytes).unwrap()
}

#[test]
fn ping_and_echo() {
    let mut server = Server::new();
    assert_eq!(server.ask(&["PING"]), "+PONG\r\n");
    assert_eq!(server.ask(&["ping"]), "+PONG\r\n");
    assert_eq!(server.ask(&["PING", "x"]), "-ERR unknown command\r\n");
    assert_eq!(server.ask(&["ECHO", "hey"]), "$3\r\nhey\r\n");
    assert_eq!(server.ask(&["ECHO"]), "-ERR unknown command\r\n");
    assert_eq!(server.ask(&[]), "-ERR unknown command\r\n");
    assert_eq!(server.ask(&["NOPE", "a"]), "-ERR unknown command\r\n");
}

#[test]
fn get_finds_what_set_stored() {
    let mut server = Server::new();
    assert_eq!(server.ask(&["GET", "foo"]), "$-1\r\n");
    assert_eq!(server.ask(&["SET", "foo", "bar"]), "+OK\r\n");
    assert_eq!(server.ask(&["GET", "foo"]), "$3\r\nbar\r\n");
    assert_eq!(server.ask(&["get", "FOO"]), "$-1\r\n");
    assert_eq!(server.ask(&["SET", "foo", ""]), "+OK\r\n");
    assert_eq!(server.ask(&["GET", "foo"]), "$0\r\n\r\n");
    assert_eq!(server.ask(&["GET", "foo", "x"]), "-ERR unknown command\r\n");
}

#[test]
fn set_rejects_what_it_does_not_know() {
    let mut server = Server::new();
    assert_eq!(server.ask(&["SET"]), "-ERR syntax error\r\n");
    assert_eq!(server.ask(&["SET", "a"]), "-ERR syntax error\r\n");
    assert_eq!(server.ask(&["SET", "a", "b", "PX"]), "-ERR syntax error\r\n");
    assert_eq!(server.ask(&["SET", "a", "b", "EX", "5"]), "-ERR syntax error\r\n");
    for milliseconds in ["0", "-1", "x", "", "18446744073709551616"] {
        assert_eq!(
            server.ask(&["SET", "a", "b", "PX", milliseconds]),
            "-ERR invalid expire time in 'set' command\r\n"
        );
    }
    assert_eq!(server.ask(&["GET", "a"]), "$-1\r\n");
    assert_eq!(server.version("a"), 0);
    assert_eq!(server.db.take_propagated().len(), 0);
}

#[test]
fn strings_expire() {
    let mut server = Server::new();
    server.clock.now = 5_000_000;
    assert_eq!(server.ask(&["SET", "foo", "bar", "px", "100"]), "+OK\r\n");
    server.clock.now = 104_999_999;
    assert_eq!(server.ask(&["GET", "foo"]), "$3\r\nbar\r\n");
    assert_eq!(server.version("foo"), 1);
    server.clock.now = 105_000_000;
    assert_eq!(server.ask(&["GET", "foo"]), "$-1\r\n");
    // The removal counts as a modification.
    assert_eq!(server.version("foo"), 2);
    assert_eq!(server.ask(&["TYPE", "foo"]), "+none\r\n");
    assert_eq!(server.version("foo"), 2);
}

#[test]
fn longest_expiry_does_not_overflow() {
    let mut server = Server::new();
    server.clock.now = u64::MAX;
    assert_eq!(server.ask(&["SET", "a", "b", "PX", "18446744073709551615"]), "+OK\r\n");
    assert_eq!(server.ask(&["GET", "a"]), "$1\r\nb\r\n");
}

#[test]
fn storing_again_takes_the_expiry_away() {
    let mut server = Server::new();
    server.ask(&["SET", "foo", "bar", "PX", "1"]);
    server.ask(&["SET", "foo", "baz"]);
    server.clock.now = u64::MAX;
    assert_eq!(server.ask(&["GET", "foo"]), "$3\r\nbaz\r\n");
}

#[test]
fn incr_counts() {
    let mut server = Server::new();
    assert_eq!(server.ask(&["INCR", "n"]), ":1\r\n");
    assert_eq!(server.ask(&["INCR", "n"]), ":2\r\n");
    assert_eq!(server.ask(&["GET", "n"]), "$1\r\n2\r\n");
    assert_eq!(server.version("n"), 2);
    server.ask(&["SET", "n", "-1"]);
    assert_eq!(server.ask(&["INCR", "n"]), ":0\r\n");
    server.ask(&["SET", "n", "+41"]);
    assert_eq!(server.ask(&["INCR", "n"]), ":42\r\n");
    assert_eq!(
        server.ask(&["INCR"]),
        "-ERR wrong number of argument for 'incr' command\r\n"
    );
}

#[test]
fn incr_keeps_the_expiry() {
    let mut server = Server::new();
    server.ask(&["SET", "n", "7", "PX", "10"]);
    assert_eq!(server.ask(&["INCR", "n"]), ":8\r\n");
    server.clock.now = 10_000_000;
    assert_eq!(server.ask(&["INCR", "n"]), ":1\r\n");
}

#[test]
fn incr_rejects_what_is_no_number() {
    let out_of_range = "-ERR value is not an integer or out of range\r\n";
    let mut server = Server::new();
    for value in ["abc", "", "1.5", "9223372036854775807", "9223372036854775808"] {
        server.ask(&["SET", "n", value]);
        let version = server.version("n");
        assert_eq!(server.ask(&["INCR", "n"]), out_of_range);
        assert_eq!(server.ask(&["GET", "n"]), format!("${}\r\n{}\r\n", value.len(), value));
        assert_eq!(server.version("n"), version);
    }
    server.ask(&["RPUSH", "list", "1"]);
    assert_eq!(server.ask(&["INCR", "list"]), out_of_range);
}

#[test]
fn numeric_strings_are_incremented() {
    let mut value = b"9223372036854775806".to_vec();
    assert_eq!(increment_numeric_string(&mut value), Ok(i64::MAX));
    assert_eq!(value, b"9223372036854775807".to_vec());
    assert_eq!(increment_numeric_string(&mut value), Err(()));
    assert_eq!(value, b"9223372036854775807".to_vec());
    let mut value = b"\xff".to_vec();
    assert_eq!(increment_numeric_string(&mut value), Err(()));
}

#[test]
fn types_are_told() {
    let mut server = Server::new();
    server.ask(&["SET", "s", "1"]);
    server.ask(&["RPUSH", "l", "1"]);
    server.ask(&["XADD", "x", "1-1", "f", "v"]);
    assert_eq!(server.ask(&["TYPE", "s"]), "+string\r\n");
    assert_eq!(server.ask(&["TYPE", "l"]), "+list\r\n");
    assert_eq!(server.ask(&["TYPE", "x"]), "+stream\r\n");
    assert_eq!(server.ask(&["TYPE", "other"]), "+none\r\n");
    assert_eq!(
        server.ask(&["TYPE"]),
        "-ERR wrong number of arguments for 'type' command\r\n"
    );
}

#[test]
fn wrong_types_are_refused() {
    let mut server = Server::new();
    server.ask(&["SET", "s", "1"]);
    server.ask(&["RPUSH", "l", "1"]);
    for command in [
        ["RPUSH", "s", "x"].as_slice(),
        &["LPUSH", "s", "x"],
        &["LLEN", "s"],
        &["LPOP", "s"],
        &["LPOP", "s", "2"],
        &["LRANGE", "s", "0", "1"],
        &["GET", "l"],
        &["XADD", "s", "1-1", "f", "v"],
        &["XRANGE", "l", "-", "+"],
        &["XREAD", "STREAMS", "l", "0"],
        &["XREAD", "STREAMS", "l", "$"],
    ] {
        assert_eq!(server.ask(command), WRONG_TYPE);
    }
    assert_eq!(server.version("s"), 1);
    assert_eq!(server.version("l"), 1);
    assert_eq!(poll_list(&mut server.db, b"s", 0), Some(WRONG_TYPE.as_bytes().to_vec()));
}

#[test]
fn pushed_values_are_ranged() {
    let mut server = Server::new();
    assert_eq!(server.ask(&["RPUSH", "l", "c", "d"]), ":2\r\n");
    assert_eq!(server.ask(&["LPUSH", "l", "b", "a"]), ":4\r\n");
    let all = "*4\r\n$1\r\na\r\n$1\r\nb\r\n$1\r\nc\r\n$1\r\nd\r\n";
    assert_eq!(server.ask(&["LRANGE", "l", "0", "-1"]), all);
    assert_eq!(server.ask(&["LRANGE", "l", "-100", "100"]), all);
    assert_eq!(server.ask(&["LRANGE", "l", "1", "2"]), "*2\r\n$1\r\nb\r\n$1\r\nc\r\n");
    assert_eq!(server.ask(&["LRANGE", "l", "-2", "-1"]), "*2\r\n$1\r\nc\r\n$1\r\nd\r\n");
    assert_eq!(server.ask(&["LRANGE", "l", "2", "1"]), "*0\r\n");
    assert_eq!(server.ask(&["LRANGE", "l", "4", "9"]), "*0\r\n");
    assert_eq!(server.ask(&["LRANGE", "other", "0", "-1"]), "*0\r\n");
    assert_eq!(server.ask(&["LLEN", "l"]), ":4\r\n");
    assert_eq!(server.ask(&["LLEN", "other"]), ":0\r\n");
    assert_eq!(
        server.ask(&["LRANGE", "l", "a", "1"]),
        "-ERR value is not an integer ot out of range\r\n"
    );
    assert_eq!(
        server.ask(&["LRANGE", "l", "1"]),
        "-ERR wrong number of arguments for 'lrange' command\r\n"
    );
    assert_eq!(server.ask(&["RPUSH", "l"]), "-ERR unknown command\r\n");
    assert_eq!(server.ask(&["LLEN"]), "-ERR unknown command\r\n");
}

#[test]
fn ranges_are_normalized() {
    assert_eq!(normalize_range(0, 0, -1), None);
    assert_eq!(normalize_range(5, 0, -1), Some((0, 4)));
    assert_eq!(normalize_range(5, -3, -2), Some((2, 3)));
    assert_eq!(normalize_range(5, -9, 9), Some((0, 4)));
    assert_eq!(normalize_range(5, 5, 9), None);
    assert_eq!(normalize_range(5, 3, 2), None);
    assert_eq!(normalize_range(5, 0, -6), None);
    assert_eq!(normalize_range(5, i64::MIN, i64::MAX), Some((0, 4)));
}

#[test]
fn pushes_wake_waiting_clients() {
    let mut server = Server::new();
    match server.send(&["LPUSH", "l", "a", "b", "c"]) {
        Reaction::ListExtended { reply, key, count } => {
            assert_eq!(text(reply), ":3\r\n");
            assert_eq!(key, b"l".to_vec());
            assert_eq!(count, 3);
        }
        _ => panic!("nobody is woken"),
    }
}

#[test]
fn values_are_popped() {
    let mut server = Server::new();
    server.ask(&["RPUSH", "l", "a", "b", "c", "d"]);
    assert_eq!(server.ask(&["LPOP", "l"]), "$1\r\na\r\n");
    assert_eq!(server.version("l"), 2);
    assert_eq!(server.ask(&["LPOP", "l", "0"]), "*0\r\n");
    assert_eq!(server.version("l"), 2);
    assert_eq!(server.ask(&["LPOP", "l", "2"]), "*2\r\n$1\r\nb\r\n$1\r\nc\r\n");
    assert_eq!(server.ask(&["LPOP", "l", "9"]), "*1\r\n$1\r\nd\r\n");
    // The list is gone with its last value.
    assert_eq!(server.ask(&["TYPE", "l"]), "+none\r\n");
    assert_eq!(server.version("l"), 4);
    assert_eq!(server.ask(&["LPOP", "l"]), "$-1\r\n");
    assert_eq!(server.ask(&["LPOP", "l", "1"]), "*-1\r\n");
    assert_eq!(
        server.ask(&["LPOP", "l", "-1"]),
        "-Err value is not an integer or not range\r\n"
    );
    assert_eq!(server.ask(&["LPOP"]), "-ERR wrong number of arguments for 'lpop'\r\n");
}

#[test]
fn lists_are_queues_and_stacks() {
    let mut server = Server::new();
    server.ask(&["RPUSH", "l", "a", "b"]);
    server.ask(&["RPUSH", "l", "c"]);
    assert_eq!(server.ask(&["LPOP", "l", "3"]), "*3\r\n$1\r\na\r\n$1\r\nb\r\n$1\r\nc\r\n");
    server.ask(&["LPUSH", "l", "a", "b"]);
    assert_eq!(server.ask(&["LPOP", "l"]), "$1\r\nb\r\n");
    assert_eq!(server.ask(&["LPOP", "l"]), "$1\r\na\r\n");
}

#[test]
fn blocking_pop_waits_for_a_value() {
    let mut server = Server::new();
    match server.send(&["BLPOP", "l", "0.5"]) {
        Reaction::AwaitListValue { key, timeout } => {
            assert_eq!(key, b"l".to_vec());
            assert_eq!(timeout, b"0.5".to_vec());
        }
        _ => panic!("no wait"),
    }
    assert_eq!(poll_list(&mut server.db, b"l", 0), None);
    server.ask(&["RPUSH", "l", "a", "b"]);
    assert_eq!(
        poll_list(&mut server.db, b"l", 0),
        Some(b"*2\r\n$1\r\nl\r\n$1\r\na\r\n".to_vec())
    );
    assert_eq!(
        poll_list(&mut server.db, b"l", 0),
        Some(b"*2\r\n$1\r\nl\r\n$1\r\nb\r\n".to_vec())
    );
    assert_eq!(poll_list(&mut server.db, b"l", 0), None);
    assert_eq!(
        server.ask(&["BLPOP", "l"]),
        "-ERR wrong number of arguments for 'BLPOP' command\r\n"
    );
    assert_eq!(
        invalid_timeout_reply(),
        b"-ERR timeout is not a float or out of range\r\n".to_vec()
    );
    assert_eq!(null_array_reply(), b"*-1\r\n".to_vec());
    assert_eq!(null_bulk_string_reply(), b"$-1\r\n".to_vec());
}

#[test]
fn entries_are_added_and_ranged() {
    let mut server = Server::new();
    assert_eq!(server.ask(&["XADD", "x", "0-1", "f", "v"]), "$3\r\n0-1\r\n");
    assert_eq!(server.ask(&["XADD", "x", "0-*", "g", "w"]), "$3\r\n0-2\r\n");
    assert_eq!(server.ask(&["XADD", "x", "5-*", "h", "u", "i", "t"]), "$3\r\n5-0\r\n");
    assert_eq!(server.ask(&["XADD", "x", "*", "j", "s"]), "$6\r\n1000-0\r\n");
    assert_eq!(server.ask(&["XADD", "x", "*", "k", "r"]), "$6\r\n1000-1\r\n");
    let first = "*2\r\n$3\r\n0-1\r\n*2\r\n$1\r\nf\r\n$1\r\nv\r\n";
    let second = "*2\r\n$3\r\n0-2\r\n*2\r\n$1\r\ng\r\n$1\r\nw\r\n";
    let third = "*2\r\n$3\r\n5-0\r\n*4\r\n$1\r\nh\r\n$1\r\nu\r\n$1\r\ni\r\n$1\r\nt\r\n";
    assert_eq!(
        server.ask(&["XRANGE", "x", "-", "5"]),
        format!("*3\r\n{}{}{}", first, second, third)
    );
    assert_eq!(server.ask(&["XRANGE", "x", "0-2", "0-2"]), format!("*1\r\n{}", second));
    assert_eq!(server.ask(&["XRANGE", "x", "0", "0"]), format!("*2\r\n{}{}", first, second));
    assert!(server.ask(&["XRANGE", "x", "-", "+"]).starts_with("*5\r\n"));
    assert_eq!(server.ask(&["XRANGE", "x", "6", "7"]), "*0\r\n");
    assert_eq!(server.ask(&["XRANGE", "other", "-", "+"]), "*0\r\n");
}

#[test]
fn bad_stream_commands_are_refused() {
    let invalid = "-ERR Invalid stream ID specified as stream command argument\r\n";
    let mut server = Server::new();
    for command in [["XADD", "x", "1-1"].as_slice(), &["XADD", "x", "1-1", "f"], &["XADD"]] {
        assert_eq!(
            server.ask(command),
            "-ERR wrong number of arguments for 'XADD' command\r\n"
        );
    }
    assert_eq!(server.ask(&["XADD", "x", "1", "f", "v"]), invalid);
    assert_eq!(
        server.ask(&["XADD", "x", "0-0", "f", "v"]),
        "-ERR The ID specified in XADD must be greater than 0-0\r\n"
    );
    server.ask(&["XADD", "x", "5-5", "f", "v"]);
    let smaller = "-ERR The ID specified in XADD is equal or smaller than the target stream top item\r\n";
    assert_eq!(server.ask(&["XADD", "x", "5-5", "f", "v"]), smaller);
    assert_eq!(server.ask(&["XADD", "x", "4-*", "f", "v"]), smaller);
    assert_eq!(server.version("x"), 1);
    assert_eq!(
        server.ask(&["XRANGE", "x", "-"]),
        "-ERR wrong number of arguments for 'XRANGE' command\r\n"
    );
    assert_eq!(server.ask(&["XRANGE", "x", "+", "-"]), invalid);
    assert_eq!(server.ask(&["XRANGE", "x", "-", "a"]), invalid);
}

#[test]
fn a_missing_wall_clock_is_reported() {
    let mut server = Server::new();
    server.clock.unix_milliseconds = None;
    assert!(matches!(server.send(&["XADD", "x", "*", "f", "v"]), Reaction::ClockUnavailable));
    assert_eq!(server.ask(&["XADD", "x", "1-*", "f", "v"]), "$3\r\n1-0\r\n");
}

#[test]
fn streams_are_read() {
    let mut server = Server::new();
    server.ask(&["XADD", "x", "1-1", "f", "v"]);
    server.ask(&["XADD", "x", "1-2", "g", "w"]);
    server.ask(&["XADD", "y", "3-0", "h", "u"]);
    let x = "*2\r\n$1\r\nx\r\n*1\r\n*2\r\n$3\r\n1-2\r\n*2\r\n$1\r\ng\r\n$1\r\nw\r\n";
    let y = "*2\r\n$1\r\ny\r\n*1\r\n*2\r\n$3\r\n3-0\r\n*2\r\n$1\r\nh\r\n$1\r\nu\r\n";
    assert_eq!(server.ask(&["XREAD", "STREAMS", "x", "1-1"]), format!("*1\r\n{}", x));
    assert_eq!(
        server.ask(&["xread", "streams", "x", "y", "1-1", "0"]),
        format!("*2\r\n{}{}", x, y)
    );
    // A stream without later entries is left out.
    assert_eq!(
        server.ask(&["XREAD", "STREAMS", "x", "y", "1-2", "0-0"]),
        format!("*1\r\n{}", y)
    );
    assert_eq!(server.ask(&["XREAD", "STREAMS", "x", "9"]), "*-1\r\n");
    assert_eq!(server.ask(&["XREAD", "STREAMS", "other", "0"]), "*-1\r\n");
}

#[test]
fn bad_reads_are_refused() {
    let mut server = Server::new();
    for command in [
        ["XREAD"].as_slice(),
        &["XREAD", "STREAMS"],
        &["XREAD", "STREAMS", "x"],
        &["XREAD", "STREAMS", "x", "y", "0"],
        &["XREAD", "x", "0"],
        &["XREAD", "BLOCK", "5"],
        &["XREAD", "BLOCK", "5", "x"],
        &["XREAD", "BLOCK", "5", "STREAMS"],
    ] {
        assert_eq!(server.ask(command), "-ERR syntax error\r\n");
    }
    assert_eq!(
        server.ask(&["XREAD", "BLOCK", "x", "y"]),
        "-ERR timeout is not an integer or out of range\r\n"
    );
    assert_eq!(
        server.ask(&["XREAD", "STREAMS", "x", "y", "0", "a"]),
        "-ERR Invalid stream ID specified as stream comman argument\r\n"
    );
}

#[test]
fn blocking_reads_wait_for_later_entries() {
    let mut server = Server::new();
    server.ask(&["XADD", "x", "1-1", "f", "v"]);
    let (keys, starts) = match server.send(&["XREAD", "BLOCK", "0", "STREAMS", "x", "$"]) {
        Reaction::ReadStreams { keys, starts, wait: Wait::Forever } => (keys, starts),
        _ => panic!("no wait"),
    };
    assert_eq!(starts, vec![StreamId { milliseconds: 1, sequence_number: 1 }]);
    assert_eq!(poll_streams(&mut server.db, &keys, &starts, 0), None);
    assert!(matches!(
        server.send(&["XADD", "x", "1-2", "g", "w"]),
        Reaction::StreamExtended { .. }
    ));
    assert_eq!(
        poll_streams(&mut server.db, &keys, &starts, 0),
        Some(
            b"*1\r\n*2\r\n$1\r\nx\r\n*1\r\n*2\r\n$3\r\n1-2\r\n*2\r\n$1\r\ng\r\n$1\r\nw\r\n"
                .to_vec()
        )
    );
    match server.send(&["XREAD", "BLOCK", "250", "STREAMS", "x", "nokey", "$", "$"]) {
        Reaction::ReadStreams { starts, wait: Wait::Milliseconds(250), .. } => {
            assert_eq!(starts[1], StreamId::zero());
        }
        _ => panic!("no wait"),
    }
}

#[test]
fn arguments_may_hold_any_bytes() {
    let mut server = Server::new();
    let key = b"\x00\xff\r\n".to_vec();
    server.send_bytes(vec![b"SET".to_vec(), key.clone(), b"\x80".to_vec()]);
    match server.send_bytes(vec![b"GET".to_vec(), key.clone()]) {
        Reaction::Reply(reply) => assert_eq!(reply, b"$1\r\n\x80\r\n".to_vec()),
        _ => panic!("no reply"),
    }
    match &server.db.get(&key).unwrap().value {
        RedisValue::String(value) => assert_eq!(value, b"\x80"),
        _ => panic!("no string"),
    }
}

#[test]
fn many_keys_are_kept_apart() {
    let mut server = Server::new();
    for i in 0..200 {
        let key = format!("key{}", (i * 37) % 200);
        assert_eq!(server.ask(&["SET", &key, &format!("value{}", i)]), "+OK\r\n");
    }
    for i in 0..200 {
        let key = format!("key{}", (i * 37) % 200);
        let value = format!("value{}", i);
        assert_eq!(server.ask(&["GET", &key]), format!("${}\r\n{}\r\n", value.len(), value));
    }
}

#[test]
fn the_server_tells_about_replication() {
    let mut server = Server::new();
    let master = "role:master\r\nmaster_replid:8371b4fb1155b71f4a04d3e1bc3e18c4a990aeeb\r\nmaster_repl_offset:0\r\n";
    let expected = format!("${}\r\n{}\r\n", master.len(), master);
    assert_eq!(server.ask(&["INFO"]), expected);
    assert_eq!(server.ask(&["INFO", "Replication"]), expected);
    assert_eq!(server.ask(&["INFO", "server"]), "$0\r\n\r\n");
    assert_eq!(
        server.ask(&["INFO", "a", "b"]),
        "-ERR wrong number of arguments for 'info' command\r\n"
    );
    let command = vec![b"INFO".to_vec()];
    match server.session.handle_command(&mut server.db, command, 0, true) {
        Reaction::Reply(reply) => assert!(text(reply).contains("role:slave\r\n")),
        _ => panic!("no reply"),
    }
}

/// The index after the value that begins at an index of a reply.
fn end_of_value(reply: &[u8], from: usize) -> usize {
    let feed = from + reply[from..].iter().position(|byte| *byte == b'\n').unwrap();
    assert_eq!(reply[feed - 1], b'\r');
    let line = std::str::from_utf8(&reply[from + 1..feed - 1]).unwrap();
    match reply[from] {
        b'+' | b'-' | b':' => feed + 1,
        b'$' if line == "-1" => feed + 1,
        b'$' => feed + 1 + line.parse::<usize>().unwrap() + 2,
        b'*' if line == "-1" => feed + 1,
        b'*' => {
            let mut end = feed + 1;
            for _ in 0..line.parse::<usize>().unwrap() {
                end = end_of_value(reply, end);
            }
            end
        }
        _ => panic!("no value"),
    }
}

#[test]
fn every_reply_is_one_value() {
    let mut server = Server::new();
    for command in [
        ["PING"].as_slice(),
        &["ECHO", "\r\n+"],
        &["SET", "s", "$1\r\n"],
        &["GET", "s"],
        &["GET", "t"],
        &["INCR", "n"],
        &["RPUSH", "l", "a", "", "c"],
        &["LRANGE", "l", "0", "-1"],
        &["LPOP", "l", "2"],
        &["LPOP", "m", "2"],
        &["XADD", "x", "*", "f", "v", "g", "w"],
        &["XADD", "x", "*", "h", "u"],
        &["XRANGE", "x", "-", "+"],
        &["XREAD", "STREAMS", "x", "y", "0", "0"],
        &["XREAD", "STREAMS", "x", "99999"],
        &["INFO"],
        &["NOPE"],
        &["MULTI"],
        &["SET", "s", "*3\r\n"],
        &["GET", "s"],
        &["NOPE"],
        &["EXEC"],
    ] {
        let reply = server.ask(command).into_bytes();
        assert_eq!(end_of_value(&reply, 0), reply.len());
    }
}

#[test]
fn counts_outlive_their_keys() {
    let mut server = Server::new();
    server.ask(&["GET", "l"]);
    assert_eq!(server.version("l"), 0);
    assert!(server.db.has_version(b"l", 0));
    server.ask(&["RPUSH", "l", "x"]);
    server.ask(&["LPOP", "l"]);
    server.ask(&["RPUSH", "l", "x"]);
    assert_eq!(server.version("l"), 3);
    assert!(server.db.has_version(b"l", 3));
    assert!(!server.db.has_version(b"l", 1));
    // Other keys are left alone.
    assert_eq!(server.version("m"), 0);
}

#[test]
fn counts_that_fit_stay_as_they_are() {
    let mut server = Server::new();
    server.ask(&["SET", "a", "1"]);
    server.db.mark_modified(b"a");
    assert!(!server.db.is_exhausted());
    server.db.forget_uncounted();
    assert_eq!(server.version("a"), 2);
    assert!(server.db.remove_if_expired(b"a", 0) == false);
}

#[test]
fn reads_from_dollar_signs_give_what_is_added_later() {
    let mut server = Server::new();
    server.ask(&["XADD", "x", "1-1", "f", "v"]);
    server.ask(&["XADD", "z", "1-1", "f", "v"]);
    let command = ["XREAD", "BLOCK", "0", "STREAMS", "x", "y", "z", "$", "$", "$"];
    let (keys, starts) = match server.send(&command) {
        Reaction::ReadStreams { keys, starts, .. } => (keys, starts),
        _ => panic!("no read"),
    };
    assert_eq!(poll_streams(&mut server.db, &keys, &starts, 0), None);
    server.ask(&["XADD", "y", "5-0", "g", "w"]);
    server.ask(&["XADD", "x", "1-2", "h", "u"]);
    let x = "*2\r\n$1\r\nx\r\n*1\r\n*2\r\n$3\r\n1-2\r\n*2\r\n$1\r\nh\r\n$1\r\nu\r\n";
    let y = "*2\r\n$1\r\ny\r\n*1\r\n*2\r\n$3\r\n5-0\r\n*2\r\n$1\r\ng\r\n$1\r\nw\r\n";
    assert_eq!(
        poll_streams(&mut server.db, &keys, &starts, 0),
        Some(format!("*2\r\n{}{}", x, y).into_bytes())
    );
}

#[test]
fn a_read_from_a_dollar_sign_starts_anew_under_an_expired_key() {
    let mut server = Server::new();
    server.ask(&["SET", "x", "1", "PX", "5"]);
    server.clock.now = 5_000_000;
    let (keys, starts) = match server.send(&["XREAD", "BLOCK", "0", "STREAMS", "x", "$"]) {
        Reaction::ReadStreams { keys, starts, .. } => (keys, starts),
        _ => panic!("no read"),
    };
    assert_eq!(starts, vec![StreamId::zero()]);
    assert_eq!(server.version("x"), 2);
    server.ask(&["XADD", "x", "0-1", "f", "v"]);
    assert_eq!(
        poll_streams(&mut server.db, &keys, &starts, server.clock.now),
        Some(
            b"*1\r\n*2\r\n$1\r\nx\r\n*1\r\n*2\r\n$3\r\n0-1\r\n*2\r\n$1\r\nf\r\n$1\r\nv\r\n"
                .to_vec()
        )
    );
}
