use redis_server::commands::Reaction;
use redis_server::database::DatabaseState;
use redis_server::decode::{read_command, Fetch};
use redis_server::encode::write_array;
use redis_server::error::{Error, ErrorKind};
use redis_server::replica::{
    expect_response, process_master_command, receive_initial_sync, Followed, HandshakeStep,
    SyncStage,
};
use redis_server::replication::{enpty_rdb, full_resync, MASTER_REPLID, MASTER_REPL_OFFSET};
use redis_server::session::Session;
use redis_server::transaction::{
    execute_queued_command, execute_queued_get, execute_queued_incr,
};

fn words(list: &[&str]) -> Vec<Vec<u8>> {
    list.iter().map(|word| word.as_bytes().to_vec()).collect()
}

/// Reads one command that stands alone.
fn only_command(bytes: &[u8]) -> Vec<Vec<u8>> {
    match read_command(bytes, 0, false) {
        Ok(Fetch::Ready(command, next)) if next == bytes.len() => command,
        _ => panic!("not one command"),
    }
}

fn encoded(command: &[Vec<u8>]) -> Vec<u8> {
    let mut bytes = Vec::new();
    write_array(&mut bytes, command);
    bytes
}

fn failure<T>(result: Result<T, Error>) -> (ErrorKind, String) {
    match result {
        Err(error) => (error.kind, error.message),
        Ok(_) => panic!("no failure"),
    }
}

#[test]
fn replica_applies_commands_after_snapshot_without_reply() {
    let mut db = DatabaseState::new();
    let rdb = enpty_rdb();
    let mut payload = format!("+FULLRESYNC {} 0\r\n${}\r\n", MASTER_REPLID, rdb.len()).into_bytes();
    payload.extend_from_slice(&rdb);
    // No CRLF after RDB; command bytes can arrive in the same read.
    payload.extend_from_slice(b"*3\r\n$3\r\nSET\r\n$3\r\nfoo\r\n$1\r\n1\r\n");

    let (stage, from) =
        receive_initial_sync(SyncStage::Announcement, &payload[..7], 0, false).unwrap();
    assert_eq!((stage, from), (SyncStage::Announcement, 0));
    let (stage, from) = receive_initial_sync(stage, &payload, from, false).unwrap();
    assert_eq!(stage, SyncStage::Snapshot(0));
    let (command, next) = match read_command(&payload, from, false) {
        Ok(Fetch::Ready(command, next)) => (command, next),
        _ => panic!("no command"),
    };
    assert!(matches!(process_master_command(&mut db, &command, 0), Followed::Applied));
    assert_eq!(
        execute_queued_get(&mut db, &[b"GET".to_vec(), b"foo".to_vec()], 0),
        b"$1\r\n1\r\n".to_vec()
    );
    assert!(matches!(read_command(&payload, next, true), Ok(Fetch::Closed)));
}

#[test]
fn handshake_waits_for_each_response_and_preserves_connection() {
    let steps = [
        (vec![b"PING".to_vec()], b"+PONG\r\n".as_slice()),
        (
            vec![
                b"REPLCONF".to_vec(),
                b"listening-port".to_vec(),
                b"16380".to_vec(),
            ],
            b"+OK\r\n".as_slice(),
        ),
        (
            vec![b"REPLCONF".to_vec(), b"capa".to_vec(), b"psync2".to_vec()],
            b"+OK\r\n".as_slice(),
        ),
    ];
    let mut step = HandshakeStep::Ping;
    let mut received = Vec::new();
    let mut from = 0;
    for (expected, response) in steps {
        let actual = only_command(&encoded(&step.command(16380)));
        assert_eq!(actual, expected);
        // The next command must not be sent before this response is complete.
        assert!(matches!(step.advance(&received, from, false), Ok(Fetch::Pending)));
        received.extend_from_slice(&response[..response.len() - 1]);
        assert!(matches!(step.advance(&received, from, false), Ok(Fetch::Pending)));
        received.extend_from_slice(&response[response.len() - 1..]);
        match step.advance(&received, from, false) {
            Ok(Fetch::Ready(following, next)) => {
                step = following;
                from = next;
            }
            _ => panic!("the response was not taken"),
        }
    }

    let command = only_command(&encoded(&step.command(16380)));

    assert_eq!(
        command,
        vec![b"PSYNC".to_vec(), b"?".to_vec(), b"-1".to_vec(),],
    );

    received.extend_from_slice(b"+NEXT\r\n");
    assert!(matches!(step.advance(&received, from, false), Ok(Fetch::Ready(_, next)) if next == from));
    assert!(matches!(
        expect_response(&received, from, b"+NEXT\r\n", false),
        Ok(Fetch::Ready(_, _))
    ));
}

#[test]
fn handshake_rejects_unexpected_response() {
    let step = HandshakeStep::Ping;
    assert_eq!(only_command(&encoded(&step.command(16380))), vec![b"PING".to_vec()]);
    let error = step.advance(b"-ERR rejected\r\n", 0, false).unwrap_err();
    assert_eq!(error.kind, ErrorKind::InvalidData);
}

#[test]
fn unexpected_responses_are_told() {
    let told = |input: &[u8], at_end| failure(HandshakeStep::Capability.advance(input, 0, at_end));
    assert_eq!(
        told(b"-E\n", false),
        (ErrorKind::InvalidData, "unexpected handshake response: [45, 69, 10]".to_string())
    );
    assert_eq!(
        told(b"", true),
        (ErrorKind::InvalidData, "unexpected handshake response: []".to_string())
    );
    // The connection was closed inside the response.
    assert_eq!(
        told(b"+OK", true),
        (ErrorKind::InvalidData, "unexpected handshake response: [43, 79, 75]".to_string())
    );
    assert_eq!(
        told(b"\x00\xff\n", false).1,
        format!("unexpected handshake response: {:?}", b"\x00\xff\n".to_vec())
    );
}

#[test]
fn the_snapshot_comes_in_pieces() {
    let mut payload = full_resync();
    let length = payload.len();
    payload.extend_from_slice(b"*1\r\n");
    let mut stage = SyncStage::Announcement;
    let mut from = 0;
    for end in 0..payload.len() + 1 {
        let (reached, next) = receive_initial_sync(stage, &payload[..end], from, false).unwrap();
        stage = reached;
        from = next;
        assert_eq!(stage == SyncStage::Snapshot(0), end >= length);
    }
    assert_eq!(from, length);
}

#[test]
fn consumed_pieces_can_be_forgotten() {
    let (stage, next) =
        receive_initial_sync(SyncStage::Announcement, b"+FULLRESYNC x 0\r\n$10\r\nabc", 0, false)
            .unwrap();
    assert_eq!((stage, next), (SyncStage::Snapshot(7), 25));
    let (stage, next) = receive_initial_sync(stage, b"defg", 0, false).unwrap();
    assert_eq!((stage, next), (SyncStage::Snapshot(3), 4));
    let (stage, next) = receive_initial_sync(stage, b"hij*1", 0, false).unwrap();
    assert_eq!((stage, next), (SyncStage::Snapshot(0), 3));
}

#[test]
fn bad_synchronizations_are_rejected() {
    let told = |input: &[u8]| {
        failure(receive_initial_sync(SyncStage::Announcement, input, 0, true))
    };
    let data = |message: &str| (ErrorKind::InvalidData, message.to_string());
    assert_eq!(told(b""), data("missing FULLRESYNC response"));
    assert_eq!(told(b"+FULLRESYNC"), data("invalid RESP line"));
    assert_eq!(told(b"+FULLRESYNC\r\n"), data("expected FULLRESYNC response"));
    assert_eq!(told(b"-ERR\r\n"), data("expected FULLRESYNC response"));
    assert_eq!(told(b"+FULLRESYNC a 0\r\n"), data("missing RDB length"));
    assert_eq!(told(b"+FULLRESYNC a 0\r\n:5\r\n"), data("expected RDB length"));
    assert_eq!(told(b"+FULLRESYNC a 0\r\n\r\n"), data("expected RDB length"));
    assert_eq!(told(b"+FULLRESYNC a 0\r\n$x\r\n"), data("invalid number"));
    assert_eq!(
        told(b"+FULLRESYNC a 0\r\n$5\r\nabc"),
        (ErrorKind::UnexpectedEof, "early eof".to_string())
    );
    // An empty snapshot is no snapshot that broke off.
    assert_eq!(
        receive_initial_sync(SyncStage::Announcement, b"+FULLRESYNC a 0\r\n$0\r\n", 0, true)
            .unwrap(),
        (SyncStage::Snapshot(0), 21)
    );
}

#[test]
fn the_empty_snapshot_has_its_bytes() {
    let rdb = enpty_rdb();
    assert_eq!(rdb.len(), 88);
    assert!(rdb.starts_with(b"REDIS0011\xfa\x09redis-ver\x057.2.0"));
    assert!(rdb.ends_with(b"\xff\xf0\x6e\x3b\xfe\xc0\xff\x5a\xa2"));
    let hex: String = rdb.iter().map(|byte| format!("{:02x}", byte)).collect();
    assert_eq!(
        hex,
        "524544495330303131fa0972656469732d76657205372e322e30fa0a72656469732d62697473c040fa\
         056374696d65c26d08bc65fa08757365642d6d656dc2b0c41000fa08616f662d62617365c000fff06e\
         3bfec0ff5aa2"
    );
}

#[test]
fn a_replica_is_greeted() {
    assert_eq!(MASTER_REPL_OFFSET, 0);
    let mut expected =
        b"+FULLRESYNC 8371b4fb1155b71f4a04d3e1bc3e18c4a990aeeb 0\r\n$88\r\n".to_vec();
    expected.extend_from_slice(&enpty_rdb());
    assert_eq!(full_resync(), expected);
    let mut db = DatabaseState::new();
    let mut client = Session::new();
    let mut send = |list: &[&str]| client.handle_command(&mut db, words(list), 0, false);
    match send(&["psync", "?", "-1"]) {
        Reaction::StartReplication { greeting } => assert_eq!(greeting, expected),
        _ => panic!("no greeting"),
    }
    assert!(matches!(
        send(&["PSYNC"]),
        Reaction::Reply(reply)
            if reply == b"-ERR wrong number of arguments for 'psync' command\r\n"
    ));
    assert!(matches!(
        send(&["REPLCONF", "listening-port", "6380"]),
        Reaction::Reply(reply) if reply == b"+OK\r\n"
    ));
    for command in [["REPLCONF"].as_slice(), &["REPLCONF", "capa"], &["REPLCONF", "a", "b", "c"]] {
        assert!(matches!(
            send(command),
            Reaction::Reply(reply)
                if reply == b"-ERR wrong number of arguments for 'replconf' command\r\n"
        ));
    }
}

#[test]
fn a_replica_repeats_what_its_master_stored() {
    let mut master = DatabaseState::new();
    let mut client = Session::new();
    for command in [["SET", "a", "1"].as_slice(), &["SET", "b", "2"], &["SET", "a", "3"]] {
        client.handle_command(&mut master, words(command), 0, false);
    }
    let mut replica = DatabaseState::new();
    for command in master.take_propagated() {
        let read = only_command(&encoded(&command));
        assert!(matches!(process_master_command(&mut replica, &read, 9), Followed::Applied));
    }
    for db in [&mut master, &mut replica] {
        assert_eq!(execute_queued_get(db, &words(&["GET", "a"]), 9), b"$1\r\n3\r\n".to_vec());
        assert_eq!(execute_queued_get(db, &words(&["GET", "b"]), 9), b"$1\r\n2\r\n".to_vec());
    }
    // A replica hands on what it stores.
    assert_eq!(replica.take_propagated().len(), 3);
}

#[test]
fn a_replica_counts_the_time_of_a_value_by_its_own_clock() {
    let mut replica = DatabaseState::new();
    process_master_command(&mut replica, &words(&["SET", "a", "1", "PX", "5"]), 1_000_000);
    let get = words(&["GET", "a"]);
    assert_eq!(execute_queued_get(&mut replica, &get, 5_999_999), b"$1\r\n1\r\n".to_vec());
    assert_eq!(execute_queued_get(&mut replica, &get, 6_000_000), b"$-1\r\n".to_vec());
}

#[test]
fn a_replica_acknowledges() {
    let mut db = DatabaseState::new();
    let expected = b"*3\r\n$8\r\nREPLCONF\r\n$3\r\nACK\r\n$1\r\n0\r\n".to_vec();
    match process_master_command(&mut db, &words(&["replconf", "getack", "*"]), 0) {
        Followed::Acknowledge(bytes) => assert_eq!(bytes, expected),
        _ => panic!("no acknowledgement"),
    }
    for command in [["REPLCONF", "GETACK", "x"].as_slice(), &["REPLCONF", "GETACK"], &["LPOP", "a"]]
    {
        match process_master_command(&mut db, &words(command), 0) {
            Followed::Refused(reply) => assert_eq!(reply, b"-ERR unknown command\r\n".to_vec()),
            _ => panic!("not refused"),
        }
    }
    assert!(matches!(
        process_master_command(&mut db, &words(&["GET", "a"]), 0),
        Followed::Applied
    ));
}

#[test]
fn queued_commands_are_carried_out() {
    let mut db = DatabaseState::new();
    assert_eq!(
        execute_queued_command(&mut db, &words(&["set", "n", "9"]), 0),
        b"+OK\r\n".to_vec()
    );
    assert_eq!(execute_queued_incr(&mut db, &words(&["INCR", "n"]), 0), b":10\r\n".to_vec());
    assert_eq!(
        execute_queued_incr(&mut db, &words(&["INCR"]), 0),
        b"-ERR wrong number of arguments for 'incr' command\r\n".to_vec()
    );
    assert_eq!(
        execute_queued_command(&mut db, &[], 0),
        b"-ERR unknown command\r\n".to_vec()
    );
}

#[test]
fn a_replica_follows_any_commands() {
    let mut input = Vec::new();
    for command in [
        ["SET", "a", "1"].as_slice(),
        &["REPLCONF", "GETACK", "*"],
        &["SET", "a"],
        &["INCR", "a"],
        &["NOPE"],
        &["replconf", "getack", "*"],
        &["INCR", "b"],
    ] {
        write_array(&mut input, &words(command));
    }
    let mut db = DatabaseState::new();
    let mut sent = Vec::new();
    let mut from = 0;
    loop {
        match read_command(&input, from, true).unwrap() {
            Fetch::Ready(command, next) => {
                if let Followed::Acknowledge(bytes) = process_master_command(&mut db, &command, 0) {
                    sent.extend_from_slice(&bytes);
                }
                from = next;
            }
            Fetch::Closed => break,
            Fetch::Pending => panic!("the input has ended"),
        }
    }
    let ack = b"*3\r\n$8\r\nREPLCONF\r\n$3\r\nACK\r\n$1\r\n0\r\n";
    assert_eq!(sent, [ack.as_slice(), ack.as_slice()].concat());
    assert_eq!(execute_queued_get(&mut db, &words(&["GET", "a"]), 0), b"$1\r\n2\r\n".to_vec());
    assert_eq!(execute_queued_get(&mut db, &words(&["GET", "b"]), 0), b"$1\r\n1\r\n".to_vec());
}
