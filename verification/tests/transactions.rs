use redis_server::commands::Reaction;
use redis_server::database::DatabaseState;
use redis_server::session::Session;

/// Sends a command of a client at a time, and gives the reply.
fn send(db: &mut DatabaseState, client: &mut Session, now: u64, words: &[&str]) -> String {
    let command = words.iter().map(|word| word.as_bytes().to_vec()).collect();
    match client.handle_command(db, command, now, false) {
        Reaction::Reply(reply) => String::from_utf8(reply).unwrap(),
        Reaction::ListExtended { reply, .. } => String::from_utf8(reply).unwrap(),
        _ => panic!("no reply"),
    }
}

#[test]
fn commands_wait_for_exec() {
    let mut db = DatabaseState::new();
    let mut client = Session::new();
    let mut other = Session::new();
    assert_eq!(send(&mut db, &mut client, 0, &["MULTI"]), "+OK\r\n");
    for command in [
        ["SET", "a", "41"].as_slice(),
        &["INCR", "a"],
        &["GET", "a"],
        &["GET", "b"],
        &["RPUSH", "l", "x"],
        &["UNWATCH"],
        &["SET", "a"],
        &["INCR"],
        &["GET"],
        &["SET", "a", "b", "PX", "0"],
        &[],
    ] {
        assert_eq!(send(&mut db, &mut client, 0, command), "+QUEUED\r\n");
    }
    assert_eq!(send(&mut db, &mut other, 0, &["GET", "a"]), "$-1\r\n");
    assert_eq!(
        send(&mut db, &mut client, 0, &["EXEC"]),
        "*11\r\n+OK\r\n:42\r\n$2\r\n42\r\n$-1\r\n\
         -ERR unknown command\r\n-ERR unknown command\r\n-ERR syntax error\r\n\
         -ERR wrong number of arguments for 'incr' command\r\n\
         -ERR wrong number of arguments for 'get' command\r\n\
         -ERR invalid expire time in 'set' command\r\n-ERR unknown command\r\n"
    );
    assert_eq!(send(&mut db, &mut other, 0, &["GET", "a"]), "$2\r\n42\r\n");
    assert_eq!(send(&mut db, &mut client, 0, &["EXEC"]), "-ERR EXEC without MULTI\r\n");
}

#[test]
fn an_empty_transaction_has_no_replies() {
    let mut db = DatabaseState::new();
    let mut client = Session::new();
    send(&mut db, &mut client, 0, &["multi"]);
    assert_eq!(send(&mut db, &mut client, 0, &["exec"]), "*0\r\n");
}

#[test]
fn queued_errors_do_not_stop_the_rest() {
    let mut db = DatabaseState::new();
    let mut client = Session::new();
    send(&mut db, &mut client, 0, &["RPUSH", "l", "x"]);
    send(&mut db, &mut client, 0, &["SET", "a", "xyz"]);
    send(&mut db, &mut client, 0, &["MULTI"]);
    send(&mut db, &mut client, 0, &["INCR", "a"]);
    send(&mut db, &mut client, 0, &["GET", "l"]);
    send(&mut db, &mut client, 0, &["INCR", "b"]);
    assert_eq!(
        send(&mut db, &mut client, 0, &["EXEC"]),
        "*3\r\n-ERR value is not an integer or out of range\r\n\
         -WRONGTYPE Operation against a key holding the wrong kind of value\r\n:1\r\n"
    );
}

#[test]
fn discard_forgets_everything() {
    let mut db = DatabaseState::new();
    let mut client = Session::new();
    let mut other = Session::new();
    assert_eq!(send(&mut db, &mut client, 0, &["DISCARD"]), "-ERR DISCARD without MULTI\r\n");
    send(&mut db, &mut client, 0, &["WATCH", "a"]);
    send(&mut db, &mut client, 0, &["MULTI"]);
    send(&mut db, &mut client, 0, &["SET", "a", "1"]);
    assert_eq!(send(&mut db, &mut client, 0, &["DISCARD"]), "+OK\r\n");
    assert_eq!(send(&mut db, &mut client, 0, &["GET", "a"]), "$-1\r\n");
    assert_eq!(send(&mut db, &mut client, 0, &["EXEC"]), "-ERR EXEC without MULTI\r\n");
    // Nothing is watched any more.
    send(&mut db, &mut other, 0, &["SET", "a", "2"]);
    send(&mut db, &mut client, 0, &["MULTI"]);
    assert_eq!(send(&mut db, &mut client, 0, &["EXEC"]), "*0\r\n");
}

#[test]
fn misplaced_control_commands_are_refused() {
    let mut db = DatabaseState::new();
    let mut client = Session::new();
    for (command, name) in [
        (["MULTI", "x"], "MULTI"),
        (["EXEC", "x"], "exec"),
        (["DISCARD", "x"], "discard"),
        (["UNWATCH", "x"], "unwatch"),
    ] {
        assert_eq!(
            send(&mut db, &mut client, 0, &command),
            format!("-ERR wrong number of arguments for '{}' command\r\n", name)
        );
    }
    assert_eq!(
        send(&mut db, &mut client, 0, &["WATCH"]),
        "-ERR wrong number of arguments for 'watch' command\r\n"
    );
    send(&mut db, &mut client, 0, &["MULTI"]);
    assert_eq!(
        send(&mut db, &mut client, 0, &["MULTI"]),
        "-ERR MULTI calls can not be nested\r\n"
    );
    assert_eq!(
        send(&mut db, &mut client, 0, &["WATCH", "a"]),
        "-ERR WATCH inside MULTI is not allowed\r\n"
    );
    // The transaction goes on.
    assert_eq!(send(&mut db, &mut client, 0, &["EXEC"]), "*0\r\n");
}

#[test]
fn a_changed_watched_key_drops_the_transaction() {
    let mut db = DatabaseState::new();
    let mut client = Session::new();
    let mut other = Session::new();
    assert_eq!(send(&mut db, &mut client, 0, &["WATCH", "a", "b"]), "+OK\r\n");
    send(&mut db, &mut client, 0, &["MULTI"]);
    send(&mut db, &mut client, 0, &["SET", "c", "1"]);
    send(&mut db, &mut other, 0, &["SET", "b", "2"]);
    assert_eq!(send(&mut db, &mut client, 0, &["EXEC"]), "*-1\r\n");
    assert_eq!(send(&mut db, &mut client, 0, &["GET", "c"]), "$-1\r\n");
    // The watch is over, and the transaction too.
    send(&mut db, &mut client, 0, &["MULTI"]);
    send(&mut db, &mut client, 0, &["SET", "c", "1"]);
    assert_eq!(send(&mut db, &mut client, 0, &["EXEC"]), "*1\r\n+OK\r\n");
}

#[test]
fn an_unchanged_watched_key_does_not() {
    let mut db = DatabaseState::new();
    let mut client = Session::new();
    let mut other = Session::new();
    send(&mut db, &mut client, 0, &["SET", "a", "1"]);
    send(&mut db, &mut client, 0, &["WATCH", "a"]);
    send(&mut db, &mut other, 0, &["SET", "b", "2"]);
    send(&mut db, &mut other, 0, &["GET", "a"]);
    send(&mut db, &mut other, 0, &["LPOP", "a"]);
    send(&mut db, &mut client, 0, &["MULTI"]);
    send(&mut db, &mut client, 0, &["INCR", "a"]);
    assert_eq!(send(&mut db, &mut client, 0, &["EXEC"]), "*1\r\n:2\r\n");
}

#[test]
fn changing_a_key_back_is_noticed() {
    let mut db = DatabaseState::new();
    let mut client = Session::new();
    let mut other = Session::new();
    send(&mut db, &mut client, 0, &["WATCH", "l"]);
    send(&mut db, &mut other, 0, &["RPUSH", "l", "x"]);
    send(&mut db, &mut other, 0, &["LPOP", "l"]);
    send(&mut db, &mut client, 0, &["MULTI"]);
    assert_eq!(send(&mut db, &mut client, 0, &["EXEC"]), "*-1\r\n");
    // Storing the same value again is a modification too.
    send(&mut db, &mut client, 0, &["SET", "a", "1"]);
    send(&mut db, &mut client, 0, &["WATCH", "a"]);
    send(&mut db, &mut other, 0, &["SET", "a", "1"]);
    send(&mut db, &mut client, 0, &["MULTI"]);
    assert_eq!(send(&mut db, &mut client, 0, &["EXEC"]), "*-1\r\n");
}

#[test]
fn an_expired_watched_key_drops_the_transaction() {
    let mut db = DatabaseState::new();
    let mut client = Session::new();
    send(&mut db, &mut client, 0, &["SET", "a", "1", "PX", "5"]);
    send(&mut db, &mut client, 0, &["WATCH", "a"]);
    send(&mut db, &mut client, 0, &["MULTI"]);
    send(&mut db, &mut client, 0, &["SET", "b", "1"]);
    assert_eq!(send(&mut db, &mut client, 5_000_000, &["EXEC"]), "*-1\r\n");
    assert_eq!(send(&mut db, &mut client, 5_000_000, &["GET", "b"]), "$-1\r\n");
}

#[test]
fn a_key_that_expired_before_the_watch_does_not() {
    let mut db = DatabaseState::new();
    let mut client = Session::new();
    send(&mut db, &mut client, 0, &["SET", "a", "1", "PX", "5"]);
    send(&mut db, &mut client, 5_000_000, &["WATCH", "a"]);
    send(&mut db, &mut client, 5_000_000, &["MULTI"]);
    assert_eq!(send(&mut db, &mut client, 6_000_000, &["EXEC"]), "*0\r\n");
}

#[test]
fn watching_again_does_not_renew_the_watch() {
    let mut db = DatabaseState::new();
    let mut client = Session::new();
    let mut other = Session::new();
    send(&mut db, &mut client, 0, &["WATCH", "a"]);
    send(&mut db, &mut other, 0, &["SET", "a", "1"]);
    send(&mut db, &mut client, 0, &["WATCH", "a"]);
    send(&mut db, &mut client, 0, &["MULTI"]);
    assert_eq!(send(&mut db, &mut client, 0, &["EXEC"]), "*-1\r\n");
}

#[test]
fn unwatch_ends_the_watch() {
    let mut db = DatabaseState::new();
    let mut client = Session::new();
    let mut other = Session::new();
    send(&mut db, &mut client, 0, &["WATCH", "a"]);
    send(&mut db, &mut other, 0, &["SET", "a", "1"]);
    assert_eq!(send(&mut db, &mut client, 0, &["UNWATCH"]), "+OK\r\n");
    send(&mut db, &mut client, 0, &["MULTI"]);
    assert_eq!(send(&mut db, &mut client, 0, &["EXEC"]), "*0\r\n");
}

#[test]
fn sets_in_a_transaction_are_propagated_in_order() {
    let mut db = DatabaseState::new();
    let mut client = Session::new();
    send(&mut db, &mut client, 0, &["SET", "a", "0"]);
    send(&mut db, &mut client, 0, &["MULTI"]);
    send(&mut db, &mut client, 0, &["set", "a", "1", "px", "9"]);
    send(&mut db, &mut client, 0, &["INCR", "a"]);
    send(&mut db, &mut client, 0, &["SET", "b", "2"]);
    send(&mut db, &mut client, 0, &["SET", "b"]);
    assert_eq!(db.take_propagated().len(), 1);
    send(&mut db, &mut client, 0, &["EXEC"]);
    let sent = db.take_propagated();
    let expected: Vec<Vec<Vec<u8>>> = vec![
        vec![b"set".to_vec(), b"a".to_vec(), b"1".to_vec(), b"px".to_vec(), b"9".to_vec()],
        vec![b"SET".to_vec(), b"b".to_vec(), b"2".to_vec()],
    ];
    assert_eq!(sent, expected);
    assert_eq!(db.take_propagated().len(), 0);
}
