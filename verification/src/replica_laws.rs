//! Laws of what a master and its replica say to each other, word by word.

use vstd::prelude::*;
use crate::bytes::{bytes_of, is_word};
use crate::database::DatabaseView;
use crate::decode::{line_at, line_feed_index, Fetch, Parse};
use crate::encode::{array, bulk_header, crlf};
use crate::error::{Error, ErrorKind};
use crate::number::{decimal, unsigned_upto};
use crate::replica::{
    enumeration, expected_response_at, fetched, follow_outcome, handshake_at, handshake_command,
    handshake_response, is_getack, next_step, response_at, step_fetched, sync_at, synchronized,
    text_of, unexpected_response_message, FollowedView, HandshakeStep, SyncStage,
};
use crate::replication::{
    empty_snapshot, replication_info, resync_greeting, MASTER_REPLID, MASTER_REPL_OFFSET,
};
use crate::transaction::queued_outcome;

verus! {

/// The handshake pings, tells the port on which the replica listens, tells what it understands,
/// and asks for the synchronization. The first three are answered.
pub proof fn law_handshake_words(listening_port: u16)
    ensures
        handshake_command(HandshakeStep::Ping, listening_port) == seq![bytes_of("PING")],
        handshake_command(HandshakeStep::ListeningPort, listening_port) == seq![
            bytes_of("REPLCONF"),
            bytes_of("listening-port"),
            decimal(listening_port as nat),
        ],
        handshake_command(HandshakeStep::Capability, listening_port) == seq![
            bytes_of("REPLCONF"),
            bytes_of("capa"),
            bytes_of("psync2"),
        ],
        handshake_command(HandshakeStep::Synchronize, listening_port) == seq![
            bytes_of("PSYNC"),
            bytes_of("?"),
            bytes_of("-1"),
        ],
        handshake_response(HandshakeStep::Ping) == Some(bytes_of("+PONG\r\n")),
        handshake_response(HandshakeStep::ListeningPort) == Some(bytes_of("+OK\r\n")),
        handshake_response(HandshakeStep::Capability) == Some(bytes_of("+OK\r\n")),
        handshake_response(HandshakeStep::Synchronize) is None,
        next_step(HandshakeStep::Ping) == HandshakeStep::ListeningPort,
        next_step(HandshakeStep::ListeningPort) == HandshakeStep::Capability,
        next_step(HandshakeStep::Capability) == HandshakeStep::Synchronize,
{
}

/// A response reaches to its line feed, or to the end of the input. It is taken where it is the one
/// that is expected, and otherwise the error lists its bytes.
pub proof fn law_response_is_compared(
    input: Seq<u8>,
    from: int,
    expected: Seq<u8>,
    at_end: bool,
)
    requires
        0 <= from <= input.len(),
    ensures
        ({
            let feed = line_feed_index(input, from);
            let end = if feed < input.len() {
                feed + 1
            } else {
                input.len() as int
            };
            let response = input.subrange(from, end);
            if feed == input.len() && !at_end {
                &&& response_at(input, from, at_end) is Pending
                &&& expected_response_at(input, from, expected, at_end) is Pending
            } else {
                &&& response_at(input, from, at_end) == Parse::Ready(response, end)
                &&& expected_response_at(input, from, expected, at_end) == if response == expected {
                    Parse::Ready((), end)
                } else {
                    Parse::Failed(
                        ErrorKind::InvalidData,
                        "unexpected handshake response: ["@ + enumeration(response) + "]"@,
                    )
                }
            }
        }),
{
    crate::decode::lemma_line_feed_index(input, from);
}

/// Bytes are listed as decimal numbers, with a comma and a space before each but the first.
pub proof fn law_bytes_are_listed(bytes: Seq<u8>, byte: u8)
    ensures
        enumeration(Seq::empty()) == Seq::<char>::empty(),
        enumeration(bytes.push(byte)) == (if bytes.len() == 0 {
            text_of(decimal(byte as nat))
        } else {
            enumeration(bytes) + ", "@ + text_of(decimal(byte as nat))
        }),
        text_of(bytes).len() == bytes.len(),
        forall|i: int| 0 <= i < bytes.len() ==> #[trigger] text_of(bytes)[i] == bytes[i] as char,
        unexpected_response_message(bytes) == "unexpected handshake response: ["@ + enumeration(
            bytes,
        ) + "]"@,
{
    assert(bytes.push(byte).drop_last() =~= bytes);
}

/// A step that waits for a response is over when it has come, and the next one follows. A wrong
/// response is an error. The last step waits for nothing.
pub proof fn law_handshake_step(
    step: HandshakeStep,
    input: Seq<u8>,
    from: int,
    at_end: bool,
)
    ensures
        handshake_at(HandshakeStep::Synchronize, input, from, at_end) == Parse::Ready(
            HandshakeStep::Synchronize,
            from,
        ),
        handshake_response(step) matches Some(expected) ==> match expected_response_at(
            input,
            from,
            expected,
            at_end,
        ) {
            Parse::Ready(_, next) => handshake_at(step, input, from, at_end) == Parse::Ready(
                next_step(step),
                next,
            ),
            Parse::Failed(kind, message) => handshake_at(step, input, from, at_end) == Parse::<
                HandshakeStep,
            >::Failed(kind, message),
            Parse::Pending => handshake_at(step, input, from, at_end) is Pending,
            Parse::Closed => handshake_at(step, input, from, at_end) is Closed,
        },
{
}

/// What is expected of a step of the handshake, or of the synchronization, settles its result.
pub proof fn law_step_has_one_result(
    result: Result<Fetch<HandshakeStep>, Error>,
    expected: Parse<HandshakeStep>,
    response: Result<Fetch<()>, Error>,
    expected_response: Parse<()>,
    stage: Result<(SyncStage, usize), Error>,
    expected_stage: Parse<SyncStage>,
)
    ensures
        step_fetched(result, expected) == match expected {
            Parse::Pending => result matches Ok(Fetch::Pending),
            Parse::Closed => result matches Ok(Fetch::Closed),
            Parse::Failed(kind, message) => result matches Err(error) && error.kind == kind
                && error.message@ == message,
            Parse::Ready(value, end) => result matches Ok(Fetch::Ready(read, next)) && read == value
                && next == end,
        },
        fetched(response, expected_response) == match expected_response {
            Parse::Pending => response matches Ok(Fetch::Pending),
            Parse::Closed => response matches Ok(Fetch::Closed),
            Parse::Failed(kind, message) => response matches Err(error) && error.kind == kind
                && error.message@ == message,
            Parse::Ready(_, end) => response matches Ok(Fetch::Ready(_, next)) && next == end,
        },
        synchronized(stage, expected_stage) == match expected_stage {
            Parse::Failed(kind, message) => stage matches Err(error) && error.kind == kind
                && error.message@ == message,
            Parse::Ready(value, end) => stage matches Ok((reached, next)) && reached == value
                && next == end,
            _ => false,
        },
{
}

/// The synchronization starts with a line that announces it. Another line, or none, is an error.
pub proof fn law_synchronization_is_announced(input: Seq<u8>, from: int, at_end: bool)
    ensures
        sync_at(SyncStage::Announcement, input, from, at_end) == match line_at(
            input,
            from,
            at_end,
        ) {
            Parse::Pending => Parse::Ready(SyncStage::Announcement, from),
            Parse::Closed => Parse::Failed(
                ErrorKind::InvalidData,
                "missing FULLRESYNC response"@,
            ),
            Parse::Failed(kind, message) => Parse::Failed(kind, message),
            Parse::Ready(response, start) => if response.len() >= 12 && response.subrange(0, 12)
                == bytes_of("+FULLRESYNC ") {
                sync_at(SyncStage::Length, input, start, at_end)
            } else {
                Parse::Failed(ErrorKind::InvalidData, "expected FULLRESYNC response"@)
            },
        },
{
    reveal_strlit("+FULLRESYNC ");
    assert(vstd::string::is_ascii("+FULLRESYNC "));
    assert(bytes_of("+FULLRESYNC ").len() == 12);
}

/// Then comes the length of the snapshot, and then exactly so many bytes. Bytes that have come are
/// consumed, and no byte behind the snapshot is.
pub proof fn law_snapshot_has_its_length(
    remaining: usize,
    input: Seq<u8>,
    from: int,
    at_end: bool,
)
    requires
        0 <= from <= input.len(),
    ensures
        sync_at(SyncStage::Length, input, from, at_end) == match line_at(input, from, at_end) {
            Parse::Pending => Parse::Ready(SyncStage::Length, from),
            Parse::Closed => Parse::Failed(ErrorKind::InvalidData, "missing RDB length"@),
            Parse::Failed(kind, message) => Parse::Failed(kind, message),
            Parse::Ready(header, start) => if header.len() == 0 || header[0] != 36 {
                Parse::Failed(ErrorKind::InvalidData, "expected RDB length"@)
            } else {
                match unsigned_upto(header.skip(1), usize::MAX as nat) {
                    None => Parse::Failed(ErrorKind::InvalidData, "invalid number"@),
                    Some(length) => sync_at(
                        SyncStage::Snapshot(length as usize),
                        input,
                        start,
                        at_end,
                    ),
                }
            },
        },
        match sync_at(SyncStage::Snapshot(remaining), input, from, at_end) {
            Parse::Ready(SyncStage::Snapshot(left), next) => {
                &&& from <= next <= input.len()
                &&& (next - from) + left == remaining
                &&& left > 0 ==> next == input.len() && !at_end
            },
            Parse::Failed(kind, message) => {
                &&& at_end
                &&& input.len() - from < remaining
                &&& kind == ErrorKind::UnexpectedEof
                &&& message == "early eof"@
            },
            _ => false,
        },
{
    if let Parse::Ready(header, start) = line_at(input, from, at_end) {
        if header.len() > 0 {
            assert(header.skip(1) =~= header.drop_first());
        }
    }
}

/// A command of the master that asks how far its replica is, is answered with an acknowledgement,
/// and changes nothing. Any other is carried out as a queued one is, and refused where the reply to
/// that is an error.
pub proof fn law_master_command_is_followed(
    db: DatabaseView,
    command: Seq<Seq<u8>>,
    now: u64,
)
    ensures
        is_getack(command) <==> command.len() == 3 && is_word(command[0], "REPLCONF") && is_word(
            command[1],
            "GETACK",
        ) && command[2] == seq![42u8],
        is_getack(command) ==> follow_outcome(db, command, now) == (
            db,
            FollowedView::Acknowledge(
                array(seq![bytes_of("REPLCONF"), bytes_of("ACK"), bytes_of("0")]),
            ),
        ),
        !is_getack(command) ==> ({
            let queued = queued_outcome(db, command, now);
            follow_outcome(db, command, now) == (
                queued.0,
                if queued.1.len() > 0 && queued.1[0] == 45 {
                    FollowedView::Refused(queued.1)
                } else {
                    FollowedView::Applied
                },
            )
        }),
{
    reveal_strlit("*");
    assert(vstd::string::is_ascii("*"));
    assert(bytes_of("*") =~= seq![42u8]);
}

proof fn lemma_replication_texts()
    ensures
        bytes_of("role:") + bytes_of("master") + crlf() + bytes_of("master_replid:") + bytes_of(
            "8371b4fb1155b71f4a04d3e1bc3e18c4a990aeeb",
        ) + crlf() + bytes_of("master_repl_offset:") + decimal(0) + crlf() == bytes_of(
            "role:master\r\nmaster_replid:8371b4fb1155b71f4a04d3e1bc3e18c4a990aeeb\r\nmaster_repl_offset:0\r\n",
        ),
        bytes_of("role:") + bytes_of("slave") + crlf() + bytes_of("master_replid:") + bytes_of(
            "8371b4fb1155b71f4a04d3e1bc3e18c4a990aeeb",
        ) + crlf() + bytes_of("master_repl_offset:") + decimal(0) + crlf() == bytes_of(
            "role:slave\r\nmaster_replid:8371b4fb1155b71f4a04d3e1bc3e18c4a990aeeb\r\nmaster_repl_offset:0\r\n",
        ),
{
    reveal_strlit("role:");
    reveal_strlit("master");
    reveal_strlit("slave");
    reveal_strlit("master_replid:");
    reveal_strlit("8371b4fb1155b71f4a04d3e1bc3e18c4a990aeeb");
    reveal_strlit("master_repl_offset:");
    reveal_strlit(
        "role:master\r\nmaster_replid:8371b4fb1155b71f4a04d3e1bc3e18c4a990aeeb\r\nmaster_repl_offset:0\r\n",
    );
    reveal_strlit(
        "role:slave\r\nmaster_replid:8371b4fb1155b71f4a04d3e1bc3e18c4a990aeeb\r\nmaster_repl_offset:0\r\n",
    );
    assert(vstd::string::is_ascii("role:"));
    assert(vstd::string::is_ascii("master"));
    assert(vstd::string::is_ascii("slave"));
    assert(vstd::string::is_ascii("master_replid:"));
    assert(vstd::string::is_ascii("8371b4fb1155b71f4a04d3e1bc3e18c4a990aeeb"));
    assert(vstd::string::is_ascii("master_repl_offset:"));
    assert(vstd::string::is_ascii(
        "role:master\r\nmaster_replid:8371b4fb1155b71f4a04d3e1bc3e18c4a990aeeb\r\nmaster_repl_offset:0\r\n",
    ));
    assert(vstd::string::is_ascii(
        "role:slave\r\nmaster_replid:8371b4fb1155b71f4a04d3e1bc3e18c4a990aeeb\r\nmaster_repl_offset:0\r\n",
    ));
    assert(bytes_of("role:") + bytes_of("master") + crlf() + bytes_of("master_replid:") + bytes_of(
        "8371b4fb1155b71f4a04d3e1bc3e18c4a990aeeb",
    ) + crlf() + bytes_of("master_repl_offset:") + decimal(0) + crlf() =~= bytes_of(
        "role:master\r\nmaster_replid:8371b4fb1155b71f4a04d3e1bc3e18c4a990aeeb\r\nmaster_repl_offset:0\r\n",
    ));
    assert(bytes_of("role:") + bytes_of("slave") + crlf() + bytes_of("master_replid:") + bytes_of(
        "8371b4fb1155b71f4a04d3e1bc3e18c4a990aeeb",
    ) + crlf() + bytes_of("master_repl_offset:") + decimal(0) + crlf() =~= bytes_of(
        "role:slave\r\nmaster_replid:8371b4fb1155b71f4a04d3e1bc3e18c4a990aeeb\r\nmaster_repl_offset:0\r\n",
    ));
}

/// The server tells its role, its identity and its offset, each on a line of its own.
pub proof fn law_replication_is_told()
    ensures
        replication_info(false) == bytes_of(
            "role:master\r\nmaster_replid:8371b4fb1155b71f4a04d3e1bc3e18c4a990aeeb\r\nmaster_repl_offset:0\r\n",
        ),
        replication_info(true) == bytes_of(
            "role:slave\r\nmaster_replid:8371b4fb1155b71f4a04d3e1bc3e18c4a990aeeb\r\nmaster_repl_offset:0\r\n",
        ),
{
    lemma_replication_texts();
}

/// The snapshot without a key: its version, five fields about the server that wrote it, each a name
/// and a value that has its length or its kind before it, the mark of the end, and a checksum.
pub proof fn law_empty_snapshot_is_well_formed()
    ensures
        empty_snapshot() == bytes_of("REDIS0011") + seq![0xfau8, 9u8] + bytes_of("redis-ver")
            + seq![5u8] + bytes_of("7.2.0") + seq![0xfau8, 10u8] + bytes_of("redis-bits") + seq![0xc0u8, 0x40u8]
            + seq![0xfau8, 5u8] + bytes_of("ctime") + seq![0xc2u8, 0x6du8, 0x08u8, 0xbcu8, 0x65u8]
            + seq![0xfau8, 8u8] + bytes_of("used-mem") + seq![0xc2u8, 0xb0u8, 0xc4u8, 0x10u8, 0u8]
            + seq![0xfau8, 8u8] + bytes_of("aof-base") + seq![0xc0u8, 0u8] + seq![0xffu8] + seq![
            0xf0u8,
            0x6eu8,
            0x3bu8,
            0xfeu8,
            0xc0u8,
            0xffu8,
            0x5au8,
            0xa2u8,
        ],
{
    reveal_strlit("REDIS0011");
    assert(vstd::string::is_ascii("REDIS0011"));
    reveal_strlit("redis-ver");
    assert(vstd::string::is_ascii("redis-ver"));
    reveal_strlit("7.2.0");
    assert(vstd::string::is_ascii("7.2.0"));
    reveal_strlit("redis-bits");
    assert(vstd::string::is_ascii("redis-bits"));
    reveal_strlit("ctime");
    assert(vstd::string::is_ascii("ctime"));
    reveal_strlit("used-mem");
    assert(vstd::string::is_ascii("used-mem"));
    reveal_strlit("aof-base");
    assert(vstd::string::is_ascii("aof-base"));
    assert(empty_snapshot() =~= bytes_of("REDIS0011") + seq![0xfau8, 9u8] + bytes_of("redis-ver")
            + seq![5u8] + bytes_of("7.2.0") + seq![0xfau8, 10u8] + bytes_of("redis-bits") + seq![0xc0u8, 0x40u8]
            + seq![0xfau8, 5u8] + bytes_of("ctime") + seq![0xc2u8, 0x6du8, 0x08u8, 0xbcu8, 0x65u8]
            + seq![0xfau8, 8u8] + bytes_of("used-mem") + seq![0xc2u8, 0xb0u8, 0xc4u8, 0x10u8, 0u8]
            + seq![0xfau8, 8u8] + bytes_of("aof-base") + seq![0xc0u8, 0u8] + seq![0xffu8] + seq![
            0xf0u8,
            0x6eu8,
            0x3bu8,
            0xfeu8,
            0xc0u8,
            0xffu8,
            0x5au8,
            0xa2u8,
        ]);
}

/// A replica is greeted with the announcement of a full synchronization, with the identity and the
/// offset, and with the snapshot after its length.
pub proof fn law_replica_is_greeted()
    ensures
        resync_greeting() == bytes_of("+FULLRESYNC ") + bytes_of(
            "8371b4fb1155b71f4a04d3e1bc3e18c4a990aeeb",
        ) + bytes_of(" ") + seq![48u8, 13u8, 10u8] + seq![36u8, 56u8, 56u8, 13u8, 10u8]
            + empty_snapshot(),
        empty_snapshot().len() == 88,
{
    lemma_greeting(empty_snapshot());
}

proof fn lemma_greeting(snapshot: Seq<u8>)
    requires
        snapshot.len() == 88,
    ensures
        bytes_of("+FULLRESYNC ") + bytes_of(MASTER_REPLID) + bytes_of(" ") + decimal(
            MASTER_REPL_OFFSET as nat,
        ) + crlf() + bulk_header(snapshot.len()) + snapshot == bytes_of("+FULLRESYNC ") + bytes_of(
            "8371b4fb1155b71f4a04d3e1bc3e18c4a990aeeb",
        ) + bytes_of(" ") + seq![48u8, 13u8, 10u8] + seq![36u8, 56u8, 56u8, 13u8, 10u8] + snapshot,
{
    assert(decimal(8) =~= seq![56u8]);
    assert(decimal(88) =~= seq![56u8, 56u8]);
    assert(bulk_header(88) =~= seq![36u8, 56u8, 56u8, 13u8, 10u8]);
    let before = bytes_of("+FULLRESYNC ") + bytes_of(MASTER_REPLID) + bytes_of(" ");
    assert(before + decimal(0) + crlf() =~= before + seq![48u8, 13u8, 10u8]);
}

} // verus!
