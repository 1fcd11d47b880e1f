//! Following a master: the handshake, the first synchronization and the commands after it.

use vstd::prelude::*;
use vstd::slice::slice_subrange;
use vstd::string::StringExecFns;
use crate::bytes::{
    bytes_equal, bytes_of, contents, is_keyword, is_text, is_word, to_bytes, Command,
};
use crate::database::{DatabaseState, DatabaseView};
use crate::decode::{
    header_value, lemma_line_bounds, line_at, line_feed_index, read_header_value, read_resp_line,
    Fetch, Parse,
};
use crate::encode::{array, write_array};
use crate::error::{invalid_data, unexpected_eof, Error, ErrorKind};
use crate::number::{decimal, is_digit, law_decimal_is_read_back, write_decimal};
use crate::transaction::{execute_queued_command, queued_outcome};

verus! {

/// A text of the same bytes.
pub open spec fn text_of(bytes: Seq<u8>) -> Seq<char> {
    Seq::new(bytes.len(), |i: int| bytes[i] as char)
}

/// Bytes as numbers, with a comma and a space between any two.
pub open spec fn enumeration(bytes: Seq<u8>) -> Seq<char>
    decreases bytes.len(),
{
    if bytes.len() == 0 {
        Seq::empty()
    } else if bytes.len() == 1 {
        text_of(decimal(bytes[0] as nat))
    } else {
        enumeration(bytes.drop_last()) + ", "@ + text_of(decimal(bytes.last() as nat))
    }
}

/// The message about a response that a handshake does not expect.
pub open spec fn unexpected_response_message(response: Seq<u8>) -> Seq<char> {
    "unexpected handshake response: ["@ + enumeration(response) + "]"@
}

/// Appends a digit to a text.
fn append_digit(text: &mut String, digit: u8)
    requires
        is_digit(digit),
    ensures
        final(text)@ == old(text)@.push(digit as char),
{
    proof {
        reveal_strlit("0");
        reveal_strlit("1");
        reveal_strlit("2");
        reveal_strlit("3");
        reveal_strlit("4");
        reveal_strlit("5");
        reveal_strlit("6");
        reveal_strlit("7");
        reveal_strlit("8");
        reveal_strlit("9");
    }
    let symbol = match digit {
        48 => "0",
        49 => "1",
        50 => "2",
        51 => "3",
        52 => "4",
        53 => "5",
        54 => "6",
        55 => "7",
        56 => "8",
        _ => "9",
    };
    text.append(symbol);
    assert(text@ =~= old(text)@.push(digit as char));
}

/// Appends a byte to a text, as a number.
fn append_number(text: &mut String, byte: u8)
    ensures
        final(text)@ == old(text)@ + text_of(decimal(byte as nat)),
{
    let mut digits: Vec<u8> = Vec::new();
    write_decimal(&mut digits, byte as u128);
    assert(digits@ =~= decimal(byte as nat));
    proof {
        law_decimal_is_read_back(byte as nat);
    }
    let ghost start = text@;
    let total = digits.len();
    assert(text_of(digits@.take(0)) =~= Seq::<char>::empty());
    for i in 0..total
        invariant
            total == digits@.len(),
            forall|j: int| 0 <= j < digits@.len() ==> is_digit(#[trigger] digits@[j]),
            text@ == start + text_of(digits@.take(i as int)),
    {
        append_digit(text, digits[i]);
        assert(text_of(digits@.take(i + 1)) =~= text_of(digits@.take(i as int)).push(
            digits@[i as int] as char,
        ));
    }
    assert(digits@.take(total as int) =~= digits@);
}

/// The error that reports a response that a handshake does not expect.
fn unexpected_response(response: &[u8]) -> (error: Error)
    ensures
        error.kind == ErrorKind::InvalidData,
        error.message@ == unexpected_response_message(response@),
{
    let mut message = "unexpected handshake response: [".to_owned();
    let ghost prefix = message@;
    let total = response.len();
    for i in 0..total
        invariant
            total == response@.len(),
            message@ == prefix + enumeration(response@.take(i as int)),
    {
        let ghost listed = response@.take(i + 1);
        assert(listed.drop_last() =~= response@.take(i as int));
        if i > 0 {
            message.append(", ");
        }
        append_number(&mut message, response[i]);
        assert(message@ =~= prefix + enumeration(listed));
    }
    message.append("]");
    assert(response@.take(total as int) =~= response@);
    Error { kind: ErrorKind::InvalidData, message }
}

/// The response that begins at `from`: everything up to and including the next line feed, or up
/// to the end of the input.
pub open spec fn response_at(input: Seq<u8>, from: int, at_end: bool) -> Parse<Seq<u8>> {
    let feed = line_feed_index(input, from);
    if feed < input.len() {
        Parse::Ready(input.subrange(from, feed + 1), feed + 1)
    } else if at_end {
        Parse::Ready(input.subrange(from, input.len() as int), input.len() as int)
    } else {
        Parse::Pending
    }
}

/// What a response that should be `expected` calls for.
pub open spec fn expected_response_at(
    input: Seq<u8>,
    from: int,
    expected: Seq<u8>,
    at_end: bool,
) -> Parse<()> {
    match response_at(input, from, at_end) {
        Parse::Ready(response, next) => if response == expected {
            Parse::Ready((), next)
        } else {
            Parse::Failed(ErrorKind::InvalidData, unexpected_response_message(response))
        },
        _ => Parse::Pending,
    }
}

/// Whether an attempt to read something without a value came out as the input calls for.
pub open spec fn fetched(result: Result<Fetch<()>, Error>, expected: Parse<()>) -> bool {
    match (result, expected) {
        (Ok(Fetch::Pending), Parse::Pending) => true,
        (Ok(Fetch::Closed), Parse::Closed) => true,
        (Ok(Fetch::Ready(_, next)), Parse::Ready(_, end)) => next == end,
        (Err(error), Parse::Failed(kind, message)) => error.kind == kind && error.message@
            == message,
        _ => false,
    }
}

/// Reads a response and compares it with the one that is expected.
pub fn expect_response(input: &[u8], from: usize, expected: &[u8], at_end: bool) -> (result: Result<
    Fetch<()>,
    Error,
>)
    requires
        from <= input@.len(),
    ensures
        fetched(result, expected_response_at(input@, from as int, expected@, at_end)),
        result matches Ok(Fetch::Ready(_, next)) ==> next <= input@.len(),
{
    let mut feed = from;
    while feed < input.len() && input[feed] != 10
        invariant
            from <= feed <= input@.len(),
            line_feed_index(input@, from as int) == line_feed_index(input@, feed as int),
        decreases input@.len() - feed,
    {
        feed = feed + 1;
    }
    if feed == input.len() && !at_end {
        return Ok(Fetch::Pending);
    }
    let next = if feed == input.len() {
        feed
    } else {
        feed + 1
    };
    let response = slice_subrange(input, from, next);
    if bytes_equal(response, expected) {
        Ok(Fetch::Ready((), next))
    } else {
        Err(unexpected_response(response))
    }
}

/// A step of the handshake with a master.
#[derive(Clone, Copy, Debug, PartialEq, Eq, Structural)]
pub enum HandshakeStep {
    /// Ask whether the master is there.
    Ping,
    /// Tell on which port this server listens.
    ListeningPort,
    /// Tell what this server understands.
    Capability,
    /// Ask for the synchronization. No response belongs to this step: what follows is the
    /// synchronization itself.
    Synchronize,
}

/// The command that a step sends.
pub open spec fn handshake_command(step: HandshakeStep, listening_port: u16) -> Seq<Seq<u8>> {
    match step {
        HandshakeStep::Ping => seq![bytes_of("PING")],
        HandshakeStep::ListeningPort => seq![
            bytes_of("REPLCONF"),
            bytes_of("listening-port"),
            decimal(listening_port as nat),
        ],
        HandshakeStep::Capability => seq![
            bytes_of("REPLCONF"),
            bytes_of("capa"),
            bytes_of("psync2"),
        ],
        HandshakeStep::Synchronize => seq![bytes_of("PSYNC"), bytes_of("?"), bytes_of("-1")],
    }
}

/// The response that a step waits for.
pub open spec fn handshake_response(step: HandshakeStep) -> Option<Seq<u8>> {
    match step {
        HandshakeStep::Ping => Some(bytes_of("+PONG\r\n")),
        HandshakeStep::ListeningPort => Some(bytes_of("+OK\r\n")),
        HandshakeStep::Capability => Some(bytes_of("+OK\r\n")),
        HandshakeStep::Synchronize => None,
    }
}

/// The step after the one whose response has come.
pub open spec fn next_step(step: HandshakeStep) -> HandshakeStep {
    match step {
        HandshakeStep::Ping => HandshakeStep::ListeningPort,
        HandshakeStep::ListeningPort => HandshakeStep::Capability,
        HandshakeStep::Capability => HandshakeStep::Synchronize,
        HandshakeStep::Synchronize => HandshakeStep::Synchronize,
    }
}

/// The step that follows once the input from `from` on answers a step.
pub open spec fn handshake_at(
    step: HandshakeStep,
    input: Seq<u8>,
    from: int,
    at_end: bool,
) -> Parse<HandshakeStep> {
    match handshake_response(step) {
        None => Parse::Ready(step, from),
        Some(expected) => match expected_response_at(input, from, expected, at_end) {
            Parse::Pending => Parse::Pending,
            Parse::Closed => Parse::Closed,
            Parse::Failed(kind, message) => Parse::Failed(kind, message),
            Parse::Ready(_, next) => Parse::Ready(next_step(step), next),
        },
    }
}

/// Whether an attempt to take a step came out as the input calls for.
pub open spec fn step_fetched(
    result: Result<Fetch<HandshakeStep>, Error>,
    expected: Parse<HandshakeStep>,
) -> bool {
    match (result, expected) {
        (Ok(Fetch::Pending), Parse::Pending) => true,
        (Ok(Fetch::Closed), Parse::Closed) => true,
        (Ok(Fetch::Ready(step, next)), Parse::Ready(expected_step, end)) => step == expected_step
            && next == end,
        (Err(error), Parse::Failed(kind, message)) => error.kind == kind && error.message@
            == message,
        _ => false,
    }
}

impl HandshakeStep {
    /// The command that this step sends.
    pub fn command(self, listening_port: u16) -> (result: Command)
        ensures
            contents(result@) == handshake_command(self, listening_port),
    {
        let mut result: Command = Vec::new();
        match self {
            HandshakeStep::Ping => {
                result.push(to_bytes("PING"));
            },
            HandshakeStep::ListeningPort => {
                let mut port: Vec<u8> = Vec::new();
                write_decimal(&mut port, listening_port as u128);
                assert(port@ =~= decimal(listening_port as nat));
                result.push(to_bytes("REPLCONF"));
                result.push(to_bytes("listening-port"));
                result.push(port);
            },
            HandshakeStep::Capability => {
                result.push(to_bytes("REPLCONF"));
                result.push(to_bytes("capa"));
                result.push(to_bytes("psync2"));
            },
            HandshakeStep::Synchronize => {
                result.push(to_bytes("PSYNC"));
                result.push(to_bytes("?"));
                result.push(to_bytes("-1"));
            },
        }
        assert(contents(result@) =~= handshake_command(self, listening_port));
        result
    }

    /// Reads the response to this step, and tells the step that follows.
    pub fn advance(self, input: &[u8], from: usize, at_end: bool) -> (result: Result<
        Fetch<HandshakeStep>,
        Error,
    >)
        requires
            from <= input@.len(),
        ensures
            step_fetched(result, handshake_at(self, input@, from as int, at_end)),
            result matches Ok(Fetch::Ready(_, next)) ==> next <= input@.len(),
    {
        let (expected, following) = match self {
            HandshakeStep::Ping => ("+PONG\r\n", HandshakeStep::ListeningPort),
            HandshakeStep::ListeningPort => ("+OK\r\n", HandshakeStep::Capability),
            HandshakeStep::Capability => ("+OK\r\n", HandshakeStep::Synchronize),
            HandshakeStep::Synchronize => {
                return Ok(Fetch::Ready(HandshakeStep::Synchronize, from));
            },
        };
        match expect_response(input, from, expected.as_bytes(), at_end) {
            Ok(Fetch::Ready(_, next)) => Ok(Fetch::Ready(following, next)),
            Ok(Fetch::Pending) => Ok(Fetch::Pending),
            Ok(Fetch::Closed) => Ok(Fetch::Closed),
            Err(error) => Err(error),
        }
    }
}

/// How far the first synchronization has come.
#[derive(Clone, Copy, Debug, PartialEq, Eq, Structural)]
pub enum SyncStage {
    /// The announcement of a full resynchronization comes next.
    Announcement,
    /// The length of the snapshot comes next.
    Length,
    /// This many bytes of the snapshot are still to come.
    Snapshot(usize),
}

/// Where the synchronization stands after the input was looked at: the stage that it reached and
/// the index of the first byte that belongs to that stage or to what follows.
pub open spec fn snapshot_at(remaining: usize, input: Seq<u8>, from: int, at_end: bool) -> Parse<
    SyncStage,
> {
    let available = input.len() - from;
    if remaining <= available {
        Parse::Ready(SyncStage::Snapshot(0), from + remaining)
    } else if at_end {
        Parse::Failed(ErrorKind::UnexpectedEof, "early eof"@)
    } else {
        Parse::Ready(SyncStage::Snapshot((remaining - available) as usize), input.len() as int)
    }
}

/// Like [`snapshot_at`], where the snapshot's length comes first.
pub open spec fn length_at(input: Seq<u8>, from: int, at_end: bool) -> Parse<SyncStage> {
    match line_at(input, from, at_end) {
        Parse::Pending => Parse::Ready(SyncStage::Length, from),
        Parse::Closed => Parse::Failed(ErrorKind::InvalidData, "missing RDB length"@),
        Parse::Failed(kind, message) => Parse::Failed(kind, message),
        Parse::Ready(header, start) => if header.len() == 0 || header[0] != 36 {
            Parse::Failed(ErrorKind::InvalidData, "expected RDB length"@)
        } else {
            match header_value(header, 36) {
                None => Parse::Failed(ErrorKind::InvalidData, "invalid number"@),
                Some(length) => snapshot_at(length as usize, input, start, at_end),
            }
        },
    }
}

/// Like [`length_at`], where the announcement comes first.
pub open spec fn announcement_at(input: Seq<u8>, from: int, at_end: bool) -> Parse<SyncStage> {
    match line_at(input, from, at_end) {
        Parse::Pending => Parse::Ready(SyncStage::Announcement, from),
        Parse::Closed => Parse::Failed(ErrorKind::InvalidData, "missing FULLRESYNC response"@),
        Parse::Failed(kind, message) => Parse::Failed(kind, message),
        Parse::Ready(response, start) => if bytes_of("+FULLRESYNC ").is_prefix_of(response) {
            length_at(input, start, at_end)
        } else {
            Parse::Failed(ErrorKind::InvalidData, "expected FULLRESYNC response"@)
        },
    }
}

/// Where the synchronization stands after it went on from a stage.
pub open spec fn sync_at(stage: SyncStage, input: Seq<u8>, from: int, at_end: bool) -> Parse<
    SyncStage,
> {
    match stage {
        SyncStage::Announcement => announcement_at(input, from, at_end),
        SyncStage::Length => length_at(input, from, at_end),
        SyncStage::Snapshot(remaining) => snapshot_at(remaining, input, from, at_end),
    }
}

/// Whether the synchronization went on as the input calls for.
pub open spec fn synchronized(
    result: Result<(SyncStage, usize), Error>,
    expected: Parse<SyncStage>,
) -> bool {
    match (result, expected) {
        (Ok((stage, next)), Parse::Ready(expected_stage, end)) => stage == expected_stage && next
            == end,
        (Err(error), Parse::Failed(kind, message)) => error.kind == kind && error.message@
            == message,
        _ => false,
    }
}

/// Consumes what has come of the snapshot.
fn receive_snapshot(remaining: usize, input: &[u8], from: usize, at_end: bool) -> (result: Result<
    (SyncStage, usize),
    Error,
>)
    requires
        from <= input@.len(),
    ensures
        synchronized(result, snapshot_at(remaining, input@, from as int, at_end)),
        result matches Ok((_, next)) ==> from <= next <= input@.len(),
{
    let available = input.len() - from;
    if remaining <= available {
        Ok((SyncStage::Snapshot(0), from + remaining))
    } else if at_end {
        Err(unexpected_eof("early eof"))
    } else {
        Ok((SyncStage::Snapshot(remaining - available), input.len()))
    }
}

/// Reads the snapshot's length, and consumes what has come of the snapshot.
fn receive_length(input: &[u8], from: usize, at_end: bool) -> (result: Result<
    (SyncStage, usize),
    Error,
>)
    requires
        from <= input@.len(),
    ensures
        synchronized(result, length_at(input@, from as int, at_end)),
        result matches Ok((_, next)) ==> from <= next <= input@.len(),
{
    proof {
        lemma_line_bounds(input@, from as int, at_end);
    }
    match read_resp_line(input, from, at_end) {
        Ok(Fetch::Pending) => Ok((SyncStage::Length, from)),
        Ok(Fetch::Closed) => Err(invalid_data("missing RDB length")),
        Err(error) => Err(error),
        Ok(Fetch::Ready(header, start)) => {
            if header.len() == 0 || header[0] != 36 {
                return Err(invalid_data("expected RDB length"));
            }
            match read_header_value(&header) {
                Ok(length) => receive_snapshot(length, input, start, at_end),
                Err(error) => Err(error),
            }
        },
    }
}

/// Goes on with the first synchronization: consumes of the input what belongs to it, and tells
/// the stage that was reached and the index of the first byte that is left.
pub fn receive_initial_sync(
    stage: SyncStage,
    input: &[u8],
    from: usize,
    at_end: bool,
) -> (result: Result<(SyncStage, usize), Error>)
    requires
        from <= input@.len(),
    ensures
        synchronized(result, sync_at(stage, input@, from as int, at_end)),
        result matches Ok((_, next)) ==> from <= next <= input@.len(),
{
    proof {
        lemma_line_bounds(input@, from as int, at_end);
    }
    match stage {
        SyncStage::Snapshot(remaining) => receive_snapshot(remaining, input, from, at_end),
        SyncStage::Length => receive_length(input, from, at_end),
        SyncStage::Announcement => match read_resp_line(input, from, at_end) {
            Ok(Fetch::Pending) => Ok((SyncStage::Announcement, from)),
            Ok(Fetch::Closed) => Err(invalid_data("missing FULLRESYNC response")),
            Err(error) => Err(error),
            Ok(Fetch::Ready(response, start)) => {
                if starts_with(response.as_slice(), "+FULLRESYNC ".as_bytes()) {
                    receive_length(input, start, at_end)
                } else {
                    Err(invalid_data("expected FULLRESYNC response"))
                }
            },
        },
    }
}

/// Whether a byte string starts with another.
fn starts_with(bytes: &[u8], prefix: &[u8]) -> (result: bool)
    ensures
        result == prefix@.is_prefix_of(bytes@),
{
    if bytes.len() < prefix.len() {
        return false;
    }
    bytes_equal(slice_subrange(bytes, 0, prefix.len()), prefix)
}

/// How a command of the master is followed.
#[derive(Debug)]
pub enum Followed {
    /// The master asked how far this replica is: this is to be sent to it.
    Acknowledge(Vec<u8>),
    /// The command was carried out. Nothing is sent.
    Applied,
    /// The command was not carried out, for the reason that this reply gives. Nothing is sent.
    Refused(Vec<u8>),
}

/// What a [`Followed`] stands for.
pub enum FollowedView {
    Acknowledge(Seq<u8>),
    Applied,
    Refused(Seq<u8>),
}

impl View for Followed {
    type V = FollowedView;

    open spec fn view(&self) -> FollowedView {
        match self {
            Followed::Acknowledge(bytes) => FollowedView::Acknowledge(bytes@),
            Followed::Applied => FollowedView::Applied,
            Followed::Refused(reply) => FollowedView::Refused(reply@),
        }
    }
}

/// Whether a master asks with a command how far its replica is.
pub open spec fn is_getack(command: Seq<Seq<u8>>) -> bool {
    &&& command.len() == 3
    &&& is_word(command[0], "REPLCONF")
    &&& is_word(command[1], "GETACK")
    &&& command[2] == bytes_of("*")
}

/// What a replica answers when it is asked how far it is.
pub open spec fn acknowledgement() -> Seq<Seq<u8>> {
    seq![bytes_of("REPLCONF"), bytes_of("ACK"), bytes_of("0")]
}

/// The database after a command of the master, and how the command is followed.
pub open spec fn follow_outcome(db: DatabaseView, command: Seq<Seq<u8>>, now: u64) -> (
    DatabaseView,
    FollowedView,
) {
    if is_getack(command) {
        (db, FollowedView::Acknowledge(array(acknowledgement())))
    } else {
        let outcome = queued_outcome(db, command, now);
        (
            outcome.0,
            if outcome.1.len() > 0 && outcome.1[0] == 45 {
                FollowedView::Refused(outcome.1)
            } else {
                FollowedView::Applied
            },
        )
    }
}

/// Follows a command of the master.
pub fn process_master_command(db: &mut DatabaseState, command: &[Vec<u8>], now: u64) -> (followed:
    Followed)
    requires
        old(db).wf(),
    ensures
        final(db).wf(),
        final(db)@ == follow_outcome(old(db)@, contents(command@), now).0,
        followed@ == follow_outcome(old(db)@, contents(command@), now).1,
{
    let ghost words = contents(command@);
    assert(words.len() == command@.len());
    assert(forall|i: int| 0 <= i < words.len() ==> words[i] == #[trigger] command@[i]@);
    if command.len() == 3 && is_keyword(command[0].as_slice(), "REPLCONF") && is_keyword(
        command[1].as_slice(),
        "GETACK",
    ) && is_text(command[2].as_slice(), "*") {
        let mut ack: Command = Vec::new();
        ack.push(to_bytes("REPLCONF"));
        ack.push(to_bytes("ACK"));
        ack.push(to_bytes("0"));
        assert(contents(ack@) =~= acknowledgement());
        let mut bytes: Vec<u8> = Vec::new();
        write_array(&mut bytes, ack.as_slice());
        assert(bytes@ =~= array(acknowledgement()));
        return Followed::Acknowledge(bytes);
    }
    let reply = execute_queued_command(db, command, now);
    if reply.len() > 0 && reply[0] == 45 {
        Followed::Refused(reply)
    } else {
        Followed::Applied
    }
}

} // verus!
