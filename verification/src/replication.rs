//! Being a master, and being a replica.

use vstd::prelude::*;
use crate::bytes::{append, bytes_of};
use crate::encode::{bulk_header, crlf, write_bulk_header};
use crate::number::{decimal, write_decimal};

verus! {

/// The identity under which this server replicates.
pub const MASTER_REPLID: &'static str = "8371b4fb1155b71f4a04d3e1bc3e18c4a990aeeb";

/// How many bytes of commands this server has sent to its replicas, as far as it tells.
pub const MASTER_REPL_OFFSET: u64 = 0;

/// The snapshot of a database without keys: the magic of the format and its version, four
/// auxiliary fields, the end mark and a checksum.
pub open spec fn empty_snapshot() -> Seq<u8> {
    seq![
        0x52u8, 0x45u8, 0x44u8, 0x49u8, 0x53u8, 0x30u8, 0x30u8, 0x31u8, 0x31u8, 0xfau8, 0x09u8, 0x72u8,
        0x65u8, 0x64u8, 0x69u8, 0x73u8, 0x2du8, 0x76u8, 0x65u8, 0x72u8, 0x05u8, 0x37u8, 0x2eu8, 0x32u8,
        0x2eu8, 0x30u8, 0xfau8, 0x0au8, 0x72u8, 0x65u8, 0x64u8, 0x69u8, 0x73u8, 0x2du8, 0x62u8, 0x69u8,
        0x74u8, 0x73u8, 0xc0u8, 0x40u8, 0xfau8, 0x05u8, 0x63u8, 0x74u8, 0x69u8, 0x6du8, 0x65u8, 0xc2u8,
        0x6du8, 0x08u8, 0xbcu8, 0x65u8, 0xfau8, 0x08u8, 0x75u8, 0x73u8, 0x65u8, 0x64u8, 0x2du8, 0x6du8,
        0x65u8, 0x6du8, 0xc2u8, 0xb0u8, 0xc4u8, 0x10u8, 0x00u8, 0xfau8, 0x08u8, 0x61u8, 0x6fu8, 0x66u8,
        0x2du8, 0x62u8, 0x61u8, 0x73u8, 0x65u8, 0xc0u8, 0x00u8, 0xffu8, 0xf0u8, 0x6eu8, 0x3bu8, 0xfeu8,
        0xc0u8, 0xffu8, 0x5au8, 0xa2u8,
    ]
}

/// The snapshot of a database without keys.
pub fn enpty_rdb() -> (result: Vec<u8>)
    ensures
        result@ == empty_snapshot(),
{
    let result: Vec<u8> = vec![
        0x52, 0x45, 0x44, 0x49, 0x53, 0x30, 0x30, 0x31, 0x31, 0xfa, 0x09, 0x72,
        0x65, 0x64, 0x69, 0x73, 0x2d, 0x76, 0x65, 0x72, 0x05, 0x37, 0x2e, 0x32,
        0x2e, 0x30, 0xfa, 0x0a, 0x72, 0x65, 0x64, 0x69, 0x73, 0x2d, 0x62, 0x69,
        0x74, 0x73, 0xc0, 0x40, 0xfa, 0x05, 0x63, 0x74, 0x69, 0x6d, 0x65, 0xc2,
        0x6d, 0x08, 0xbc, 0x65, 0xfa, 0x08, 0x75, 0x73, 0x65, 0x64, 0x2d, 0x6d,
        0x65, 0x6d, 0xc2, 0xb0, 0xc4, 0x10, 0x00, 0xfa, 0x08, 0x61, 0x6f, 0x66,
        0x2d, 0x62, 0x61, 0x73, 0x65, 0xc0, 0x00, 0xff, 0xf0, 0x6e, 0x3b, 0xfe,
        0xc0, 0xff, 0x5a, 0xa2,
    ];
    assert(result@ =~= empty_snapshot());
    result
}

/// What this server tells about its part in replication.
pub open spec fn replication_info(is_replica: bool) -> Seq<u8> {
    bytes_of("role:") + bytes_of(
        if is_replica {
            "slave"
        } else {
            "master"
        },
    ) + crlf() + bytes_of("master_replid:") + bytes_of(MASTER_REPLID) + crlf() + bytes_of(
        "master_repl_offset:",
    ) + decimal(MASTER_REPL_OFFSET as nat) + crlf()
}

/// Tells about this server's part in replication.
pub fn info_text(is_replica: bool) -> (result: Vec<u8>)
    ensures
        result@ == replication_info(is_replica),
{
    let mut result: Vec<u8> = Vec::new();
    append(&mut result, "role:".as_bytes());
    if is_replica {
        append(&mut result, "slave".as_bytes());
    } else {
        append(&mut result, "master".as_bytes());
    }
    append_line_end(&mut result);
    append(&mut result, "master_replid:".as_bytes());
    append(&mut result, MASTER_REPLID.as_bytes());
    append_line_end(&mut result);
    append(&mut result, "master_repl_offset:".as_bytes());
    write_decimal(&mut result, MASTER_REPL_OFFSET as u128);
    append_line_end(&mut result);
    assert(result@ =~= replication_info(is_replica));
    result
}

fn append_line_end(out: &mut Vec<u8>)
    ensures
        final(out)@ == old(out)@ + crlf(),
{
    out.push(13);
    out.push(10);
    assert(out@ =~= old(out)@ + crlf());
}

/// What a replica is sent when its synchronization starts: the announcement of a full
/// resynchronization, and the snapshot after its length.
pub open spec fn resync_greeting() -> Seq<u8> {
    bytes_of("+FULLRESYNC ") + bytes_of(MASTER_REPLID) + bytes_of(" ") + decimal(
        MASTER_REPL_OFFSET as nat,
    ) + crlf() + bulk_header(empty_snapshot().len()) + empty_snapshot()
}

/// What a replica is sent when its synchronization starts.
pub fn full_resync() -> (result: Vec<u8>)
    ensures
        result@ == resync_greeting(),
{
    let mut result: Vec<u8> = Vec::new();
    append(&mut result, "+FULLRESYNC ".as_bytes());
    append(&mut result, MASTER_REPLID.as_bytes());
    append(&mut result, " ".as_bytes());
    write_decimal(&mut result, MASTER_REPL_OFFSET as u128);
    append_line_end(&mut result);
    let rdb = enpty_rdb();
    write_bulk_header(&mut result, rdb.len() as u128);
    append(&mut result, rdb.as_slice());
    assert(result@ =~= resync_greeting());
    result
}

} // verus!
