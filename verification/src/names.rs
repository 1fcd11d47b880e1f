//! Names of commands, and that they are different.

use vstd::prelude::*;
use crate::bytes::{bytes_of, lowercase, same_ignoring_case};
use crate::reply::is_named;

verus! {

/// The length of a word and its first three letters, in lower case.
pub(crate) open spec fn signature(word: Seq<u8>) -> (nat, u8, u8, u8) {
    (word.len(), lowercase(word[0]), lowercase(word[1]), lowercase(word[2]))
}

proof fn lemma_signature(word: Seq<u8>, name: Seq<u8>)
    requires
        same_ignoring_case(word, name),
        name.len() >= 3,
    ensures
        signature(word) == signature(name),
{
    assert(lowercase(word[0]) == lowercase(name[0]));
    assert(lowercase(word[1]) == lowercase(name[1]));
    assert(lowercase(word[2]) == lowercase(name[2]));
}

proof fn lemma_first_names()
    ensures
        forall|command: Seq<Seq<u8>>| #[trigger]
            is_named(command, "PING") ==> signature(command[0]) == (4nat, 112u8, 105u8, 110u8),
        forall|command: Seq<Seq<u8>>| #[trigger]
            is_named(command, "ECHO") ==> signature(command[0]) == (4nat, 101u8, 99u8, 104u8),
        forall|command: Seq<Seq<u8>>| #[trigger]
            is_named(command, "SET") ==> signature(command[0]) == (3nat, 115u8, 101u8, 116u8),
        forall|command: Seq<Seq<u8>>| #[trigger]
            is_named(command, "INCR") ==> signature(command[0]) == (4nat, 105u8, 110u8, 99u8),
        forall|command: Seq<Seq<u8>>| #[trigger]
            is_named(command, "TYPE") ==> signature(command[0]) == (4nat, 116u8, 121u8, 112u8),
        forall|command: Seq<Seq<u8>>| #[trigger]
            is_named(command, "RPUSH") ==> signature(command[0]) == (5nat, 114u8, 112u8, 117u8),
        forall|command: Seq<Seq<u8>>| #[trigger]
            is_named(command, "LLEN") ==> signature(command[0]) == (4nat, 108u8, 108u8, 101u8),
        forall|command: Seq<Seq<u8>>| #[trigger]
            is_named(command, "BLPOP") ==> signature(command[0]) == (5nat, 98u8, 108u8, 112u8),
{
    reveal_strlit("PING");
    assert(vstd::string::is_ascii("PING"));
    assert forall|command: Seq<Seq<u8>>| #[trigger] is_named(command, "PING") implies signature(
        command[0],
    ) == (4nat, 112u8, 105u8, 110u8) by {
        lemma_signature(command[0], bytes_of("PING"));
    }
    reveal_strlit("ECHO");
    assert(vstd::string::is_ascii("ECHO"));
    assert forall|command: Seq<Seq<u8>>| #[trigger] is_named(command, "ECHO") implies signature(
        command[0],
    ) == (4nat, 101u8, 99u8, 104u8) by {
        lemma_signature(command[0], bytes_of("ECHO"));
    }
    reveal_strlit("SET");
    assert(vstd::string::is_ascii("SET"));
    assert forall|command: Seq<Seq<u8>>| #[trigger] is_named(command, "SET") implies signature(
        command[0],
    ) == (3nat, 115u8, 101u8, 116u8) by {
        lemma_signature(command[0], bytes_of("SET"));
    }
    reveal_strlit("INCR");
    assert(vstd::string::is_ascii("INCR"));
    assert forall|command: Seq<Seq<u8>>| #[trigger] is_named(command, "INCR") implies signature(
        command[0],
    ) == (4nat, 105u8, 110u8, 99u8) by {
        lemma_signature(command[0], bytes_of("INCR"));
    }
    reveal_strlit("TYPE");
    assert(vstd::string::is_ascii("TYPE"));
    assert forall|command: Seq<Seq<u8>>| #[trigger] is_named(command, "TYPE") implies signature(
        command[0],
    ) == (4nat, 116u8, 121u8, 112u8) by {
        lemma_signature(command[0], bytes_of("TYPE"));
    }
    reveal_strlit("RPUSH");
    assert(vstd::string::is_ascii("RPUSH"));
    assert forall|command: Seq<Seq<u8>>| #[trigger] is_named(command, "RPUSH") implies signature(
        command[0],
    ) == (5nat, 114u8, 112u8, 117u8) by {
        lemma_signature(command[0], bytes_of("RPUSH"));
    }
    reveal_strlit("LLEN");
    assert(vstd::string::is_ascii("LLEN"));
    assert forall|command: Seq<Seq<u8>>| #[trigger] is_named(command, "LLEN") implies signature(
        command[0],
    ) == (4nat, 108u8, 108u8, 101u8) by {
        lemma_signature(command[0], bytes_of("LLEN"));
    }
    reveal_strlit("BLPOP");
    assert(vstd::string::is_ascii("BLPOP"));
    assert forall|command: Seq<Seq<u8>>| #[trigger] is_named(command, "BLPOP") implies signature(
        command[0],
    ) == (5nat, 98u8, 108u8, 112u8) by {
        lemma_signature(command[0], bytes_of("BLPOP"));
    }
}

proof fn lemma_second_names()
    ensures
        forall|command: Seq<Seq<u8>>| #[trigger]
            is_named(command, "LPOP") ==> signature(command[0]) == (4nat, 108u8, 112u8, 111u8),
        forall|command: Seq<Seq<u8>>| #[trigger]
            is_named(command, "LPUSH") ==> signature(command[0]) == (5nat, 108u8, 112u8, 117u8),
        forall|command: Seq<Seq<u8>>| #[trigger]
            is_named(command, "LRANGE") ==> signature(command[0]) == (6nat, 108u8, 114u8, 97u8),
        forall|command: Seq<Seq<u8>>| #[trigger]
            is_named(command, "GET") ==> signature(command[0]) == (3nat, 103u8, 101u8, 116u8),
        forall|command: Seq<Seq<u8>>| #[trigger]
            is_named(command, "XADD") ==> signature(command[0]) == (4nat, 120u8, 97u8, 100u8),
        forall|command: Seq<Seq<u8>>| #[trigger]
            is_named(command, "XREAD") ==> signature(command[0]) == (5nat, 120u8, 114u8, 101u8),
        forall|command: Seq<Seq<u8>>| #[trigger]
            is_named(command, "XRANGE") ==> signature(command[0]) == (6nat, 120u8, 114u8, 97u8),
        forall|command: Seq<Seq<u8>>| #[trigger]
            is_named(command, "REPLCONF") ==> signature(command[0]) == (8nat, 114u8, 101u8, 112u8),
{
    reveal_strlit("LPOP");
    assert(vstd::string::is_ascii("LPOP"));
    assert forall|command: Seq<Seq<u8>>| #[trigger] is_named(command, "LPOP") implies signature(
        command[0],
    ) == (4nat, 108u8, 112u8, 111u8) by {
        lemma_signature(command[0], bytes_of("LPOP"));
    }
    reveal_strlit("LPUSH");
    assert(vstd::string::is_ascii("LPUSH"));
    assert forall|command: Seq<Seq<u8>>| #[trigger] is_named(command, "LPUSH") implies signature(
        command[0],
    ) == (5nat, 108u8, 112u8, 117u8) by {
        lemma_signature(command[0], bytes_of("LPUSH"));
    }
    reveal_strlit("LRANGE");
    assert(vstd::string::is_ascii("LRANGE"));
    assert forall|command: Seq<Seq<u8>>| #[trigger] is_named(command, "LRANGE") implies signature(
        command[0],
    ) == (6nat, 108u8, 114u8, 97u8) by {
        lemma_signature(command[0], bytes_of("LRANGE"));
    }
    reveal_strlit("GET");
    assert(vstd::string::is_ascii("GET"));
    assert forall|command: Seq<Seq<u8>>| #[trigger] is_named(command, "GET") implies signature(
        command[0],
    ) == (3nat, 103u8, 101u8, 116u8) by {
        lemma_signature(command[0], bytes_of("GET"));
    }
    reveal_strlit("XADD");
    assert(vstd::string::is_ascii("XADD"));
    assert forall|command: Seq<Seq<u8>>| #[trigger] is_named(command, "XADD") implies signature(
        command[0],
    ) == (4nat, 120u8, 97u8, 100u8) by {
        lemma_signature(command[0], bytes_of("XADD"));
    }
    reveal_strlit("XREAD");
    assert(vstd::string::is_ascii("XREAD"));
    assert forall|command: Seq<Seq<u8>>| #[trigger] is_named(command, "XREAD") implies signature(
        command[0],
    ) == (5nat, 120u8, 114u8, 101u8) by {
        lemma_signature(command[0], bytes_of("XREAD"));
    }
    reveal_strlit("XRANGE");
    assert(vstd::string::is_ascii("XRANGE"));
    assert forall|command: Seq<Seq<u8>>| #[trigger] is_named(command, "XRANGE") implies signature(
        command[0],
    ) == (6nat, 120u8, 114u8, 97u8) by {
        lemma_signature(command[0], bytes_of("XRANGE"));
    }
    reveal_strlit("REPLCONF");
    assert(vstd::string::is_ascii("REPLCONF"));
    assert forall|command: Seq<Seq<u8>>| #[trigger] is_named(command, "REPLCONF") implies signature(
        command[0],
    ) == (8nat, 114u8, 101u8, 112u8) by {
        lemma_signature(command[0], bytes_of("REPLCONF"));
    }
}

proof fn lemma_third_names()
    ensures
        forall|command: Seq<Seq<u8>>| #[trigger]
            is_named(command, "PSYNC") ==> signature(command[0]) == (5nat, 112u8, 115u8, 121u8),
        forall|command: Seq<Seq<u8>>| #[trigger]
            is_named(command, "INFO") ==> signature(command[0]) == (4nat, 105u8, 110u8, 102u8),
        forall|command: Seq<Seq<u8>>| #[trigger]
            is_named(command, "MULTI") ==> signature(command[0]) == (5nat, 109u8, 117u8, 108u8),
        forall|command: Seq<Seq<u8>>| #[trigger]
            is_named(command, "EXEC") ==> signature(command[0]) == (4nat, 101u8, 120u8, 101u8),
        forall|command: Seq<Seq<u8>>| #[trigger]
            is_named(command, "DISCARD") ==> signature(command[0]) == (7nat, 100u8, 105u8, 115u8),
        forall|command: Seq<Seq<u8>>| #[trigger]
            is_named(command, "WATCH") ==> signature(command[0]) == (5nat, 119u8, 97u8, 116u8),
        forall|command: Seq<Seq<u8>>| #[trigger]
            is_named(command, "UNWATCH") ==> signature(command[0]) == (7nat, 117u8, 110u8, 119u8),
{
    reveal_strlit("PSYNC");
    assert(vstd::string::is_ascii("PSYNC"));
    assert forall|command: Seq<Seq<u8>>| #[trigger] is_named(command, "PSYNC") implies signature(
        command[0],
    ) == (5nat, 112u8, 115u8, 121u8) by {
        lemma_signature(command[0], bytes_of("PSYNC"));
    }
    reveal_strlit("INFO");
    assert(vstd::string::is_ascii("INFO"));
    assert forall|command: Seq<Seq<u8>>| #[trigger] is_named(command, "INFO") implies signature(
        command[0],
    ) == (4nat, 105u8, 110u8, 102u8) by {
        lemma_signature(command[0], bytes_of("INFO"));
    }
    reveal_strlit("MULTI");
    assert(vstd::string::is_ascii("MULTI"));
    assert forall|command: Seq<Seq<u8>>| #[trigger] is_named(command, "MULTI") implies signature(
        command[0],
    ) == (5nat, 109u8, 117u8, 108u8) by {
        lemma_signature(command[0], bytes_of("MULTI"));
    }
    reveal_strlit("EXEC");
    assert(vstd::string::is_ascii("EXEC"));
    assert forall|command: Seq<Seq<u8>>| #[trigger] is_named(command, "EXEC") implies signature(
        command[0],
    ) == (4nat, 101u8, 120u8, 101u8) by {
        lemma_signature(command[0], bytes_of("EXEC"));
    }
    reveal_strlit("DISCARD");
    assert(vstd::string::is_ascii("DISCARD"));
    assert forall|command: Seq<Seq<u8>>| #[trigger] is_named(command, "DISCARD") implies signature(
        command[0],
    ) == (7nat, 100u8, 105u8, 115u8) by {
        lemma_signature(command[0], bytes_of("DISCARD"));
    }
    reveal_strlit("WATCH");
    assert(vstd::string::is_ascii("WATCH"));
    assert forall|command: Seq<Seq<u8>>| #[trigger] is_named(command, "WATCH") implies signature(
        command[0],
    ) == (5nat, 119u8, 97u8, 116u8) by {
        lemma_signature(command[0], bytes_of("WATCH"));
    }
    reveal_strlit("UNWATCH");
    assert(vstd::string::is_ascii("UNWATCH"));
    assert forall|command: Seq<Seq<u8>>| #[trigger] is_named(command, "UNWATCH") implies signature(
        command[0],
    ) == (7nat, 117u8, 110u8, 119u8) by {
        lemma_signature(command[0], bytes_of("UNWATCH"));
    }
}

/// Every name of a command has a signature of its own.
pub(crate) proof fn lemma_names()
    ensures
        forall|command: Seq<Seq<u8>>| #[trigger]
            is_named(command, "PING") ==> signature(command[0]) == (4nat, 112u8, 105u8, 110u8),
        forall|command: Seq<Seq<u8>>| #[trigger]
            is_named(command, "ECHO") ==> signature(command[0]) == (4nat, 101u8, 99u8, 104u8),
        forall|command: Seq<Seq<u8>>| #[trigger]
            is_named(command, "SET") ==> signature(command[0]) == (3nat, 115u8, 101u8, 116u8),
        forall|command: Seq<Seq<u8>>| #[trigger]
            is_named(command, "INCR") ==> signature(command[0]) == (4nat, 105u8, 110u8, 99u8),
        forall|command: Seq<Seq<u8>>| #[trigger]
            is_named(command, "TYPE") ==> signature(command[0]) == (4nat, 116u8, 121u8, 112u8),
        forall|command: Seq<Seq<u8>>| #[trigger]
            is_named(command, "RPUSH") ==> signature(command[0]) == (5nat, 114u8, 112u8, 117u8),
        forall|command: Seq<Seq<u8>>| #[trigger]
            is_named(command, "LLEN") ==> signature(command[0]) == (4nat, 108u8, 108u8, 101u8),
        forall|command: Seq<Seq<u8>>| #[trigger]
            is_named(command, "BLPOP") ==> signature(command[0]) == (5nat, 98u8, 108u8, 112u8),
        forall|command: Seq<Seq<u8>>| #[trigger]
            is_named(command, "LPOP") ==> signature(command[0]) == (4nat, 108u8, 112u8, 111u8),
        forall|command: Seq<Seq<u8>>| #[trigger]
            is_named(command, "LPUSH") ==> signature(command[0]) == (5nat, 108u8, 112u8, 117u8),
        forall|command: Seq<Seq<u8>>| #[trigger]
            is_named(command, "LRANGE") ==> signature(command[0]) == (6nat, 108u8, 114u8, 97u8),
        forall|command: Seq<Seq<u8>>| #[trigger]
            is_named(command, "GET") ==> signature(command[0]) == (3nat, 103u8, 101u8, 116u8),
        forall|command: Seq<Seq<u8>>| #[trigger]
            is_named(command, "XADD") ==> signature(command[0]) == (4nat, 120u8, 97u8, 100u8),
        forall|command: Seq<Seq<u8>>| #[trigger]
            is_named(command, "XREAD") ==> signature(command[0]) == (5nat, 120u8, 114u8, 101u8),
        forall|command: Seq<Seq<u8>>| #[trigger]
            is_named(command, "XRANGE") ==> signature(command[0]) == (6nat, 120u8, 114u8, 97u8),
        forall|command: Seq<Seq<u8>>| #[trigger]
            is_named(command, "REPLCONF") ==> signature(command[0]) == (8nat, 114u8, 101u8, 112u8),
        forall|command: Seq<Seq<u8>>| #[trigger]
            is_named(command, "PSYNC") ==> signature(command[0]) == (5nat, 112u8, 115u8, 121u8),
        forall|command: Seq<Seq<u8>>| #[trigger]
            is_named(command, "INFO") ==> signature(command[0]) == (4nat, 105u8, 110u8, 102u8),
        forall|command: Seq<Seq<u8>>| #[trigger]
            is_named(command, "MULTI") ==> signature(command[0]) == (5nat, 109u8, 117u8, 108u8),
        forall|command: Seq<Seq<u8>>| #[trigger]
            is_named(command, "EXEC") ==> signature(command[0]) == (4nat, 101u8, 120u8, 101u8),
        forall|command: Seq<Seq<u8>>| #[trigger]
            is_named(command, "DISCARD") ==> signature(command[0]) == (7nat, 100u8, 105u8, 115u8),
        forall|command: Seq<Seq<u8>>| #[trigger]
            is_named(command, "WATCH") ==> signature(command[0]) == (5nat, 119u8, 97u8, 116u8),
        forall|command: Seq<Seq<u8>>| #[trigger]
            is_named(command, "UNWATCH") ==> signature(command[0]) == (7nat, 117u8, 110u8, 119u8),
{
    lemma_first_names();
    lemma_second_names();
    lemma_third_names();
}

} // verus!
