//! Fixed words and replies of the protocol.

use vstd::prelude::*;

verus! {

pub const ROLE: &'static str = "role";

pub const MASTER: &'static str = "master";

pub const SLAVE: &'static str = "slave";

pub const MASTER_REPL_OFFSET: &'static str = "master_repl_offset";

pub const MASTER_REPL_ID: &'static str = "master_replid";

pub const REPL_CONF: &'static str = "REPLCONF";

pub const GETACK: &'static str = "GETACK";

pub const ACK: &'static str = "ACK";

pub const LISTENING_PORT: &'static str = "listening-port";

pub const PSYNC: &'static str = "PSYNC";

pub const FULLRESYNC: &'static str = "FULLRESYNC";

pub const DEFAULT_PORT: &'static str = "6379";

pub const NOT_INT_ERROR: &'static str = "-ERR value is not an integer or out of range\r\n";

pub const EXEC_WITHOUT_MULTI: &'static str = "-ERR EXEC without MULTI\r\n";

pub const DISCARD_WITHOUT_MULTI: &'static str = "-ERR DISCARD without MULTI\r\n";

pub const QUEUED_RESP: &'static str = "+QUEUED\r\n";

pub const PONG_RESPONSE: &'static str = "+PONG\r\n";

pub const RESP_OK: &'static str = "+OK\r\n";

pub const RESP_NULL: &'static str = "$-1\r\n";

pub const ZERO_INT: &'static str = ":0\r\n";

pub const STRING: &'static str = "+string\r\n";

pub const STREAM: &'static str = "+stream\r\n";

pub const NONE_TYPE: &'static str = "+none\r\n";

pub const ZERO_ERROR: &'static str = "-ERR The ID specified in XADD must be greater than 0-0\r\n";

pub const SMALLER_ERROR: &'static str =
    "-ERR The ID specified in XADD is equal or smaller than the target stream top item\r\n";

pub const EMPTY_ARRAY: &'static str = "*0\r\n";

} // verus!
