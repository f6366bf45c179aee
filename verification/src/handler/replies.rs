//! Replies that tell misuse of a command.

use vstd::prelude::*;
use vstd::string::StringSliceAdditionalSpecFns;
use crate::bytes::{push_bytes, push_text, text};

verus! {

/// The reply to a write whose options cannot be read.
pub const SYNTAX_ERROR: &'static str = "-ERR syntax error\r\n";

/// The reply to a score that is no number.
pub const NOT_FLOAT_ERROR: &'static str = "-ERR value is not a valid float\r\n";

/// The reply to a command with too few arguments.
pub open spec fn arity_error(cmd: Seq<u8>) -> Seq<u8> {
    "-ERR wrong number of arguments for '".spec_bytes() + cmd + "' command\r\n".spec_bytes()
}

/// The reply to a command that the server does not know.
pub open spec fn unknown_error(cmd: Seq<u8>) -> Seq<u8> {
    "-ERR unknown command '".spec_bytes() + cmd + "'\r\n".spec_bytes()
}

/// The reply to a command that is not allowed in subscribe mode.
pub open spec fn subscribed_error(cmd: Seq<u8>) -> Seq<u8> {
    "-ERR Can't execute '".spec_bytes() + cmd
        + "': only (P|S)SUBSCRIBE / (P|S)UNSUBSCRIBE / PING / QUIT / RESET are allowed in this context\r\n".spec_bytes()
}

/// The reply to a command with too few arguments.
pub fn get_arity_error(cmd: &[u8]) -> (r: Vec<u8>)
    ensures
        r@ == arity_error(cmd@),
{
    let mut out = text("-ERR wrong number of arguments for '");
    push_bytes(&mut out, cmd);
    push_text(&mut out, "' command\r\n");
    out
}

/// The reply to a command that the server does not know.
pub fn get_unknown_error(cmd: &[u8]) -> (r: Vec<u8>)
    ensures
        r@ == unknown_error(cmd@),
{
    let mut out = text("-ERR unknown command '");
    push_bytes(&mut out, cmd);
    push_text(&mut out, "'\r\n");
    out
}

/// The reply to a command that is not allowed in subscribe mode.
pub fn get_subscribed_error(cmd: &[u8]) -> (r: Vec<u8>)
    ensures
        r@ == subscribed_error(cmd@),
{
    let mut out = text("-ERR Can't execute '");
    push_bytes(&mut out, cmd);
    push_text(
        &mut out,
        "': only (P|S)SUBSCRIBE / (P|S)UNSUBSCRIBE / PING / QUIT / RESET are allowed in this context\r\n",
    );
    out
}

} // verus!
