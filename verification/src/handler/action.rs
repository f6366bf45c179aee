//! What the executor asks of the code that owns the sockets and the files.

use vstd::prelude::*;

verus! {

/// One thing to do after a command was executed. The executor itself
/// touches no socket, file or clock; it says what is to be done.
#[derive(Debug, PartialEq, Eq)]
pub enum Action {
    /// Write the bytes to the connection that sent the command.
    Reply(Vec<u8>),
    /// Write the bytes to the connection `conn`.
    Send { conn: u64, bytes: Vec<u8> },
    /// Read the snapshot file and reply to the sender with what
    /// `keys_response` makes of the pattern and the file's bytes.
    LoadKeys { pattern: Vec<u8> },
    /// Write the bytes to the snapshot file.
    SaveSnapshot { bytes: Vec<u8> },
    /// Read the snapshot that new replicas are given and write to the
    /// sender what `snapshot_transfer` makes of its bytes.
    SendSnapshot,
    /// Wait for `ms` milliseconds, or until `wait_satisfied` holds, then
    /// reply to the sender with what `finish_wait` returns.
    AwaitAcks { ms: u64 },
    /// Wait for `ms` milliseconds, then reply to the sender with what
    /// `finish_block_read` returns for these streams and this start.
    BlockRead { ms: u64, started: u64, streams: Vec<(Vec<u8>, Vec<u8>)> },
    /// Call `poll_blpop` for this list every `every_ms` milliseconds until
    /// it returns a reply, and write the reply to the sender.
    PollList { key: Vec<u8>, until_ms: u64, every_ms: u64 },
    /// Close the connection.
    Close,
}

/// An action, as mathematical values.
pub enum ActionModel {
    Reply(Seq<u8>),
    Send { conn: u64, bytes: Seq<u8> },
    LoadKeys { pattern: Seq<u8> },
    SaveSnapshot { bytes: Seq<u8> },
    SendSnapshot,
    AwaitAcks { ms: u64 },
    BlockRead { ms: u64, started: u64, streams: Seq<(Seq<u8>, Seq<u8>)> },
    PollList { key: Seq<u8>, until_ms: u64, every_ms: u64 },
    Close,
}

impl View for Action {
    type V = ActionModel;

    open spec fn view(&self) -> ActionModel {
        match self {
            Action::Reply(bytes) => ActionModel::Reply(bytes@),
            Action::Send { conn, bytes } => ActionModel::Send { conn: *conn, bytes: bytes@ },
            Action::LoadKeys { pattern } => ActionModel::LoadKeys { pattern: pattern@ },
            Action::SaveSnapshot { bytes } => ActionModel::SaveSnapshot { bytes: bytes@ },
            Action::SendSnapshot => ActionModel::SendSnapshot,
            Action::AwaitAcks { ms } => ActionModel::AwaitAcks { ms: *ms },
            Action::BlockRead { ms, started, streams } => ActionModel::BlockRead {
                ms: *ms,
                started: *started,
                streams: Seq::new(streams@.len(), |i: int| (streams@[i].0@, streams@[i].1@)),
            },
            Action::PollList { key, until_ms, every_ms } => ActionModel::PollList {
                key: key@,
                until_ms: *until_ms,
                every_ms: *every_ms,
            },
            Action::Close => ActionModel::Close,
        }
    }
}

/// The actions that a vector holds.
pub open spec fn action_views(v: Seq<Action>) -> Seq<ActionModel> {
    Seq::new(v.len(), |i: int| v[i]@)
}

/// The one action of replying with `bytes`.
pub open spec fn reply(bytes: Seq<u8>) -> Seq<ActionModel> {
    seq![ActionModel::Reply(bytes)]
}

/// No action.
pub open spec fn nothing() -> Seq<ActionModel> {
    Seq::empty()
}

/// The actions of sending each message to its connection, in order.
pub open spec fn sends(messages: Seq<(u64, Seq<u8>)>) -> Seq<ActionModel> {
    Seq::new(
        messages.len(),
        |i: int| ActionModel::Send { conn: messages[i].0, bytes: messages[i].1 },
    )
}

/// The one action of replying with `bytes`.
pub fn reply_with(bytes: Vec<u8>) -> (r: Vec<Action>)
    ensures
        action_views(r@) == reply(bytes@),
{
    let mut out: Vec<Action> = Vec::new();
    out.push(Action::Reply(bytes));
    assert(action_views(out@) =~= reply(bytes@));
    out
}

/// No action.
pub fn no_action() -> (r: Vec<Action>)
    ensures
        action_views(r@) == nothing(),
{
    let out: Vec<Action> = Vec::new();
    assert(action_views(out@) =~= nothing());
    out
}

/// The actions of sending each message to its connection, followed by the
/// actions in `then`.
pub fn send_all(messages: Vec<(u64, Vec<u8>)>, then: Vec<Action>) -> (r: Vec<Action>)
    ensures
        action_views(r@) == sends(crate::utils::message_views(messages@)) + action_views(then@),
{
    let mut out: Vec<Action> = Vec::new();
    let ghost all = crate::utils::message_views(messages@);
    let ghost rest = action_views(then@);
    let mut messages = messages;
    let mut then = then;
    let n = messages.len();
    // take the messages from the back and turn the result round
    let mut reversed: Vec<Action> = Vec::new();
    while messages.len() > 0
        invariant
            messages@.len() + reversed@.len() == n,
            n == all.len(),
            forall|j: int|
                0 <= j < messages@.len() ==> (#[trigger] messages@[j]).0 == all[j].0
                    && messages@[j].1@ == all[j].1,
            forall|j: int|
                0 <= j < reversed@.len() ==> (#[trigger] reversed@[j])@ == (ActionModel::Send {
                    conn: all[n - 1 - j].0,
                    bytes: all[n - 1 - j].1,
                }),
        decreases messages@.len(),
    {
        match messages.pop() {
            Some((conn, bytes)) => {
                reversed.push(Action::Send { conn, bytes });
            },
            None => {},
        }
    }
    while reversed.len() > 0
        invariant
            reversed@.len() + out@.len() == n,
            n == all.len(),
            forall|j: int|
                0 <= j < reversed@.len() ==> (#[trigger] reversed@[j])@ == (ActionModel::Send {
                    conn: all[n - 1 - j].0,
                    bytes: all[n - 1 - j].1,
                }),
            forall|j: int|
                0 <= j < out@.len() ==> (#[trigger] out@[j])@ == (ActionModel::Send {
                    conn: all[j].0,
                    bytes: all[j].1,
                }),
        decreases reversed@.len(),
    {
        match reversed.pop() {
            Some(a) => {
                out.push(a);
            },
            None => {},
        }
    }
    assert(action_views(out@) =~= sends(all));
    out.append(&mut then);
    assert(action_views(out@) =~= sends(all) + rest);
    out
}

} // verus!
