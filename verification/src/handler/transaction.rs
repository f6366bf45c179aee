//! Transactions, and the handling of the frames that a connection sends.

use vstd::prelude::*;
use vstd::string::StringSliceAdditionalSpecFns;
use crate::bytes::{push_bytes, text};
use crate::byte_map::{assoc_get, assoc_remove};
use crate::constants::{QUEUED_RESP, RESP_NULL, RESP_OK};
use crate::handler::action::{action_views, no_action, nothing, reply, reply_with, Action,
    ActionModel};
use crate::handler::executor::{execute_command, executed, parse_verb, verb_of, Verb};
use crate::handler::server::Server;
use crate::redis_connection::{command_views, CommandModel, QueuedCommand, RedisConnection};
use crate::utils::{array_header, push_array_header};

verus! {

/// The bytes of the replies among `actions`, one after the other.
pub open spec fn reply_bytes(actions: Seq<ActionModel>) -> Seq<u8>
    decreases actions.len(),
{
    if actions.len() == 0 {
        Seq::<u8>::empty()
    } else {
        reply_bytes(actions.drop_last()) + match actions.last() {
            ActionModel::Reply(bytes) => bytes,
            _ => Seq::<u8>::empty(),
        }
    }
}

/// The actions among `actions` that are no replies, in order.
pub open spec fn other_actions(actions: Seq<ActionModel>) -> Seq<ActionModel>
    decreases actions.len(),
{
    if actions.len() == 0 {
        Seq::<ActionModel>::empty()
    } else {
        match actions.last() {
            ActionModel::Reply(_) => other_actions(actions.drop_last()),
            a => other_actions(actions.drop_last()).push(a),
        }
    }
}

/// Parts the replies from the other actions: the bytes of the replies are
/// appended to `replies`, the other actions to `effects`.
fn gather(actions: Vec<Action>, replies: &mut Vec<u8>, effects: &mut Vec<Action>)
    ensures
        final(replies)@ == old(replies)@ + reply_bytes(action_views(actions@)),
        action_views(final(effects)@) == action_views(old(effects)@) + other_actions(
            action_views(actions@),
        ),
{
    let ghost all = action_views(actions@);
    let ghost r0 = replies@;
    let ghost e0 = action_views(effects@);
    // the actions are taken from the front, which needs them turned round
    let mut rest = actions;
    let mut turned: Vec<Action> = Vec::new();
    let n = rest.len();
    while rest.len() > 0
        invariant
            rest@.len() + turned@.len() == n,
            n == all.len(),
            forall|j: int| 0 <= j < rest@.len() ==> (#[trigger] rest@[j])@ == all[j],
            forall|j: int| 0 <= j < turned@.len() ==> (#[trigger] turned@[j])@ == all[n - 1 - j],
        decreases rest@.len(),
    {
        match rest.pop() {
            Some(a) => {
                turned.push(a);
            },
            None => {},
        }
    }
    let mut done: usize = 0;
    assert(all.subrange(0, 0) =~= Seq::<ActionModel>::empty());
    assert(replies@ =~= r0 + reply_bytes(all.subrange(0, 0)));
    assert(action_views(effects@) =~= e0 + other_actions(all.subrange(0, 0)));
    while turned.len() > 0
        invariant
            turned@.len() + done == n,
            n == all.len(),
            forall|j: int| 0 <= j < turned@.len() ==> (#[trigger] turned@[j])@ == all[n - 1 - j],
            replies@ == r0 + reply_bytes(all.subrange(0, done as int)),
            action_views(effects@) == e0 + other_actions(all.subrange(0, done as int)),
        decreases turned@.len(),
    {
        let ghost grown = all.subrange(0, done + 1);
        let ghost held = action_views(effects@);
        proof {
            assert(grown.drop_last() =~= all.subrange(0, done as int));
            assert(grown.last() == all[done as int]);
        }
        match turned.pop() {
            Some(Action::Reply(bytes)) => {
                push_bytes(replies, bytes.as_slice());
                assert(replies@ =~= r0 + reply_bytes(grown));
            },
            Some(a) => {
                assert(replies@ =~= r0 + reply_bytes(grown));
                effects.push(a);
                assert(action_views(effects@) =~= held.push(a@));
                assert(action_views(effects@) =~= e0 + other_actions(grown));
            },
            None => {},
        }
        done += 1;
    }
    assert(all.subrange(0, done as int) =~= all);
}

/// The shared state together with the state of the connection.
pub type State = (Server, RedisConnection);

/// What one command of a transaction does: a command with an empty frame
/// is passed over, every other is executed.
pub open spec fn stepped(
    s0: State,
    command: CommandModel,
    now_ms: u64,
    s1: State,
    acts: Seq<ActionModel>,
) -> bool {
    if command.0.len() == 0 {
        s1 == s0 && acts == nothing()
    } else {
        executed(s0.0, s0.1, command.0, command.1, now_ms, s1.0, s1.1, acts)
    }
}

/// Whether `states` are the states that the commands of `queue` pass
/// through, one after the other, with `steps` as the actions of each: every
/// command starts in the state that the one before it left, and nothing
/// happens in between.
pub open spec fn in_sequence(
    states: Seq<State>,
    steps: Seq<Seq<ActionModel>>,
    queue: Seq<CommandModel>,
    now_ms: u64,
) -> bool {
    &&& states.len() == queue.len() + 1
    &&& steps.len() == queue.len()
    &&& forall|i: int|
        0 <= i < queue.len() ==> stepped(
            states[i],
            #[trigger] queue[i],
            now_ms,
            states[i + 1],
            steps[i],
        )
}

/// The bytes of all replies among the actions of every step, in order.
pub open spec fn all_reply_bytes(steps: Seq<Seq<ActionModel>>) -> Seq<u8>
    decreases steps.len(),
{
    if steps.len() == 0 {
        Seq::<u8>::empty()
    } else {
        all_reply_bytes(steps.drop_last()) + reply_bytes(steps.last())
    }
}

/// The actions of every step that are no replies, in order.
pub open spec fn all_other_actions(steps: Seq<Seq<ActionModel>>) -> Seq<ActionModel>
    decreases steps.len(),
{
    if steps.len() == 0 {
        Seq::<ActionModel>::empty()
    } else {
        all_other_actions(steps.drop_last()) + other_actions(steps.last())
    }
}

/// How many commands of `queue` have a frame that is not empty.
pub open spec fn executable(queue: Seq<CommandModel>) -> nat
    decreases queue.len(),
{
    if queue.len() == 0 {
        0
    } else {
        executable(queue.drop_last()) + if queue.last().0.len() == 0 {
            0nat
        } else {
            1nat
        }
    }
}

/// What running the commands of a transaction does: the commands are
/// executed in the order in which they were queued, each on the state that
/// the one before it left, from `start` to `end`. The actions are what else
/// is to be done for the commands, in order, followed by one reply: an array
/// with the replies of the commands.
pub open spec fn ran(
    start: State,
    queue: Seq<CommandModel>,
    now_ms: u64,
    end: State,
    actions: Seq<ActionModel>,
) -> bool {
    exists|states: Seq<State>, steps: Seq<Seq<ActionModel>>| #[trigger]
        in_sequence(states, steps, queue, now_ms) && states[0] == start && states.last() == end
            && actions == all_other_actions(steps) + reply(
            array_header(executable(queue)) + all_reply_bytes(steps),
        )
}

/// The connection as `EXEC` finds it once it has closed the transaction:
/// the mode is off and the queue is empty.
pub open spec fn closed(conn: RedisConnection, after: RedisConnection) -> bool {
    after == (RedisConnection { multi_waiting: false, queued: after.queued, ..conn })
        && after.queued@.len() == 0
}

/// What a frame does before it is decided whether its replies are sent.
/// An empty frame does nothing. While a transaction is open, `EXEC` closes it
/// and runs its commands, then replies with an array of their replies;
/// `DISCARD` closes it and drops its commands; every other command is
/// queued. Outside a transaction the command is executed.
#[verifier::opaque]
pub open spec fn responded(
    before: Server,
    conn: RedisConnection,
    command: CommandModel,
    now_ms: u64,
    after: Server,
    conn_after: RedisConnection,
    actions: Seq<ActionModel>,
) -> bool {
    let frame = command.0;
    if frame.len() == 0 {
        after == before && conn_after == conn && actions == nothing()
    } else if !conn.multi_waiting {
        executed(before, conn, frame, command.1, now_ms, after, conn_after, actions)
    } else if verb_of(frame[0]) == Verb::Exec {
        exists|start: RedisConnection| #[trigger]
            closed(conn, start) && ran(
                (before, start),
                command_views(conn.queued@),
                now_ms,
                (after, conn_after),
                actions,
            )
    } else if verb_of(frame[0]) == Verb::Discard {
        after == before && closed(conn, conn_after) && actions == reply(RESP_OK.spec_bytes())
    } else {
        &&& after == before
        &&& conn_after == (RedisConnection { queued: conn_after.queued, ..conn })
        &&& command_views(conn_after.queued@) == command_views(conn.queued@).push(command)
        &&& actions == reply(QUEUED_RESP.spec_bytes())
    }
}

/// Runs the commands of a transaction, in order.
fn run_queue(
    server: &mut Server,
    conn: &mut RedisConnection,
    queue: &Vec<QueuedCommand>,
    now_ms: u64,
) -> (r: Vec<Action>)
    ensures
        ran(
            (*old(server), *old(conn)),
            command_views(queue@),
            now_ms,
            (*final(server), *final(conn)),
            action_views(r@),
        ),
{
    let mut replies: Vec<u8> = Vec::new();
    let mut effects: Vec<Action> = Vec::new();
    let mut count: usize = 0;
    let ghost all = command_views(queue@);
    let ghost mut states: Seq<State> = seq![(*server, *conn)];
    let ghost mut steps: Seq<Seq<ActionModel>> = Seq::empty();
    let mut i: usize = 0;
    assert(all.subrange(0, 0) =~= Seq::<CommandModel>::empty());
    assert(action_views(effects@) =~= Seq::<ActionModel>::empty());
    while i < queue.len()
        invariant
            i <= queue.len(),
            count <= i,
            all == command_views(queue@),
            in_sequence(states, steps, all.subrange(0, i as int), now_ms),
            states[0] == (*old(server), *old(conn)),
            states.last() == (*server, *conn),
            replies@ == all_reply_bytes(steps),
            action_views(effects@) == all_other_actions(steps),
            count == executable(all.subrange(0, i as int)),
        decreases queue.len() - i,
    {
        let ghost s0: State = (*server, *conn);
        let ghost grown = all.subrange(0, i + 1);
        let ghost held_states = states;
        let ghost held_steps = steps;
        proof {
            assert(grown.drop_last() =~= all.subrange(0, i as int));
            assert(grown.last() == queue@[i as int]@);
        }
        let command = &queue[i];
        let ghost acts: Seq<ActionModel>;
        if command.frame.len() == 0 {
            proof {
                acts = nothing();
                assert(reply_bytes(acts) =~= Seq::<u8>::empty());
                assert(other_actions(acts) =~= Seq::<ActionModel>::empty());
            }
        } else {
            let actions = execute_command(server, conn, &command.frame, command.score, now_ms);
            proof {
                acts = action_views(actions@);
            }
            gather(actions, &mut replies, &mut effects);
            count += 1;
        }
        proof {
            states = held_states.push((*server, *conn));
            steps = held_steps.push(acts);
            assert(steps.drop_last() =~= held_steps);
            assert(replies@ =~= all_reply_bytes(steps));
            assert(action_views(effects@) =~= all_other_actions(steps));
            assert forall|j: int| 0 <= j < grown.len() implies stepped(
                states[j],
                #[trigger] grown[j],
                now_ms,
                states[j + 1],
                steps[j],
            ) by {
                if j < i {
                    assert(all.subrange(0, i as int)[j] == grown[j]);
                    assert(stepped(
                        held_states[j],
                        all.subrange(0, i as int)[j],
                        now_ms,
                        held_states[j + 1],
                        held_steps[j],
                    ));
                }
            }
        }
        i += 1;
    }
    assert(all.subrange(0, i as int) =~= all);
    let mut answer: Vec<u8> = Vec::new();
    push_array_header(&mut answer, count);
    push_bytes(&mut answer, replies.as_slice());
    let mut out = effects;
    let ghost first = action_views(out@);
    out.push(Action::Reply(answer));
    proof {
        assert(action_views(out@) =~= first + reply(
            array_header(executable(all)) + all_reply_bytes(steps),
        ));
        assert(in_sequence(states, steps, all, now_ms));
    }
    out
}

/// Whether the replies to a frame are withheld: a replica applies what its
/// primary sends without answering, except that it answers `REPLCONF`.
pub open spec fn withheld(conn: RedisConnection, frame: Seq<Seq<u8>>) -> bool {
    conn.is_master && frame.len() > 0 && verb_of(frame[0]) != Verb::Replconf
}

/// What handling one frame does: the frame does what `responded` says, and
/// of the actions that this yields the replies are left out where they are
/// withheld.
#[verifier::opaque]
pub open spec fn handled(
    before: Server,
    conn: RedisConnection,
    command: CommandModel,
    now_ms: u64,
    after: Server,
    conn_after: RedisConnection,
    actions: Seq<ActionModel>,
) -> bool {
    exists|raw: Seq<ActionModel>| #[trigger]
        responded(before, conn, command, now_ms, after, conn_after, raw) && actions == if withheld(
            conn,
            command.0,
        ) {
            other_actions(raw)
        } else {
            raw
        }
}

/// Handles a frame up to the actions that it yields.
fn respond(
    server: &mut Server,
    conn: &mut RedisConnection,
    command: QueuedCommand,
    now_ms: u64,
) -> (r: Vec<Action>)
    ensures
        responded(
            *old(server),
            *old(conn),
            command@,
            now_ms,
            *final(server),
            *final(conn),
            action_views(r@),
        ),
{
    proof {
        reveal(responded);
    }
    if command.frame.len() == 0 {
        return no_action();
    }
    if !conn.multi_waiting {
        return execute_command(server, conn, &command.frame, command.score, now_ms);
    }
    let verb = parse_verb(command.frame[0].as_slice());
    match verb {
        Verb::Exec => {
            let mut queue: Vec<QueuedCommand> = Vec::new();
            core::mem::swap(&mut conn.queued, &mut queue);
            conn.multi_waiting = false;
            let ghost start = *conn;
            assert(closed(*old(conn), start));
            run_queue(server, conn, &queue, now_ms)
        },
        Verb::Discard => {
            conn.multi_waiting = false;
            conn.queued = Vec::new();
            reply_with(text(RESP_OK))
        },
        _ => {
            let ghost added = command@;
            let ghost held = command_views(conn.queued@);
            conn.queued.push(command);
            assert(command_views(conn.queued@) =~= held.push(added));
            reply_with(text(QUEUED_RESP))
        },
    }
}

/// Handles one frame that a connection sent. `command` holds the frame
/// and, for a `ZADD`, the integer that stands for its score; `now_ms` is the
/// time in milliseconds since the epoch. Returns what is to be done, in
/// order.
pub fn handle_frame(
    server: &mut Server,
    conn: &mut RedisConnection,
    command: QueuedCommand,
    now_ms: u64,
) -> (r: Vec<Action>)
    ensures
        handled(
            *old(server),
            *old(conn),
            command@,
            now_ms,
            *final(server),
            *final(conn),
            action_views(r@),
        ),
{
    proof {
        reveal(handled);
    }
    let quiet = conn.is_master && command.frame.len() > 0 && !is_replconf(
        command.frame[0].as_slice(),
    );
    let raw = respond(server, conn, command, now_ms);
    if quiet {
        let mut replies: Vec<u8> = Vec::new();
        let mut effects: Vec<Action> = Vec::new();
        assert(action_views(effects@) =~= Seq::<ActionModel>::empty());
        let ghost shown = action_views(raw@);
        gather(raw, &mut replies, &mut effects);
        assert(action_views(effects@) =~= other_actions(shown));
        effects
    } else {
        raw
    }
}

/// Whether a name stands for `REPLCONF`.
fn is_replconf(name: &[u8]) -> (r: bool)
    ensures
        r == (verb_of(name@) == Verb::Replconf),
{
    match parse_verb(name) {
        Verb::Replconf => true,
        _ => false,
    }
}

/// The actions of every step, in order.
pub open spec fn all_actions(steps: Seq<Seq<ActionModel>>) -> Seq<ActionModel>
    decreases steps.len(),
{
    if steps.len() == 0 {
        Seq::<ActionModel>::empty()
    } else {
        all_actions(steps.drop_last()) + steps.last()
    }
}

/// What handling the frames of one read does: the frames are handled in
/// the order in which they arrived, each on the state that the one before it
/// left, from `start` to `end`, and the actions follow each other in that
/// order.
pub open spec fn handled_all(
    start: State,
    commands: Seq<CommandModel>,
    now_ms: u64,
    end: State,
    actions: Seq<ActionModel>,
) -> bool {
    exists|states: Seq<State>, steps: Seq<Seq<ActionModel>>| #[trigger]
        handled_in_sequence(states, steps, commands, now_ms) && states[0] == start
            && states.last() == end && actions == all_actions(steps)
}

/// Whether `states` are the states that the frames of `commands` pass
/// through, with `steps` as the actions of each.
pub open spec fn handled_in_sequence(
    states: Seq<State>,
    steps: Seq<Seq<ActionModel>>,
    commands: Seq<CommandModel>,
    now_ms: u64,
) -> bool {
    &&& states.len() == commands.len() + 1
    &&& steps.len() == commands.len()
    &&& forall|i: int|
        0 <= i < commands.len() ==> handled(
            states[i].0,
            states[i].1,
            #[trigger] commands[i],
            now_ms,
            states[i + 1].0,
            states[i + 1].1,
            steps[i],
        )
}

/// Handles the frames that one read from a connection brought, in the
/// order in which they arrived. Returns what is to be done, in order.
pub fn handle_connection(
    server: &mut Server,
    conn: &mut RedisConnection,
    commands: Vec<QueuedCommand>,
    now_ms: u64,
) -> (r: Vec<Action>)
    ensures
        handled_all(
            (*old(server), *old(conn)),
            command_views(commands@),
            now_ms,
            (*final(server), *final(conn)),
            action_views(r@),
        ),
{
    let ghost all = command_views(commands@);
    // the commands are taken from the front, which needs them turned round
    let mut rest = commands;
    let mut turned: Vec<QueuedCommand> = Vec::new();
    let n = rest.len();
    while rest.len() > 0
        invariant
            rest@.len() + turned@.len() == n,
            n == all.len(),
            forall|j: int| 0 <= j < rest@.len() ==> (#[trigger] rest@[j])@ == all[j],
            forall|j: int| 0 <= j < turned@.len() ==> (#[trigger] turned@[j])@ == all[n - 1 - j],
        decreases rest@.len(),
    {
        match rest.pop() {
            Some(c) => {
                turned.push(c);
            },
            None => {},
        }
    }
    let mut out: Vec<Action> = Vec::new();
    let mut done: usize = 0;
    let ghost mut states: Seq<State> = seq![(*server, *conn)];
    let ghost mut steps: Seq<Seq<ActionModel>> = Seq::empty();
    assert(action_views(out@) =~= all_actions(steps));
    while turned.len() > 0
        invariant
            turned@.len() + done == n,
            n == all.len(),
            forall|j: int| 0 <= j < turned@.len() ==> (#[trigger] turned@[j])@ == all[n - 1 - j],
            handled_in_sequence(states, steps, all.subrange(0, done as int), now_ms),
            states[0] == (*old(server), *old(conn)),
            states.last() == (*server, *conn),
            action_views(out@) == all_actions(steps),
        decreases turned@.len(),
    {
        let ghost a0 = action_views(out@);
        let ghost grown = all.subrange(0, done + 1);
        let ghost held_states = states;
        let ghost held_steps = steps;
        match turned.pop() {
            Some(command) => {
                let mut actions = handle_frame(server, conn, command, now_ms);
                let ghost a1 = action_views(actions@);
                out.append(&mut actions);
                proof {
                    assert(action_views(out@) =~= a0 + a1);
                    states = held_states.push((*server, *conn));
                    steps = held_steps.push(a1);
                    assert(steps.drop_last() =~= held_steps);
                    assert forall|j: int| 0 <= j < grown.len() implies handled(
                        states[j].0,
                        states[j].1,
                        #[trigger] grown[j],
                        now_ms,
                        states[j + 1].0,
                        states[j + 1].1,
                        steps[j],
                    ) by {
                        if j < done {
                            assert(all.subrange(0, done as int)[j] == grown[j]);
                            assert(handled(
                                held_states[j].0,
                                held_states[j].1,
                                all.subrange(0, done as int)[j],
                                now_ms,
                                held_states[j + 1].0,
                                held_states[j + 1].1,
                                held_steps[j],
                            ));
                        }
                    }
                }
            },
            None => {},
        }
        done += 1;
    }
    assert(all.subrange(0, done as int) =~= all);
    out
}

/// `EXEC` on a connection with an open transaction runs the queued
/// commands, and nothing else, in the order in which they were queued, each
/// on the state that the one before it left; what it yields is what else is
/// to be done for them and one reply, the array of their replies. On the
/// link to the primary that reply is withheld.
pub proof fn lemma_exec_runs_the_queue(
    before: Server,
    conn: RedisConnection,
    command: CommandModel,
    now_ms: u64,
    after: Server,
    conn_after: RedisConnection,
    actions: Seq<ActionModel>,
)
    requires
        handled(before, conn, command, now_ms, after, conn_after, actions),
        conn.multi_waiting,
        command.0.len() > 0,
        verb_of(command.0[0]) == Verb::Exec,
    ensures
        exists|start: RedisConnection, raw: Seq<ActionModel>|
            closed(conn, start) && #[trigger] ran(
                (before, start),
                command_views(conn.queued@),
                now_ms,
                (after, conn_after),
                raw,
            ) && actions == if conn.is_master {
                other_actions(raw)
            } else {
                raw
            },
{
    reveal(handled);
    reveal(responded);
    let raw = choose|raw: Seq<ActionModel>| #[trigger]
        responded(before, conn, command, now_ms, after, conn_after, raw) && actions == if withheld(
            conn,
            command.0,
        ) {
            other_actions(raw)
        } else {
            raw
        };
    let start = choose|start: RedisConnection| #[trigger]
        closed(conn, start) && ran(
            (before, start),
            command_views(conn.queued@),
            now_ms,
            (after, conn_after),
            raw,
        );
    assert(closed(conn, start) && ran(
        (before, start),
        command_views(conn.queued@),
        now_ms,
        (after, conn_after),
        raw,
    ));
}

/// A read of a key whose deadline has passed replies with the null bulk
/// string and removes that key, and nothing else, from the string store. On
/// the link to the primary the reply is withheld.
pub proof fn lemma_read_of_expired_key(
    before: Server,
    conn: RedisConnection,
    command: CommandModel,
    now_ms: u64,
    after: Server,
    conn_after: RedisConnection,
    actions: Seq<ActionModel>,
)
    requires
        handled(before, conn, command, now_ms, after, conn_after, actions),
        !conn.multi_waiting,
        !conn.in_sub_mode,
        command.0.len() == 2,
        verb_of(command.0[0]) == Verb::GetString,
        assoc_get(before.new_db@, command.0[1]) is Some,
        !assoc_get(before.new_db@, command.0[1])->0.live_at(now_ms as nat),
    ensures
        actions == if conn.is_master {
            nothing()
        } else {
            reply(RESP_NULL.spec_bytes())
        },
        after.new_db@ == assoc_remove(before.new_db@, command.0[1]),
        after == (Server { new_db: after.new_db, ..before }),
        conn_after == conn,
{
    reveal(handled);
    reveal(responded);
    reveal(executed);
    reveal_with_fuel(other_actions, 2);
    let shown = reply(RESP_NULL.spec_bytes());
    assert(shown.drop_last() =~= Seq::<ActionModel>::empty());
    assert(other_actions(shown) =~= nothing());
}

} // verus!
