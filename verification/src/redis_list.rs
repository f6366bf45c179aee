//! Lists: values in order, and the connections that wait for a value.

use vstd::prelude::*;
use crate::bytes::{clone_bytes, views};
use crate::utils::{format_resp_array, message_views, resp_array};

verus! {

/// A list of values under a name, with the queue of connections that wait
/// for a value to pop.
#[derive(Debug)]
pub struct RedisList {
    /// The list's name.
    pub name_key: Vec<u8>,
    /// The values, head first.
    pub values: Vec<Vec<u8>>,
    /// The connections that wait for a value, the one that waits longest
    /// first.
    pub blocking_pop_streams: Vec<u64>,
}

/// What a list holds, as mathematical values.
pub struct ListModel {
    pub name_key: Seq<u8>,
    pub values: Seq<Seq<u8>>,
    pub blocking_pop_streams: Seq<u64>,
}

impl View for RedisList {
    type V = ListModel;

    open spec fn view(&self) -> ListModel {
        ListModel {
            name_key: self.name_key@,
            values: views(self.values@),
            blocking_pop_streams: self.blocking_pop_streams@,
        }
    }
}

/// The smaller of two numbers.
pub open spec fn least(a: int, b: int) -> int {
    if a <= b {
        a
    } else {
        b
    }
}

/// What is sent to waiting connections when values are there: the first
/// waiter gets the first value, the second the second, and so on, each as an
/// array of the list's name and the value.
pub open spec fn handed_out(name: Seq<u8>, values: Seq<Seq<u8>>, waiters: Seq<u64>) -> Seq<
    (u64, Seq<u8>),
> {
    Seq::new(
        least(values.len() as int, waiters.len() as int) as nat,
        |i: int| (waiters[i], resp_array(seq![name, values[i]])),
    )
}

impl RedisList {
    /// An empty list with the given name, on which nobody waits.
    pub fn new(name_key: Vec<u8>) -> (r: Self)
        ensures
            r.name_key@ == name_key@,
            r.values@.len() == 0,
            r.blocking_pop_streams@.len() == 0,
    {
        RedisList { name_key, values: Vec::new(), blocking_pop_streams: Vec::new() }
    }

    /// Hands values to waiting connections for as long as both are there:
    /// each time the connection that waits longest gets the value at the
    /// head, and both leave. Returns what is to be sent to which connection.
    pub fn check_waiting_streams(&mut self) -> (r: Vec<(u64, Vec<u8>)>)
        ensures
            final(self).name_key@ == old(self).name_key@,
            message_views(r@) == handed_out(
                old(self).name_key@,
                views(old(self).values@),
                old(self).blocking_pop_streams@,
            ),
            views(final(self).values@) == views(old(self).values@).skip(r@.len() as int),
            final(self).blocking_pop_streams@ == old(self).blocking_pop_streams@.skip(
                r@.len() as int,
            ),
            final(self).values@.len() == 0 || final(self).blocking_pop_streams@.len() == 0,
    {
        let mut out: Vec<(u64, Vec<u8>)> = Vec::new();
        let ghost name = self.name_key@;
        let ghost values = views(self.values@);
        let ghost waiters = self.blocking_pop_streams@;
        assert(values.skip(0) =~= values);
        assert(waiters.skip(0) =~= waiters);
        while self.values.len() > 0 && self.blocking_pop_streams.len() > 0
            invariant
                self.name_key@ == name,
                out.len() <= values.len(),
                out.len() <= waiters.len(),
                views(self.values@) == values.skip(out.len() as int),
                self.blocking_pop_streams@ == waiters.skip(out.len() as int),
                forall|i: int|
                    0 <= i < out.len() ==> (#[trigger] out@[i]).0 == waiters[i] && out@[i].1@
                        == resp_array(seq![name, values[i]]),
            decreases self.values.len(),
        {
            let ghost k = out.len() as int;
            let ghost held = self.values@;
            let conn = self.blocking_pop_streams.remove(0);
            let value = self.values.remove(0);
            assert(value@ == views(held)[0]);
            assert(views(self.values@) =~= views(held).skip(1));
            assert(values.skip(k).skip(1) =~= values.skip(k + 1));
            assert(waiters.skip(k).skip(1) =~= waiters.skip(k + 1));
            let mut pair: Vec<Vec<u8>> = Vec::new();
            pair.push(clone_bytes(&self.name_key));
            pair.push(value);
            assert(views(pair@) =~= seq![name, values[k]]);
            out.push((conn, format_resp_array(&pair)));
        }
        assert(message_views(out@) =~= handed_out(name, values, waiters));
        out
    }
}

} // verus!
