//! How a piece of work that alternates with outside calls stands.
use std::collections::VecDeque;
use vstd::prelude::*;

verus! {

/// Where a piece of work stands after a step. The work itself makes no outside call: it
/// asks for one, and goes on when it is handed the answer.
pub enum Progress<S, Q, R, E> {
    /// The request has to be carried out, and its answer handed to the state.
    Ask(S, Q),
    /// The work is done, with this result.
    Done(R),
    /// The work has failed, and ends here.
    Failed(E),
    /// The answer was to no request that is outstanding: nothing has changed.
    Unchanged(S),
}

/// Lines up the items of a list, the first in front.
pub(crate) fn into_queue<T>(items: Vec<T>) -> (queue: VecDeque<T>)
    ensures
        queue@ == items@,
{
    let mut queue: VecDeque<T> = VecDeque::new();
    for item in it: items
        invariant
            it.seq() == items@,
            queue@ == it.seq().take(it.index()),
    {
        queue.push_back(item);
        assert(it.seq().take(it.index()).push(item) =~= it.seq().take(it.index() + 1));
    }
    assert(items@.take(items@.len() as int) =~= items@);
    queue
}

} // verus!
