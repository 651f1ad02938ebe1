//! The cancel guards that keep the block streams of subgraphs alive.
use crate::string_map::StringMap;
use vstd::prelude::*;

verus! {

/// The guard of the current block stream of each deployment. A guard `G` that is dropped
/// cancels its stream.
pub type InstanceKeepAliveMap<G> = StringMap<G>;

/// What can be done to the guards.
pub enum GuardOp<G> {
    /// Keep a guard for a deployment.
    Register(Seq<char>, G),
    /// Give up the guard of a deployment.
    Release(Seq<char>),
}

impl<G> GuardOp<G> {
    /// The deployment.
    pub open spec fn id(self) -> Seq<char> {
        match self {
            GuardOp::Register(id, _) => id,
            GuardOp::Release(id) => id,
        }
    }

    /// The guards that are kept afterwards.
    pub open spec fn kept(self, guards: Map<Seq<char>, G>) -> Map<Seq<char>, G> {
        match self {
            GuardOp::Register(id, guard) => guards.insert(id, guard),
            GuardOp::Release(id) => guards.remove(id),
        }
    }

    /// The guard that is given up, where there is one. It is always the one that was kept
    /// for the deployment.
    pub open spec fn given_up(self, guards: Map<Seq<char>, G>) -> Option<G> {
        if guards.contains_key(self.id()) {
            Some(guards[self.id()])
        } else {
            None
        }
    }
}

/// Keeps the guard of a block stream to be able to shut the stream down when the deployment
/// is unassigned. The guard that was kept for the deployment before, if any, is given back to
/// be dropped.
pub fn register_guard<G>(
    instances: &mut InstanceKeepAliveMap<G>,
    deployment_id: String,
    guard: G,
) -> (given_up: Option<G>)
    requires
        old(instances).wf(),
    ensures
        final(instances).wf(),
        final(instances)@ == GuardOp::Register(deployment_id@, guard).kept(old(instances)@),
        final(instances)@ == old(instances)@.insert(deployment_id@, guard),
        old(instances)@.contains_key(deployment_id@) ==> given_up == Some(
            old(instances)@[deployment_id@],
        ),
        !old(instances)@.contains_key(deployment_id@) ==> given_up is None,
        given_up == GuardOp::Register(deployment_id@, guard).given_up(old(instances)@),
{
    instances.insert(deployment_id, guard)
}

/// Gives up the guard of a deployment. It is given back to be dropped, which shuts the block
/// stream of the deployment down.
pub fn release_guard<G>(instances: &mut InstanceKeepAliveMap<G>, deployment_id: &String) -> (given_up:
    Option<G>)
    requires
        old(instances).wf(),
    ensures
        final(instances).wf(),
        final(instances)@ == GuardOp::<G>::Release(deployment_id@).kept(old(instances)@),
        final(instances)@ == old(instances)@.remove(deployment_id@),
        old(instances)@.contains_key(deployment_id@) ==> given_up == Some(
            old(instances)@[deployment_id@],
        ),
        !old(instances)@.contains_key(deployment_id@) ==> given_up is None,
        given_up == GuardOp::<G>::Release(deployment_id@).given_up(old(instances)@),
{
    instances.remove(deployment_id)
}

/// Shuts a subgraph down: the guard of its block stream is given back to be dropped.
pub fn stop_subgraph<G>(instances: &mut InstanceKeepAliveMap<G>, id: &String) -> (given_up: Option<
    G,
>)
    requires
        old(instances).wf(),
    ensures
        final(instances).wf(),
        final(instances)@ == GuardOp::<G>::Release(id@).kept(old(instances)@),
        final(instances)@ == old(instances)@.remove(id@),
        old(instances)@.contains_key(id@) ==> given_up == Some(old(instances)@[id@]),
        !old(instances)@.contains_key(id@) ==> given_up is None,
        given_up == GuardOp::<G>::Release(id@).given_up(old(instances)@),
        !final(instances)@.contains_key(id@),
{
    release_guard(instances, id)
}

/// The guards that are kept after these operations, from none.
pub open spec fn kept_after<G>(ops: Seq<GuardOp<G>>) -> Map<Seq<char>, G>
    decreases ops.len(),
{
    if ops.len() == 0 {
        Map::empty()
    } else {
        ops.last().kept(kept_after(ops.drop_last()))
    }
}

/// No operation from one position up to another is about a deployment.
pub open spec fn untouched<G>(ops: Seq<GuardOp<G>>, id: Seq<char>, from: int, to: int) -> bool {
    forall|k: int| from <= k < to ==> (#[trigger] ops[k]).id() != id
}

/// A guard that was registered is kept until the next operation on its deployment, whatever
/// happens to other deployments.
pub proof fn law_guard_is_kept<G>(ops: Seq<GuardOp<G>>, i: int, id: Seq<char>, guard: G)
    requires
        0 <= i < ops.len(),
        ops[i] == GuardOp::Register(id, guard),
        untouched(ops, id, i + 1, ops.len() as int),
    ensures
        kept_after(ops).contains_key(id),
        kept_after(ops)[id] == guard,
    decreases ops.len(),
{
    if i < ops.len() - 1 {
        let earlier = ops.drop_last();
        assert forall|k: int| i + 1 <= k < earlier.len() implies (#[trigger] earlier[k]).id()
            != id by {
            assert(ops[k].id() != id);
        }
        law_guard_is_kept(earlier, i, id, guard);
        assert(ops[ops.len() - 1].id() != id);
    }
}

/// The next operation on the deployment gives exactly that guard up: a stop or a restart
/// shuts down the stream that is running, and so does a second start of the deployment. No
/// guard is forgotten, and none is given up twice.
pub proof fn law_next_operation_gives_guard_up<G>(
    ops: Seq<GuardOp<G>>,
    i: int,
    j: int,
    id: Seq<char>,
    guard: G,
)
    requires
        0 <= i < j < ops.len(),
        ops[i] == GuardOp::Register(id, guard),
        untouched(ops, id, i + 1, j),
        ops[j].id() == id,
    ensures
        ops[j].given_up(kept_after(ops.take(j))) == Some(guard),
{
    let before = ops.take(j);
    assert forall|k: int| i + 1 <= k < before.len() implies (#[trigger] before[k]).id() != id by {
        assert(ops[k].id() != id);
    }
    law_guard_is_kept(before, i, id, guard);
}

/// After a deployment has been stopped no guard is kept for it until one is registered
/// again.
pub proof fn law_stopped_deployment_has_no_guard<G>(ops: Seq<GuardOp<G>>, i: int, id: Seq<char>)
    requires
        0 <= i < ops.len(),
        ops[i] == GuardOp::<G>::Release(id),
        forall|k: int|
            i < k < ops.len() ==> (#[trigger] ops[k]).id() != id || ops[k] is Release,
    ensures
        !kept_after(ops).contains_key(id),
    decreases ops.len(),
{
    if i < ops.len() - 1 {
        let earlier = ops.drop_last();
        assert forall|k: int| i < k < earlier.len() implies (#[trigger] earlier[k]).id() != id
            || earlier[k] is Release by {
            assert(ops[k].id() != id || ops[k] is Release);
        }
        law_stopped_deployment_has_no_guard(earlier, i, id);
        assert(ops[ops.len() - 1].id() != id || ops[ops.len() - 1] is Release);
    }
}

/// An operation on one deployment leaves the guards of all others alone, and gives up nothing
/// where no guard is kept.
pub proof fn law_other_guards_are_left_alone<G>(
    guards: Map<Seq<char>, G>,
    op: GuardOp<G>,
    other: Seq<char>,
)
    requires
        op.id() != other,
    ensures
        op.kept(guards).contains_key(other) <==> guards.contains_key(other),
        guards.contains_key(other) ==> op.kept(guards)[other] == guards[other],
        !guards.contains_key(op.id()) ==> op.given_up(guards) is None,
        op.kept(guards).contains_key(op.id()) <==> op is Register,
{
}

} // verus!
