//! How the proof of indexing is updated with each block.
use crate::block::{BlockAction, BlockEvent, BlockModel, BlockPhaseModel, Indexing};
use crate::block_laws::{answered, law_inputs_are_kept, run_block, BlockInput};
use crate::history::{gather, lemma_gather_add, lemma_gather_few};
use crate::proof_of_indexing::{
    AttributeValue, EntityKey, NewProof, ProofEvent, ProofRequest, ProofStage, StoredProof,
};
use vstd::prelude::*;

verus! {

impl<K: Indexing> BlockAction<K> {
    /// The deployment that support of proofs is asked for.
    pub open spec fn support_asked(self) -> Seq<String> {
        match self {
            BlockAction::UpdateProof(ProofRequest::CheckSupport { deployment_id }) => seq![
                deployment_id,
            ],
            _ => Seq::empty(),
        }
    }

    /// Where a proof is read.
    pub open spec fn proof_read(self) -> Seq<EntityKey> {
        match self {
            BlockAction::UpdateProof(ProofRequest::Read { key, state }) => seq![key],
            _ => Seq::empty(),
        }
    }

    /// The stream that is finished, and the digest that it is finished on top of.
    pub open spec fn proof_finished(self) -> Seq<(K::Stream, Option<String>)> {
        match self {
            BlockAction::UpdateProof(ProofRequest::Finish { stream, previous }) => seq![
                (stream, previous),
            ],
            _ => Seq::empty(),
        }
    }

    /// The proof that is written, and where.
    pub open spec fn proof_written(self) -> Seq<(EntityKey, NewProof)> {
        match self {
            BlockAction::UpdateProof(ProofRequest::Write { key, entity, state }) => seq![
                (key, entity),
            ],
            _ => Seq::empty(),
        }
    }
}

impl<K: Indexing> BlockEvent<K> {
    /// The regions that the block has left behind.
    pub open spec fn left_behind(self) -> Seq<(String, K::Stream)> {
        match self {
            BlockEvent::ProofTaken { state, taken: Some(regions) } => regions@,
            _ => Seq::empty(),
        }
    }

    /// One item if the block has left anything behind, be it no region at all.
    pub open spec fn left_something(self) -> Seq<()> {
        match self {
            BlockEvent::ProofTaken { state, taken: Some(_) } => seq![()],
            _ => Seq::empty(),
        }
    }

    /// Whether the deployment keeps proofs.
    pub open spec fn support(self) -> Seq<bool> {
        match self {
            BlockEvent::UpdateProof(ProofEvent::Supported(Ok(supported))) => seq![supported],
            _ => Seq::empty(),
        }
    }

    /// The proof that was stored.
    pub open spec fn stored_proof(self) -> Seq<Option<StoredProof>> {
        match self {
            BlockEvent::UpdateProof(ProofEvent::Read(Ok((_, stored)))) => seq![stored],
            _ => Seq::empty(),
        }
    }

    /// The digest of a stream that was finished.
    pub open spec fn new_digest(self) -> Seq<String> {
        match self {
            BlockEvent::UpdateProof(ProofEvent::Finished(digest)) => seq![digest],
            _ => Seq::empty(),
        }
    }
}

/// The deployments that support of proofs is asked for.
pub open spec fn support_asked<K: Indexing>(actions: Seq<BlockAction<K>>) -> Seq<String> {
    gather(actions, |action: BlockAction<K>| action.support_asked())
}

/// Where proofs are read, in order.
pub open spec fn proofs_read<K: Indexing>(actions: Seq<BlockAction<K>>) -> Seq<EntityKey> {
    gather(actions, |action: BlockAction<K>| action.proof_read())
}

/// The streams that are finished, each with the digest that it is finished on top of.
pub open spec fn proofs_finished<K: Indexing>(actions: Seq<BlockAction<K>>) -> Seq<
    (K::Stream, Option<String>),
> {
    gather(actions, |action: BlockAction<K>| action.proof_finished())
}

/// The proofs that are written, and where, in order.
pub open spec fn proofs_written<K: Indexing>(actions: Seq<BlockAction<K>>) -> Seq<
    (EntityKey, NewProof),
> {
    gather(actions, |action: BlockAction<K>| action.proof_written())
}

/// The regions that the block has left behind, each with its stream.
pub open spec fn left_behind<K: Indexing>(events: Seq<BlockEvent<K>>) -> Seq<(String, K::Stream)> {
    gather(events, |event: BlockEvent<K>| event.left_behind())
}

/// Whether the block has left anything behind.
pub open spec fn left_something<K: Indexing>(events: Seq<BlockEvent<K>>) -> Seq<()> {
    gather(events, |event: BlockEvent<K>| event.left_something())
}

/// What was answered on the support of proofs.
pub open spec fn support<K: Indexing>(events: Seq<BlockEvent<K>>) -> Seq<bool> {
    gather(events, |event: BlockEvent<K>| event.support())
}

/// The proofs that were stored, in the order in which they were read.
pub open spec fn stored_proofs<K: Indexing>(events: Seq<BlockEvent<K>>) -> Seq<
    Option<StoredProof>,
> {
    gather(events, |event: BlockEvent<K>| event.stored_proof())
}

/// The digests of the streams that were finished, in order.
pub open spec fn new_digests<K: Indexing>(events: Seq<BlockEvent<K>>) -> Seq<String> {
    gather(events, |event: BlockEvent<K>| event.new_digest())
}

/// The digest that a stored proof holds, where there is one.
pub open spec fn digest_in(stored: Option<StoredProof>) -> Option<String> {
    match stored {
        Some(StoredProof { digest: Some(AttributeValue::String(digest)) }) => Some(digest),
        _ => None,
    }
}

/// The four kinds of requests so far, against the regions and the answers so far.
spec fn proofs_fit<K: Indexing>(
    id: String,
    poi_object: String,
    actions: Seq<BlockAction<K>>,
    events: Seq<BlockEvent<K>>,
) -> bool {
    let regions = left_behind(events);
    let reads = proofs_read(actions);
    let finished = proofs_finished(actions);
    let written = proofs_written(actions);
    let stored = stored_proofs(events);
    let digests = new_digests(events);
    &&& reads.len() <= regions.len()
    &&& finished.len() <= reads.len() && finished.len() == stored.len()
    &&& written.len() <= finished.len() && written.len() == digests.len()
    &&& forall|i: int|
        0 <= i < reads.len() ==> #[trigger] reads[i] == (EntityKey {
            subgraph_id: id,
            entity_type: poi_object,
            entity_id: regions[i].0,
        })
    &&& forall|i: int|
        0 <= i < finished.len() ==> #[trigger] finished[i] == (regions[i].1, digest_in(stored[i]))
    &&& forall|i: int|
        0 <= i < written.len() ==> #[trigger] written[i] == (reads[i], NewProof {
            id: regions[i].0,
            digest: digests[i],
        })
}

spec fn proof_phase_fits<K: Indexing>(
    id: String,
    poi_object: String,
    state: BlockModel<K>,
    actions: Seq<BlockAction<K>>,
    events: Seq<BlockEvent<K>>,
) -> bool {
    let regions = left_behind(events);
    let reads = proofs_read(actions);
    let finished = proofs_finished(actions);
    let written = proofs_written(actions);
    let asked = support_asked(actions);
    let answer = support(events);
    match state.phase {
        BlockPhaseModel::UpdatingProof(update) => {
            &&& left_something(events).len() == 1
            &&& asked == seq![id]
            &&& update.deployment_id == id
            &&& update.poi_object == poi_object
            &&& match update.stage {
                ProofStage::Support { state } => {
                    &&& answer == Seq::<bool>::empty()
                    &&& reads.len() == 0
                    &&& update.waiting == regions
                },
                ProofStage::Read { region, stream } => {
                    &&& answer == seq![true]
                    &&& reads.len() == finished.len() + 1
                    &&& finished.len() == written.len()
                    &&& (region, stream) == regions[written.len() as int]
                    &&& update.waiting == regions.skip(reads.len() as int)
                },
                ProofStage::Finish { region, state } => {
                    &&& answer == seq![true]
                    &&& reads.len() == finished.len()
                    &&& finished.len() == written.len() + 1
                    &&& region == regions[written.len() as int].0
                    &&& update.waiting == regions.skip(reads.len() as int)
                },
                ProofStage::Write => {
                    &&& answer == seq![true]
                    &&& reads.len() == finished.len()
                    &&& finished.len() == written.len()
                    &&& update.waiting == regions.skip(reads.len() as int)
                },
            }
        },
        BlockPhaseModel::ComputingModifications
        | BlockPhaseModel::EvictingCache(_)
        | BlockPhaseModel::Transacting
        | BlockPhaseModel::Finished(Ok(_)) => {
            if left_something(events).len() == 0 {
                asked.len() == 0 && answer.len() == 0 && reads.len() == 0
            } else {
                &&& left_something(events).len() == 1
                &&& asked == seq![id]
                &&& answer.len() == 1
                &&& reads.len() == if answer[0] {
                    regions.len()
                } else {
                    0
                }
                &&& written.len() == reads.len()
            }
        },
        BlockPhaseModel::Finished(Err(_)) => true,
        _ => {
            &&& left_something(events).len() == 0
            &&& regions.len() == 0
            &&& asked.len() == 0
            &&& answer.len() == 0
            &&& reads.len() == 0
        },
    }
}

/// What one step means for the requests and the answers.
spec fn proof_step<K: Indexing>(
    state: BlockModel<K>,
    event: BlockEvent<K>,
    next: BlockModel<K>,
    more: Seq<BlockAction<K>>,
) -> bool {
    match state.phase {
        BlockPhaseModel::TakingProof => {
            &&& event.support().len() == 0
            &&& event.stored_proof().len() == 0
            &&& event.new_digest().len() == 0
            &&& proofs_read(more).len() == 0
            &&& proofs_finished(more).len() == 0
            &&& proofs_written(more).len() == 0
            &&& if event.left_something().len() == 0 {
                &&& event.left_behind().len() == 0
                &&& support_asked(more).len() == 0
                &&& next.phase is ComputingModifications
            } else {
                &&& event.left_something().len() == 1
                &&& support_asked(more) == seq![state.frame.ctx.inputs.deployment_id]
                &&& next.phase matches BlockPhaseModel::UpdatingProof(update)
                &&& update.deployment_id == state.frame.ctx.inputs.deployment_id
                &&& update.poi_object == state.frame.poi_object
                &&& update.stage is Support
                &&& update.waiting == event.left_behind()
            }
        },
        BlockPhaseModel::UpdatingProof(update) => {
            let key = EntityKey {
                subgraph_id: update.deployment_id,
                entity_type: update.poi_object,
                entity_id: update.waiting[0].0,
            };
            let goes_on = if update.waiting.len() == 0 {
                &&& proofs_read(more).len() == 0
                &&& next.phase is ComputingModifications
            } else {
                &&& proofs_read(more) == seq![key]
                &&& next.phase matches BlockPhaseModel::UpdatingProof(after)
                &&& after.deployment_id == update.deployment_id
                &&& after.poi_object == update.poi_object
                &&& after.stage matches ProofStage::Read { region, stream }
                &&& (region, stream) == update.waiting[0]
                &&& after.waiting == update.waiting.skip(1)
            };
            &&& event.left_something().len() == 0
            &&& event.left_behind().len() == 0
            &&& support_asked(more).len() == 0
            &&& match update.stage {
                ProofStage::Support { state } => {
                    &&& event.stored_proof().len() == 0
                    &&& event.new_digest().len() == 0
                    &&& proofs_finished(more).len() == 0
                    &&& proofs_written(more).len() == 0
                    &&& event.support().len() == 1
                    &&& if event.support()[0] {
                        goes_on
                    } else {
                        proofs_read(more).len() == 0 && next.phase is ComputingModifications
                    }
                },
                ProofStage::Read { region, stream } => {
                    &&& event.support().len() == 0
                    &&& event.stored_proof().len() == 1
                    &&& event.new_digest().len() == 0
                    &&& proofs_read(more).len() == 0
                    &&& proofs_finished(more) == seq![(stream, digest_in(event.stored_proof()[0]))]
                    &&& proofs_written(more).len() == 0
                    &&& next.phase matches BlockPhaseModel::UpdatingProof(after)
                    &&& after.deployment_id == update.deployment_id
                    &&& after.poi_object == update.poi_object
                    &&& after.waiting == update.waiting
                    &&& after.stage matches ProofStage::Finish { region: same, state: _ }
                    &&& same == region
                },
                ProofStage::Finish { region, state } => {
                    &&& event.support().len() == 0
                    &&& event.stored_proof().len() == 0
                    &&& event.new_digest().len() == 1
                    &&& proofs_read(more).len() == 0
                    &&& proofs_finished(more).len() == 0
                    &&& proofs_written(more) == seq![
                        (
                            EntityKey {
                                subgraph_id: update.deployment_id,
                                entity_type: update.poi_object,
                                entity_id: region,
                            },
                            NewProof { id: region, digest: event.new_digest()[0] },
                        ),
                    ]
                    &&& next.phase matches BlockPhaseModel::UpdatingProof(after)
                    &&& after.deployment_id == update.deployment_id
                    &&& after.poi_object == update.poi_object
                    &&& after.waiting == update.waiting
                    &&& after.stage is Write
                },
                ProofStage::Write => {
                    &&& event.support().len() == 0
                    &&& event.stored_proof().len() == 0
                    &&& event.new_digest().len() == 0
                    &&& proofs_finished(more).len() == 0
                    &&& proofs_written(more).len() == 0
                    &&& goes_on
                },
            }
        },
        _ => {
            &&& event.left_something().len() == 0
            &&& event.left_behind().len() == 0
            &&& event.support().len() == 0
            &&& event.stored_proof().len() == 0
            &&& event.new_digest().len() == 0
            &&& support_asked(more).len() == 0
            &&& proofs_read(more).len() == 0
            &&& proofs_finished(more).len() == 0
            &&& proofs_written(more).len() == 0
            &&& next.phase !is UpdatingProof
            &&& match state.phase {
                BlockPhaseModel::ComputingModifications => next.phase is EvictingCache,
                BlockPhaseModel::EvictingCache(_) => next.phase is Transacting,
                BlockPhaseModel::Transacting => next.phase is Finished,
                _ => !(next.phase is ComputingModifications || next.phase is EvictingCache
                    || next.phase is Transacting || next.phase is Finished),
            }
        },
    }
}

#[verifier::rlimit(40)]
proof fn lemma_proof_step<K: Indexing>(state: BlockModel<K>, event: BlockEvent<K>)
    requires
        state.awaits(event),
        !state.next(event).0.has_failed(),
    ensures
        proof_step(state, event, state.next(event).0, state.next(event).1),
{
    let more = state.next(event).1;
    lemma_gather_few(more, |action: BlockAction<K>| action.support_asked());
    lemma_gather_few(more, |action: BlockAction<K>| action.proof_read());
    lemma_gather_few(more, |action: BlockAction<K>| action.proof_finished());
    lemma_gather_few(more, |action: BlockAction<K>| action.proof_written());
}

#[verifier::rlimit(40)]
proof fn lemma_proofs_grow<K: Indexing>(
    id: String,
    poi_object: String,
    state: BlockModel<K>,
    actions: Seq<BlockAction<K>>,
    events: Seq<BlockEvent<K>>,
    next: BlockModel<K>,
    more: Seq<BlockAction<K>>,
)
    requires
        events.len() > 0,
        state.phase !is Finished,
        !next.has_failed(),
        state.frame.ctx.inputs.deployment_id == id,
        state.frame.poi_object == poi_object,
        proofs_fit(id, poi_object, actions, events.drop_last()),
        proof_phase_fits(id, poi_object, state, actions, events.drop_last()),
        proof_step(state, events.last(), next, more),
    ensures
        proofs_fit(id, poi_object, actions + more, events),
        proof_phase_fits(id, poi_object, next, actions + more, events),
{
    let earlier = events.drop_last();
    let event = events.last();
    lemma_gather_add(actions, more, |action: BlockAction<K>| action.support_asked());
    lemma_gather_add(actions, more, |action: BlockAction<K>| action.proof_read());
    lemma_gather_add(actions, more, |action: BlockAction<K>| action.proof_finished());
    lemma_gather_add(actions, more, |action: BlockAction<K>| action.proof_written());
    let all = actions + more;
    assert(support_asked(all) == support_asked(actions) + support_asked(more));
    assert(proofs_read(all) == proofs_read(actions) + proofs_read(more));
    assert(proofs_finished(all) == proofs_finished(actions) + proofs_finished(more));
    assert(proofs_written(all) == proofs_written(actions) + proofs_written(more));
    assert(left_behind(events) == left_behind(earlier) + event.left_behind());
    assert(left_something(events) == left_something(earlier) + event.left_something());
    assert(support(events) == support(earlier) + event.support());
    assert(stored_proofs(events) == stored_proofs(earlier) + event.stored_proof());
    assert(new_digests(events) == new_digests(earlier) + event.new_digest());
    let regions = left_behind(events);
    match state.phase {
        BlockPhaseModel::TakingProof => {
            assert(regions =~= event.left_behind());
            assert(support_asked(all) =~= support_asked(more));
            assert(support(events) =~= Seq::empty());
        },
        BlockPhaseModel::UpdatingProof(update) => {
            assert(regions =~= left_behind(earlier));
            assert(support_asked(all) =~= support_asked(actions));
            let n = proofs_read(actions).len() as int;
            if n < regions.len() {
                assert(regions.skip(n).skip(1) =~= regions.skip(n + 1));
            }
            if update.stage is Support {
                assert(support(events) =~= event.support());
                assert(regions.skip(0) =~= regions);
            } else {
                assert(support(events) =~= support(earlier));
            }
            if update.waiting.len() > 0 {
                assert(update.waiting[0] == regions[n]);
            }
        },
        _ => {
            assert(regions =~= left_behind(earlier));
            assert(support_asked(all) =~= support_asked(actions));
            assert(support(events) =~= support(earlier));
        },
    }
}

proof fn lemma_proofs<K: Indexing>(input: BlockInput<K>, events: Seq<BlockEvent<K>>)
    requires
        answered(input, events),
        !run_block(input, events).0.has_failed(),
    ensures
        ({
            let (state, actions) = run_block(input, events);
            let id = input.ctx.inputs.deployment_id;
            &&& state.frame.poi_object == input.poi_object
            &&& proofs_fit(id, input.poi_object, actions, events)
            &&& proof_phase_fits(id, input.poi_object, state, actions, events)
        }),
    decreases events.len(),
{
    let id = input.ctx.inputs.deployment_id;
    if events.len() == 0 {
        let actions = run_block(input, events).1;
        lemma_gather_few(actions, |action: BlockAction<K>| action.support_asked());
        lemma_gather_few(actions, |action: BlockAction<K>| action.proof_read());
        lemma_gather_few(actions, |action: BlockAction<K>| action.proof_finished());
        lemma_gather_few(actions, |action: BlockAction<K>| action.proof_written());
    } else {
        let earlier = events.drop_last();
        let (state, actions) = run_block(input, earlier);
        let (next, more) = state.next(events.last());
        lemma_proofs(input, earlier);
        law_inputs_are_kept(input, earlier);
        lemma_proof_step(state, events.last());
        lemma_proofs_grow(id, input.poi_object, state, actions, events, next, more);
    }
}

/// Every block that is stored has updated the proof of indexing of every region that it has
/// left behind. If it has left anything behind, it was asked once whether the deployment keeps
/// proofs; if it does, then for each region, in order, the proof under the key of the region
/// was read, the stream of the region was finished on top of the digest that was found there,
/// and the new digest was written under the same key. If the deployment keeps no proofs, or
/// the block has left nothing behind, nothing was read, finished or written.
pub proof fn law_every_block_updates_the_proof<K: Indexing>(
    input: BlockInput<K>,
    events: Seq<BlockEvent<K>>,
)
    requires
        answered(input, events),
        run_block(input, events).0.phase matches BlockPhaseModel::Finished(Ok(_)),
    ensures
        ({
            let actions = run_block(input, events).1;
            let id = input.ctx.inputs.deployment_id;
            let regions = left_behind(events);
            let reads = proofs_read(actions);
            let finished = proofs_finished(actions);
            let written = proofs_written(actions);
            &&& left_something(events).len() <= 1
            &&& support_asked(actions).len() == left_something(events).len()
            &&& support(events).len() == left_something(events).len()
            &&& left_something(events).len() == 1 ==> support_asked(actions)[0] == id
            &&& left_something(events).len() == 1 && support(events)[0] ==> {
                &&& reads.len() == regions.len()
                &&& finished.len() == regions.len()
                &&& written.len() == regions.len()
                &&& stored_proofs(events).len() == regions.len()
                &&& new_digests(events).len() == regions.len()
                &&& forall|i: int|
                    0 <= i < regions.len() ==> #[trigger] reads[i] == (EntityKey {
                        subgraph_id: id,
                        entity_type: input.poi_object,
                        entity_id: regions[i].0,
                    })
                &&& forall|i: int|
                    0 <= i < regions.len() ==> #[trigger] finished[i] == (
                        regions[i].1,
                        digest_in(stored_proofs(events)[i]),
                    )
                &&& forall|i: int|
                    0 <= i < regions.len() ==> #[trigger] written[i] == (reads[i], NewProof {
                        id: regions[i].0,
                        digest: new_digests(events)[i],
                    })
            }
            &&& left_something(events).len() == 0 || !support(events)[0] ==> {
                &&& reads.len() == 0
                &&& finished.len() == 0
                &&& written.len() == 0
            }
        }),
{
    lemma_proofs(input, events);
}

} // verus!
