//! The course that the processing of a block takes, request by request, and how it ends.
use crate::block::{BlockAction, BlockEvent, BlockModel, BlockPhaseModel, Indexing};
use crate::block_laws::{answered, processed, run_block, BlockInput};
use crate::data_source::{CreationEvent, CreationRequest, PersistenceEvent};
use crate::error::{CancelableError, IndexingError};
use crate::history::{gather, lemma_gather_add, lemma_gather_few};
use crate::proof_of_indexing::{AttributeValue, ProofEvent, ProofRequest, ProofStage};
use crate::trigger::EthereumTrigger;
use vstd::prelude::*;

verus! {

impl<K: Indexing> BlockAction<K> {
    /// Whether the action is a request that an answer is waited for.
    pub open spec fn asks(self) -> bool {
        match self {
            BlockAction::ObserveTrigger(_) => false,
            BlockAction::ObserveTransaction(_) => false,
            BlockAction::MigrateDeployment { deployment_id, pointer } => false,
            BlockAction::Finish => false,
            _ => true,
        }
    }

    /// Whether an event is an answer to the request.
    pub open spec fn is_answered_by(self, event: BlockEvent<K>) -> bool {
        match (self, event) {
            (BlockAction::OpenBlockState(_), BlockEvent::BlockStateOpened(_)) => true,
            (
                BlockAction::ProcessTrigger { trigger, state },
                BlockEvent::TriggerProcessed { outcome, elapsed },
            ) => true,
            (
                BlockAction::Create(CreationRequest::Instantiate(_)),
                BlockEvent::Create(CreationEvent::Instantiated(_)),
            ) => true,
            (
                BlockAction::Create(CreationRequest::AddHost),
                BlockEvent::Create(CreationEvent::HostAdded(_)),
            ) => true,
            (BlockAction::FindTriggers, BlockEvent::TriggersFound(_)) => true,
            (
                BlockAction::MakeDataSourceId,
                BlockEvent::Persist(PersistenceEvent::IdMade(_)),
            ) => true,
            (
                BlockAction::PersistDataSource { deployment_id, pointer, id, state },
                BlockEvent::Persist(PersistenceEvent::Recorded(_)),
            ) => true,
            (
                BlockAction::ProcessInHosts { trigger, state },
                BlockEvent::ProcessedInHosts(_),
            ) => true,
            (BlockAction::CheckCanceled, BlockEvent::Canceled(_)) => true,
            (BlockAction::TakeProof(_), BlockEvent::ProofTaken { state, taken }) => true,
            (
                BlockAction::UpdateProof(ProofRequest::CheckSupport { deployment_id }),
                BlockEvent::UpdateProof(ProofEvent::Supported(_)),
            ) => true,
            (
                BlockAction::UpdateProof(ProofRequest::Read { key, state }),
                BlockEvent::UpdateProof(ProofEvent::Read(_)),
            ) => true,
            (
                BlockAction::UpdateProof(ProofRequest::Finish { stream, previous }),
                BlockEvent::UpdateProof(ProofEvent::Finished(_)),
            ) => true,
            (
                BlockAction::UpdateProof(ProofRequest::Write { key, entity, state }),
                BlockEvent::UpdateProof(ProofEvent::Written(_)),
            ) => true,
            (
                BlockAction::ComputeModifications(_),
                BlockEvent::ModificationsComputed(_),
            ) => true,
            (BlockAction::EvictCache { cache, limit }, BlockEvent::CacheEvicted(_)) => true,
            (
                BlockAction::Transact { deployment_id, pointer, modifications },
                BlockEvent::Transacted { should_migrate, elapsed },
            ) => true,
            _ => false,
        }
    }

    /// The stage of the processing that the action belongs to.
    pub open spec fn stage(self) -> int {
        match self {
            BlockAction::OpenBlockState(_) => 0,
            BlockAction::ProcessTrigger { trigger, state } => 1,
            BlockAction::ObserveTrigger(_) => 1,
            BlockAction::Create(_) => 2,
            BlockAction::FindTriggers => 2,
            BlockAction::MakeDataSourceId => 2,
            BlockAction::PersistDataSource { deployment_id, pointer, id, state } => 2,
            BlockAction::ProcessInHosts { trigger, state } => 2,
            BlockAction::CheckCanceled => 3,
            BlockAction::TakeProof(_) => 4,
            BlockAction::UpdateProof(_) => 5,
            BlockAction::ComputeModifications(_) => 6,
            BlockAction::EvictCache { cache, limit } => 7,
            BlockAction::Transact { deployment_id, pointer, modifications } => 8,
            BlockAction::ObserveTransaction(_) => 9,
            BlockAction::MigrateDeployment { deployment_id, pointer } => 10,
            BlockAction::Finish => 11,
        }
    }

    /// One item if the action belongs to a stage.
    pub open spec fn at_stage(self, stage: int) -> Seq<()> {
        if self.stage() == stage {
            seq![()]
        } else {
            Seq::empty()
        }
    }

    /// One item if the action is a request.
    pub open spec fn request(self) -> Seq<()> {
        if self.asks() {
            seq![()]
        } else {
            Seq::empty()
        }
    }
}

impl<K: Indexing> BlockEvent<K> {
    /// The text of the error, if the event is one.
    pub open spec fn error(self) -> Option<String> {
        match self {
            BlockEvent::TriggerProcessed { outcome: Err(cause), elapsed } => Some(cause),
            BlockEvent::Create(CreationEvent::Instantiated(Err(cause))) => Some(cause),
            BlockEvent::Create(CreationEvent::HostAdded(Err(cause))) => Some(cause),
            BlockEvent::TriggersFound(Err(cause)) => Some(cause),
            BlockEvent::Persist(PersistenceEvent::Recorded(Err(cause))) => Some(cause),
            BlockEvent::ProcessedInHosts(Err(cause)) => Some(cause),
            BlockEvent::UpdateProof(ProofEvent::Supported(Err(cause))) => Some(cause),
            BlockEvent::UpdateProof(ProofEvent::Read(Err(cause))) => Some(cause),
            BlockEvent::UpdateProof(ProofEvent::Written(Err(cause))) => Some(cause),
            BlockEvent::ModificationsComputed(Err(cause)) => Some(cause),
            BlockEvent::Transacted { should_migrate: Err(cause), elapsed } => Some(cause),
            _ => None,
        }
    }
}

/// The actions that belong to a stage.
pub open spec fn at_stage<K: Indexing>(actions: Seq<BlockAction<K>>, stage: int) -> Seq<()> {
    gather(actions, |action: BlockAction<K>| action.at_stage(stage))
}

/// The requests among some actions.
pub open spec fn requests<K: Indexing>(actions: Seq<BlockAction<K>>) -> Seq<()> {
    gather(actions, |action: BlockAction<K>| action.request())
}

impl<K: Indexing> BlockModel<K> {
    spec fn last_asked(self, action: BlockAction<K>) -> bool {
        match self.phase {
            BlockPhaseModel::OpeningState { pointer_text, triggers } => action is OpenBlockState,
            BlockPhaseModel::ProcessingTriggers(_) => action is ProcessTrigger,
            BlockPhaseModel::CreatingDataSources { creation, state } => match creation.current {
                None => action matches BlockAction::Create(CreationRequest::Instantiate(_)),
                Some(_) => action matches BlockAction::Create(CreationRequest::AddHost),
            },
            BlockPhaseModel::FindingTriggers { data_sources, runtime_hosts, state } =>
                action is FindTriggers,
            BlockPhaseModel::PersistingDataSources { persistence, triggers, runtime_hosts } =>
                match persistence.state {
                Some(_) => action is MakeDataSourceId,
                None => action is PersistDataSource,
            },
            BlockPhaseModel::ProcessingInHosts { waiting, runtime_hosts, created } =>
                action is ProcessInHosts,
            BlockPhaseModel::CheckingCanceled { state } => action is CheckCanceled,
            BlockPhaseModel::TakingProof => action is TakeProof,
            BlockPhaseModel::UpdatingProof(update) => action matches BlockAction::UpdateProof(
                request,
            ) && match update.stage {
                ProofStage::Support { state } => request is CheckSupport,
                ProofStage::Read { region, stream } => request is Read,
                ProofStage::Finish { region, state } => request is Finish,
                ProofStage::Write => request is Write,
            },
            BlockPhaseModel::ComputingModifications => action is ComputeModifications,
            BlockPhaseModel::EvictingCache(_) => action is EvictCache,
            BlockPhaseModel::Transacting => action is Transact,
            BlockPhaseModel::Finished(_) => action is Finish,
        }
    }

    spec fn stage(self) -> int {
        match self.phase {
            BlockPhaseModel::OpeningState { pointer_text, triggers } => 0,
            BlockPhaseModel::ProcessingTriggers(_) => 1,
            BlockPhaseModel::CreatingDataSources { creation, state } => 2,
            BlockPhaseModel::FindingTriggers { data_sources, runtime_hosts, state } => 2,
            BlockPhaseModel::PersistingDataSources { persistence, triggers, runtime_hosts } => 2,
            BlockPhaseModel::ProcessingInHosts { waiting, runtime_hosts, created } => 2,
            BlockPhaseModel::CheckingCanceled { state } => 3,
            BlockPhaseModel::TakingProof => 4,
            BlockPhaseModel::UpdatingProof(_) => 5,
            BlockPhaseModel::ComputingModifications => 6,
            BlockPhaseModel::EvictingCache(_) => 7,
            BlockPhaseModel::Transacting => 8,
            BlockPhaseModel::Finished(_) => 11,
        }
    }
}

#[verifier::rlimit(40)]
proof fn lemma_step_asks<K: Indexing>(state: BlockModel<K>, event: BlockEvent<K>)
    requires
        state.awaits(event),
    ensures
        ({
            let (next, more) = state.next(event);
            &&& 1 <= more.len() <= 3
            &&& next.last_asked(more.last())
            &&& requests(more).len() == if next.phase is Finished {
                0nat
            } else {
                1nat
            }
            &&& at_stage(more, 11).len() == if next.phase is Finished {
                1nat
            } else {
                0nat
            }
        }),
{
    let more = state.next(event).1;
    lemma_gather_few(more, |action: BlockAction<K>| action.request());
    lemma_gather_few(more, |action: BlockAction<K>| action.at_stage(11));
}

/// The processing of a block is never stuck and never gets ahead of itself. As long as the
/// block is not finished, the last thing that it asks for is a request, and what it waits for
/// is an answer to just that request; every answer is followed by exactly one further
/// request, or by the end. Once the block is finished, that is the last thing that is said,
/// and it is said once.
pub proof fn law_each_answer_is_followed_by_one_request<K: Indexing>(
    input: BlockInput<K>,
    events: Seq<BlockEvent<K>>,
    event: BlockEvent<K>,
)
    requires
        answered(input, events),
    ensures
        ({
            let (state, actions) = run_block(input, events);
            &&& actions.len() > 0
            &&& state.awaits(event) <==> actions.last().is_answered_by(event)
            &&& if state.phase is Finished {
                &&& actions.last() is Finish
                &&& requests(actions).len() == events.len()
                &&& at_stage(actions, 11).len() == 1
            } else {
                &&& actions.last().asks()
                &&& requests(actions).len() == events.len() + 1
                &&& at_stage(actions, 11).len() == 0
            }
        }),
{
    lemma_requests(input, events);
}

proof fn lemma_requests<K: Indexing>(input: BlockInput<K>, events: Seq<BlockEvent<K>>)
    requires
        answered(input, events),
    ensures
        ({
            let (state, actions) = run_block(input, events);
            &&& actions.len() > 0
            &&& state.last_asked(actions.last())
            &&& requests(actions).len() == if state.phase is Finished {
                events.len()
            } else {
                events.len() + 1
            }
            &&& at_stage(actions, 11).len() == if state.phase is Finished {
                1nat
            } else {
                0nat
            }
        }),
    decreases events.len(),
{
    let part_request = |action: BlockAction<K>| action.request();
    let part_stage = |action: BlockAction<K>| action.at_stage(11);
    if events.len() == 0 {
        lemma_gather_few(run_block(input, events).1, part_request);
        lemma_gather_few(run_block(input, events).1, part_stage);
    } else {
        let (state, actions) = run_block(input, events.drop_last());
        let more = state.next(events.last()).1;
        lemma_requests(input, events.drop_last());
        lemma_step_asks(state, events.last());
        lemma_gather_add(actions, more, part_request);
        lemma_gather_add(actions, more, part_stage);
        assert((actions + more).last() == more.last());
    }
}

/// The transaction that a trigger belongs to.
pub open spec fn transaction_of<X>(trigger: EthereumTrigger<X>) -> Option<[u8; 32]> {
    match trigger {
        EthereumTrigger::Log { transaction_hash, payload } => transaction_hash,
        EthereumTrigger::Call { transaction_hash, payload } => transaction_hash,
        EthereumTrigger::Block { payload } => None,
    }
}

/// How a block ends is decided by the last answer alone. It is canceled exactly if the block
/// stream was found to be canceled, it has failed exactly if something has failed, it is
/// processed exactly if its changes were stored, and with every other answer it goes on.
///
/// The error of a block says what has failed: a trigger of the block, with the block and the
/// transaction of that trigger; the computation or the storing of the changes; or anything
/// else, which is passed on as it came.
#[verifier::rlimit(40)]
pub proof fn law_last_answer_decides_the_end<K: Indexing>(
    input: BlockInput<K>,
    events: Seq<BlockEvent<K>>,
)
    requires
        answered(input, events),
        events.len() > 0,
    ensures
        ({
            let (state, actions) = run_block(input, events);
            let last = events.last();
            &&& state.phase == BlockPhaseModel::<K>::Finished(Err(CancelableError::Cancel)) <==> (
            last matches BlockEvent::Canceled(canceled) && canceled)
            &&& (state.phase matches BlockPhaseModel::Finished(Err(CancelableError::Error(_))))
                <==> last.error() is Some
            &&& (state.phase matches BlockPhaseModel::Finished(Ok(_))) <==> (
            last matches BlockEvent::Transacted { should_migrate: Ok(_), elapsed })
            &&& last.error() matches Some(cause) ==> {
                &&& state.phase matches BlockPhaseModel::Finished(
                    Err(CancelableError::Error(error)),
                )
                &&& error == match last {
                    BlockEvent::TriggerProcessed { outcome, elapsed } => IndexingError::Trigger {
                        block: input.pointer_text,
                        transaction: transaction_of(processed(actions).last()),
                        cause,
                    },
                    BlockEvent::ModificationsComputed(_) => IndexingError::BlockStream { cause },
                    BlockEvent::Transacted { should_migrate, elapsed } =>
                        IndexingError::BlockStream { cause },
                    _ => IndexingError::Other { cause },
                }
            }
        }),
{
    let earlier = events.drop_last();
    let (state, actions) = run_block(input, earlier);
    let more = state.next(events.last()).1;
    lemma_pass_fits(input, earlier);
    let part = |action: BlockAction<K>| action.processed();
    lemma_gather_add(actions, more, part);
    lemma_gather_few(more, part);
    if events.last().error() is Some {
        assert(gather(more, part) =~= Seq::empty());
        assert(processed(actions + more) =~= processed(actions));
    }
}

#[verifier::rlimit(40)]
proof fn lemma_pass_fits<K: Indexing>(input: BlockInput<K>, events: Seq<BlockEvent<K>>)
    requires
        answered(input, events),
    ensures
        ({
            let (state, actions) = run_block(input, events);
            match state.phase {
                BlockPhaseModel::OpeningState { pointer_text, triggers } => pointer_text
                    == input.pointer_text,
                BlockPhaseModel::ProcessingTriggers(pass) => {
                    &&& pass.block == input.pointer_text
                    &&& pass.current.transaction_id == transaction_of(processed(actions).last())
                },
                _ => true,
            }
        }),
    decreases events.len(),
{
    if events.len() > 0 {
        let (state, actions) = run_block(input, events.drop_last());
        let (next, more) = state.next(events.last());
        lemma_pass_fits(input, events.drop_last());
        let part = |action: BlockAction<K>| action.processed();
        lemma_gather_add(actions, more, part);
        lemma_gather_few(more, part);
        if let BlockPhaseModel::ProcessingTriggers(pass) = next.phase {
            assert(gather(more, part).len() == 1);
            assert(processed(actions + more).last() == gather(more, part).last());
        }
    }
}

/// The stages of the processing come one after the other: the state of the block is opened,
/// the triggers of the block are processed, then new data sources are dealt with, then it is
/// found out whether the block stream is canceled, the proof of indexing is taken out and
/// updated, the changes are computed, the entity cache is shrunk, the changes are stored, and
/// the deployment may be migrated. Nothing of an earlier stage comes after something of a
/// later one.
pub proof fn law_stages_come_in_order<K: Indexing>(
    input: BlockInput<K>,
    events: Seq<BlockEvent<K>>,
    i: int,
    j: int,
)
    requires
        answered(input, events),
        0 <= i <= j < run_block(input, events).1.len(),
    ensures
        run_block(input, events).1[i].stage() <= run_block(input, events).1[j].stage(),
{
    lemma_stages(input, events);
}

#[verifier::rlimit(40)]
proof fn lemma_step_stages<K: Indexing>(state: BlockModel<K>, event: BlockEvent<K>)
    requires
        state.awaits(event),
    ensures
        ({
            let (next, more) = state.next(event);
            &&& next.stage() >= state.stage()
            &&& forall|i: int|
                0 <= i < more.len() ==> state.stage() <= (#[trigger] more[i]).stage()
                    <= next.stage()
            &&& forall|i: int, j: int|
                0 <= i <= j < more.len() ==> (#[trigger] more[i]).stage() <= (
                #[trigger] more[j]).stage()
        }),
{
}

proof fn lemma_stages<K: Indexing>(input: BlockInput<K>, events: Seq<BlockEvent<K>>)
    requires
        answered(input, events),
    ensures
        ({
            let (state, actions) = run_block(input, events);
            &&& forall|i: int|
                0 <= i < actions.len() ==> (#[trigger] actions[i]).stage() <= state.stage()
            &&& forall|i: int, j: int|
                0 <= i <= j < actions.len() ==> (#[trigger] actions[i]).stage() <= (
                #[trigger] actions[j]).stage()
        }),
    decreases events.len(),
{
    if events.len() > 0 {
        let (state, actions) = run_block(input, events.drop_last());
        let (next, more) = state.next(events.last());
        lemma_stages(input, events.drop_last());
        lemma_step_stages(state, events.last());
        let all = actions + more;
        let n = actions.len();
        assert forall|i: int| 0 <= i < all.len() implies (#[trigger] all[i]).stage()
            <= next.stage() by {
            if i < n {
                assert(all[i] == actions[i]);
            } else {
                assert(all[i] == more[i - n]);
            }
        }
        assert forall|i: int, j: int| 0 <= i <= j < all.len() implies (#[trigger] all[i]).stage()
            <= (#[trigger] all[j]).stage() by {
            if j < n {
                assert(all[i] == actions[i] && all[j] == actions[j]);
            } else if i < n {
                assert(all[i] == actions[i] && all[j] == more[j - n]);
            } else {
                assert(all[i] == more[i - n] && all[j] == more[j - n]);
            }
        }
    }
}

/// What is done once for a block: its state is opened, it is found out whether the block
/// stream is canceled, the proof of indexing is taken out, the changes are computed, the
/// entity cache is shrunk, the changes are stored, and the time that that took is observed.
pub open spec fn is_done_once(stage: int) -> bool {
    stage == 0 || stage == 3 || stage == 4 || stage == 6 || stage == 7 || stage == 8 || stage == 9
}

/// What is done once for a block is done at most once, and exactly once for a block that is
/// processed.
pub proof fn law_once_per_block<K: Indexing>(
    input: BlockInput<K>,
    events: Seq<BlockEvent<K>>,
    stage: int,
)
    requires
        answered(input, events),
        is_done_once(stage),
    ensures
        ({
            let (state, actions) = run_block(input, events);
            &&& at_stage(actions, stage).len() <= 1
            &&& (state.phase matches BlockPhaseModel::Finished(Ok(_))) ==> at_stage(
                actions,
                stage,
            ).len() == 1
        }),
{
    lemma_once(input, events, stage);
}

#[verifier::rlimit(40)]
proof fn lemma_step_once<K: Indexing>(state: BlockModel<K>, event: BlockEvent<K>, stage: int)
    requires
        state.awaits(event),
        is_done_once(stage),
    ensures
        ({
            let (next, more) = state.next(event);
            if next.has_failed() {
                at_stage(more, stage).len() == 0
            } else {
                at_stage(more, stage).len() == if state.stage() < stage <= next.stage() {
                    1nat
                } else {
                    0nat
                }
            }
        }),
{
    lemma_gather_few(state.next(event).1, |action: BlockAction<K>| action.at_stage(stage));
}

proof fn lemma_once<K: Indexing>(input: BlockInput<K>, events: Seq<BlockEvent<K>>, stage: int)
    requires
        answered(input, events),
        is_done_once(stage),
    ensures
        ({
            let (state, actions) = run_block(input, events);
            if state.has_failed() {
                at_stage(actions, stage).len() <= 1
            } else {
                at_stage(actions, stage).len() == if stage <= state.stage() {
                    1nat
                } else {
                    0nat
                }
            }
        }),
    decreases events.len(),
{
    let part = |action: BlockAction<K>| action.at_stage(stage);
    if events.len() == 0 {
        lemma_gather_few(run_block(input, events).1, part);
    } else {
        let (state, actions) = run_block(input, events.drop_last());
        let (next, more) = state.next(events.last());
        lemma_once(input, events.drop_last(), stage);
        lemma_step_once(state, events.last(), stage);
        lemma_step_stages(state, events.last());
        lemma_gather_add(actions, more, part);
    }
}

impl<K: Indexing> BlockAction<K> {
    /// One item if a host is asked for.
    pub open spec fn host_asked(self) -> Seq<()> {
        match self {
            BlockAction::Create(CreationRequest::AddHost) => seq![()],
            _ => Seq::empty(),
        }
    }

    /// The entity cache that is to be shrunk.
    pub open spec fn to_evict(self) -> Seq<K::Cache> {
        match self {
            BlockAction::EvictCache { cache, limit } => seq![cache],
            _ => Seq::empty(),
        }
    }

    /// The time that a trigger took, as the sensors are told.
    pub open spec fn trigger_time(self) -> Seq<K::Elapsed> {
        match self {
            BlockAction::ObserveTrigger(observation) => seq![observation.elapsed],
            _ => Seq::empty(),
        }
    }

    /// The time that it took to store the changes, as the sensor is told.
    pub open spec fn transaction_time(self) -> Seq<K::Elapsed> {
        match self {
            BlockAction::ObserveTransaction(elapsed) => seq![elapsed],
            _ => Seq::empty(),
        }
    }
}

impl<K: Indexing> BlockEvent<K> {
    /// The entity cache that comes with the changes.
    pub open spec fn computed_cache(self) -> Seq<K::Cache> {
        match self {
            BlockEvent::ModificationsComputed(Ok((_, cache))) => seq![cache],
            _ => Seq::empty(),
        }
    }

    /// The time that a trigger took that was processed.
    pub open spec fn trigger_took(self) -> Seq<K::Elapsed> {
        match self {
            BlockEvent::TriggerProcessed { outcome: Ok(_), elapsed } => seq![elapsed],
            _ => Seq::empty(),
        }
    }

    /// The time that it took to store the changes.
    pub open spec fn transaction_took(self) -> Seq<K::Elapsed> {
        match self {
            BlockEvent::Transacted { should_migrate: Ok(_), elapsed } => seq![elapsed],
            _ => Seq::empty(),
        }
    }

    /// One item if a data source was made.
    pub open spec fn made_one(self) -> Seq<()> {
        match self {
            BlockEvent::Create(CreationEvent::Instantiated(Ok(_))) => seq![()],
            _ => Seq::empty(),
        }
    }
}

/// What has come back is what is passed on: a host is asked for once for every data source
/// that was made; the entity cache that is shrunk is the one that came with the changes; and
/// the sensors are told the time of every trigger that was processed and of the storing of
/// the changes, and no other.
pub proof fn law_answers_are_passed_on<K: Indexing>(
    input: BlockInput<K>,
    events: Seq<BlockEvent<K>>,
)
    requires
        answered(input, events),
    ensures
        ({
            let actions = run_block(input, events).1;
            &&& gather(actions, |action: BlockAction<K>| action.host_asked()) == gather(
                events,
                |event: BlockEvent<K>| event.made_one(),
            )
            &&& gather(actions, |action: BlockAction<K>| action.to_evict()) == gather(
                events,
                |event: BlockEvent<K>| event.computed_cache(),
            )
            &&& gather(actions, |action: BlockAction<K>| action.trigger_time()) == gather(
                events,
                |event: BlockEvent<K>| event.trigger_took(),
            )
            &&& gather(actions, |action: BlockAction<K>| action.transaction_time()) == gather(
                events,
                |event: BlockEvent<K>| event.transaction_took(),
            )
        }),
    decreases events.len(),
{
    let hosts = |action: BlockAction<K>| action.host_asked();
    let caches = |action: BlockAction<K>| action.to_evict();
    let triggers = |action: BlockAction<K>| action.trigger_time();
    let transactions = |action: BlockAction<K>| action.transaction_time();
    if events.len() == 0 {
        let actions = run_block(input, events).1;
        lemma_gather_few(actions, hosts);
        lemma_gather_few(actions, caches);
        lemma_gather_few(actions, triggers);
        lemma_gather_few(actions, transactions);
    } else {
        let (state, actions) = run_block(input, events.drop_last());
        let event = events.last();
        let more = state.next(event).1;
        law_answers_are_passed_on(input, events.drop_last());
        lemma_step_passes_on(state, event);
        lemma_gather_add(actions, more, hosts);
        lemma_gather_add(actions, more, caches);
        lemma_gather_add(actions, more, triggers);
        lemma_gather_add(actions, more, transactions);
    }
}

#[verifier::rlimit(40)]
proof fn lemma_step_passes_on<K: Indexing>(state: BlockModel<K>, event: BlockEvent<K>)
    requires
        state.awaits(event),
    ensures
        ({
            let more = state.next(event).1;
            &&& gather(more, |action: BlockAction<K>| action.host_asked()) == event.made_one()
            &&& gather(more, |action: BlockAction<K>| action.to_evict()) == event.computed_cache()
            &&& gather(more, |action: BlockAction<K>| action.trigger_time())
                == event.trigger_took()
            &&& gather(more, |action: BlockAction<K>| action.transaction_time())
                == event.transaction_took()
        }),
{
    let more = state.next(event).1;
    let hosts = |action: BlockAction<K>| action.host_asked();
    let caches = |action: BlockAction<K>| action.to_evict();
    let triggers = |action: BlockAction<K>| action.trigger_time();
    let transactions = |action: BlockAction<K>| action.transaction_time();
    lemma_gather_few(more, hosts);
    lemma_gather_few(more, caches);
    lemma_gather_few(more, triggers);
    lemma_gather_few(more, transactions);
    assert(gather(more, hosts) =~= event.made_one());
    assert(gather(more, caches) =~= event.computed_cache());
    assert(gather(more, triggers) =~= event.trigger_took());
    assert(gather(more, transactions) =~= event.transaction_took());
}

/// An answer that is not waited for changes nothing, and nothing is done because of it.
pub proof fn law_block_ignores_other_answers<K: Indexing>(
    state: BlockModel<K>,
    event: BlockEvent<K>,
)
    requires
        !state.awaits(event),
    ensures
        state.next(event) == (state, Seq::<BlockAction<K>>::empty()),
{
}

impl<K: Indexing> BlockModel<K> {
    /// How many answers are left at most until the block is finished, once the proof of
    /// indexing has been taken out.
    pub open spec fn answers_left(self) -> int {
        match self.phase {
            BlockPhaseModel::UpdatingProof(update) => 3 * update.waiting.len() + 3
                + match update.stage {
                ProofStage::Support { state } => 1int,
                ProofStage::Read { region, stream } => 3,
                ProofStage::Finish { region, state } => 2,
                ProofStage::Write => 1,
            },
            BlockPhaseModel::ComputingModifications => 3,
            BlockPhaseModel::EvictingCache(_) => 2,
            BlockPhaseModel::Transacting => 1,
            _ => 0,
        }
    }
}

/// A block whose stream is not canceled comes to its end, if nothing fails: after it was found
/// that the stream is not canceled the proof of indexing is taken out, and from then on every
/// answer that is no error brings the end nearer, until the changes are stored and the block
/// is processed.
pub proof fn law_uncanceled_block_comes_to_its_end<K: Indexing>(
    state: BlockModel<K>,
    event: BlockEvent<K>,
)
    requires
        state.awaits(event),
        event.error() is None,
    ensures
        state.phase is CheckingCanceled && !(event matches BlockEvent::Canceled(canceled)
            && canceled) ==> state.next(event).0.phase is TakingProof,
        state.phase is TakingProof ==> state.next(event).0.answers_left() > 0,
        state.answers_left() > 0 ==> {
            let next = state.next(event).0;
            &&& 0 <= next.answers_left() < state.answers_left()
            &&& next.answers_left() == 0 ==> (next.phase matches BlockPhaseModel::Finished(Ok(_)))
        },
{
}

/// Every answer can be gone on with but a stored proof of indexing without a digest that is a
/// string.
pub proof fn law_only_broken_proofs_stop_a_block<K: Indexing>(event: BlockEvent<K>)
    ensures
        !event.readable() <==> (event matches BlockEvent::UpdateProof(
            ProofEvent::Read(Ok((_, Some(stored)))),
        ) && !(stored.digest matches Some(AttributeValue::String(_)))),
{
}

} // verus!
