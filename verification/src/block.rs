//! How a block is processed.
use crate::context::{ContextModel, IndexingContext};
use crate::data_source::{
    create_dynamic_data_sources, creation_progress, persist_dynamic_data_sources,
    persistence_progress, CreationEvent, CreationProgress, CreationProgressModel, CreationRequest,
    DataSourceCreation, DataSourceCreationModel, DataSourcePersistence,
    DataSourcePersistenceModel, PersistenceEvent, PersistenceProgress, PersistenceProgressModel,
    PersistenceRequest,
};
use crate::error::{CancelableError, IndexingError};
use crate::progress::{into_queue, Progress};
use crate::proof_of_indexing::{
    proof_progress, update_proof_of_indexing, ProofEvent, ProofProgress, ProofProgressModel,
    ProofRequest, ProofUpdate, ProofUpdateModel,
};
use crate::trigger::{
    process_triggers, trigger_progress, EthereumTrigger, TriggerObservation, TriggerOutcome,
    TriggerPass, TriggerPassModel, TriggerProgress, TriggerProgressModel,
};
use std::collections::VecDeque;
use vstd::prelude::*;

verus! {

/// The kinds of values that pass through the indexing of a subgraph without being looked at.
pub trait Indexing {
    /// A block without its triggers.
    type Block;

    /// What identifies a block.
    type BlockPointer: Copy;

    /// What a block has changed so far.
    type BlockState;

    /// What a handler is given of a trigger.
    type Payload;

    /// The description of a data source that a handler has asked for.
    type Info;

    /// A data source.
    type DataSource;

    /// What runs the handlers of a data source.
    type Host;

    /// A template that data sources can be made from.
    type Template;

    /// The contents of the entity cache.
    type Cache;

    /// The stream of events of a causality region.
    type Stream;

    /// The changes that a block makes to the entities of the subgraph.
    type Modifications;

    /// How long something took.
    type Elapsed;
}

pub type Trigger<K> = EthereumTrigger<<K as Indexing>::Payload>;

pub type Context<K> = IndexingContext<
    <K as Indexing>::DataSource,
    <K as Indexing>::Template,
    <K as Indexing>::Cache,
>;

/// A block with the triggers in it that matter to a subgraph.
pub struct BlockWithTriggers<K: Indexing> {
    pub ethereum_block: K::Block,
    pub triggers: Vec<Trigger<K>>,
}

pub type BlockResult = Result<bool, CancelableError<IndexingError>>;

/// An outside call that the processing of a block asks for.
pub enum BlockAction<K: Indexing> {
    /// Open the state of the block on top of an entity cache; `None` is an empty one.
    OpenBlockState(Option<K::Cache>),
    /// Run the handlers of the subgraph instance for a trigger, in a state of the block.
    ProcessTrigger { trigger: Trigger<K>, state: K::BlockState },
    /// Feed the trigger sensors.
    ObserveTrigger(TriggerObservation<K::Elapsed>),
    /// Set up a new data source.
    Create(CreationRequest<K::Info>),
    /// Find the triggers in the block that match the new data sources.
    FindTriggers,
    /// Make an id for the entity of the current new data source.
    MakeDataSourceId,
    /// Add the operations that write the entity of the current new data source of the
    /// deployment, created in the block with this pointer, to the state of the block. The
    /// entity is written under this id.
    PersistDataSource {
        deployment_id: String,
        pointer: K::BlockPointer,
        id: String,
        state: K::BlockState,
    },
    /// Run the handlers of the new data sources for a trigger, in a state of the block.
    ProcessInHosts { trigger: Trigger<K>, state: K::BlockState },
    /// Find out whether the block stream has been canceled.
    CheckCanceled,
    /// Take the proof of indexing out of the state of the block.
    TakeProof(K::BlockState),
    /// Update the proof of indexing.
    UpdateProof(ProofRequest<K::Stream, K::BlockState>),
    /// Turn the state of the block into the changes to store and a new entity cache.
    ComputeModifications(K::BlockState),
    /// Shrink the entity cache to a number of bytes.
    EvictCache { cache: K::Cache, limit: u64 },
    /// Store the changes of the deployment and advance its block pointer to this one.
    Transact { deployment_id: String, pointer: K::BlockPointer, modifications: K::Modifications },
    /// Feed the sensor for the time that it takes to store the changes.
    ObserveTransaction(K::Elapsed),
    /// Migrate the deployment in the store, after the block with this pointer.
    MigrateDeployment { deployment_id: String, pointer: K::BlockPointer },
    /// The block is processed, or has failed.
    Finish,
}

/// The answer to such a request, or the text of its error. What has to do with the state of
/// the block gives it back.
pub enum BlockEvent<K: Indexing> {
    BlockStateOpened(K::BlockState),
    /// The handlers of the subgraph instance have run and asked for data sources.
    TriggerProcessed { outcome: TriggerOutcome<K::Info, K::BlockState>, elapsed: K::Elapsed },
    Create(CreationEvent<K::DataSource, K::Host>),
    TriggersFound(Result<Vec<Trigger<K>>, String>),
    Persist(PersistenceEvent<K::BlockState>),
    /// The handlers of the new data sources have run and asked for data sources.
    ProcessedInHosts(TriggerOutcome<K::Info, K::BlockState>),
    Canceled(bool),
    /// What the block has added to the proof of indexing, by causality region.
    ProofTaken { state: K::BlockState, taken: Option<Vec<(String, K::Stream)>> },
    UpdateProof(ProofEvent<K::BlockState>),
    ModificationsComputed(Result<(K::Modifications, K::Cache), String>),
    CacheEvicted(K::Cache),
    /// The changes were stored; the store says whether the deployment should be migrated.
    Transacted { should_migrate: Result<bool, String>, elapsed: K::Elapsed },
}

impl<K: Indexing> BlockEvent<K> {
    /// A stored proof of indexing that was read has a digest.
    pub open spec fn readable(self) -> bool {
        self matches BlockEvent::UpdateProof(event) ==> event.readable()
    }

    pub fn is_readable(&self) -> (r: bool)
        ensures
            r == self.readable(),
    {
        match self {
            BlockEvent::UpdateProof(event) => event.is_readable(),
            _ => true,
        }
    }
}

/// What the processing of a block waits for.
pub enum BlockPhase<K: Indexing> {
    OpeningState { pointer_text: String, triggers: Vec<Trigger<K>> },
    ProcessingTriggers(TriggerPass<K::Payload, K::Info>),
    CreatingDataSources {
        creation: DataSourceCreation<K::Info, K::DataSource, K::Host>,
        state: K::BlockState,
    },
    FindingTriggers {
        data_sources: Vec<K::DataSource>,
        runtime_hosts: Vec<K::Host>,
        state: K::BlockState,
    },
    PersistingDataSources {
        persistence: DataSourcePersistence<K::DataSource, K::BlockState>,
        triggers: Vec<Trigger<K>>,
        runtime_hosts: Vec<K::Host>,
    },
    ProcessingInHosts {
        waiting: VecDeque<Trigger<K>>,
        runtime_hosts: Vec<K::Host>,
        created: Vec<K::Info>,
    },
    CheckingCanceled { state: K::BlockState },
    TakingProof,
    UpdatingProof(ProofUpdate<K::Stream, K::BlockState>),
    ComputingModifications,
    EvictingCache(K::Modifications),
    Transacting,
    Finished(BlockResult),
}

/// What a phase stands for.
pub enum BlockPhaseModel<K: Indexing> {
    /// The block pointer as it is displayed, and the triggers of the block.
    OpeningState { pointer_text: String, triggers: Seq<Trigger<K>> },
    ProcessingTriggers(TriggerPassModel<K::Payload, K::Info>),
    CreatingDataSources {
        creation: DataSourceCreationModel<K::Info, K::DataSource, K::Host>,
        state: K::BlockState,
    },
    /// The new data sources and their hosts.
    FindingTriggers {
        data_sources: Seq<K::DataSource>,
        runtime_hosts: Seq<K::Host>,
        state: K::BlockState,
    },
    PersistingDataSources {
        persistence: DataSourcePersistenceModel<K::DataSource, K::BlockState>,
        triggers: Seq<Trigger<K>>,
        runtime_hosts: Seq<K::Host>,
    },
    /// The triggers for the new data sources that wait behind the current one, and the data
    /// sources that were asked for on the way.
    ProcessingInHosts {
        waiting: Seq<Trigger<K>>,
        runtime_hosts: Seq<K::Host>,
        created: Seq<K::Info>,
    },
    CheckingCanceled { state: K::BlockState },
    TakingProof,
    UpdatingProof(ProofUpdateModel<K::Stream, K::BlockState>),
    ComputingModifications,
    EvictingCache(K::Modifications),
    Transacting,
    Finished(BlockResult),
}

impl<K: Indexing> BlockPhase<K> {
    pub open spec fn view(&self) -> BlockPhaseModel<K> {
        match self {
            BlockPhase::OpeningState { pointer_text, triggers } => BlockPhaseModel::OpeningState {
                pointer_text: *pointer_text,
                triggers: triggers@,
            },
            BlockPhase::ProcessingTriggers(pass) => BlockPhaseModel::ProcessingTriggers(pass@),
            BlockPhase::CreatingDataSources { creation, state } =>
                BlockPhaseModel::CreatingDataSources { creation: creation@, state: *state },
            BlockPhase::FindingTriggers { data_sources, runtime_hosts, state } =>
                BlockPhaseModel::FindingTriggers {
                data_sources: data_sources@,
                runtime_hosts: runtime_hosts@,
                state: *state,
            },
            BlockPhase::PersistingDataSources { persistence, triggers, runtime_hosts } =>
                BlockPhaseModel::PersistingDataSources {
                persistence: persistence@,
                triggers: triggers@,
                runtime_hosts: runtime_hosts@,
            },
            BlockPhase::ProcessingInHosts { waiting, runtime_hosts, created } =>
                BlockPhaseModel::ProcessingInHosts {
                waiting: waiting@,
                runtime_hosts: runtime_hosts@,
                created: created@,
            },
            BlockPhase::CheckingCanceled { state } => BlockPhaseModel::CheckingCanceled {
                state: *state,
            },
            BlockPhase::TakingProof => BlockPhaseModel::TakingProof,
            BlockPhase::UpdatingProof(update) => BlockPhaseModel::UpdatingProof(update@),
            BlockPhase::ComputingModifications => BlockPhaseModel::ComputingModifications,
            BlockPhase::EvictingCache(modifications) => BlockPhaseModel::EvictingCache(
                *modifications,
            ),
            BlockPhase::Transacting => BlockPhaseModel::Transacting,
            BlockPhase::Finished(result) => BlockPhaseModel::Finished(*result),
        }
    }
}

/// What stays while a block is processed.
pub struct BlockFrame<K: Indexing> {
    pub ctx: Context<K>,
    /// Size limit of the entity cache, in bytes.
    pub cache_limit: u64,
    /// The type of the entities that hold proofs of indexing.
    pub poi_object: String,
    /// The block, and what identifies it.
    pub ethereum_block: K::Block,
    pub pointer: K::BlockPointer,
    /// Whether the subgraph has to be restarted after the block.
    pub needs_restart: bool,
}

/// What a frame stands for.
pub struct FrameModel<K: Indexing> {
    pub ctx: ContextModel<K::DataSource, K::Template, K::Cache>,
    pub cache_limit: u64,
    pub poi_object: String,
    pub ethereum_block: K::Block,
    pub pointer: K::BlockPointer,
    pub needs_restart: bool,
}

/// A block while it is processed.
pub struct BlockProcessing<K: Indexing> {
    frame: BlockFrame<K>,
    phase: BlockPhase<K>,
}

/// What the processing of a block stands for.
pub struct BlockModel<K: Indexing> {
    pub frame: FrameModel<K>,
    pub phase: BlockPhaseModel<K>,
}

impl<K: Indexing> BlockFrame<K> {
    pub open spec fn view(&self) -> FrameModel<K> {
        FrameModel {
            ctx: self.ctx@,
            cache_limit: self.cache_limit,
            poi_object: self.poi_object,
            ethereum_block: self.ethereum_block,
            pointer: self.pointer,
            needs_restart: self.needs_restart,
        }
    }
}

impl<K: Indexing> FrameModel<K> {
    /// Goes into a phase with something to do.
    pub open spec fn enter(self, phase: BlockPhaseModel<K>, action: BlockAction<K>) -> (
        BlockModel<K>,
        Seq<BlockAction<K>>,
    ) {
        (BlockModel { frame: self, phase }, seq![action])
    }

    /// Stays in a phase, with nothing to do.
    pub open spec fn stay(self, phase: BlockPhaseModel<K>) -> (
        BlockModel<K>,
        Seq<BlockAction<K>>,
    ) {
        (BlockModel { frame: self, phase }, Seq::empty())
    }

    /// Ends with an error.
    pub open spec fn fail(self, error: IndexingError) -> (BlockModel<K>, Seq<BlockAction<K>>) {
        self.enter(
            BlockPhaseModel::Finished(Err(CancelableError::Error(error))),
            BlockAction::Finish,
        )
    }

    /// Goes on where the first pass over the triggers of the block stands. If data sources
    /// have been created, the subgraph has to be restarted after this block.
    pub open spec fn on_triggers(
        self,
        p: TriggerProgressModel<K::Payload, K::Info, K::BlockState>,
    ) -> (BlockModel<K>, Seq<BlockAction<K>>) {
        match p {
            Progress::Ask(pass, (trigger, state)) => self.enter(
                BlockPhaseModel::ProcessingTriggers(pass),
                BlockAction::ProcessTrigger { trigger, state },
            ),
            Progress::Done((created, state)) => FrameModel {
                needs_restart: created.len() > 0,
                ..self
            }.after_pass(created, state),
            Progress::Failed(error) => self.fail(error),
            Progress::Unchanged(pass) => self.stay(BlockPhaseModel::ProcessingTriggers(pass)),
        }
    }

    /// Sets up the data sources that a pass has asked for. Once a pass has asked for none,
    /// the changes of the block are complete.
    pub open spec fn after_pass(self, created: Seq<K::Info>, state: K::BlockState) -> (
        BlockModel<K>,
        Seq<BlockAction<K>>,
    ) {
        if created.len() == 0 {
            self.enter(BlockPhaseModel::CheckingCanceled { state }, BlockAction::CheckCanceled)
        } else {
            self.on_creation(
                DataSourceCreationModel::proceed(created, Seq::empty(), Seq::empty()),
                state,
            )
        }
    }

    /// Goes on where the set-up of new data sources stands.
    pub open spec fn on_creation(
        self,
        p: CreationProgressModel<K::Info, K::DataSource, K::Host>,
        state: K::BlockState,
    ) -> (BlockModel<K>, Seq<BlockAction<K>>) {
        match p {
            Progress::Ask(creation, request) => self.enter(
                BlockPhaseModel::CreatingDataSources { creation, state },
                BlockAction::Create(request),
            ),
            Progress::Done((data_sources, runtime_hosts)) => self.enter(
                BlockPhaseModel::FindingTriggers { data_sources, runtime_hosts, state },
                BlockAction::FindTriggers,
            ),
            Progress::Failed(cause) => self.fail(IndexingError::Other { cause }),
            Progress::Unchanged(creation) => self.stay(
                BlockPhaseModel::CreatingDataSources { creation, state },
            ),
        }
    }

    /// Goes on where the recording of new data sources stands. When all are recorded, the
    /// filters of the block stream are extended by them.
    pub open spec fn on_persistence(
        self,
        p: PersistenceProgressModel<K::DataSource, K::BlockState>,
        triggers: Seq<Trigger<K>>,
        runtime_hosts: Seq<K::Host>,
    ) -> (BlockModel<K>, Seq<BlockAction<K>>) {
        match p {
            Progress::Ask(persistence, request) => self.enter(
                BlockPhaseModel::PersistingDataSources { persistence, triggers, runtime_hosts },
                match request {
                    PersistenceRequest::MakeId => BlockAction::MakeDataSourceId,
                    PersistenceRequest::Record { id, state } => BlockAction::PersistDataSource {
                        deployment_id: self.ctx.inputs.deployment_id,
                        pointer: self.pointer,
                        id,
                        state,
                    },
                },
            ),
            Progress::Done((data_sources, state)) => FrameModel {
                ctx: ContextModel { filters: self.ctx.filters.push(data_sources), ..self.ctx },
                ..self
            }.in_hosts(triggers, runtime_hosts, Seq::empty(), state),
            Progress::Failed(cause) => self.fail(IndexingError::Other { cause }),
            Progress::Unchanged(persistence) => self.stay(
                BlockPhaseModel::PersistingDataSources { persistence, triggers, runtime_hosts },
            ),
        }
    }

    /// Processes the triggers for the new data sources one after the other.
    pub open spec fn in_hosts(
        self,
        waiting: Seq<Trigger<K>>,
        runtime_hosts: Seq<K::Host>,
        created: Seq<K::Info>,
        state: K::BlockState,
    ) -> (BlockModel<K>, Seq<BlockAction<K>>) {
        if waiting.len() == 0 {
            self.after_pass(created, state)
        } else {
            self.enter(
                BlockPhaseModel::ProcessingInHosts {
                    waiting: waiting.skip(1),
                    runtime_hosts,
                    created,
                },
                BlockAction::ProcessInHosts { trigger: waiting[0], state },
            )
        }
    }

    /// Goes on where the update of the proof of indexing stands.
    pub open spec fn on_proof(self, p: ProofProgressModel<K::Stream, K::BlockState>) -> (
        BlockModel<K>,
        Seq<BlockAction<K>>,
    ) {
        match p {
            Progress::Ask(update, request) => self.enter(
                BlockPhaseModel::UpdatingProof(update),
                BlockAction::UpdateProof(request),
            ),
            Progress::Done(state) => self.enter(
                BlockPhaseModel::ComputingModifications,
                BlockAction::ComputeModifications(state),
            ),
            Progress::Failed(cause) => self.fail(IndexingError::Other { cause }),
            Progress::Unchanged(update) => self.stay(BlockPhaseModel::UpdatingProof(update)),
        }
    }
}

impl<K: Indexing> BlockModel<K> {
    /// Begins to process a block.
    pub open spec fn start(
        ctx: ContextModel<K::DataSource, K::Template, K::Cache>,
        cache_limit: u64,
        poi_object: String,
        pointer: K::BlockPointer,
        pointer_text: String,
        ethereum_block: K::Block,
        triggers: Seq<Trigger<K>>,
    ) -> (Self, Seq<BlockAction<K>>) {
        FrameModel {
            ctx: ContextModel { entity_lfu_cache: None, ..ctx },
            cache_limit,
            poi_object,
            ethereum_block,
            pointer,
            needs_restart: false,
        }.enter(
            BlockPhaseModel::OpeningState { pointer_text, triggers },
            BlockAction::OpenBlockState(ctx.entity_lfu_cache),
        )
    }

    /// Whether an event is the answer that is waited for.
    pub open spec fn awaits(self, event: BlockEvent<K>) -> bool {
        match (self.phase, event) {
            (
                BlockPhaseModel::OpeningState { pointer_text, triggers },
                BlockEvent::BlockStateOpened(_),
            ) => true,
            (
                BlockPhaseModel::ProcessingTriggers(_),
                BlockEvent::TriggerProcessed { outcome, elapsed },
            ) => true,
            (
                BlockPhaseModel::CreatingDataSources { creation, state },
                BlockEvent::Create(event),
            ) => creation.awaits(event),
            (
                BlockPhaseModel::FindingTriggers { data_sources, runtime_hosts, state },
                BlockEvent::TriggersFound(_),
            ) => true,
            (
                BlockPhaseModel::PersistingDataSources { persistence, triggers, runtime_hosts },
                BlockEvent::Persist(event),
            ) => persistence.awaits(event),
            (
                BlockPhaseModel::ProcessingInHosts { waiting, runtime_hosts, created },
                BlockEvent::ProcessedInHosts(_),
            ) => true,
            (BlockPhaseModel::CheckingCanceled { state }, BlockEvent::Canceled(_)) => true,
            (BlockPhaseModel::TakingProof, BlockEvent::ProofTaken { state, taken }) => true,
            (BlockPhaseModel::UpdatingProof(update), BlockEvent::UpdateProof(event)) =>
                update.awaits(event),
            (
                BlockPhaseModel::ComputingModifications,
                BlockEvent::ModificationsComputed(_),
            ) => true,
            (BlockPhaseModel::EvictingCache(_), BlockEvent::CacheEvicted(_)) => true,
            (BlockPhaseModel::Transacting, BlockEvent::Transacted { should_migrate, elapsed }) => true,
            _ => false,
        }
    }

    /// Goes on with an answer: the state after it, and what there is to do.
    pub open spec fn next(self, event: BlockEvent<K>) -> (Self, Seq<BlockAction<K>>) {
        let frame = self.frame;
        match (self.phase, event) {
            (
                BlockPhaseModel::OpeningState { pointer_text, triggers },
                BlockEvent::BlockStateOpened(state),
            ) => frame.on_triggers(
                TriggerPassModel::proceed(pointer_text, triggers, Seq::empty(), state),
            ),
            (
                BlockPhaseModel::ProcessingTriggers(pass),
                BlockEvent::TriggerProcessed { outcome, elapsed },
            ) => {
                let (next, actions) = frame.on_triggers(pass.next(outcome));
                let observed = match outcome {
                    Ok(_) => seq![
                        BlockAction::ObserveTrigger(
                            TriggerObservation {
                                trigger_type: pass.current.trigger_type,
                                elapsed,
                            },
                        ),
                    ],
                    Err(_) => Seq::empty(),
                };
                (next, observed + actions)
            },
            (
                BlockPhaseModel::CreatingDataSources { creation, state },
                BlockEvent::Create(event),
            ) => frame.on_creation(creation.next(event), state),
            (
                BlockPhaseModel::FindingTriggers { data_sources, runtime_hosts, state },
                BlockEvent::TriggersFound(Ok(triggers)),
            ) => frame.on_persistence(
                DataSourcePersistenceModel::proceed(data_sources, Seq::empty(), state),
                triggers@,
                runtime_hosts,
            ),
            (
                BlockPhaseModel::FindingTriggers { data_sources, runtime_hosts, state },
                BlockEvent::TriggersFound(Err(cause)),
            ) => frame.fail(IndexingError::Other { cause }),
            (
                BlockPhaseModel::PersistingDataSources { persistence, triggers, runtime_hosts },
                BlockEvent::Persist(event),
            ) => frame.on_persistence(persistence.next(event), triggers, runtime_hosts),
            (
                BlockPhaseModel::ProcessingInHosts { waiting, runtime_hosts, created },
                BlockEvent::ProcessedInHosts(Ok((state, more))),
            ) => frame.in_hosts(waiting, runtime_hosts, created + more@, state),
            (
                BlockPhaseModel::ProcessingInHosts { waiting, runtime_hosts, created },
                BlockEvent::ProcessedInHosts(Err(cause)),
            ) => frame.fail(IndexingError::Other { cause }),
            (BlockPhaseModel::CheckingCanceled { state }, BlockEvent::Canceled(true)) => frame.enter(
                BlockPhaseModel::Finished(Err(CancelableError::Cancel)),
                BlockAction::Finish,
            ),
            (BlockPhaseModel::CheckingCanceled { state }, BlockEvent::Canceled(false)) => frame.enter(
                BlockPhaseModel::TakingProof,
                BlockAction::TakeProof(state),
            ),
            (BlockPhaseModel::TakingProof, BlockEvent::ProofTaken { state, taken }) => frame.on_proof(
                ProofUpdateModel::start(
                    frame.ctx.inputs.deployment_id,
                    frame.poi_object,
                    match taken {
                        Some(regions) => Some(regions@),
                        None => None,
                    },
                    state,
                ),
            ),
            (BlockPhaseModel::UpdatingProof(update), BlockEvent::UpdateProof(event)) =>
                frame.on_proof(update.next(event)),
            (
                BlockPhaseModel::ComputingModifications,
                BlockEvent::ModificationsComputed(Ok((modifications, cache))),
            ) => frame.enter(
                BlockPhaseModel::EvictingCache(modifications),
                BlockAction::EvictCache { cache, limit: frame.cache_limit },
            ),
            (
                BlockPhaseModel::ComputingModifications,
                BlockEvent::ModificationsComputed(Err(cause)),
            ) => frame.fail(IndexingError::BlockStream { cause }),
            (BlockPhaseModel::EvictingCache(modifications), BlockEvent::CacheEvicted(cache)) =>
                FrameModel {
                ctx: ContextModel { entity_lfu_cache: Some(cache), ..frame.ctx },
                ..frame
            }.enter(
                BlockPhaseModel::Transacting,
                BlockAction::Transact {
                    deployment_id: frame.ctx.inputs.deployment_id,
                    pointer: frame.pointer,
                    modifications,
                },
            ),
            (
                BlockPhaseModel::Transacting,
                BlockEvent::Transacted { should_migrate: Ok(should_migrate), elapsed },
            ) => (
                BlockModel { frame, phase: BlockPhaseModel::Finished(Ok(frame.needs_restart)) },
                if should_migrate {
                    seq![
                        BlockAction::ObserveTransaction(elapsed),
                        BlockAction::MigrateDeployment {
                            deployment_id: frame.ctx.inputs.deployment_id,
                            pointer: frame.pointer,
                        },
                        BlockAction::Finish,
                    ]
                } else {
                    seq![BlockAction::ObserveTransaction(elapsed), BlockAction::Finish]
                },
            ),
            (
                BlockPhaseModel::Transacting,
                BlockEvent::Transacted { should_migrate: Err(cause), elapsed },
            ) => frame.fail(IndexingError::BlockStream { cause }),
            _ => (self, Seq::empty()),
        }
    }
}

/// What a step gives: the block, and what there is to do.
pub open spec fn block_step<K: Indexing>(r: (BlockProcessing<K>, Vec<BlockAction<K>>)) -> (
    BlockModel<K>,
    Seq<BlockAction<K>>,
) {
    (r.0@, r.1@)
}

impl<K: Indexing> BlockFrame<K> {
    fn enter(self, phase: BlockPhase<K>, action: BlockAction<K>) -> (r: (
        BlockProcessing<K>,
        Vec<BlockAction<K>>,
    ))
        ensures
            block_step(r) == self@.enter(phase@, action),
    {
        let mut actions: Vec<BlockAction<K>> = Vec::new();
        actions.push(action);
        assert(actions@ =~= seq![action]);
        (BlockProcessing { frame: self, phase }, actions)
    }

    fn stay(self, phase: BlockPhase<K>) -> (r: (BlockProcessing<K>, Vec<BlockAction<K>>))
        ensures
            block_step(r) == self@.stay(phase@),
    {
        (BlockProcessing { frame: self, phase }, Vec::new())
    }

    fn fail(self, error: IndexingError) -> (r: (BlockProcessing<K>, Vec<BlockAction<K>>))
        ensures
            block_step(r) == self@.fail(error),
    {
        self.enter(BlockPhase::Finished(Err(CancelableError::Error(error))), BlockAction::Finish)
    }

    fn on_triggers(self, p: TriggerProgress<K::Payload, K::Info, K::BlockState>) -> (r: (
        BlockProcessing<K>,
        Vec<BlockAction<K>>,
    ))
        ensures
            block_step(r) == self@.on_triggers(trigger_progress(p)),
    {
        match p {
            Progress::Ask(pass, (trigger, state)) => self.enter(
                BlockPhase::ProcessingTriggers(pass),
                BlockAction::ProcessTrigger { trigger, state },
            ),
            Progress::Done((created, state)) => {
                let mut frame = self;
                frame.needs_restart = created.len() > 0;
                frame.after_pass(created, state)
            },
            Progress::Failed(error) => self.fail(error),
            Progress::Unchanged(pass) => self.stay(BlockPhase::ProcessingTriggers(pass)),
        }
    }

    fn after_pass(self, created: Vec<K::Info>, state: K::BlockState) -> (r: (
        BlockProcessing<K>,
        Vec<BlockAction<K>>,
    ))
        ensures
            block_step(r) == self@.after_pass(created@, state),
    {
        if created.len() == 0 {
            self.enter(BlockPhase::CheckingCanceled { state }, BlockAction::CheckCanceled)
        } else {
            self.on_creation(create_dynamic_data_sources(created), state)
        }
    }

    fn on_creation(
        self,
        p: CreationProgress<K::Info, K::DataSource, K::Host>,
        state: K::BlockState,
    ) -> (r: (BlockProcessing<K>, Vec<BlockAction<K>>))
        ensures
            block_step(r) == self@.on_creation(creation_progress(p), state),
    {
        match p {
            Progress::Ask(creation, request) => self.enter(
                BlockPhase::CreatingDataSources { creation, state },
                BlockAction::Create(request),
            ),
            Progress::Done((data_sources, runtime_hosts)) => self.enter(
                BlockPhase::FindingTriggers { data_sources, runtime_hosts, state },
                BlockAction::FindTriggers,
            ),
            Progress::Failed(cause) => self.fail(IndexingError::Other { cause }),
            Progress::Unchanged(creation) => self.stay(
                BlockPhase::CreatingDataSources { creation, state },
            ),
        }
    }

    fn on_persistence(
        self,
        p: PersistenceProgress<K::DataSource, K::BlockState>,
        triggers: Vec<Trigger<K>>,
        runtime_hosts: Vec<K::Host>,
    ) -> (r: (BlockProcessing<K>, Vec<BlockAction<K>>))
        ensures
            block_step(r) == self@.on_persistence(
                persistence_progress(p),
                triggers@,
                runtime_hosts@,
            ),
    {
        match p {
            Progress::Ask(persistence, request) => {
                let action = match request {
                    PersistenceRequest::MakeId => BlockAction::MakeDataSourceId,
                    PersistenceRequest::Record { id, state } => BlockAction::PersistDataSource {
                        deployment_id: self.ctx.inputs.deployment_id.clone(),
                        pointer: self.pointer,
                        id,
                        state,
                    },
                };
                self.enter(
                    BlockPhase::PersistingDataSources { persistence, triggers, runtime_hosts },
                    action,
                )
            },
            Progress::Done((data_sources, state)) => {
                let mut frame = self;
                frame.ctx.extend_filters(data_sources);
                frame.in_hosts(into_queue(triggers), runtime_hosts, Vec::new(), state)
            },
            Progress::Failed(cause) => self.fail(IndexingError::Other { cause }),
            Progress::Unchanged(persistence) => self.stay(
                BlockPhase::PersistingDataSources { persistence, triggers, runtime_hosts },
            ),
        }
    }

    fn in_hosts(
        self,
        waiting: VecDeque<Trigger<K>>,
        runtime_hosts: Vec<K::Host>,
        created: Vec<K::Info>,
        state: K::BlockState,
    ) -> (r: (BlockProcessing<K>, Vec<BlockAction<K>>))
        ensures
            block_step(r) == self@.in_hosts(waiting@, runtime_hosts@, created@, state),
    {
        let mut waiting = waiting;
        match waiting.pop_front() {
            Some(trigger) => self.enter(
                BlockPhase::ProcessingInHosts { waiting, runtime_hosts, created },
                BlockAction::ProcessInHosts { trigger, state },
            ),
            None => self.after_pass(created, state),
        }
    }

    fn on_proof(self, p: ProofProgress<K::Stream, K::BlockState>) -> (r: (
        BlockProcessing<K>,
        Vec<BlockAction<K>>,
    ))
        ensures
            block_step(r) == self@.on_proof(proof_progress(p)),
    {
        match p {
            Progress::Ask(update, request) => self.enter(
                BlockPhase::UpdatingProof(update),
                BlockAction::UpdateProof(request),
            ),
            Progress::Done(state) => self.enter(
                BlockPhase::ComputingModifications,
                BlockAction::ComputeModifications(state),
            ),
            Progress::Failed(cause) => self.fail(IndexingError::Other { cause }),
            Progress::Unchanged(update) => self.stay(BlockPhase::UpdatingProof(update)),
        }
    }

    /// Ends a block whose changes were stored.
    fn stored(self, should_migrate: bool, elapsed: K::Elapsed) -> (r: (
        BlockProcessing<K>,
        Vec<BlockAction<K>>,
    ))
        ensures
            block_step(r) == (BlockModel { frame: self@, phase: BlockPhaseModel::Transacting }).next(
                BlockEvent::Transacted { should_migrate: Ok(should_migrate), elapsed },
            ),
    {
        let mut actions: Vec<BlockAction<K>> = Vec::new();
        actions.push(BlockAction::ObserveTransaction(elapsed));
        if should_migrate {
            let deployment_id = self.ctx.inputs.deployment_id.clone();
            actions.push(BlockAction::MigrateDeployment { deployment_id, pointer: self.pointer });
        }
        actions.push(BlockAction::Finish);
        let phase: BlockPhase<K> = BlockPhase::Finished(Ok(self.needs_restart));
        (BlockProcessing { frame: self, phase }, actions)
    }
}

impl<K: Indexing> BlockProcessing<K> {
    pub closed spec fn view(&self) -> BlockModel<K> {
        BlockModel { frame: self.frame@, phase: self.phase@ }
    }

    /// Goes on with an answer. One that answers no outstanding request changes nothing.
    pub fn step(self, event: BlockEvent<K>) -> (r: (Self, Vec<BlockAction<K>>))
        requires
            event.readable(),
        ensures
            block_step(r) == self@.next(event),
    {
        let BlockProcessing { frame, phase } = self;
        match (phase, event) {
            (
                BlockPhase::OpeningState { pointer_text, triggers },
                BlockEvent::BlockStateOpened(state),
            ) => frame.on_triggers(process_triggers(pointer_text, triggers, state)),
            (
                BlockPhase::ProcessingTriggers(pass),
                BlockEvent::TriggerProcessed { outcome, elapsed },
            ) => {
                let (observation, progress) = pass.step(outcome, elapsed);
                let (next, following) = frame.on_triggers(progress);
                let mut following = following;
                let mut actions: Vec<BlockAction<K>> = Vec::new();
                if let Some(observation) = observation {
                    actions.push(BlockAction::ObserveTrigger(observation));
                }
                actions.append(&mut following);
                assert(actions@ =~= self@.next(event).1);
                (next, actions)
            },
            (BlockPhase::CreatingDataSources { creation, state }, BlockEvent::Create(event)) =>
                frame.on_creation(creation.step(event), state),
            (
                BlockPhase::FindingTriggers { data_sources, runtime_hosts, state },
                BlockEvent::TriggersFound(Ok(triggers)),
            ) => frame.on_persistence(
                persist_dynamic_data_sources(data_sources, state),
                triggers,
                runtime_hosts,
            ),
            (
                BlockPhase::FindingTriggers { data_sources: _, runtime_hosts: _, state: _ },
                BlockEvent::TriggersFound(Err(cause)),
            ) => frame.fail(IndexingError::Other { cause }),
            (
                BlockPhase::PersistingDataSources { persistence, triggers, runtime_hosts },
                BlockEvent::Persist(event),
            ) => frame.on_persistence(persistence.step(event), triggers, runtime_hosts),
            (
                BlockPhase::ProcessingInHosts { waiting, runtime_hosts, created },
                BlockEvent::ProcessedInHosts(Ok((state, more))),
            ) => {
                let mut created = created;
                let mut more = more;
                created.append(&mut more);
                frame.in_hosts(waiting, runtime_hosts, created, state)
            },
            (
                BlockPhase::ProcessingInHosts { waiting: _, runtime_hosts: _, created: _ },
                BlockEvent::ProcessedInHosts(Err(cause)),
            ) => frame.fail(IndexingError::Other { cause }),
            (BlockPhase::CheckingCanceled { state }, BlockEvent::Canceled(canceled)) => {
                if canceled {
                    frame.enter(
                        BlockPhase::Finished(Err(CancelableError::Cancel)),
                        BlockAction::Finish,
                    )
                } else {
                    frame.enter(BlockPhase::TakingProof, BlockAction::TakeProof(state))
                }
            },
            (BlockPhase::TakingProof, BlockEvent::ProofTaken { state, taken }) => {
                let deployment_id = frame.ctx.inputs.deployment_id.clone();
                let poi_object = frame.poi_object.clone();
                frame.on_proof(
                    update_proof_of_indexing(deployment_id, poi_object, taken, state),
                )
            },
            (BlockPhase::UpdatingProof(update), BlockEvent::UpdateProof(event)) => frame.on_proof(
                update.step(event),
            ),
            (
                BlockPhase::ComputingModifications,
                BlockEvent::ModificationsComputed(Ok((modifications, cache))),
            ) => {
                let limit: u64 = frame.cache_limit;
                frame.enter(
                    BlockPhase::EvictingCache(modifications),
                    BlockAction::EvictCache { cache, limit },
                )
            },
            (
                BlockPhase::ComputingModifications,
                BlockEvent::ModificationsComputed(Err(cause)),
            ) => frame.fail(IndexingError::BlockStream { cause }),
            (BlockPhase::EvictingCache(modifications), BlockEvent::CacheEvicted(cache)) => {
                let mut frame = frame;
                frame.ctx.put_entity_cache(cache);
                let deployment_id = frame.ctx.inputs.deployment_id.clone();
                let pointer = frame.pointer;
                frame.enter(
                    BlockPhase::Transacting,
                    BlockAction::Transact { deployment_id, pointer, modifications },
                )
            },
            (
                BlockPhase::Transacting,
                BlockEvent::Transacted { should_migrate: Ok(should_migrate), elapsed },
            ) => frame.stored(should_migrate, elapsed),
            (
                BlockPhase::Transacting,
                BlockEvent::Transacted { should_migrate: Err(cause), elapsed: _ },
            ) => frame.fail(IndexingError::BlockStream { cause }),
            (phase, _) => frame.stay(phase),
        }
    }

    /// The context in which the block is processed.
    pub fn context(&self) -> (ctx: &Context<K>)
        ensures
            ctx@ == self@.frame.ctx,
    {
        &self.frame.ctx
    }

    /// The block without its triggers.
    pub fn ethereum_block(&self) -> (block: &K::Block)
        ensures
            *block == self@.frame.ethereum_block,
    {
        &self.frame.ethereum_block
    }

    /// The data source that gets its host, or is being recorded.
    pub fn current_data_source(&self) -> (r: Option<&K::DataSource>)
        ensures
            match self@.phase {
                BlockPhaseModel::CreatingDataSources { creation, state } => match r {
                    Some(data_source) => creation.current == Some(*data_source),
                    None => creation.current is None,
                },
                BlockPhaseModel::PersistingDataSources {
                    persistence,
                    triggers,
                    runtime_hosts,
                } => r == Some(&persistence.current),
                _ => r is None,
            },
    {
        match &self.phase {
            BlockPhase::CreatingDataSources { creation, state: _ } => creation.current(),
            BlockPhase::PersistingDataSources { persistence, triggers: _, runtime_hosts: _ } =>
                Some(persistence.current()),
            _ => None,
        }
    }

    /// The new data sources for which the block is searched.
    pub fn new_data_sources(&self) -> (r: Option<&Vec<K::DataSource>>)
        ensures
            match self@.phase {
                BlockPhaseModel::FindingTriggers { data_sources, runtime_hosts, state } => r is Some
                    && r->Some_0@ == data_sources,
                _ => r is None,
            },
    {
        match &self.phase {
            BlockPhase::FindingTriggers { data_sources, runtime_hosts: _, state: _ } => Some(
                data_sources,
            ),
            _ => None,
        }
    }

    /// The hosts of the new data sources whose handlers run, in the order in which the data
    /// sources have been created.
    pub fn runtime_hosts(&self) -> (r: Option<&Vec<K::Host>>)
        ensures
            match self@.phase {
                BlockPhaseModel::ProcessingInHosts { waiting, runtime_hosts, created } => r is Some
                    && r->Some_0@ == runtime_hosts,
                _ => r is None,
            },
    {
        match &self.phase {
            BlockPhase::ProcessingInHosts { waiting: _, runtime_hosts, created: _ } => Some(
                runtime_hosts,
            ),
            _ => None,
        }
    }

    /// What has come of the block: the updated context and a flag that says whether new
    /// dynamic data sources have been added to the subgraph; an error; or `None` while the
    /// block is still being processed.
    pub fn into_result(self) -> (r: Option<
        Result<(Context<K>, bool), CancelableError<IndexingError>>,
    >)
        ensures
            match self@.phase {
                BlockPhaseModel::Finished(Ok(needs_restart)) => r is Some && (r->Some_0 matches Ok(
                    (ctx, restart),
                ) && ctx@ == self@.frame.ctx && restart == needs_restart),
                BlockPhaseModel::Finished(Err(error)) => r is Some && r->Some_0 == Result::<
                    (Context<K>, bool),
                    CancelableError<IndexingError>,
                >::Err(error),
                _ => r is None,
            },
    {
        match self.phase {
            BlockPhase::Finished(Ok(needs_restart)) => Some(Ok((self.frame.ctx, needs_restart))),
            BlockPhase::Finished(Err(error)) => Some(Err(error)),
            _ => None,
        }
    }
}

/// Begins to process a block. `pointer` identifies the block, and `pointer_text` is how it is
/// displayed; `cache_limit` is the size limit of the entity cache in bytes, and `poi_object`
/// the type of the entities that hold proofs of indexing.
pub fn process_block<K: Indexing>(
    ctx: Context<K>,
    cache_limit: u64,
    poi_object: String,
    pointer: K::BlockPointer,
    pointer_text: String,
    block: BlockWithTriggers<K>,
) -> (r: (BlockProcessing<K>, Vec<BlockAction<K>>))
    ensures
        block_step(r) == BlockModel::<K>::start(
            ctx@,
            cache_limit,
            poi_object,
            pointer,
            pointer_text,
            block.ethereum_block,
            block.triggers@,
        ),
{
    let mut ctx = ctx;
    let cache = ctx.take_entity_cache();
    let BlockWithTriggers { ethereum_block, triggers } = block;
    let frame = BlockFrame {
        ctx,
        cache_limit,
        poi_object,
        ethereum_block,
        pointer,
        needs_restart: false,
    };
    frame.enter(
        BlockPhase::OpeningState { pointer_text, triggers },
        BlockAction::OpenBlockState(cache),
    )
}

} // verus!
