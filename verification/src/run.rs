//! How a subgraph runs: block by block, with a new block stream whenever a block has created
//! data sources.
use crate::block::{BlockWithTriggers, Context, Indexing};
use crate::context::{IndexingContext, IndexingState};
use crate::error::{CancelableError, IndexingError};
use vstd::prelude::*;

verus! {

/// What has come of a block: the updated context, and whether data sources were created.
pub type ProcessedBlock<K> = Result<(Context<K>, bool), CancelableError<IndexingError>>;

/// What a running subgraph learns.
pub enum RunEvent<K: Indexing> {
    /// The block stream delivers a block.
    Block(BlockWithTriggers<K>),
    /// The block stream has reverted a block.
    Revert,
    /// The block stream produced a non-fatal error.
    StreamError(String),
    /// A block was processed, or could not be.
    BlockProcessed { result: ProcessedBlock<K>, elapsed: K::Elapsed },
}

impl<K: Indexing> RunEvent<K> {
    /// The restart that the event calls for can still be counted.
    pub open spec fn countable(self) -> bool {
        self matches RunEvent::BlockProcessed { result: Ok((ctx, true)), elapsed }
            ==> ctx.state.restarts < u64::MAX
    }

    pub fn is_countable(&self) -> (r: bool)
        ensures
            r == self.countable(),
    {
        match self {
            RunEvent::BlockProcessed { result: Ok((ctx, needs_restart)), elapsed: _ } => {
                !*needs_restart || ctx.state.restarts < u64::MAX
            },
            _ => true,
        }
    }
}

/// What there is to do for a running subgraph.
pub enum RunAction<K: Indexing> {
    /// Build a block stream from what `stream_request` gives.
    BuildStream,
    /// Keep the cancel guard of the block stream, to be able to shut it down when the
    /// deployment is unassigned.
    RegisterGuard { deployment_id: String },
    /// Drop the cancel guard, which cancels the block stream for real.
    ReleaseGuard { deployment_id: String },
    /// Wait for the next event of the block stream.
    AwaitEvent,
    /// Feed the sensor for the number of triggers in a block.
    ObserveTriggerCount(usize),
    /// Process a block in a context.
    ProcessBlock { ctx: Context<K>, block: BlockWithTriggers<K> },
    /// Feed the sensor for the time that it takes to process a block.
    ObserveBlockDuration(K::Elapsed),
    /// Set the status `failed` of the deployment to this, because of an error.
    SetFailed { deployment_id: String, failed: bool, error: IndexingError },
    /// Give up the sensors of the subgraph.
    UnregisterMetrics,
    /// The subgraph has stopped to run: it is not being indexed any more.
    Terminate,
}

/// What a running subgraph waits for.
pub enum RunPhase<K: Indexing> {
    /// The next event of the block stream.
    Streaming(Context<K>),
    /// The end of the processing of a block, which has the context.
    Processing,
    /// Nothing: it runs no longer.
    Terminated,
}

/// A running subgraph.
pub struct SubgraphRun<K: Indexing> {
    pub deployment_id: String,
    pub phase: RunPhase<K>,
}

/// What a block stream is built from.
pub struct StreamRequest<'a, K: Indexing> {
    pub deployment_id: &'a String,
    pub network_name: &'a String,
    pub start_blocks: &'a Vec<u64>,
    /// The data sources that the log, call and block filters are made from.
    pub filters: &'a Vec<Vec<K::DataSource>>,
    /// Whether all blocks have to come with their calls.
    pub templates_use_calls: bool,
}

/// The context after a restart has been counted.
pub open spec fn restarted<D, P, C>(ctx: IndexingContext<D, P, C>) -> IndexingContext<D, P, C> {
    IndexingContext {
        inputs: ctx.inputs,
        state: IndexingState {
            filters: ctx.state.filters,
            restarts: (ctx.state.restarts + 1) as u64,
            entity_lfu_cache: ctx.state.entity_lfu_cache,
        },
    }
}

/// The context with an empty entity cache.
pub open spec fn reverted<D, P, C>(ctx: IndexingContext<D, P, C>) -> IndexingContext<D, P, C> {
    IndexingContext {
        inputs: ctx.inputs,
        state: IndexingState {
            filters: ctx.state.filters,
            restarts: ctx.state.restarts,
            entity_lfu_cache: None,
        },
    }
}

impl<K: Indexing> SubgraphRun<K> {
    /// What there is to do to have blocks delivered: at the start, and again after a block
    /// has created data sources, so that the stream includes events for those.
    pub open spec fn streaming(deployment_id: String) -> Seq<RunAction<K>> {
        seq![
            RunAction::BuildStream,
            RunAction::RegisterGuard { deployment_id },
            RunAction::AwaitEvent,
        ]
    }

    /// What the block stream is built from, where the subgraph waits for its events.
    pub fn stream_request(&self) -> (r: Option<StreamRequest<'_, K>>)
        ensures
            match self.phase {
                RunPhase::Streaming(ctx) => {
                    &&& r matches Some(request)
                    &&& *request.deployment_id == ctx.inputs.deployment_id
                    &&& *request.network_name == ctx.inputs.network_name
                    &&& *request.start_blocks == ctx.inputs.start_blocks
                    &&& *request.filters == ctx.state.filters
                    &&& request.templates_use_calls == ctx.inputs.templates_use_calls
                },
                _ => r is None,
            },
    {
        match &self.phase {
            RunPhase::Streaming(ctx) => Some(
                StreamRequest {
                    deployment_id: &ctx.inputs.deployment_id,
                    network_name: &ctx.inputs.network_name,
                    start_blocks: &ctx.inputs.start_blocks,
                    filters: &ctx.state.filters,
                    templates_use_calls: ctx.inputs.templates_use_calls,
                },
            ),
            _ => None,
        }
    }

    /// Whether an event is one that can come.
    pub open spec fn awaits(self, event: RunEvent<K>) -> bool {
        match self.phase {
            RunPhase::Streaming(_) => event !is BlockProcessed,
            RunPhase::Processing => event is BlockProcessed,
            RunPhase::Terminated => false,
        }
    }

    /// What the subgraph does with an event: the state after it, and what there is to do.
    pub open spec fn next(self, event: RunEvent<K>) -> (Self, Seq<RunAction<K>>) {
        let id = self.deployment_id;
        match (self.phase, event) {
            (RunPhase::Streaming(ctx), RunEvent::Block(block)) => (
                SubgraphRun { deployment_id: id, phase: RunPhase::Processing },
                (if block.triggers@.len() > 0 {
                    seq![RunAction::ObserveTriggerCount(block.triggers@.len() as usize)]
                } else {
                    Seq::empty()
                }) + seq![RunAction::ProcessBlock { ctx, block }],
            ),
            (RunPhase::Streaming(ctx), RunEvent::Revert) => (
                SubgraphRun { deployment_id: id, phase: RunPhase::Streaming(reverted(ctx)) },
                seq![RunAction::AwaitEvent],
            ),
            (RunPhase::Streaming(ctx), RunEvent::StreamError(_)) => (
                self,
                seq![RunAction::AwaitEvent],
            ),
            (
                RunPhase::Processing,
                RunEvent::BlockProcessed { result: Ok((ctx, false)), elapsed },
            ) => (
                SubgraphRun { deployment_id: id, phase: RunPhase::Streaming(ctx) },
                seq![RunAction::ObserveBlockDuration(elapsed), RunAction::AwaitEvent],
            ),
            (
                RunPhase::Processing,
                RunEvent::BlockProcessed { result: Ok((ctx, true)), elapsed },
            ) => (
                SubgraphRun { deployment_id: id, phase: RunPhase::Streaming(restarted(ctx)) },
                seq![
                    RunAction::ObserveBlockDuration(elapsed),
                    RunAction::ReleaseGuard { deployment_id: id },
                ] + Self::streaming(id),
            ),
            (
                RunPhase::Processing,
                RunEvent::BlockProcessed { result: Err(CancelableError::Cancel), elapsed },
            ) => (
                SubgraphRun { deployment_id: id, phase: RunPhase::Terminated },
                seq![
                    RunAction::ObserveBlockDuration(elapsed),
                    RunAction::UnregisterMetrics,
                    RunAction::Terminate,
                ],
            ),
            (
                RunPhase::Processing,
                RunEvent::BlockProcessed { result: Err(CancelableError::Error(error)), elapsed },
            ) => (
                SubgraphRun { deployment_id: id, phase: RunPhase::Terminated },
                seq![
                    RunAction::ObserveBlockDuration(elapsed),
                    RunAction::SetFailed { deployment_id: id, failed: true, error },
                    RunAction::UnregisterMetrics,
                    RunAction::Terminate,
                ],
            ),
            _ => (self, Seq::empty()),
        }
    }

    /// What the subgraph does with an event. One that cannot come changes nothing.
    pub fn step(self, event: RunEvent<K>) -> (r: (Self, Vec<RunAction<K>>))
        requires
            event.countable(),
        ensures
            (r.0, r.1@) == self.next(event),
    {
        let id = self.deployment_id;
        let mut actions: Vec<RunAction<K>> = Vec::new();
        let phase = match (self.phase, event) {
            (RunPhase::Streaming(ctx), RunEvent::Block(block)) => {
                if block.triggers.len() > 0 {
                    actions.push(RunAction::ObserveTriggerCount(block.triggers.len()));
                }
                actions.push(RunAction::ProcessBlock { ctx, block });
                RunPhase::Processing
            },
            (RunPhase::Streaming(ctx), RunEvent::Revert) => {
                let mut ctx = ctx;
                ctx.state.entity_lfu_cache = None;
                actions.push(RunAction::AwaitEvent);
                RunPhase::Streaming(ctx)
            },
            (RunPhase::Streaming(ctx), RunEvent::StreamError(_)) => {
                actions.push(RunAction::AwaitEvent);
                RunPhase::Streaming(ctx)
            },
            (
                RunPhase::Processing,
                RunEvent::BlockProcessed { result: Ok((ctx, needs_restart)), elapsed },
            ) => {
                actions.push(RunAction::ObserveBlockDuration(elapsed));
                let mut ctx = ctx;
                if needs_restart {
                    ctx.state.restarts = ctx.state.restarts + 1;
                    actions.push(RunAction::ReleaseGuard { deployment_id: id.clone() });
                    actions.push(RunAction::BuildStream);
                    actions.push(RunAction::RegisterGuard { deployment_id: id.clone() });
                }
                actions.push(RunAction::AwaitEvent);
                RunPhase::Streaming(ctx)
            },
            (
                RunPhase::Processing,
                RunEvent::BlockProcessed { result: Err(CancelableError::Cancel), elapsed },
            ) => {
                actions.push(RunAction::ObserveBlockDuration(elapsed));
                actions.push(RunAction::UnregisterMetrics);
                actions.push(RunAction::Terminate);
                RunPhase::Terminated
            },
            (
                RunPhase::Processing,
                RunEvent::BlockProcessed { result: Err(CancelableError::Error(error)), elapsed },
            ) => {
                actions.push(RunAction::ObserveBlockDuration(elapsed));
                actions.push(
                    RunAction::SetFailed { deployment_id: id.clone(), failed: true, error },
                );
                actions.push(RunAction::UnregisterMetrics);
                actions.push(RunAction::Terminate);
                RunPhase::Terminated
            },
            (phase, _) => phase,
        };
        assert(actions@ =~= self.next(event).1);
        (SubgraphRun { deployment_id: id, phase }, actions)
    }
}

/// Begins to run a subgraph.
pub fn run_subgraph<K: Indexing>(ctx: Context<K>) -> (r: (SubgraphRun<K>, Vec<RunAction<K>>))
    ensures
        r.0 == (SubgraphRun::<K> {
            deployment_id: ctx.inputs.deployment_id,
            phase: RunPhase::Streaming(ctx),
        }),
        r.1@ == SubgraphRun::<K>::streaming(ctx.inputs.deployment_id),
        r.1@ == seq![
            RunAction::<K>::BuildStream,
            RunAction::RegisterGuard { deployment_id: ctx.inputs.deployment_id },
            RunAction::AwaitEvent,
        ],
{
    let id = ctx.inputs.deployment_id.clone();
    let mut actions: Vec<RunAction<K>> = Vec::new();
    actions.push(RunAction::BuildStream);
    actions.push(RunAction::RegisterGuard { deployment_id: id.clone() });
    actions.push(RunAction::AwaitEvent);
    (SubgraphRun { deployment_id: id, phase: RunPhase::Streaming(ctx) }, actions)
}

} // verus!
