//! What holds of every subgraph, however long it runs.
use crate::block::{BlockEvent, BlockPhaseModel, BlockWithTriggers, Context, Indexing};
use crate::block_laws::{
    answered, filtered, law_inputs_are_kept, law_processed_block_is_complete,
    law_restart_iff_data_sources_created, made, run_block, BlockInput,
};
use crate::error::{CancelableError, IndexingError};
use crate::history::{gather, lemma_gather_add, lemma_gather_few};
use crate::instances::GuardOp;
use crate::run::{restarted, reverted, RunAction, RunEvent, RunPhase, SubgraphRun};
use vstd::prelude::*;

verus! {

/// How a subgraph stands after these events, and all that there was to do on the way.
pub open spec fn run_events<K: Indexing>(ctx: Context<K>, events: Seq<RunEvent<K>>) -> (
    SubgraphRun<K>,
    Seq<RunAction<K>>,
)
    decreases events.len(),
{
    if events.len() == 0 {
        (
            SubgraphRun {
                deployment_id: ctx.inputs.deployment_id,
                phase: RunPhase::Streaming(ctx),
            },
            SubgraphRun::streaming(ctx.inputs.deployment_id),
        )
    } else {
        let (state, actions) = run_events(ctx, events.drop_last());
        let (next, more) = state.next(events.last());
        (next, actions + more)
    }
}

/// Each event is one that can come when it does.
pub open spec fn expected<K: Indexing>(ctx: Context<K>, events: Seq<RunEvent<K>>) -> bool
    decreases events.len(),
{
    events.len() > 0 ==> {
        &&& expected(ctx, events.drop_last())
        &&& run_events(ctx, events.drop_last()).0.awaits(events.last())
    }
}

impl<K: Indexing> RunEvent<K> {
    /// The block that is delivered.
    pub open spec fn delivered(self) -> Seq<BlockWithTriggers<K>> {
        match self {
            RunEvent::Block(block) => seq![block],
            _ => Seq::empty(),
        }
    }

    /// One item if a block has created data sources.
    pub open spec fn restart(self) -> Seq<()> {
        match self {
            RunEvent::BlockProcessed { result: Ok((_, true)), elapsed } => seq![()],
            _ => Seq::empty(),
        }
    }

    /// The error that a block has failed with, unless it was canceled.
    pub open spec fn failure(self) -> Seq<IndexingError> {
        match self {
            RunEvent::BlockProcessed {
                result: Err(CancelableError::Error(error)),
                elapsed,
            } => seq![error],
            _ => Seq::empty(),
        }
    }

    /// One item if a block could not be processed.
    pub open spec fn end(self) -> Seq<()> {
        match self {
            RunEvent::BlockProcessed { result: Err(_), elapsed } => seq![()],
            _ => Seq::empty(),
        }
    }
}

impl<K: Indexing> RunAction<K> {
    /// One item for a block stream that is built.
    pub open spec fn built(self) -> Seq<()> {
        match self {
            RunAction::BuildStream => seq![()],
            _ => Seq::empty(),
        }
    }

    /// Whether the cancel guard is registered, or released.
    pub open spec fn guard(self) -> Seq<bool> {
        match self {
            RunAction::RegisterGuard { deployment_id } => seq![true],
            RunAction::ReleaseGuard { deployment_id } => seq![false],
            _ => Seq::empty(),
        }
    }

    /// The block that is processed.
    pub open spec fn processed(self) -> Seq<BlockWithTriggers<K>> {
        match self {
            RunAction::ProcessBlock { ctx, block } => seq![block],
            _ => Seq::empty(),
        }
    }

    /// The context in which a block is processed.
    pub open spec fn lent(self) -> Seq<Context<K>> {
        match self {
            RunAction::ProcessBlock { ctx, block } => seq![ctx],
            _ => Seq::empty(),
        }
    }

    /// The error because of which the deployment is marked as failed.
    pub open spec fn failure(self) -> Seq<IndexingError> {
        match self {
            RunAction::SetFailed { deployment_id, failed, error } => seq![error],
            _ => Seq::empty(),
        }
    }

    /// One item if the sensors are given up.
    pub open spec fn unregistered(self) -> Seq<()> {
        match self {
            RunAction::UnregisterMetrics => seq![()],
            _ => Seq::empty(),
        }
    }

    /// The deployment that the action is about is this, where it is about one, and a status
    /// that is set is that it has failed.
    pub open spec fn is_about(self, id: String) -> bool {
        match self {
            RunAction::RegisterGuard { deployment_id } => deployment_id == id,
            RunAction::ReleaseGuard { deployment_id } => deployment_id == id,
            RunAction::SetFailed { deployment_id, failed, error } => deployment_id == id && failed,
            _ => true,
        }
    }
}

/// The restarts that blocks have called for.
pub open spec fn restarts<K: Indexing>(events: Seq<RunEvent<K>>) -> Seq<()> {
    gather(events, |event: RunEvent<K>| event.restart())
}

/// The blocks that the block stream delivers, in order.
pub open spec fn delivered<K: Indexing>(events: Seq<RunEvent<K>>) -> Seq<BlockWithTriggers<K>> {
    gather(events, |event: RunEvent<K>| event.delivered())
}

/// The errors that blocks have failed with.
pub open spec fn failures<K: Indexing>(events: Seq<RunEvent<K>>) -> Seq<IndexingError> {
    gather(events, |event: RunEvent<K>| event.failure())
}

/// The blocks that could not be processed.
pub open spec fn ends<K: Indexing>(events: Seq<RunEvent<K>>) -> Seq<()> {
    gather(events, |event: RunEvent<K>| event.end())
}

/// The block streams that are built.
pub open spec fn built<K: Indexing>(actions: Seq<RunAction<K>>) -> Seq<()> {
    gather(actions, |action: RunAction<K>| action.built())
}

/// What is done to the cancel guard, in order.
pub open spec fn guards<K: Indexing>(actions: Seq<RunAction<K>>) -> Seq<bool> {
    gather(actions, |action: RunAction<K>| action.guard())
}

/// The blocks that are processed, in order.
pub open spec fn processed<K: Indexing>(actions: Seq<RunAction<K>>) -> Seq<BlockWithTriggers<K>> {
    gather(actions, |action: RunAction<K>| action.processed())
}

/// The contexts in which blocks are processed, in order.
pub open spec fn lent<K: Indexing>(actions: Seq<RunAction<K>>) -> Seq<Context<K>> {
    gather(actions, |action: RunAction<K>| action.lent())
}

/// The errors because of which the deployment is marked as failed.
pub open spec fn marked<K: Indexing>(actions: Seq<RunAction<K>>) -> Seq<IndexingError> {
    gather(actions, |action: RunAction<K>| action.failure())
}

/// How often the sensors are given up.
pub open spec fn unregistered<K: Indexing>(actions: Seq<RunAction<K>>) -> Seq<()> {
    gather(actions, |action: RunAction<K>| action.unregistered())
}

/// The cancel guard is registered, released, registered and so on, and is left registered.
pub open spec fn alternates(guards: Seq<bool>) -> bool {
    &&& guards.len() % 2 == 1
    &&& forall|i: int| 0 <= i < guards.len() ==> #[trigger] guards[i] == (i % 2 == 0)
}

/// The block stream is built at the start and once more for every block that has created
/// data sources, and at no other time. There is always a guard by which the current stream
/// can be shut down: it is registered with the stream, and the guard of the old stream is
/// released before.
pub proof fn law_stream_is_rebuilt_for_data_sources<K: Indexing>(
    ctx: Context<K>,
    events: Seq<RunEvent<K>>,
)
    requires
        expected(ctx, events),
    ensures
        built(run_events(ctx, events).1).len() == 1 + restarts(events).len(),
        guards(run_events(ctx, events).1).len() == 1 + 2 * restarts(events).len(),
        alternates(guards(run_events(ctx, events).1)),
    decreases events.len(),
{
    let part_built = |action: RunAction<K>| action.built();
    let part_guard = |action: RunAction<K>| action.guard();
    if events.len() == 0 {
        lemma_gather_few(run_events(ctx, events).1, part_built);
        lemma_gather_few(run_events(ctx, events).1, part_guard);
        assert(guards(run_events(ctx, events).1) =~= seq![true]);
    } else {
        let (state, actions) = run_events(ctx, events.drop_last());
        let more = state.next(events.last()).1;
        law_stream_is_rebuilt_for_data_sources(ctx, events.drop_last());
        lemma_gather_add(actions, more, part_built);
        lemma_gather_add(actions, more, part_guard);
        lemma_gather_few(more, part_built);
        lemma_gather_few(more, part_guard);
        let change = gather(more, part_guard);
        assert(change =~= if events.last().restart().len() > 0 {
            seq![false, true]
        } else {
            Seq::empty()
        });
        assert(guards(actions + more) =~= guards(actions) + change);
    }
}

/// Blocks are processed one at a time, in the order in which the block stream delivers
/// them, and as they come.
pub proof fn law_blocks_are_processed_in_order<K: Indexing>(
    ctx: Context<K>,
    events: Seq<RunEvent<K>>,
)
    requires
        expected(ctx, events),
    ensures
        processed(run_events(ctx, events).1) == delivered(events),
    decreases events.len(),
{
    let part = |action: RunAction<K>| action.processed();
    if events.len() == 0 {
        lemma_gather_few(run_events(ctx, events).1, part);
        assert(processed(run_events(ctx, events).1) =~= delivered(events));
    } else {
        let (state, actions) = run_events(ctx, events.drop_last());
        let more = state.next(events.last()).1;
        law_blocks_are_processed_in_order(ctx, events.drop_last());
        lemma_gather_add(actions, more, part);
        lemma_gather_few(more, part);
        assert(gather(more, part) =~= events.last().delivered());
    }
}

/// A deployment is marked as failed exactly for the error that a block has failed with, and
/// not when its block stream has been canceled. Either ends the run, and the sensors are
/// given up then and not before. All this is about the deployment itself.
#[verifier::rlimit(40)]
pub proof fn law_only_errors_mark_failure<K: Indexing>(ctx: Context<K>, events: Seq<RunEvent<K>>)
    requires
        expected(ctx, events),
    ensures
        ({
            let (state, actions) = run_events(ctx, events);
            &&& marked(actions) == failures(events)
            &&& marked(actions).len() <= 1
            &&& state.phase is Terminated <==> ends(events).len() == 1
            &&& state.phase !is Terminated <==> ends(events).len() == 0
            &&& unregistered(actions).len() == ends(events).len()
            &&& forall|i: int|
                0 <= i < actions.len() ==> (#[trigger] actions[i]).is_about(
                    ctx.inputs.deployment_id,
                )
        }),
    decreases events.len(),
{
    lemma_run_keeps_id(ctx, events);
    let part_failure = |action: RunAction<K>| action.failure();
    let part_unregistered = |action: RunAction<K>| action.unregistered();
    if events.len() == 0 {
        lemma_gather_few(run_events(ctx, events).1, part_failure);
        lemma_gather_few(run_events(ctx, events).1, part_unregistered);
        assert(marked(run_events(ctx, events).1) =~= failures(events));
    } else {
        let (state, actions) = run_events(ctx, events.drop_last());
        let more = state.next(events.last()).1;
        law_only_errors_mark_failure(ctx, events.drop_last());
        lemma_gather_add(actions, more, part_failure);
        lemma_gather_add(actions, more, part_unregistered);
        lemma_gather_few(more, part_failure);
        lemma_gather_few(more, part_unregistered);
        assert(gather(more, part_failure) =~= events.last().failure());
        assert(gather(more, part_unregistered) =~= events.last().end());
        lemma_failures_end_runs(events.drop_last());
    }
}

proof fn lemma_failures_end_runs<K: Indexing>(events: Seq<RunEvent<K>>)
    ensures
        failures(events).len() <= ends(events).len(),
    decreases events.len(),
{
    if events.len() > 0 {
        lemma_failures_end_runs(events.drop_last());
    }
}

proof fn lemma_run_keeps_id<K: Indexing>(ctx: Context<K>, events: Seq<RunEvent<K>>)
    ensures
        run_events(ctx, events).0.deployment_id == ctx.inputs.deployment_id,
        forall|i: int|
            0 <= i < run_events(ctx, events).1.len() ==> (#[trigger] run_events(
                ctx,
                events,
            ).1[i]).is_about(ctx.inputs.deployment_id),
    decreases events.len(),
{
    if events.len() > 0 {
        lemma_run_keeps_id(ctx, events.drop_last());
    }
}

/// When a block is reverted the entity cache is empty afterwards, and the rest of the context
/// is what it was; errors of the block stream change nothing. The subgraph goes on to wait
/// for events after either.
pub proof fn law_revert_empties_cache<K: Indexing>(
    run: SubgraphRun<K>,
    ctx: Context<K>,
    error: String,
)
    requires
        run.phase == RunPhase::<K>::Streaming(ctx),
    ensures
        ({
            let (after, actions) = run.next(RunEvent::Revert);
            &&& after.phase matches RunPhase::Streaming(kept)
            &&& kept.state.entity_lfu_cache is None
            &&& kept.inputs == ctx.inputs
            &&& kept.state.filters == ctx.state.filters
            &&& kept.state.restarts == ctx.state.restarts
            &&& actions == seq![RunAction::<K>::AwaitEvent]
        }),
        run.next(RunEvent::StreamError(error)) == (run, seq![RunAction::<K>::AwaitEvent]),
{
}

/// Each block gives back the context that it was lent as far as inputs and the number of
/// restarts go.
pub open spec fn given_back<K: Indexing>(ctx: Context<K>, events: Seq<RunEvent<K>>) -> bool
    decreases events.len(),
{
    events.len() > 0 ==> {
        &&& given_back(ctx, events.drop_last())
        &&& events.last() matches RunEvent::BlockProcessed { result: Ok((back, _)), elapsed } ==> {
            let out = lent(run_events(ctx, events.drop_last()).1).last();
            back.inputs == out.inputs && back.state.restarts == out.state.restarts
        }
    }
}

/// A context, with the word that a restart is needed or not, is what the processing of a
/// block in another context has given back.
pub open spec fn comes_of_a_block<K: Indexing>(
    lent: Context<K>,
    back: Context<K>,
    needs_restart: bool,
) -> bool {
    exists|input: BlockInput<K>, answers: Seq<BlockEvent<K>>|
        {
            &&& input.ctx == lent@
            &&& answered(input, answers)
            &&& (#[trigger] run_block(input, answers)).0.phase == BlockPhaseModel::<K>::Finished(
                Ok(needs_restart),
            )
            &&& back@ == run_block(input, answers).0.frame.ctx
        }
}

/// What is said to have come of each block is what its processing has given back, in the
/// context that it was lent.
pub open spec fn blocks_were_processed<K: Indexing>(
    ctx: Context<K>,
    events: Seq<RunEvent<K>>,
) -> bool
    decreases events.len(),
{
    events.len() > 0 ==> {
        &&& blocks_were_processed(ctx, events.drop_last())
        &&& events.last() matches RunEvent::BlockProcessed {
            result: Ok((back, needs_restart)),
            elapsed,
        } ==> comes_of_a_block::<K>(
            lent(run_events(ctx, events.drop_last()).1).last(),
            back,
            needs_restart,
        )
    }
}

/// A block that is processed gives back the context that it was lent as far as inputs and
/// the number of restarts go, and so do all blocks of a run.
pub proof fn law_processed_blocks_give_context_back<K: Indexing>(
    ctx: Context<K>,
    events: Seq<RunEvent<K>>,
)
    requires
        blocks_were_processed(ctx, events),
    ensures
        given_back(ctx, events),
    decreases events.len(),
{
    if events.len() > 0 {
        law_processed_blocks_give_context_back(ctx, events.drop_last());
        if let RunEvent::BlockProcessed { result: Ok((back, needs_restart)), elapsed: _ }
            = events.last() {
            let out = lent(run_events(ctx, events.drop_last()).1).last();
            let (input, answers) = choose|input: BlockInput<K>, answers: Seq<BlockEvent<K>>|
                {
                    &&& input.ctx == out@
                    &&& answered(input, answers)
                    &&& (#[trigger] run_block(input, answers)).0.phase == BlockPhaseModel::<
                        K,
                    >::Finished(Ok(needs_restart))
                    &&& back@ == run_block(input, answers).0.frame.ctx
                };
            law_inputs_are_kept(input, answers);
        }
    }
}

/// The context counts the restarts: as often as a block has called for one, on top of what
/// it counted at the start. Its inputs never change.
pub proof fn law_restarts_are_counted<K: Indexing>(ctx: Context<K>, events: Seq<RunEvent<K>>)
    requires
        expected(ctx, events),
        blocks_were_processed(ctx, events),
        ctx.state.restarts + restarts(events).len() <= u64::MAX,
    ensures
        match run_events(ctx, events).0.phase {
            RunPhase::Streaming(now) => now.inputs == ctx.inputs && now.state.restarts
                == ctx.state.restarts + restarts(events).len(),
            RunPhase::Processing => {
                let now = lent(run_events(ctx, events).1).last();
                now.inputs == ctx.inputs && now.state.restarts == ctx.state.restarts + restarts(
                    events,
                ).len()
            },
            RunPhase::Terminated => true,
        },
{
    law_processed_blocks_give_context_back(ctx, events);
    lemma_restarts_are_counted(ctx, events);
}

proof fn lemma_restarts_are_counted<K: Indexing>(ctx: Context<K>, events: Seq<RunEvent<K>>)
    requires
        expected(ctx, events),
        given_back(ctx, events),
        ctx.state.restarts + restarts(events).len() <= u64::MAX,
    ensures
        match run_events(ctx, events).0.phase {
            RunPhase::Streaming(now) => now.inputs == ctx.inputs && now.state.restarts
                == ctx.state.restarts + restarts(events).len(),
            RunPhase::Processing => {
                let now = lent(run_events(ctx, events).1).last();
                now.inputs == ctx.inputs && now.state.restarts == ctx.state.restarts + restarts(
                    events,
                ).len()
            },
            RunPhase::Terminated => true,
        },
    decreases events.len(),
{
    if events.len() > 0 {
        let part = |action: RunAction<K>| action.lent();
        let (state, actions) = run_events(ctx, events.drop_last());
        let more = state.next(events.last()).1;
        lemma_restarts_are_counted(ctx, events.drop_last());
        lemma_gather_add(actions, more, part);
        lemma_gather_few(more, part);
    }
}

/// After a block that has created data sources, the block stream is built anew, and the
/// filters that it is built from cover the new data sources on top of the old ones: it
/// includes events for them going forward.
pub proof fn law_rebuilt_stream_covers_new_data_sources<K: Indexing>(
    run: SubgraphRun<K>,
    input: BlockInput<K>,
    answers: Seq<BlockEvent<K>>,
    ctx: Context<K>,
    elapsed: K::Elapsed,
)
    requires
        run.phase is Processing,
        answered(input, answers),
        run_block(input, answers).0.phase == BlockPhaseModel::<K>::Finished(Ok(true)),
        ctx@ == run_block(input, answers).0.frame.ctx,
    ensures
        ({
            let (after, actions) = run.next(
                RunEvent::BlockProcessed { result: Ok((ctx, true)), elapsed },
            );
            &&& after.phase matches RunPhase::Streaming(now)
            &&& made(answers).len() > 0
            &&& filtered(now@.filters) == filtered(input.ctx.filters) + made(answers)
            &&& now@.inputs == input.ctx.inputs
            &&& built(actions).len() == 1
        }),
{
    law_processed_block_is_complete(input, answers);
    law_restart_iff_data_sources_created(input, answers, true);
    law_inputs_are_kept(input, answers);
    let (after, actions) = run.next(RunEvent::BlockProcessed { result: Ok((ctx, true)), elapsed });
    lemma_gather_few(actions, |action: RunAction<K>| action.built());
    assert(restarted(ctx)@.filters =~= ctx@.filters);
}

impl<K: Indexing> RunEvent<K> {
    /// The event, unless it is an error of the block stream.
    pub open spec fn undisturbed(self) -> Seq<RunEvent<K>> {
        match self {
            RunEvent::StreamError(_) => Seq::empty(),
            _ => seq![self],
        }
    }
}

impl<K: Indexing> RunAction<K> {
    /// The action, unless it is to wait for the next event.
    pub open spec fn doing(self) -> Seq<RunAction<K>> {
        match self {
            RunAction::AwaitEvent => Seq::empty(),
            _ => seq![self],
        }
    }
}

/// The events without the errors of the block stream.
pub open spec fn undisturbed<K: Indexing>(events: Seq<RunEvent<K>>) -> Seq<RunEvent<K>> {
    gather(events, |event: RunEvent<K>| event.undisturbed())
}

/// The actions without the waiting in between.
pub open spec fn doing<K: Indexing>(actions: Seq<RunAction<K>>) -> Seq<RunAction<K>> {
    gather(actions, |action: RunAction<K>| action.doing())
}

/// Errors of the block stream are dropped wherever they come in a run: the subgraph stands
/// where it would stand without them, and has done what it would have done.
pub proof fn law_stream_errors_change_nothing<K: Indexing>(
    ctx: Context<K>,
    events: Seq<RunEvent<K>>,
)
    ensures
        run_events(ctx, events).0 == run_events(ctx, undisturbed(events)).0,
        doing(run_events(ctx, events).1) == doing(run_events(ctx, undisturbed(events)).1),
    decreases events.len(),
{
    let part = |action: RunAction<K>| action.doing();
    if events.len() == 0 {
        assert(undisturbed(events) =~= events);
    } else {
        let earlier = events.drop_last();
        let event = events.last();
        let quiet = undisturbed(earlier);
        let (state, actions) = run_events(ctx, earlier);
        let more = state.next(event).1;
        law_stream_errors_change_nothing(ctx, earlier);
        lemma_gather_add(actions, more, part);
        if event is StreamError {
            assert(undisturbed(events) =~= quiet);
            lemma_gather_few(more, part);
            assert(doing(actions) + gather(more, part) =~= doing(actions));
        } else {
            assert(undisturbed(events) =~= quiet.push(event));
            assert(quiet.push(event).drop_last() =~= quiet);
            lemma_gather_add(run_events(ctx, quiet).1, more, part);
        }
    }
}

impl<K: Indexing> RunAction<K> {
    /// What the action does to the cancel guards, where `guard` is that of the block stream
    /// that was built last.
    pub open spec fn guard_op<G>(self, guard: G) -> Option<GuardOp<G>> {
        match self {
            RunAction::RegisterGuard { deployment_id } => Some(
                GuardOp::Register(deployment_id@, guard),
            ),
            RunAction::ReleaseGuard { deployment_id } => Some(GuardOp::Release(deployment_id@)),
            _ => None,
        }
    }
}

/// The cancel guards that are kept after these actions, from those that were kept before.
/// `guards` are the guards of the block streams, in the order in which these are built.
pub open spec fn guards_kept<K: Indexing, G>(
    kept: Map<Seq<char>, G>,
    guards: Seq<G>,
    actions: Seq<RunAction<K>>,
) -> Map<Seq<char>, G>
    decreases actions.len(),
{
    if actions.len() == 0 {
        kept
    } else {
        let earlier = actions.drop_last();
        let before = guards_kept(kept, guards, earlier);
        match actions.last().guard_op(guards[built(earlier).len() - 1]) {
            Some(op) => op.kept(before),
            None => before,
        }
    }
}

proof fn lemma_guards_kept_push<K: Indexing, G>(
    kept: Map<Seq<char>, G>,
    guards: Seq<G>,
    actions: Seq<RunAction<K>>,
    action: RunAction<K>,
)
    ensures
        guards_kept(kept, guards, actions.push(action)) == match action.guard_op(
            guards[built(actions).len() - 1],
        ) {
            Some(op) => op.kept(guards_kept(kept, guards, actions)),
            None => guards_kept(kept, guards, actions),
        },
        built(actions.push(action)) == built(actions) + action.built(),
{
    assert(actions.push(action).drop_last() =~= actions);
}

/// What one step does to the cancel guards: nothing, or it replaces the guard of the
/// deployment by that of a new block stream.
proof fn lemma_guards_kept_step<K: Indexing, G>(
    kept: Map<Seq<char>, G>,
    guards: Seq<G>,
    state: SubgraphRun<K>,
    actions: Seq<RunAction<K>>,
    event: RunEvent<K>,
)
    ensures
        ({
            let more = state.next(event).1;
            let before = guards_kept(kept, guards, actions);
            let after = guards_kept(kept, guards, actions + more);
            let id = state.deployment_id@;
            if built(more).len() == 0 {
                &&& after == before
                &&& built(actions + more) == built(actions)
            } else {
                &&& after == before.remove(id).insert(id, guards[built(actions).len() as int])
                &&& built(actions + more).len() == built(actions).len() + 1
            }
        }),
{
    let more = state.next(event).1;
    lemma_gather_few(more, |action: RunAction<K>| action.built());
    assert(actions + Seq::<RunAction<K>>::empty() =~= actions);
    if more.len() >= 1 {
        let a1 = actions.push(more[0]);
        lemma_guards_kept_push(kept, guards, actions, more[0]);
        if more.len() == 1 {
            assert(actions + more =~= a1);
        } else {
            let a2 = a1.push(more[1]);
            lemma_guards_kept_push(kept, guards, a1, more[1]);
            if more.len() == 2 {
                assert(actions + more =~= a2);
            } else {
                let a3 = a2.push(more[2]);
                lemma_guards_kept_push(kept, guards, a2, more[2]);
                if more.len() == 3 {
                    assert(actions + more =~= a3);
                } else {
                    let a4 = a3.push(more[3]);
                    lemma_guards_kept_push(kept, guards, a3, more[3]);
                    if more.len() == 4 {
                        assert(actions + more =~= a4);
                    } else {
                        let a5 = a4.push(more[4]);
                        lemma_guards_kept_push(kept, guards, a4, more[4]);
                        assert(actions + more =~= a5);
                    }
                }
            }
        }
    }
}

/// The guard that a running subgraph keeps is that of the block stream that was built last,
/// so whoever gives it up shuts down the stream that is running. The guards of other
/// deployments are left alone.
pub proof fn law_guard_of_latest_stream_is_kept<K: Indexing, G>(
    ctx: Context<K>,
    events: Seq<RunEvent<K>>,
    kept: Map<Seq<char>, G>,
    guards: Seq<G>,
)
    requires
        guards.len() == built(run_events(ctx, events).1).len(),
    ensures
        ({
            let after = guards_kept(kept, guards, run_events(ctx, events).1);
            let id = ctx.inputs.deployment_id@;
            &&& after.contains_key(id)
            &&& after[id] == guards.last()
            &&& after.remove(id) == kept.remove(id)
        }),
{
    lemma_guard_of_latest_stream(ctx, events, kept, guards);
}

proof fn lemma_guard_of_latest_stream<K: Indexing, G>(
    ctx: Context<K>,
    events: Seq<RunEvent<K>>,
    kept: Map<Seq<char>, G>,
    guards: Seq<G>,
)
    ensures
        ({
            let actions = run_events(ctx, events).1;
            let after = guards_kept(kept, guards, actions);
            let id = ctx.inputs.deployment_id@;
            &&& built(actions).len() > 0
            &&& after.contains_key(id)
            &&& after[id] == guards[built(actions).len() - 1]
            &&& after.remove(id) == kept.remove(id)
        }),
    decreases events.len(),
{
    let id = ctx.inputs.deployment_id@;
    let all = run_events(ctx, events).1;
    lemma_run_keeps_id(ctx, events);
    if events.len() == 0 {
        let none = Seq::<RunAction<K>>::empty();
        lemma_guards_kept_push(kept, guards, none, all[0]);
        lemma_guards_kept_push(kept, guards, none.push(all[0]), all[1]);
        lemma_guards_kept_push(kept, guards, none.push(all[0]).push(all[1]), all[2]);
        assert(all =~= none.push(all[0]).push(all[1]).push(all[2]));
        assert(kept.insert(id, guards[0]).remove(id) =~= kept.remove(id));
    } else {
        let earlier = events.drop_last();
        let (state, actions) = run_events(ctx, earlier);
        lemma_run_keeps_id(ctx, earlier);
        lemma_guard_of_latest_stream(ctx, earlier, kept, guards);
        lemma_guards_kept_step(kept, guards, state, actions, events.last());
        let after = guards_kept(kept, guards, all);
        assert(after.remove(id) =~= guards_kept(kept, guards, actions).remove(id));
    }
}

impl<K: Indexing> RunAction<K> {
    /// One item if something is waited for, or the subgraph has stopped to run.
    pub open spec fn waits(self) -> Seq<()> {
        match self {
            RunAction::AwaitEvent => seq![()],
            RunAction::ProcessBlock { ctx, block } => seq![()],
            RunAction::Terminate => seq![()],
            _ => Seq::empty(),
        }
    }

    /// How long the processing of a block took, as the sensor is told.
    pub open spec fn block_duration(self) -> Seq<K::Elapsed> {
        match self {
            RunAction::ObserveBlockDuration(elapsed) => seq![elapsed],
            _ => Seq::empty(),
        }
    }

    /// The number of triggers that the sensor is told.
    pub open spec fn trigger_count(self) -> Seq<int> {
        match self {
            RunAction::ObserveTriggerCount(count) => seq![count as int],
            _ => Seq::empty(),
        }
    }
}

impl<K: Indexing> RunEvent<K> {
    /// How long the processing of a block took.
    pub open spec fn took(self) -> Seq<K::Elapsed> {
        match self {
            RunEvent::BlockProcessed { result, elapsed } => seq![elapsed],
            _ => Seq::empty(),
        }
    }

    /// The number of triggers in a block that has some.
    pub open spec fn triggers_in_block(self) -> Seq<int> {
        match self {
            RunEvent::Block(block) if block.triggers@.len() > 0 => seq![
                block.triggers@.len() as int,
            ],
            _ => Seq::empty(),
        }
    }
}

/// A running subgraph is never stuck. Whatever has happened, the last thing that it asks for
/// is the next event of the block stream while it has no block, the processing of a block
/// while it has one, and nothing more once it has stopped; and every event that can come is
/// followed by exactly one of these, as the last thing to do. What can come is what was asked
/// for.
#[verifier::rlimit(40)]
pub proof fn law_run_always_asks_for_what_is_next<K: Indexing>(
    ctx: Context<K>,
    events: Seq<RunEvent<K>>,
    event: RunEvent<K>,
)
    requires
        expected(ctx, events),
    ensures
        ({
            let (state, actions) = run_events(ctx, events);
            &&& actions.len() > 0
            &&& match state.phase {
                RunPhase::Streaming(_) => actions.last() is AwaitEvent,
                RunPhase::Processing => actions.last() is ProcessBlock,
                RunPhase::Terminated => actions.last() is Terminate,
            }
            &&& state.awaits(event) <==> match actions.last() {
                RunAction::AwaitEvent => event !is BlockProcessed,
                RunAction::ProcessBlock { ctx, block } => event is BlockProcessed,
                _ => false,
            }
            &&& gather(actions, |action: RunAction<K>| action.waits()).len() == events.len() + 1
        }),
    decreases events.len(),
{
    let part = |action: RunAction<K>| action.waits();
    if events.len() == 0 {
        lemma_gather_few(run_events(ctx, events).1, part);
    } else {
        let (state, actions) = run_events(ctx, events.drop_last());
        let more = state.next(events.last()).1;
        law_run_always_asks_for_what_is_next(ctx, events.drop_last(), events.last());
        lemma_gather_add(actions, more, part);
        lemma_gather_few(more, part);
        assert(more.len() > 0);
        assert((actions + more).last() == more.last());
    }
}

/// The context goes on from block to block as it is. A block is processed in the context that
/// the block before it has given back, with nothing changed but the number of restarts, which
/// is one more if that block has created data sources.
pub proof fn law_context_goes_from_block_to_block<K: Indexing>(
    run: SubgraphRun<K>,
    ctx: Context<K>,
    needs_restart: bool,
    elapsed: K::Elapsed,
    block: BlockWithTriggers<K>,
)
    requires
        run.phase is Processing,
        needs_restart ==> ctx.state.restarts < u64::MAX,
    ensures
        ({
            let waiting = run.next(
                RunEvent::BlockProcessed { result: Ok((ctx, needs_restart)), elapsed },
            ).0;
            let (processing, actions) = waiting.next(RunEvent::Block(block));
            &&& waiting.phase is Streaming
            &&& processing.phase is Processing
            &&& actions.last() matches RunAction::ProcessBlock { ctx: lent, block: taken }
            &&& taken == block
            &&& lent.inputs == ctx.inputs
            &&& lent.state.filters == ctx.state.filters
            &&& lent.state.entity_lfu_cache == ctx.state.entity_lfu_cache
            &&& lent.state.restarts == ctx.state.restarts + if needs_restart {
                1int
            } else {
                0
            }
        }),
{
}

/// The first block is processed in the context that the subgraph was started with.
pub proof fn law_first_block_gets_initial_context<K: Indexing>(
    ctx: Context<K>,
    block: BlockWithTriggers<K>,
)
    ensures
        run_events(ctx, seq![RunEvent::Block(block)]).1.last() == (RunAction::<K>::ProcessBlock {
            ctx,
            block,
        }),
{
    let events = seq![RunEvent::<K>::Block(block)];
    assert(events.drop_last() =~= Seq::empty());
    reveal_with_fuel(run_events, 2);
}

/// The sensors are fed with what happens: the duration of every block, whatever came of it,
/// and the number of triggers of every block that has some, each once and in order.
#[verifier::rlimit(40)]
pub proof fn law_run_feeds_sensors<K: Indexing>(ctx: Context<K>, events: Seq<RunEvent<K>>)
    requires
        expected(ctx, events),
        forall|i: int|
            0 <= i < events.len() ==> ((#[trigger] events[i]) matches RunEvent::Block(block)
                ==> block.triggers@.len() <= usize::MAX),
    ensures
        gather(run_events(ctx, events).1, |action: RunAction<K>| action.block_duration())
            == gather(events, |event: RunEvent<K>| event.took()),
        gather(run_events(ctx, events).1, |action: RunAction<K>| action.trigger_count())
            == gather(events, |event: RunEvent<K>| event.triggers_in_block()),
    decreases events.len(),
{
    let durations = |action: RunAction<K>| action.block_duration();
    let counts = |action: RunAction<K>| action.trigger_count();
    if events.len() == 0 {
        lemma_gather_few(run_events(ctx, events).1, durations);
        lemma_gather_few(run_events(ctx, events).1, counts);
        assert(gather(run_events(ctx, events).1, durations) =~= Seq::empty());
        assert(gather(run_events(ctx, events).1, counts) =~= Seq::empty());
    } else {
        let earlier = events.drop_last();
        let (state, actions) = run_events(ctx, earlier);
        let more = state.next(events.last()).1;
        assert forall|i: int| 0 <= i < earlier.len() implies ((
        #[trigger] earlier[i]) matches RunEvent::Block(block) ==> block.triggers@.len()
            <= usize::MAX) by {
            assert(earlier[i] == events[i]);
        }
        law_run_feeds_sensors(ctx, earlier);
        lemma_gather_add(actions, more, durations);
        lemma_gather_add(actions, more, counts);
        lemma_gather_few(more, durations);
        lemma_gather_few(more, counts);
        assert(events[events.len() - 1] == events.last());
        assert(gather(more, durations) =~= events.last().took());
        assert(gather(more, counts) =~= events.last().triggers_in_block());
    }
}

/// A restart cancels the old block stream for real before a new one is built, keeps the guard
/// of the new stream before its first event is waited for, and does nothing else. A failed
/// block has the deployment marked before the sensors are given up, and a canceled one has
/// not.
pub proof fn law_what_follows_a_block<K: Indexing>(
    run: SubgraphRun<K>,
    result: Result<(Context<K>, bool), CancelableError<IndexingError>>,
    elapsed: K::Elapsed,
)
    requires
        run.phase is Processing,
    ensures
        ({
            let actions = run.next(RunEvent::BlockProcessed { result, elapsed }).1;
            let deployment_id = run.deployment_id;
            &&& actions.len() >= 2
            &&& actions[0] == RunAction::<K>::ObserveBlockDuration(elapsed)
            &&& actions.skip(1) == match result {
                Ok((_, false)) => seq![RunAction::<K>::AwaitEvent],
                Ok((_, true)) => seq![
                    RunAction::<K>::ReleaseGuard { deployment_id },
                    RunAction::BuildStream,
                    RunAction::RegisterGuard { deployment_id },
                    RunAction::AwaitEvent,
                ],
                Err(CancelableError::Cancel) => seq![
                    RunAction::<K>::UnregisterMetrics,
                    RunAction::Terminate,
                ],
                Err(CancelableError::Error(error)) => seq![
                    RunAction::<K>::SetFailed { deployment_id, failed: true, error },
                    RunAction::UnregisterMetrics,
                    RunAction::Terminate,
                ],
            }
        }),
{
    let actions = run.next(RunEvent::BlockProcessed { result, elapsed }).1;
    let deployment_id = run.deployment_id;
    match result {
        Ok((_, false)) => {
            assert(actions.skip(1) =~= seq![RunAction::<K>::AwaitEvent]);
        },
        Ok((_, true)) => {
            assert(actions.skip(1) =~= seq![
                RunAction::<K>::ReleaseGuard { deployment_id },
                RunAction::BuildStream,
                RunAction::RegisterGuard { deployment_id },
                RunAction::AwaitEvent,
            ]);
        },
        Err(CancelableError::Cancel) => {
            assert(actions.skip(1) =~= seq![
                RunAction::<K>::UnregisterMetrics,
                RunAction::Terminate,
            ]);
        },
        Err(CancelableError::Error(error)) => {
            assert(actions.skip(1) =~= seq![
                RunAction::<K>::SetFailed { deployment_id, failed: true, error },
                RunAction::UnregisterMetrics,
                RunAction::Terminate,
            ]);
        },
    }
}

/// An event that was not asked for changes nothing: the end of a block while none is being
/// processed, an event of the block stream while one is, and anything once the subgraph has
/// stopped to run.
pub proof fn law_run_ignores_other_events<K: Indexing>(run: SubgraphRun<K>, event: RunEvent<K>)
    requires
        run.phase is Streaming ==> event is BlockProcessed,
        run.phase is Processing ==> event !is BlockProcessed,
    ensures
        run.next(event) == (run, Seq::<RunAction<K>>::empty()),
{
}

/// Every event can be gone on with but a restart when the number of restarts is at its limit.
pub proof fn law_only_the_last_restart_is_uncountable<K: Indexing>(event: RunEvent<K>)
    ensures
        !event.countable() <==> (event matches RunEvent::BlockProcessed {
            result: Ok((ctx, needs_restart)),
            elapsed,
        } && needs_restart && ctx.state.restarts == u64::MAX),
{
}

} // verus!
