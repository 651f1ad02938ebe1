//! What holds of every block, however its processing goes.
use crate::block::{BlockAction, BlockEvent, BlockModel, BlockPhaseModel, Indexing, Trigger};
use crate::context::ContextModel;
use crate::data_source::{CreationEvent, CreationRequest, PersistenceEvent};
use crate::error::CancelableError;
use crate::history::{gather, lemma_gather_add, lemma_gather_few};
use crate::metrics::TriggerType;
use crate::proof_of_indexing::{ProofEvent, ProofRequest, ProofStage};
use crate::trigger::EthereumTrigger;
use vstd::prelude::*;

verus! {

/// A block that is to be processed.
pub struct BlockInput<K: Indexing> {
    pub ctx: ContextModel<K::DataSource, K::Template, K::Cache>,
    pub cache_limit: u64,
    pub poi_object: String,
    pub pointer: K::BlockPointer,
    pub pointer_text: String,
    pub ethereum_block: K::Block,
    pub triggers: Seq<Trigger<K>>,
}

/// How the processing of a block stands after these answers, and all that there was to do
/// on the way.
pub open spec fn run_block<K: Indexing>(input: BlockInput<K>, events: Seq<BlockEvent<K>>) -> (
    BlockModel<K>,
    Seq<BlockAction<K>>,
)
    decreases events.len(),
{
    if events.len() == 0 {
        BlockModel::start(
            input.ctx,
            input.cache_limit,
            input.poi_object,
            input.pointer,
            input.pointer_text,
            input.ethereum_block,
            input.triggers,
        )
    } else {
        let (state, actions) = run_block(input, events.drop_last());
        let (next, more) = state.next(events.last());
        (next, actions + more)
    }
}

/// Each event answers the request that is outstanding when it comes.
pub open spec fn answered<K: Indexing>(input: BlockInput<K>, events: Seq<BlockEvent<K>>) -> bool
    decreases events.len(),
{
    events.len() > 0 ==> {
        &&& answered(input, events.drop_last())
        &&& run_block(input, events.drop_last()).0.awaits(events.last())
    }
}

impl<K: Indexing> BlockAction<K> {
    /// The trigger that the subgraph instance is given.
    pub open spec fn processed(self) -> Seq<Trigger<K>> {
        match self {
            BlockAction::ProcessTrigger { trigger, state } => seq![trigger],
            _ => Seq::empty(),
        }
    }

    /// The description that a data source is made from.
    pub open spec fn instantiated(self) -> Seq<K::Info> {
        match self {
            BlockAction::Create(CreationRequest::Instantiate(info)) => seq![info],
            _ => Seq::empty(),
        }
    }

    /// The trigger that the hosts of new data sources are given.
    pub open spec fn hosted(self) -> Seq<Trigger<K>> {
        match self {
            BlockAction::ProcessInHosts { trigger, state } => seq![trigger],
            _ => Seq::empty(),
        }
    }

    /// Whether the action changes what is stored, or prepares to.
    pub open spec fn writes(self) -> bool {
        match self {
            BlockAction::UpdateProof(_) => true,
            BlockAction::ComputeModifications(_) => true,
            BlockAction::Transact { deployment_id, pointer, modifications } => true,
            BlockAction::MigrateDeployment { deployment_id, pointer } => true,
            _ => false,
        }
    }
}

impl<K: Indexing> BlockEvent<K> {
    /// The data sources that handlers have asked for.
    pub open spec fn asked_for(self) -> Seq<K::Info> {
        match self {
            BlockEvent::TriggerProcessed { outcome: Ok((_, created)), elapsed } => created@,
            BlockEvent::ProcessedInHosts(Ok((_, created))) => created@,
            _ => Seq::empty(),
        }
    }

    /// The data source that was made.
    pub open spec fn made(self) -> Seq<K::DataSource> {
        match self {
            BlockEvent::Create(CreationEvent::Instantiated(Ok(data_source))) => seq![data_source],
            _ => Seq::empty(),
        }
    }

    /// The triggers that were found for new data sources.
    pub open spec fn found(self) -> Seq<Trigger<K>> {
        match self {
            BlockEvent::TriggersFound(Ok(triggers)) => triggers@,
            _ => Seq::empty(),
        }
    }
}

/// The triggers that the subgraph instance was given, in order.
pub open spec fn processed<K: Indexing>(actions: Seq<BlockAction<K>>) -> Seq<Trigger<K>> {
    gather(actions, |action: BlockAction<K>| action.processed())
}

/// The descriptions that data sources were made from, in order.
pub open spec fn instantiated<K: Indexing>(actions: Seq<BlockAction<K>>) -> Seq<K::Info> {
    gather(actions, |action: BlockAction<K>| action.instantiated())
}

/// The triggers that the hosts of new data sources were given, in order.
pub open spec fn hosted<K: Indexing>(actions: Seq<BlockAction<K>>) -> Seq<Trigger<K>> {
    gather(actions, |action: BlockAction<K>| action.hosted())
}

/// The data sources that handlers have asked for, in order.
pub open spec fn asked_for<K: Indexing>(events: Seq<BlockEvent<K>>) -> Seq<K::Info> {
    gather(events, |event: BlockEvent<K>| event.asked_for())
}

/// The data sources that were made, in order.
pub open spec fn made<K: Indexing>(events: Seq<BlockEvent<K>>) -> Seq<K::DataSource> {
    gather(events, |event: BlockEvent<K>| event.made())
}

/// The triggers that were found for new data sources, in order.
pub open spec fn found<K: Indexing>(events: Seq<BlockEvent<K>>) -> Seq<Trigger<K>> {
    gather(events, |event: BlockEvent<K>| event.found())
}

/// The data sources that the filters of the block stream are made from, in order.
pub open spec fn filtered<D>(filters: Seq<Seq<D>>) -> Seq<D> {
    gather(filters, |data_sources: Seq<D>| data_sources)
}

impl<K: Indexing> BlockModel<K> {
    /// The processing has come to an end without success.
    pub open spec fn has_failed(self) -> bool {
        self.phase matches BlockPhaseModel::Finished(Err(_))
    }

    spec fn waiting_triggers(self) -> Seq<Trigger<K>> {
        match self.phase {
            BlockPhaseModel::OpeningState { pointer_text, triggers } => triggers,
            BlockPhaseModel::ProcessingTriggers(pass) => pass.waiting,
            _ => Seq::empty(),
        }
    }

    spec fn waiting_infos(self) -> Seq<K::Info> {
        match self.phase {
            BlockPhaseModel::ProcessingTriggers(pass) => pass.created,
            BlockPhaseModel::CreatingDataSources { creation, state } => creation.waiting,
            BlockPhaseModel::ProcessingInHosts { waiting, runtime_hosts, created } => created,
            _ => Seq::empty(),
        }
    }

    spec fn unfiltered(self) -> Seq<K::DataSource> {
        match self.phase {
            BlockPhaseModel::CreatingDataSources { creation, state } => creation.data_sources + (
            match creation.current {
                Some(data_source) => seq![data_source],
                None => Seq::empty(),
            }),
            BlockPhaseModel::FindingTriggers { data_sources, runtime_hosts, state } => data_sources,
            BlockPhaseModel::PersistingDataSources { persistence, triggers, runtime_hosts } =>
                persistence.persisted + seq![persistence.current] + persistence.waiting,
            _ => Seq::empty(),
        }
    }

    spec fn waiting_hosted(self) -> Seq<Trigger<K>> {
        match self.phase {
            BlockPhaseModel::PersistingDataSources { persistence, triggers, runtime_hosts } =>
                triggers,
            BlockPhaseModel::ProcessingInHosts { waiting, runtime_hosts, created } => waiting,
            _ => Seq::empty(),
        }
    }
}

spec fn balanced<K: Indexing>(
    input: BlockInput<K>,
    events: Seq<BlockEvent<K>>,
    state: BlockModel<K>,
    actions: Seq<BlockAction<K>>,
) -> bool {
    &&& processed(actions) + state.waiting_triggers() == input.triggers
    &&& instantiated(actions) + state.waiting_infos() == asked_for(events)
    &&& filtered(state.frame.ctx.filters) + state.unfiltered() == filtered(input.ctx.filters)
        + made(events)
    &&& hosted(actions) + state.waiting_hosted() == found(events)
}

#[verifier::rlimit(40)]
proof fn lemma_start_balanced<K: Indexing>(input: BlockInput<K>)
    ensures
        balanced(
            input,
            Seq::empty(),
            run_block(input, Seq::empty()).0,
            run_block(input, Seq::empty()).1,
        ),
{
    let (state, actions) = run_block(input, Seq::empty());
    lemma_gather_few(actions, |action: BlockAction<K>| action.processed());
    lemma_gather_few(actions, |action: BlockAction<K>| action.instantiated());
    lemma_gather_few(actions, |action: BlockAction<K>| action.hosted());
    assert(processed(actions) + state.waiting_triggers() =~= input.triggers);
    assert(instantiated(actions) + state.waiting_infos() =~= Seq::empty());
    assert(hosted(actions) + state.waiting_hosted() =~= Seq::empty());
    assert(filtered(state.frame.ctx.filters) + state.unfiltered() =~= filtered(
        input.ctx.filters,
    ) + made(Seq::<BlockEvent<K>>::empty()));
}

proof fn lemma_filtered_push<D>(filters: Seq<Seq<D>>, data_sources: Seq<D>)
    ensures
        filtered(filters.push(data_sources)) == filtered(filters) + data_sources,
{
    assert(filters.push(data_sources).drop_last() =~= filters);
}

#[verifier::rlimit(40)]
proof fn lemma_step_sources<K: Indexing>(state: BlockModel<K>, event: BlockEvent<K>)
    requires
        state.awaits(event),
        !state.next(event).0.has_failed(),
    ensures
        ({
            let next = state.next(event).0;
            let filters = state.frame.ctx.filters;
            if next.frame.ctx.filters == filters {
                next.unfiltered() == state.unfiltered() + event.made()
            } else {
                &&& next.frame.ctx.filters == filters.push(state.unfiltered())
                &&& next.unfiltered() == Seq::<K::DataSource>::empty()
                &&& event.made() == Seq::<K::DataSource>::empty()
            }
        }),
{
    let next = state.next(event).0;
    let filters = state.frame.ctx.filters;
    if let BlockPhaseModel::PersistingDataSources { persistence, triggers, runtime_hosts }
        = state.phase {
        assert(persistence.persisted + seq![persistence.current] =~= persistence.persisted.push(
            persistence.current,
        ));
        if persistence.waiting.len() == 0 && persistence.state is None {
            assert(state.unfiltered() =~= persistence.persisted.push(persistence.current));
            assert(next.frame.ctx.filters.len() == filters.len() + 1);
        } else {
            assert(next.unfiltered() =~= state.unfiltered() + event.made());
        }
    } else if let BlockPhaseModel::FindingTriggers { data_sources, runtime_hosts, state: _ }
        = state.phase {
        if data_sources.len() == 0 {
            assert(data_sources =~= Seq::empty());
            assert(next.frame.ctx.filters.len() == filters.len() + 1);
        } else {
            assert(next.unfiltered() =~= state.unfiltered() + event.made());
        }
    } else {
        assert(next.unfiltered() =~= state.unfiltered() + event.made());
    }
}

#[verifier::rlimit(60)]
proof fn lemma_step_balanced<K: Indexing>(
    input: BlockInput<K>,
    events: Seq<BlockEvent<K>>,
    state: BlockModel<K>,
    actions: Seq<BlockAction<K>>,
    event: BlockEvent<K>,
)
    requires
        balanced(input, events, state, actions),
        state.awaits(event),
        !state.next(event).0.has_failed(),
    ensures
        balanced(
            input,
            events.push(event),
            state.next(event).0,
            actions + state.next(event).1,
        ),
{
    let (next, more) = state.next(event);
    let all = events.push(event);
    assert(all.drop_last() =~= events);
    let part_processed = |action: BlockAction<K>| action.processed();
    let part_instantiated = |action: BlockAction<K>| action.instantiated();
    let part_hosted = |action: BlockAction<K>| action.hosted();
    lemma_gather_add(actions, more, part_processed);
    lemma_gather_add(actions, more, part_instantiated);
    lemma_gather_add(actions, more, part_hosted);
    lemma_gather_few(more, part_processed);
    lemma_gather_few(more, part_instantiated);
    lemma_gather_few(more, part_hosted);
    let filters = state.frame.ctx.filters;
    let next_filters = next.frame.ctx.filters;
    assert(processed(actions + more) + next.waiting_triggers() =~= input.triggers);
    assert(instantiated(actions + more) + next.waiting_infos() =~= asked_for(all));
    lemma_step_sources(state, event);
    assert(made(all) == made(events) + event.made());
    let target = filtered(input.ctx.filters) + made(all);
    if next_filters == filters {
        assert(filtered(filters) + (state.unfiltered() + event.made()) =~= (filtered(filters)
            + state.unfiltered()) + event.made());
        assert((filtered(input.ctx.filters) + made(events)) + event.made() =~= target);
    } else {
        lemma_filtered_push(filters, state.unfiltered());
        assert(filtered(next_filters) + next.unfiltered() =~= filtered(filters)
            + state.unfiltered());
        assert(filtered(input.ctx.filters) + made(events) =~= target);
    }
    assert(hosted(actions + more) + next.waiting_hosted() =~= found(all));
}

proof fn lemma_balanced<K: Indexing>(input: BlockInput<K>, events: Seq<BlockEvent<K>>)
    requires
        answered(input, events),
        !run_block(input, events).0.has_failed(),
    ensures
        balanced(input, events, run_block(input, events).0, run_block(input, events).1),
    decreases events.len(),
{
    if events.len() == 0 {
        assert(events =~= Seq::empty());
        lemma_start_balanced(input);
    } else {
        let (state, actions) = run_block(input, events.drop_last());
        lemma_balanced(input, events.drop_last());
        lemma_step_balanced(input, events.drop_last(), state, actions, events.last());
        assert(events.drop_last().push(events.last()) =~= events);
    }
}

/// When a block is processed, nothing of it is left over and nothing has changed places:
/// the subgraph instance was given every trigger of the block, data sources were made from
/// all descriptions that handlers have asked for, the filters of the block stream were
/// extended by all data sources that were made, and their hosts were given every trigger
/// that was found for them; each of these in order. In particular data sources that are
/// spawned on the same block are set up breadth first: those that were asked for first come
/// first.
pub proof fn law_processed_block_is_complete<K: Indexing>(
    input: BlockInput<K>,
    events: Seq<BlockEvent<K>>,
)
    requires
        answered(input, events),
        run_block(input, events).0.phase matches BlockPhaseModel::Finished(Ok(_)),
    ensures
        ({
            let (state, actions) = run_block(input, events);
            &&& processed(actions) == input.triggers
            &&& instantiated(actions) == asked_for(events)
            &&& filtered(state.frame.ctx.filters) == filtered(input.ctx.filters) + made(events)
            &&& hosted(actions) == found(events)
        }),
{
    let (state, actions) = run_block(input, events);
    lemma_balanced(input, events);
    assert(processed(actions) + state.waiting_triggers() =~= processed(actions));
    assert(instantiated(actions) + state.waiting_infos() =~= instantiated(actions));
    assert(filtered(state.frame.ctx.filters) + state.unfiltered() =~= filtered(
        state.frame.ctx.filters,
    ));
    assert(hosted(actions) + state.waiting_hosted() =~= hosted(actions));
}

proof fn lemma_prefix<A>(front: Seq<A>, back: Seq<A>)
    ensures
        front.is_prefix_of(front + back),
{
    assert((front + back).subrange(0, front.len() as int) =~= front);
}

/// However far the processing of a block gets, and even if it fails, triggers are taken in
/// the order in which they are in the block or were found, and data sources are made in the
/// order in which they were asked for.
pub proof fn law_order_is_kept<K: Indexing>(input: BlockInput<K>, events: Seq<BlockEvent<K>>)
    requires
        answered(input, events),
    ensures
        ({
            let actions = run_block(input, events).1;
            &&& processed(actions).is_prefix_of(input.triggers)
            &&& instantiated(actions).is_prefix_of(asked_for(events))
            &&& hosted(actions).is_prefix_of(found(events))
        }),
{
    let (state, actions) = run_block(input, events);
    if state.has_failed() {
        let earlier = events.drop_last();
        let (before, done) = run_block(input, earlier);
        let more = before.next(events.last()).1;
        lemma_balanced(input, earlier);
        lemma_gather_add(done, more, |action: BlockAction<K>| action.processed());
        lemma_gather_add(done, more, |action: BlockAction<K>| action.instantiated());
        lemma_gather_add(done, more, |action: BlockAction<K>| action.hosted());
        lemma_gather_few(more, |action: BlockAction<K>| action.processed());
        lemma_gather_few(more, |action: BlockAction<K>| action.instantiated());
        lemma_gather_few(more, |action: BlockAction<K>| action.hosted());
        assert(processed(actions) =~= processed(done));
        assert(instantiated(actions) =~= instantiated(done));
        assert(hosted(actions) =~= hosted(done));
        assert(asked_for(events) =~= asked_for(earlier));
        assert(found(events) =~= found(earlier));
        lemma_prefix(processed(done), before.waiting_triggers());
        lemma_prefix(instantiated(done), before.waiting_infos());
        lemma_prefix(hosted(done), before.waiting_hosted());
    } else {
        lemma_balanced(input, events);
        lemma_prefix(processed(actions), state.waiting_triggers());
        lemma_prefix(instantiated(actions), state.waiting_infos());
        lemma_prefix(hosted(actions), state.waiting_hosted());
    }
}

spec fn restart_fits<K: Indexing>(
    input: BlockInput<K>,
    state: BlockModel<K>,
    actions: Seq<BlockAction<K>>,
    events: Seq<BlockEvent<K>>,
) -> bool {
    let frame = state.frame;
    let asked: int = match state.phase {
        BlockPhaseModel::CreatingDataSources { creation, state } if creation.current is None => 1,
        _ => 0,
    };
    &&& frame.needs_restart <==> instantiated(actions).len() > 0
    &&& instantiated(actions).len() == made(events).len() + asked
    &&& !frame.needs_restart ==> frame.ctx.filters == input.ctx.filters
    &&& frame.ctx.filters.len() >= input.ctx.filters.len()
    &&& match state.phase {
        BlockPhaseModel::OpeningState { pointer_text, triggers } => !frame.needs_restart,
        BlockPhaseModel::ProcessingTriggers(_) => !frame.needs_restart,
        BlockPhaseModel::CreatingDataSources { creation, state } => frame.needs_restart,
        BlockPhaseModel::FindingTriggers { data_sources, runtime_hosts, state } =>
            frame.needs_restart,
        BlockPhaseModel::PersistingDataSources { persistence, triggers, runtime_hosts } =>
            frame.needs_restart,
        BlockPhaseModel::ProcessingInHosts { waiting, runtime_hosts, created } =>
            frame.needs_restart && frame.ctx.filters.len() > input.ctx.filters.len(),
        _ => frame.needs_restart ==> frame.ctx.filters.len() > input.ctx.filters.len(),
    }
}

proof fn lemma_restart_fits<K: Indexing>(input: BlockInput<K>, events: Seq<BlockEvent<K>>)
    requires
        answered(input, events),
        !run_block(input, events).0.has_failed(),
    ensures
        restart_fits(input, run_block(input, events).0, run_block(input, events).1, events),
    decreases events.len(),
{
    let part = |action: BlockAction<K>| action.instantiated();
    if events.len() == 0 {
        lemma_gather_few(run_block(input, events).1, part);
    } else {
        let (state, actions) = run_block(input, events.drop_last());
        lemma_restart_fits(input, events.drop_last());
        lemma_step_restart_fits(input, state, actions, events.drop_last(), events.last());
        assert(events.drop_last().push(events.last()) =~= events);
    }
}

#[verifier::rlimit(40)]
proof fn lemma_step_restart_fits<K: Indexing>(
    input: BlockInput<K>,
    state: BlockModel<K>,
    actions: Seq<BlockAction<K>>,
    events: Seq<BlockEvent<K>>,
    event: BlockEvent<K>,
)
    requires
        restart_fits(input, state, actions, events),
        state.awaits(event),
        !state.next(event).0.has_failed(),
    ensures
        restart_fits(
            input,
            state.next(event).0,
            actions + state.next(event).1,
            events.push(event),
        ),
{
    let part = |action: BlockAction<K>| action.instantiated();
    let more = state.next(event).1;
    lemma_gather_add(actions, more, part);
    lemma_gather_few(more, part);
    assert(events.push(event).drop_last() =~= events);
    assert(made(events.push(event)) == made(events) + event.made());
}

/// A processed block calls for a restart of the subgraph exactly if new dynamic data
/// sources have been added to it; without them, the filters of the block stream are what
/// they were before, and with them, they are not.
pub proof fn law_restart_iff_data_sources_created<K: Indexing>(
    input: BlockInput<K>,
    events: Seq<BlockEvent<K>>,
    needs_restart: bool,
)
    requires
        answered(input, events),
        run_block(input, events).0.phase == BlockPhaseModel::<K>::Finished(Ok(needs_restart)),
    ensures
        ({
            let state = run_block(input, events).0;
            &&& needs_restart <==> made(events).len() > 0
            &&& needs_restart <==> asked_for(events).len() > 0
            &&& needs_restart <==> state.frame.ctx.filters != input.ctx.filters
        }),
{
    lemma_restart_fits(input, events);
    law_processed_block_is_complete(input, events);
    lemma_result_is_flag(input, events);
}

proof fn lemma_result_is_flag<K: Indexing>(input: BlockInput<K>, events: Seq<BlockEvent<K>>)
    ensures
        run_block(input, events).0.phase matches BlockPhaseModel::Finished(Ok(needs_restart))
            ==> needs_restart == run_block(input, events).0.frame.needs_restart,
    decreases events.len(),
{
    if events.len() > 0 {
        lemma_result_is_flag(input, events.drop_last());
    }
}

impl<K: Indexing> BlockEvent<K> {
    /// The host that was added to the subgraph instance.
    pub open spec fn added(self) -> Seq<K::Host> {
        match self {
            BlockEvent::Create(CreationEvent::HostAdded(Ok(host))) => seq![host],
            _ => Seq::empty(),
        }
    }
}

/// The hosts that were added to the subgraph instance, in order.
pub open spec fn added<K: Indexing>(events: Seq<BlockEvent<K>>) -> Seq<K::Host> {
    gather(events, |event: BlockEvent<K>| event.added())
}

/// A list ends with another.
pub open spec fn ends_with<A>(items: Seq<A>, tail: Seq<A>) -> bool {
    items.len() >= tail.len() && items.skip(items.len() - tail.len()) == tail
}

/// These are the data sources that were made last, and their hosts.
pub open spec fn latest<K: Indexing>(
    events: Seq<BlockEvent<K>>,
    data_sources: Seq<K::DataSource>,
    runtime_hosts: Seq<K::Host>,
) -> bool {
    &&& data_sources.len() == runtime_hosts.len()
    &&& made(events).len() == added(events).len()
    &&& ends_with(made(events), data_sources)
    &&& ends_with(added(events), runtime_hosts)
}

spec fn hosts_fit<K: Indexing>(state: BlockModel<K>, events: Seq<BlockEvent<K>>) -> bool {
    match state.phase {
        BlockPhaseModel::CreatingDataSources { creation, state } => match creation.current {
            None => latest(events, creation.data_sources, creation.runtime_hosts),
            Some(data_source) => {
                &&& creation.data_sources.len() == creation.runtime_hosts.len()
                &&& made(events).len() == added(events).len() + 1
                &&& ends_with(made(events), creation.data_sources.push(data_source))
                &&& ends_with(added(events), creation.runtime_hosts)
            },
        },
        BlockPhaseModel::FindingTriggers { data_sources, runtime_hosts, state: _ } => latest(
            events,
            data_sources,
            runtime_hosts,
        ),
        BlockPhaseModel::PersistingDataSources { persistence, triggers, runtime_hosts } => latest(
            events,
            state.unfiltered(),
            runtime_hosts,
        ),
        BlockPhaseModel::ProcessingInHosts { waiting, runtime_hosts, created } => {
            &&& state.frame.ctx.filters.len() > 0
            &&& latest(events, state.frame.ctx.filters.last(), runtime_hosts)
        },
        _ => made(events).len() == added(events).len(),
    }
}

proof fn lemma_ends_with_push<A>(items: Seq<A>, tail: Seq<A>, item: A)
    requires
        ends_with(items, tail),
    ensures
        ends_with(items.push(item), tail.push(item)),
{
    let pushed = items.push(item);
    assert(pushed.skip(pushed.len() - tail.push(item).len()) =~= tail.push(item));
}

#[verifier::rlimit(40)]
proof fn lemma_step_hosts_fit<K: Indexing>(
    state: BlockModel<K>,
    events: Seq<BlockEvent<K>>,
    event: BlockEvent<K>,
)
    requires
        hosts_fit(state, events),
        state.awaits(event),
        !state.next(event).0.has_failed(),
    ensures
        hosts_fit(state.next(event).0, events.push(event)),
{
    let next = state.next(event).0;
    let all = events.push(event);
    assert(all.drop_last() =~= events);
    assert(made(all) == made(events) + event.made());
    assert(added(all) == added(events) + event.added());
    lemma_step_sources(state, event);
    assert(made(all).skip(made(all).len() as int) =~= Seq::empty());
    assert(added(all).skip(added(all).len() as int) =~= Seq::empty());
    match (state.phase, event) {
        (
            BlockPhaseModel::CreatingDataSources { creation, state: _ },
            BlockEvent::Create(CreationEvent::Instantiated(Ok(data_source))),
        ) => {
            lemma_ends_with_push(made(events), creation.data_sources, data_source);
            assert(made(all) =~= made(events).push(data_source));
            assert(added(all) =~= added(events));
        },
        (
            BlockPhaseModel::CreatingDataSources { creation, state: _ },
            BlockEvent::Create(CreationEvent::HostAdded(Ok(host))),
        ) => {
            lemma_ends_with_push(added(events), creation.runtime_hosts, host);
            assert(made(all) =~= made(events));
            assert(added(all) =~= added(events).push(host));
        },
        _ => {
            assert(made(all) =~= made(events));
            assert(added(all) =~= added(events));
            assert(state.unfiltered() + event.made() =~= state.unfiltered());
        },
    }
}

proof fn lemma_hosts_fit<K: Indexing>(input: BlockInput<K>, events: Seq<BlockEvent<K>>)
    requires
        answered(input, events),
        !run_block(input, events).0.has_failed(),
    ensures
        hosts_fit(run_block(input, events).0, events),
    decreases events.len(),
{
    if events.len() > 0 {
        lemma_hosts_fit(input, events.drop_last());
        lemma_step_hosts_fit(
            run_block(input, events.drop_last()).0,
            events.drop_last(),
            events.last(),
        );
        assert(events.drop_last().push(events.last()) =~= events);
    }
}

/// The triggers for new data sources are processed in the hosts of those data sources, in
/// the order in which the data sources have been created: the data sources that the filters
/// were extended by last are those that were made last, and the hosts are those that were
/// added for them, one for each and in the same order. The block is searched for the
/// triggers of just these data sources before.
pub proof fn law_hosts_follow_data_sources<K: Indexing>(
    input: BlockInput<K>,
    events: Seq<BlockEvent<K>>,
)
    requires
        answered(input, events),
    ensures
        ({
            let state = run_block(input, events).0;
            match state.phase {
                BlockPhaseModel::FindingTriggers { data_sources, runtime_hosts, state: _ } => latest(
                    events,
                    data_sources,
                    runtime_hosts,
                ),
                BlockPhaseModel::ProcessingInHosts { waiting, runtime_hosts, created } => {
                    &&& state.frame.ctx.filters.len() > 0
                    &&& latest(events, state.frame.ctx.filters.last(), runtime_hosts)
                },
                _ => true,
            }
        }),
{
    if !run_block(input, events).0.has_failed() {
        lemma_hosts_fit(input, events);
    }
}

spec fn writes_nothing<K: Indexing>(actions: Seq<BlockAction<K>>) -> bool {
    forall|i: int| 0 <= i < actions.len() ==> !(#[trigger] actions[i]).writes()
}

#[verifier::rlimit(40)]
proof fn lemma_early_phases_write_nothing<K: Indexing>(
    input: BlockInput<K>,
    events: Seq<BlockEvent<K>>,
)
    ensures
        ({
            let phase = run_block(input, events).0.phase;
            ||| phase is OpeningState
            ||| phase is ProcessingTriggers
            ||| phase is CreatingDataSources
            ||| phase is FindingTriggers
            ||| phase is PersistingDataSources
            ||| phase is ProcessingInHosts
            ||| phase is CheckingCanceled
        }) ==> writes_nothing(run_block(input, events).1),
    decreases events.len(),
{
    if events.len() > 0 {
        lemma_early_phases_write_nothing(input, events.drop_last());
    }
}

/// The store is not written to if the block stream has been canceled: when that is found
/// out, the block ends as canceled whatever comes later, and nothing was or will be done
/// that changes what is stored.
pub proof fn law_canceled_block_is_not_stored<K: Indexing>(
    input: BlockInput<K>,
    before: Seq<BlockEvent<K>>,
    after: Seq<BlockEvent<K>>,
)
    requires
        run_block(input, before).0.phase is CheckingCanceled,
    ensures
        ({
            let (state, actions) = run_block(
                input,
                before.push(BlockEvent::Canceled(true)) + after,
            );
            &&& state.phase == BlockPhaseModel::<K>::Finished(Err(CancelableError::Cancel))
            &&& actions == run_block(input, before).1.push(BlockAction::Finish)
            &&& forall|i: int| 0 <= i < actions.len() ==> !(#[trigger] actions[i]).writes()
        }),
    decreases after.len(),
{
    let canceled = before.push(BlockEvent::Canceled(true));
    let events = canceled + after;
    lemma_early_phases_write_nothing(input, before);
    if after.len() == 0 {
        assert(events =~= canceled);
        assert(canceled.drop_last() =~= before);
        let actions = run_block(input, before).1;
        assert(actions + seq![BlockAction::<K>::Finish] =~= actions.push(BlockAction::Finish));
    } else {
        law_canceled_block_is_not_stored(input, before, after.drop_last());
        assert(events.drop_last() =~= canceled + after.drop_last());
        let actions = run_block(input, events.drop_last()).1;
        assert(actions + Seq::<BlockAction<K>>::empty() =~= actions);
    }
}

/// Whether it was found out that the block stream has not been canceled.
pub open spec fn seen_uncanceled<K: Indexing>(events: Seq<BlockEvent<K>>) -> bool {
    exists|i: int| 0 <= i < events.len() && #[trigger] events[i] == BlockEvent::<K>::Canceled(false)
}

/// Whatever is done that changes what is stored is done after it was found out that the
/// block stream has not been canceled.
pub proof fn law_writes_come_after_cancel_check<K: Indexing>(
    input: BlockInput<K>,
    events: Seq<BlockEvent<K>>,
)
    ensures
        (exists|i: int|
            0 <= i < run_block(input, events).1.len() && (#[trigger] run_block(
                input,
                events,
            ).1[i]).writes()) ==> seen_uncanceled(events),
{
    lemma_writes_come_after_cancel_check(input, events);
}

#[verifier::rlimit(40)]
proof fn lemma_writes_come_after_cancel_check<K: Indexing>(
    input: BlockInput<K>,
    events: Seq<BlockEvent<K>>,
)
    ensures
        seen_uncanceled(events) || writes_nothing(run_block(input, events).1),
        seen_uncanceled(events) || match run_block(input, events).0.phase {
            BlockPhaseModel::TakingProof
            | BlockPhaseModel::UpdatingProof(_)
            | BlockPhaseModel::ComputingModifications
            | BlockPhaseModel::EvictingCache(_)
            | BlockPhaseModel::Transacting => false,
            _ => true,
        },
    decreases events.len(),
{
    if events.len() > 0 {
        let earlier = events.drop_last();
        lemma_writes_come_after_cancel_check(input, earlier);
        if seen_uncanceled(earlier) {
            let i = choose|i: int|
                0 <= i < earlier.len() && #[trigger] earlier[i] == BlockEvent::<K>::Canceled(false);
            assert(events[i] == BlockEvent::<K>::Canceled(false));
        } else if events.last() == BlockEvent::<K>::Canceled(false) {
            assert(events[events.len() - 1] == BlockEvent::<K>::Canceled(false));
        }
    }
}

impl<K: Indexing> BlockAction<K> {
    /// The changes that are stored.
    pub open spec fn transacted(self) -> Seq<K::Modifications> {
        match self {
            BlockAction::Transact { deployment_id, pointer, modifications } => seq![modifications],
            _ => Seq::empty(),
        }
    }

    /// One item for each migration of the deployment.
    pub open spec fn migrated(self) -> Seq<()> {
        match self {
            BlockAction::MigrateDeployment { deployment_id, pointer } => seq![()],
            _ => Seq::empty(),
        }
    }
}

impl<K: Indexing> BlockEvent<K> {
    /// The changes that were computed.
    pub open spec fn computed(self) -> Seq<K::Modifications> {
        match self {
            BlockEvent::ModificationsComputed(Ok((modifications, _))) => seq![modifications],
            _ => Seq::empty(),
        }
    }

    /// The entity cache after it has been shrunk.
    pub open spec fn evicted(self) -> Seq<K::Cache> {
        match self {
            BlockEvent::CacheEvicted(cache) => seq![cache],
            _ => Seq::empty(),
        }
    }
}

/// The changes that were stored, in order.
pub open spec fn transacted<K: Indexing>(actions: Seq<BlockAction<K>>) -> Seq<K::Modifications> {
    gather(actions, |action: BlockAction<K>| action.transacted())
}

/// The migrations of the deployment.
pub open spec fn migrated<K: Indexing>(actions: Seq<BlockAction<K>>) -> Seq<()> {
    gather(actions, |action: BlockAction<K>| action.migrated())
}

/// The changes that were computed, in order.
pub open spec fn computed<K: Indexing>(events: Seq<BlockEvent<K>>) -> Seq<K::Modifications> {
    gather(events, |event: BlockEvent<K>| event.computed())
}

/// The entity caches that were shrunk, in order.
pub open spec fn evicted<K: Indexing>(events: Seq<BlockEvent<K>>) -> Seq<K::Cache> {
    gather(events, |event: BlockEvent<K>| event.evicted())
}

impl<K: Indexing> BlockEvent<K> {
    /// The changes could not be stored.
    pub open spec fn refuses(self) -> bool {
        self matches BlockEvent::Transacted { should_migrate: Err(_), elapsed }
    }
}

/// The last thing that has happened is that the changes could not be stored.
pub open spec fn refused<K: Indexing>(events: Seq<BlockEvent<K>>) -> bool {
    events.len() > 0 && events.last().refuses()
}

spec fn stored_so_far<K: Indexing>(
    state: BlockModel<K>,
    actions: Seq<BlockAction<K>>,
    events: Seq<BlockEvent<K>>,
) -> bool {
    let cache = state.frame.ctx.entity_lfu_cache;
    match state.phase {
        BlockPhaseModel::EvictingCache(modifications) => {
            &&& transacted(actions) == Seq::<K::Modifications>::empty()
            &&& migrated(actions).len() == 0
            &&& computed(events) == seq![modifications]
            &&& evicted(events) == Seq::<K::Cache>::empty()
            &&& cache is None
        },
        BlockPhaseModel::Transacting => {
            &&& transacted(actions) == computed(events)
            &&& migrated(actions).len() == 0
            &&& computed(events).len() == 1
            &&& cache matches Some(cache) && evicted(events) == seq![cache]
        },
        BlockPhaseModel::Finished(Ok(_)) => {
            &&& transacted(actions) == computed(events)
            &&& computed(events).len() == 1
            &&& cache matches Some(cache) && evicted(events) == seq![cache]
            &&& events.len() > 0
            &&& events.last() matches BlockEvent::Transacted { should_migrate: Ok(migrate), elapsed }
            &&& migrated(actions).len() == if migrate {
                1nat
            } else {
                0nat
            }
        },
        BlockPhaseModel::Finished(Err(_)) => {
            &&& transacted(actions).len() == if refused(events) {
                1nat
            } else {
                0nat
            }
            &&& migrated(actions).len() == 0
        },
        _ => {
            &&& transacted(actions) == Seq::<K::Modifications>::empty()
            &&& migrated(actions).len() == 0
            &&& computed(events) == Seq::<K::Modifications>::empty()
            &&& evicted(events) == Seq::<K::Cache>::empty()
            &&& cache is None
        },
    }
}

/// What a step means for the changes of the block and for the entity cache.
spec fn store_step<K: Indexing>(
    state: BlockModel<K>,
    event: BlockEvent<K>,
    next: BlockModel<K>,
    more: Seq<BlockAction<K>>,
) -> bool {
    let cache = state.frame.ctx.entity_lfu_cache;
    let next_cache = next.frame.ctx.entity_lfu_cache;
    match state.phase {
        BlockPhaseModel::ComputingModifications => {
            &&& !event.refuses()
            &&& next_cache == cache
            &&& event.evicted() == Seq::<K::Cache>::empty()
            &&& transacted(more) == Seq::<K::Modifications>::empty()
            &&& migrated(more).len() == 0
            &&& next.has_failed() || (next.phase matches BlockPhaseModel::EvictingCache(
                modifications,
            ) && event.computed() == seq![modifications])
        },
        BlockPhaseModel::EvictingCache(modifications) => {
            &&& next.phase is Transacting
            &&& next_cache matches Some(cache) && event.evicted() == seq![cache]
            &&& event.computed() == Seq::<K::Modifications>::empty()
            &&& transacted(more) == seq![modifications]
            &&& migrated(more).len() == 0
        },
        BlockPhaseModel::Transacting => {
            &&& next_cache == cache
            &&& event.evicted() == Seq::<K::Cache>::empty()
            &&& event.computed() == Seq::<K::Modifications>::empty()
            &&& transacted(more) == Seq::<K::Modifications>::empty()
            &&& if next.has_failed() {
                event.refuses() && migrated(more).len() == 0
            } else {
                &&& next.phase matches BlockPhaseModel::Finished(Ok(_))
                &&& event matches BlockEvent::Transacted { should_migrate: Ok(migrate), elapsed }
                &&& migrated(more).len() == if migrate {
                    1nat
                } else {
                    0nat
                }
            }
        },
        _ => {
            &&& !event.refuses()
            &&& next_cache == cache
            &&& event.evicted() == Seq::<K::Cache>::empty()
            &&& event.computed() == Seq::<K::Modifications>::empty()
            &&& transacted(more) == Seq::<K::Modifications>::empty()
            &&& migrated(more).len() == 0
            &&& next.has_failed() || next.phase !is EvictingCache && next.phase !is Transacting
                && next.phase !is Finished
        },
    }
}

#[verifier::rlimit(40)]
proof fn lemma_store_step<K: Indexing>(state: BlockModel<K>, event: BlockEvent<K>)
    requires
        state.awaits(event),
    ensures
        store_step(state, event, state.next(event).0, state.next(event).1),
{
    let more = state.next(event).1;
    lemma_gather_few(more, |action: BlockAction<K>| action.transacted());
    lemma_gather_few(more, |action: BlockAction<K>| action.migrated());
    assert(transacted(more) =~= match state.phase {
        BlockPhaseModel::EvictingCache(modifications) => seq![modifications],
        _ => Seq::empty(),
    });
}

#[verifier::rlimit(40)]
proof fn lemma_stored_step<K: Indexing>(
    state: BlockModel<K>,
    actions: Seq<BlockAction<K>>,
    events: Seq<BlockEvent<K>>,
    next: BlockModel<K>,
    more: Seq<BlockAction<K>>,
)
    requires
        events.len() > 0,
        state.phase !is Finished,
        stored_so_far(state, actions, events.drop_last()),
        store_step(state, events.last(), next, more),
    ensures
        stored_so_far(next, actions + more, events),
{
    let event = events.last();
    lemma_gather_add(actions, more, |action: BlockAction<K>| action.transacted());
    lemma_gather_add(actions, more, |action: BlockAction<K>| action.migrated());
    assert(transacted(actions + more) == transacted(actions) + transacted(more));
    assert(migrated(actions + more).len() == migrated(actions).len() + migrated(more).len());
    assert(computed(events) == computed(events.drop_last()) + event.computed());
    assert(evicted(events) == evicted(events.drop_last()) + event.evicted());
    match state.phase {
        BlockPhaseModel::ComputingModifications => {
            assert(computed(events) =~= event.computed());
            assert(evicted(events) =~= Seq::empty());
            assert(transacted(actions + more) =~= Seq::empty());
        },
        BlockPhaseModel::EvictingCache(modifications) => {
            assert(computed(events) =~= seq![modifications]);
            assert(evicted(events) =~= event.evicted());
            assert(transacted(actions + more) =~= seq![modifications]);
        },
        _ => {
            assert(computed(events) =~= computed(events.drop_last()));
            assert(evicted(events) =~= evicted(events.drop_last()));
            assert(transacted(actions + more) =~= transacted(actions));
        },
    }
}

proof fn lemma_stored_so_far<K: Indexing>(input: BlockInput<K>, events: Seq<BlockEvent<K>>)
    requires
        answered(input, events),
    ensures
        stored_so_far(run_block(input, events).0, run_block(input, events).1, events),
    decreases events.len(),
{
    if events.len() == 0 {
        lemma_gather_few(
            run_block(input, events).1,
            |action: BlockAction<K>| action.transacted(),
        );
        lemma_gather_few(run_block(input, events).1, |action: BlockAction<K>| action.migrated());
    } else {
        let (state, actions) = run_block(input, events.drop_last());
        let (next, more) = state.next(events.last());
        lemma_stored_so_far(input, events.drop_last());
        lemma_store_step(state, events.last());
        lemma_stored_step(state, actions, events, next, more);
    }
}

/// The changes of a processed block are stored once, as they were computed, and the
/// deployment is migrated afterwards exactly if the store says so. Of a block that fails
/// nothing is handed to the store, unless it is the store itself that has refused the
/// changes; and the deployment is not migrated then.
pub proof fn law_changes_are_stored_once<K: Indexing>(
    input: BlockInput<K>,
    events: Seq<BlockEvent<K>>,
)
    requires
        answered(input, events),
    ensures
        ({
            let (state, actions) = run_block(input, events);
            &&& transacted(actions).len() <= 1
            &&& state.phase matches BlockPhaseModel::Finished(Ok(_)) ==> {
                &&& transacted(actions).len() == 1
                &&& transacted(actions) == computed(events)
                &&& events.last() matches BlockEvent::Transacted {
                    should_migrate: Ok(migrate),
                    elapsed,
                }
                &&& migrated(actions).len() == if migrate {
                    1nat
                } else {
                    0nat
                }
            }
            &&& state.has_failed() ==> {
                &&& migrated(actions).len() == 0
                &&& transacted(actions).len() == if refused(events) {
                    1nat
                } else {
                    0nat
                }
            }
        }),
{
    lemma_stored_so_far(input, events);
}

/// The entity cache is out of the context while a block is processed: it is handed out at
/// the start, the placeholder that is left behind stays empty, and once the changes have
/// been computed the new cache, shrunk to its limit, takes its place.
pub proof fn law_cache_comes_back<K: Indexing>(input: BlockInput<K>, events: Seq<BlockEvent<K>>)
    requires
        answered(input, events),
    ensures
        ({
            let (state, actions) = run_block(input, events);
            &&& actions[0] == BlockAction::<K>::OpenBlockState(input.ctx.entity_lfu_cache)
            &&& state.phase !is Transacting && state.phase !is Finished
                ==> state.frame.ctx.entity_lfu_cache is None
            &&& state.phase matches BlockPhaseModel::Finished(Ok(_)) ==> {
                &&& state.frame.ctx.entity_lfu_cache is Some
                &&& evicted(events) == seq![state.frame.ctx.entity_lfu_cache->Some_0]
            }
            &&& forall|i: int|
                0 <= i < actions.len() ==> ((#[trigger] actions[i]) matches BlockAction::EvictCache {
                    cache,
                    limit,
                } ==> limit == input.cache_limit)
        }),
{
    lemma_stored_so_far(input, events);
    lemma_kept(input, events);
}

#[verifier::rlimit(40)]
proof fn lemma_kept<K: Indexing>(input: BlockInput<K>, events: Seq<BlockEvent<K>>)
    ensures
        ({
            let (state, actions) = run_block(input, events);
            &&& actions.len() > 0
            &&& actions[0] == BlockAction::<K>::OpenBlockState(input.ctx.entity_lfu_cache)
            &&& state.frame.cache_limit == input.cache_limit
            &&& state.frame.poi_object == input.poi_object
            &&& state.frame.pointer == input.pointer
            &&& state.frame.ethereum_block == input.ethereum_block
            &&& forall|i: int|
                0 <= i < actions.len() ==> (#[trigger] actions[i]).is_about(
                    input.ctx.inputs.deployment_id,
                    input.pointer,
                )
            &&& state.frame.ctx.inputs == input.ctx.inputs
            &&& state.frame.ctx.restarts == input.ctx.restarts
            &&& forall|i: int|
                0 <= i < actions.len() ==> ((#[trigger] actions[i]) matches BlockAction::EvictCache {
                    cache,
                    limit,
                } ==> limit == input.cache_limit)
        }),
    decreases events.len(),
{
    if events.len() > 0 {
        lemma_kept(input, events.drop_last());
    }
}

impl<K: Indexing> BlockAction<K> {
    /// What is recorded, stored or migrated is so for this deployment and under this block
    /// pointer.
    pub open spec fn is_about(self, id: String, block: K::BlockPointer) -> bool {
        match self {
            BlockAction::PersistDataSource { deployment_id, pointer, id: _, state } => deployment_id
                == id && pointer == block,
            BlockAction::Transact { deployment_id, pointer, modifications } => deployment_id == id
                && pointer == block,
            BlockAction::MigrateDeployment { deployment_id, pointer } => deployment_id == id
                && pointer == block,
            _ => true,
        }
    }
}

/// Whatever is recorded, stored or migrated while a block is processed is so for the
/// deployment of the context, and under the pointer of that block.
pub proof fn law_actions_are_about_the_block<K: Indexing>(
    input: BlockInput<K>,
    events: Seq<BlockEvent<K>>,
)
    ensures
        run_block(input, events).0.frame.ethereum_block == input.ethereum_block,
        forall|i: int|
            0 <= i < run_block(input, events).1.len() ==> (#[trigger] run_block(
                input,
                events,
            ).1[i]).is_about(input.ctx.inputs.deployment_id, input.pointer),
{
    lemma_kept(input, events);
}

/// A block changes neither the inputs of the indexing nor the number of restarts.
pub proof fn law_inputs_are_kept<K: Indexing>(input: BlockInput<K>, events: Seq<BlockEvent<K>>)
    ensures
        run_block(input, events).0.frame.ctx.inputs == input.ctx.inputs,
        run_block(input, events).0.frame.ctx.restarts == input.ctx.restarts,
{
    lemma_kept(input, events);
}

/// Once a block is processed or has failed, nothing more is done for it.
pub proof fn law_finished_block_stays_finished<K: Indexing>(
    input: BlockInput<K>,
    before: Seq<BlockEvent<K>>,
    after: Seq<BlockEvent<K>>,
)
    requires
        run_block(input, before).0.phase is Finished,
    ensures
        run_block(input, before + after) == run_block(input, before),
    decreases after.len(),
{
    if after.len() == 0 {
        assert(before + after =~= before);
    } else {
        law_finished_block_stays_finished(input, before, after.drop_last());
        assert((before + after).drop_last() =~= before + after.drop_last());
        let actions = run_block(input, before).1;
        assert(actions + Seq::<BlockAction<K>>::empty() =~= actions);
    }
}

impl<K: Indexing> BlockAction<K> {
    /// The kind of the trigger that the sensors are fed with.
    pub open spec fn observed(self) -> Seq<TriggerType> {
        match self {
            BlockAction::ObserveTrigger(observation) => seq![observation.trigger_type],
            _ => Seq::empty(),
        }
    }

    /// One item if the proof of indexing is taken out of the block.
    pub open spec fn proof_taken(self) -> Seq<()> {
        match self {
            BlockAction::TakeProof(_) => seq![()],
            _ => Seq::empty(),
        }
    }
}

/// The kinds of the triggers that the sensors are fed with, in order.
pub open spec fn observed<K: Indexing>(actions: Seq<BlockAction<K>>) -> Seq<TriggerType> {
    gather(actions, |action: BlockAction<K>| action.observed())
}

/// How often the proof of indexing is taken out of the block.
pub open spec fn proofs_taken<K: Indexing>(actions: Seq<BlockAction<K>>) -> Seq<()> {
    gather(actions, |action: BlockAction<K>| action.proof_taken())
}

/// The kinds of triggers.
pub open spec fn kinds<X>(triggers: Seq<EthereumTrigger<X>>) -> Seq<TriggerType> {
    triggers.map_values(|trigger: EthereumTrigger<X>| trigger.in_flight().trigger_type)
}

#[verifier::rlimit(40)]
proof fn lemma_observed<K: Indexing>(input: BlockInput<K>, events: Seq<BlockEvent<K>>)
    requires
        answered(input, events),
        !run_block(input, events).0.has_failed(),
    ensures
        ({
            let (state, actions) = run_block(input, events);
            kinds(processed(actions)) == match state.phase {
                BlockPhaseModel::ProcessingTriggers(pass) => observed(actions).push(
                    pass.current.trigger_type,
                ),
                _ => observed(actions),
            }
        }),
    decreases events.len(),
{
    let part_observed = |action: BlockAction<K>| action.observed();
    let part_processed = |action: BlockAction<K>| action.processed();
    if events.len() == 0 {
        let (state, actions) = run_block(input, events);
        lemma_gather_few(actions, part_observed);
        lemma_gather_few(actions, part_processed);
        assert(observed(actions) =~= Seq::empty());
        assert(kinds(processed(actions)) =~= Seq::empty());
    } else {
        let (state, actions) = run_block(input, events.drop_last());
        let (next, more) = state.next(events.last());
        lemma_observed(input, events.drop_last());
        lemma_gather_add(actions, more, part_observed);
        lemma_gather_add(actions, more, part_processed);
        lemma_gather_few(more, part_observed);
        lemma_gather_few(more, part_processed);
        match state.phase {
            BlockPhaseModel::OpeningState { pointer_text, triggers } => {
                assert(gather(more, part_observed) =~= Seq::empty());
                assert(observed(actions + more) =~= observed(actions));
                match next.phase {
                    BlockPhaseModel::ProcessingTriggers(after) => {
                        assert(gather(more, part_processed) =~= seq![triggers[0]]);
                        assert(kinds(processed(actions + more)) =~= kinds(
                            processed(actions),
                        ).push(after.current.trigger_type));
                    },
                    _ => {
                        assert(gather(more, part_processed) =~= Seq::empty());
                        assert(processed(actions + more) =~= processed(actions));
                    },
                }
            },
            BlockPhaseModel::ProcessingTriggers(pass) => {
                assert(gather(more, part_observed) =~= seq![pass.current.trigger_type]);
                assert(observed(actions + more) =~= observed(actions).push(
                    pass.current.trigger_type,
                ));
                match next.phase {
                    BlockPhaseModel::ProcessingTriggers(after) => {
                        assert(gather(more, part_processed) =~= seq![pass.waiting[0]]);
                        assert(kinds(processed(actions + more)) =~= kinds(
                            processed(actions),
                        ).push(after.current.trigger_type));
                    },
                    _ => {
                        assert(gather(more, part_processed) =~= Seq::empty());
                        assert(processed(actions + more) =~= processed(actions));
                    },
                }
            },
            _ => {
                assert(gather(more, part_observed) =~= Seq::empty());
                assert(gather(more, part_processed) =~= Seq::empty());
                assert(observed(actions + more) =~= observed(actions));
                assert(processed(actions + more) =~= processed(actions));
            },
        }
    }
}

/// When a block is processed, the sensors were fed once for each of its triggers, in order,
/// and each time under the kind of the trigger.
pub proof fn law_every_trigger_is_observed<K: Indexing>(
    input: BlockInput<K>,
    events: Seq<BlockEvent<K>>,
)
    requires
        answered(input, events),
        run_block(input, events).0.phase matches BlockPhaseModel::Finished(Ok(_)),
    ensures
        observed(run_block(input, events).1) == kinds(input.triggers),
{
    lemma_observed(input, events);
    law_processed_block_is_complete(input, events);
}

spec fn proof_taken_fits<K: Indexing>(state: BlockModel<K>, actions: Seq<BlockAction<K>>) -> bool {
    match state.phase {
        BlockPhaseModel::TakingProof
        | BlockPhaseModel::UpdatingProof(_)
        | BlockPhaseModel::ComputingModifications
        | BlockPhaseModel::EvictingCache(_)
        | BlockPhaseModel::Transacting
        | BlockPhaseModel::Finished(Ok(_)) => proofs_taken(actions).len() == 1,
        BlockPhaseModel::Finished(Err(_)) => proofs_taken(actions).len() <= 1,
        _ => proofs_taken(actions).len() == 0,
    }
}

/// What a block has added to the proof of indexing is taken out of it once before its
/// changes are computed, whether or not the deployment keeps proofs, so that it does not
/// accumulate.
pub proof fn law_proof_is_taken_out<K: Indexing>(
    input: BlockInput<K>,
    events: Seq<BlockEvent<K>>,
)
    ensures
        ({
            let (state, actions) = run_block(input, events);
            match state.phase {
                BlockPhaseModel::ComputingModifications
                | BlockPhaseModel::EvictingCache(_)
                | BlockPhaseModel::Transacting
                | BlockPhaseModel::Finished(Ok(_)) => proofs_taken(actions).len() == 1,
                _ => proofs_taken(actions).len() <= 1,
            }
        }),
{
    lemma_proof_taken(input, events);
}

#[verifier::rlimit(40)]
proof fn lemma_proof_taken<K: Indexing>(input: BlockInput<K>, events: Seq<BlockEvent<K>>)
    ensures
        proof_taken_fits(run_block(input, events).0, run_block(input, events).1),
    decreases events.len(),
{
    let part = |action: BlockAction<K>| action.proof_taken();
    if events.len() == 0 {
        lemma_gather_few(run_block(input, events).1, part);
    } else {
        let (state, actions) = run_block(input, events.drop_last());
        let more = state.next(events.last()).1;
        lemma_proof_taken(input, events.drop_last());
        lemma_gather_add(actions, more, part);
        lemma_gather_few(more, part);
    }
}

impl<K: Indexing> BlockAction<K> {
    /// The state of the block that is handed out.
    pub open spec fn lent(self) -> Seq<K::BlockState> {
        match self {
            BlockAction::ProcessTrigger { trigger, state } => seq![state],
            BlockAction::PersistDataSource { deployment_id, pointer, id, state } => seq![state],
            BlockAction::ProcessInHosts { trigger, state } => seq![state],
            BlockAction::TakeProof(state) => seq![state],
            BlockAction::UpdateProof(ProofRequest::Read { key, state }) => seq![state],
            BlockAction::UpdateProof(ProofRequest::Write { key, entity, state }) => seq![state],
            BlockAction::ComputeModifications(state) => seq![state],
            _ => Seq::empty(),
        }
    }
}

impl<K: Indexing> BlockEvent<K> {
    /// The state of the block that is given back.
    pub open spec fn given_back(self) -> Seq<K::BlockState> {
        match self {
            BlockEvent::BlockStateOpened(state) => seq![state],
            BlockEvent::TriggerProcessed { outcome: Ok((state, _)), elapsed } => seq![state],
            BlockEvent::Persist(PersistenceEvent::Recorded(Ok(state))) => seq![state],
            BlockEvent::ProcessedInHosts(Ok((state, _))) => seq![state],
            BlockEvent::ProofTaken { state, taken } => seq![state],
            BlockEvent::UpdateProof(ProofEvent::Read(Ok((state, _)))) => seq![state],
            BlockEvent::UpdateProof(ProofEvent::Written(Ok(state))) => seq![state],
            _ => Seq::empty(),
        }
    }
}

/// The states of the block that are handed out, in order.
pub open spec fn lent<K: Indexing>(actions: Seq<BlockAction<K>>) -> Seq<K::BlockState> {
    gather(actions, |action: BlockAction<K>| action.lent())
}

/// The states of the block that are given back, in order.
pub open spec fn given_back<K: Indexing>(events: Seq<BlockEvent<K>>) -> Seq<K::BlockState> {
    gather(events, |event: BlockEvent<K>| event.given_back())
}

impl<K: Indexing> BlockModel<K> {
    /// The state of the block, while it is handed out to nobody.
    pub open spec fn held(self) -> Seq<K::BlockState> {
        match self.phase {
            BlockPhaseModel::CreatingDataSources { creation, state } => seq![state],
            BlockPhaseModel::FindingTriggers { data_sources, runtime_hosts, state } => seq![state],
            BlockPhaseModel::PersistingDataSources { persistence, triggers, runtime_hosts } =>
                match persistence.state {
                Some(state) => seq![state],
                None => Seq::empty(),
            },
            BlockPhaseModel::CheckingCanceled { state } => seq![state],
            BlockPhaseModel::UpdatingProof(update) => match update.stage {
                ProofStage::Support { state } => seq![state],
                ProofStage::Finish { region, state } => seq![state],
                _ => Seq::empty(),
            },
            _ => Seq::empty(),
        }
    }
}

#[verifier::rlimit(40)]
proof fn lemma_step_lends<K: Indexing>(state: BlockModel<K>, event: BlockEvent<K>)
    requires
        state.awaits(event),
    ensures
        !state.next(event).0.has_failed() ==> lent(state.next(event).1) + state.next(event).0.held()
            == state.held() + event.given_back(),
        state.next(event).0.has_failed() ==> lent(state.next(event).1)
            == Seq::<K::BlockState>::empty() && event.given_back()
            == Seq::<K::BlockState>::empty(),
{
    let (next, more) = state.next(event);
    lemma_gather_few(more, |action: BlockAction<K>| action.lent());
    if next.has_failed() {
        assert(lent(more) =~= Seq::empty());
    } else {
        assert(lent(more) + next.held() =~= state.held() + event.given_back());
    }
}

proof fn lemma_state_is_threaded<K: Indexing>(input: BlockInput<K>, events: Seq<BlockEvent<K>>)
    requires
        answered(input, events),
    ensures
        ({
            let (state, actions) = run_block(input, events);
            if state.has_failed() {
                &&& lent(actions).is_prefix_of(given_back(events))
                &&& given_back(events).len() <= lent(actions).len() + 1
            } else {
                lent(actions) + state.held() == given_back(events)
            }
        }),
    decreases events.len(),
{
    let part = |action: BlockAction<K>| action.lent();
    let (now, all) = run_block(input, events);
    if events.len() == 0 {
        lemma_gather_few(all, part);
        assert(lent(all) + now.held() =~= given_back(events));
    } else {
        let earlier = events.drop_last();
        let (state, actions) = run_block(input, earlier);
        let more = state.next(events.last()).1;
        lemma_state_is_threaded(input, earlier);
        lemma_step_lends(state, events.last());
        lemma_gather_add(actions, more, part);
        let back = events.last().given_back();
        assert(given_back(events) == given_back(earlier) + back);
        if now.has_failed() {
            assert(lent(all) =~= lent(actions));
            assert(given_back(events) =~= given_back(earlier));
            lemma_prefix(lent(actions), state.held());
        } else {
            assert((lent(actions) + lent(more)) + now.held() =~= lent(actions) + (lent(more)
                + now.held()));
            assert(lent(actions) + (state.held() + back) =~= (lent(actions) + state.held())
                + back);
        }
    }
}

/// The state of the block goes from hand to hand: each call that works on it is given the
/// state that was given back last, so that every trigger sees what the triggers before it
/// have changed, every new data source is recorded on top of them, and what is stored in the
/// end comes from the last state. No state is handed out twice, and none is lost unless the
/// block fails.
pub proof fn law_state_is_threaded<K: Indexing>(input: BlockInput<K>, events: Seq<BlockEvent<K>>)
    requires
        answered(input, events),
    ensures
        ({
            let (state, actions) = run_block(input, events);
            &&& lent(actions).is_prefix_of(given_back(events))
            &&& given_back(events).len() <= lent(actions).len() + 1
            &&& !state.has_failed() ==> lent(actions) + state.held() == given_back(events)
            &&& state.phase matches BlockPhaseModel::Finished(Ok(_)) ==> lent(actions)
                == given_back(events)
        }),
{
    let (state, actions) = run_block(input, events);
    lemma_state_is_threaded(input, events);
    if !state.has_failed() {
        lemma_prefix(lent(actions), state.held());
    }
    assert(lent(actions) + Seq::<K::BlockState>::empty() =~= lent(actions));
}

/// The data sources that were recorded, in order.
pub open spec fn recorded<K: Indexing>(
    input: BlockInput<K>,
    events: Seq<BlockEvent<K>>,
) -> Seq<K::DataSource>
    decreases events.len(),
{
    if events.len() == 0 {
        Seq::empty()
    } else {
        recorded(input, events.drop_last()) + run_block(input, events.drop_last()).0.records(
            events.last(),
        )
    }
}

impl<K: Indexing> BlockModel<K> {
    /// The data source that is recorded with an answer.
    pub open spec fn records(self, event: BlockEvent<K>) -> Seq<K::DataSource> {
        match (self.phase, event) {
            (
                BlockPhaseModel::PersistingDataSources { persistence, triggers, runtime_hosts },
                BlockEvent::Persist(PersistenceEvent::Recorded(Ok(_))),
            ) => seq![persistence.current],
            _ => Seq::empty(),
        }
    }

    spec fn unrecorded(self) -> Seq<K::DataSource> {
        match self.phase {
            BlockPhaseModel::CreatingDataSources { creation, state } => creation.data_sources + (
            match creation.current {
                Some(data_source) => seq![data_source],
                None => Seq::empty(),
            }),
            BlockPhaseModel::FindingTriggers { data_sources, runtime_hosts, state } => data_sources,
            BlockPhaseModel::PersistingDataSources { persistence, triggers, runtime_hosts } => seq![
                persistence.current,
            ] + persistence.waiting,
            _ => Seq::empty(),
        }
    }
}

#[verifier::rlimit(40)]
proof fn lemma_step_records<K: Indexing>(state: BlockModel<K>, event: BlockEvent<K>)
    requires
        state.awaits(event),
        !state.next(event).0.has_failed(),
    ensures
        state.records(event) + state.next(event).0.unrecorded() == state.unrecorded()
            + event.made(),
{
    let next = state.next(event).0;
    assert(state.records(event) + next.unrecorded() =~= state.unrecorded() + event.made());
}

proof fn lemma_recorded<K: Indexing>(input: BlockInput<K>, events: Seq<BlockEvent<K>>)
    requires
        answered(input, events),
        !run_block(input, events).0.has_failed(),
    ensures
        recorded(input, events) + run_block(input, events).0.unrecorded() == made(events),
    decreases events.len(),
{
    let next = run_block(input, events).0;
    if events.len() == 0 {
        assert(recorded(input, events) + next.unrecorded() =~= made(events));
    } else {
        let earlier = events.drop_last();
        let state = run_block(input, earlier).0;
        let event = events.last();
        lemma_recorded(input, earlier);
        lemma_step_records(state, event);
        let done = recorded(input, earlier);
        assert((done + state.records(event)) + next.unrecorded() =~= done + (state.records(event)
            + next.unrecorded()));
        assert(done + (state.unrecorded() + event.made()) =~= (done + state.unrecorded())
            + event.made());
    }
}

impl<K: Indexing> BlockAction<K> {
    /// The id that a data source is recorded under.
    pub open spec fn recording_id(self) -> Seq<String> {
        match self {
            BlockAction::PersistDataSource { deployment_id, pointer, id, state } => seq![id],
            _ => Seq::empty(),
        }
    }
}

impl<K: Indexing> BlockEvent<K> {
    /// The id that was made for a data source.
    pub open spec fn id_made(self) -> Seq<String> {
        match self {
            BlockEvent::Persist(PersistenceEvent::IdMade(id)) => seq![id],
            _ => Seq::empty(),
        }
    }
}

/// The ids that data sources are recorded under, in order.
pub open spec fn recording_ids<K: Indexing>(actions: Seq<BlockAction<K>>) -> Seq<String> {
    gather(actions, |action: BlockAction<K>| action.recording_id())
}

/// The ids that were made for data sources, in order.
pub open spec fn ids_made<K: Indexing>(events: Seq<BlockEvent<K>>) -> Seq<String> {
    gather(events, |event: BlockEvent<K>| event.id_made())
}

/// Data sources are recorded under the ids that were made for them: each id that is made is
/// used for exactly one recording, in order, and no other id is used.
pub proof fn law_each_recording_has_its_own_id<K: Indexing>(
    input: BlockInput<K>,
    events: Seq<BlockEvent<K>>,
)
    requires
        answered(input, events),
    ensures
        recording_ids(run_block(input, events).1) == ids_made(events),
    decreases events.len(),
{
    let part = |action: BlockAction<K>| action.recording_id();
    if events.len() == 0 {
        lemma_gather_few(run_block(input, events).1, part);
        assert(recording_ids(run_block(input, events).1) =~= ids_made(events));
    } else {
        let (state, actions) = run_block(input, events.drop_last());
        let more = state.next(events.last()).1;
        law_each_recording_has_its_own_id(input, events.drop_last());
        lemma_gather_add(actions, more, part);
        lemma_gather_few(more, part);
        assert(gather(more, part) =~= events.last().id_made());
    }
}

/// Every data source that was made is recorded exactly once, in order, before the changes of
/// the block are handed to the store; a block that is processed has recorded all of them.
pub proof fn law_data_sources_are_recorded_before_storing<K: Indexing>(
    input: BlockInput<K>,
    events: Seq<BlockEvent<K>>,
)
    requires
        answered(input, events),
    ensures
        ({
            let (state, actions) = run_block(input, events);
            &&& transacted(actions).len() > 0 ==> recorded(input, events) == made(events)
            &&& state.phase matches BlockPhaseModel::Finished(Ok(_)) ==> recorded(input, events)
                == made(events)
        }),
{
    let (state, actions) = run_block(input, events);
    lemma_stored_so_far(input, events);
    let empty = Seq::<K::DataSource>::empty();
    if !state.has_failed() {
        lemma_recorded(input, events);
        assert(recorded(input, events) + empty =~= recorded(input, events));
    } else if transacted(actions).len() > 0 {
        let earlier = events.drop_last();
        lemma_recorded(input, earlier);
        assert(events.last().refuses());
        assert(recorded(input, earlier) + empty =~= recorded(input, earlier));
        assert(made(earlier) + empty =~= made(earlier));
    }
}

impl<K: Indexing> BlockModel<K> {
    /// The data sources that an answer is for which the block was searched.
    pub open spec fn searches(self, event: BlockEvent<K>) -> Seq<K::DataSource> {
        match (self.phase, event) {
            (
                BlockPhaseModel::FindingTriggers { data_sources, runtime_hosts, state },
                BlockEvent::TriggersFound(Ok(_)),
            ) => data_sources,
            _ => Seq::empty(),
        }
    }

    spec fn unsearched(self) -> Seq<K::DataSource> {
        match self.phase {
            BlockPhaseModel::CreatingDataSources { creation, state } => creation.data_sources + (
            match creation.current {
                Some(data_source) => seq![data_source],
                None => Seq::empty(),
            }),
            BlockPhaseModel::FindingTriggers { data_sources, runtime_hosts, state } => data_sources,
            _ => Seq::empty(),
        }
    }
}

/// The data sources for which the block was searched, in order.
pub open spec fn searched<K: Indexing>(
    input: BlockInput<K>,
    events: Seq<BlockEvent<K>>,
) -> Seq<K::DataSource>
    decreases events.len(),
{
    if events.len() == 0 {
        Seq::empty()
    } else {
        searched(input, events.drop_last()) + run_block(input, events.drop_last()).0.searches(
            events.last(),
        )
    }
}

#[verifier::rlimit(40)]
proof fn lemma_step_searches<K: Indexing>(state: BlockModel<K>, event: BlockEvent<K>)
    requires
        state.awaits(event),
        !state.next(event).0.has_failed(),
    ensures
        state.searches(event) + state.next(event).0.unsearched() == state.unsearched()
            + event.made(),
{
    let next = state.next(event).0;
    assert(state.searches(event) + next.unsearched() =~= state.unsearched() + event.made());
}

proof fn lemma_searched<K: Indexing>(input: BlockInput<K>, events: Seq<BlockEvent<K>>)
    requires
        answered(input, events),
        !run_block(input, events).0.has_failed(),
    ensures
        searched(input, events) + run_block(input, events).0.unsearched() == made(events),
    decreases events.len(),
{
    let next = run_block(input, events).0;
    if events.len() == 0 {
        assert(searched(input, events) + next.unsearched() =~= made(events));
    } else {
        let earlier = events.drop_last();
        let state = run_block(input, earlier).0;
        let event = events.last();
        lemma_searched(input, earlier);
        lemma_step_searches(state, event);
        let done = searched(input, earlier);
        assert((done + state.searches(event)) + next.unsearched() =~= done + (state.searches(event)
            + next.unsearched()));
        assert(done + (state.unsearched() + event.made()) =~= (done + state.unsearched())
            + event.made());
    }
}

/// New data sources are dealt with in generations. The block is searched for them only when
/// all triggers so far have been processed, and all data sources that were asked for are made
/// and have their hosts; they are recorded only after the block was searched for all of them,
/// and handlers of theirs run only after all of them are recorded. It is found out whether the
/// block stream is canceled only when nothing at all is left to do: every trigger of the block
/// and every trigger that was found is processed, and every data source that was asked for is
/// made, has its host, was searched for and is recorded. All this is then kept up to the end.
pub proof fn law_generations_are_completed<K: Indexing>(
    input: BlockInput<K>,
    events: Seq<BlockEvent<K>>,
)
    requires
        answered(input, events),
    ensures
        ({
            let (state, actions) = run_block(input, events);
            let last = actions.last();
            &&& last is FindTriggers ==> {
                &&& processed(actions) == input.triggers
                &&& hosted(actions) == found(events)
                &&& made(events).len() == asked_for(events).len()
                &&& added(events).len() == asked_for(events).len()
            }
            &&& last is MakeDataSourceId || last is PersistDataSource ==> searched(input, events)
                == made(events) && made(events).len() == asked_for(events).len()
            &&& last is ProcessInHosts ==> searched(input, events) == made(events) && recorded(
                input,
                events,
            ) == made(events)
            &&& last is CheckCanceled || last is TakeProof || last is UpdateProof
                || last is ComputeModifications || last is EvictCache || last is Transact ==> {
                &&& processed(actions) == input.triggers
                &&& hosted(actions) == found(events)
                &&& made(events).len() == asked_for(events).len()
                &&& added(events).len() == asked_for(events).len()
                &&& searched(input, events) == made(events)
                &&& recorded(input, events) == made(events)
            }
        }),
{
    let (state, actions) = run_block(input, events);
    lemma_last_action(input, events);
    if !state.has_failed() {
        lemma_balanced(input, events);
        lemma_restart_fits(input, events);
        lemma_hosts_fit(input, events);
        lemma_searched(input, events);
        lemma_recorded(input, events);
        let none = Seq::<K::DataSource>::empty();
        assert(searched(input, events) + none =~= searched(input, events));
        assert(recorded(input, events) + none =~= recorded(input, events));
        assert(processed(actions) + Seq::<Trigger<K>>::empty() =~= processed(actions));
        assert(hosted(actions) + Seq::<Trigger<K>>::empty() =~= hosted(actions));
        assert(instantiated(actions) + Seq::<K::Info>::empty() =~= instantiated(actions));
    }
}

spec fn phase_of_last<K: Indexing>(state: BlockModel<K>, last: BlockAction<K>) -> bool {
    &&& last is FindTriggers ==> state.phase is FindingTriggers
    &&& last is MakeDataSourceId || last is PersistDataSource
        ==> state.phase is PersistingDataSources
    &&& last is ProcessInHosts ==> state.phase is ProcessingInHosts
    &&& last is CheckCanceled ==> state.phase is CheckingCanceled
    &&& last is TakeProof ==> state.phase is TakingProof
    &&& last is UpdateProof ==> state.phase is UpdatingProof
    &&& last is ComputeModifications ==> state.phase is ComputingModifications
    &&& last is EvictCache ==> state.phase is EvictingCache
    &&& last is Transact ==> state.phase is Transacting
}

#[verifier::rlimit(40)]
proof fn lemma_step_last_action<K: Indexing>(state: BlockModel<K>, event: BlockEvent<K>)
    requires
        state.awaits(event),
    ensures
        state.next(event).1.len() > 0,
        phase_of_last(state.next(event).0, state.next(event).1.last()),
{
}

proof fn lemma_last_action<K: Indexing>(input: BlockInput<K>, events: Seq<BlockEvent<K>>)
    requires
        answered(input, events),
    ensures
        run_block(input, events).1.len() > 0,
        phase_of_last(run_block(input, events).0, run_block(input, events).1.last()),
{
    if events.len() > 0 {
        let (state, actions) = run_block(input, events.drop_last());
        let more = state.next(events.last()).1;
        lemma_step_last_action(state, events.last());
        assert((actions + more).last() == more.last());
    }
}

/// At any time the sensors were fed once for each trigger that has been processed, in order and
/// under its kind; a trigger that is being processed, or has failed, is not among them.
pub proof fn law_processed_triggers_are_observed<K: Indexing>(
    input: BlockInput<K>,
    events: Seq<BlockEvent<K>>,
)
    requires
        answered(input, events),
    ensures
        ({
            let actions = run_block(input, events).1;
            &&& observed(actions).is_prefix_of(kinds(processed(actions)))
            &&& kinds(processed(actions)).len() <= observed(actions).len() + 1
        }),
{
    let (state, actions) = run_block(input, events);
    if !state.has_failed() {
        lemma_observed(input, events);
        assert(observed(actions).is_prefix_of(kinds(processed(actions))));
    } else {
        let earlier = events.drop_last();
        let (before, done) = run_block(input, earlier);
        let more = before.next(events.last()).1;
        let part_observed = |action: BlockAction<K>| action.observed();
        let part_processed = |action: BlockAction<K>| action.processed();
        lemma_observed(input, earlier);
        lemma_gather_add(done, more, part_observed);
        lemma_gather_add(done, more, part_processed);
        lemma_gather_few(more, part_observed);
        lemma_gather_few(more, part_processed);
        assert(observed(actions) =~= observed(done));
        assert(processed(actions) =~= processed(done));
    }
}

} // verus!
