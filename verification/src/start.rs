//! How a subgraph is started.
use crate::context::{ContextModel, IndexingContext, IndexingInputs, IndexingState};
use vstd::prelude::*;

verus! {

/// A template that belongs to a data source, as far as it decides what the block stream has
/// to deliver.
pub struct DataSourceTemplate {
    pub has_call_handler: bool,
    pub has_block_handler_with_call_filter: bool,
}

/// A template of a manifest itself. `P` is what data sources are made from.
pub struct ManifestTemplate<P> {
    pub template: P,
    pub has_call_handler: bool,
    pub has_block_handler_with_call_filter: bool,
}

/// A data source of a manifest, with its templates.
pub struct ManifestDataSource<D> {
    pub source: D,
    pub templates: Vec<DataSourceTemplate>,
}

/// What a subgraph consists of.
pub struct SubgraphManifest<D, P> {
    pub id: String,
    pub network_name: String,
    pub data_sources: Vec<ManifestDataSource<D>>,
    pub templates: Vec<ManifestTemplate<P>>,
    pub start_blocks: Vec<u64>,
}

impl DataSourceTemplate {
    /// Whether a data source that is made from the template needs to see calls.
    pub open spec fn needs_calls(self) -> bool {
        self.has_call_handler || self.has_block_handler_with_call_filter
    }
}

impl<P> ManifestTemplate<P> {
    /// Whether a data source that is made from the template needs to see calls.
    pub open spec fn needs_calls(self) -> bool {
        self.has_call_handler || self.has_block_handler_with_call_filter
    }
}

/// Whether there is a template with call handlers or with block handlers with a call
/// filter, among those of the data sources or among those of the manifest itself.
pub open spec fn some_template_needs_calls<D, P>(
    data_sources: Seq<ManifestDataSource<D>>,
    templates: Seq<ManifestTemplate<P>>,
) -> bool {
    ||| exists|i: int, j: int|
        0 <= i < data_sources.len() && 0 <= j < data_sources[i].templates@.len() && (
        #[trigger] data_sources[i].templates@[j]).needs_calls()
    ||| exists|k: int| 0 <= k < templates.len() && (#[trigger] templates[k]).needs_calls()
}

/// Identifies whether there are templates with call handlers or block handlers with call
/// filters; in this case, calls have to be included in all blocks so that a block can be
/// reprocessed when new dynamic data sources are being created.
pub fn templates_use_calls<D, P>(
    data_sources: &Vec<ManifestDataSource<D>>,
    templates: &Vec<ManifestTemplate<P>>,
) -> (r: bool)
    ensures
        r == some_template_needs_calls(data_sources@, templates@),
{
    let mut i: usize = 0;
    while i < data_sources.len()
        invariant
            i <= data_sources@.len(),
            forall|a: int, b: int|
                0 <= a < i && 0 <= b < data_sources@[a].templates@.len() ==> !(
                #[trigger] data_sources@[a].templates@[b]).needs_calls(),
        decreases data_sources@.len() - i,
    {
        let own = &data_sources[i].templates;
        let mut j: usize = 0;
        while j < own.len()
            invariant
                i < data_sources@.len(),
                j <= own@.len(),
                *own == data_sources@[i as int].templates,
                forall|a: int, b: int|
                    0 <= a < i && 0 <= b < data_sources@[a].templates@.len() ==> !(
                    #[trigger] data_sources@[a].templates@[b]).needs_calls(),
                forall|b: int| 0 <= b < j ==> !(#[trigger] own@[b]).needs_calls(),
            decreases own@.len() - j,
        {
            if own[j].has_call_handler || own[j].has_block_handler_with_call_filter {
                assert(data_sources@[i as int].templates@[j as int].needs_calls());
                return true;
            }
            j = j + 1;
        }
        i = i + 1;
    }
    let mut k: usize = 0;
    while k < templates.len()
        invariant
            k <= templates@.len(),
            forall|a: int| 0 <= a < k ==> !(#[trigger] templates@[a]).needs_calls(),
        decreases templates@.len() - k,
    {
        if templates[k].has_call_handler || templates[k].has_block_handler_with_call_filter {
            assert(templates@[k as int].needs_calls());
            return true;
        }
        k = k + 1;
    }
    false
}

fn sources_of<D>(data_sources: Vec<ManifestDataSource<D>>) -> (sources: Vec<D>)
    ensures
        sources@ == data_sources@.map_values(|d: ManifestDataSource<D>| d.source),
{
    let mut sources: Vec<D> = Vec::new();
    for data_source in it: data_sources
        invariant
            it.seq() == data_sources@,
            sources@.len() == it.index(),
            forall|i: int|
                0 <= i < sources@.len() ==> #[trigger] sources@[i] == data_sources@[i].source,
    {
        sources.push(data_source.source);
    }
    sources
}

/// The context in which a subgraph is indexed at first.
pub open spec fn initial_context<D, P, C>(manifest: SubgraphManifest<D, P>) -> ContextModel<
    D,
    P,
    C,
> {
    ContextModel {
        inputs: IndexingInputs {
            deployment_id: manifest.id,
            network_name: manifest.network_name,
            start_blocks: manifest.start_blocks,
            templates_use_calls: some_template_needs_calls(
                manifest.data_sources@,
                manifest.templates@,
            ),
            top_level_templates: manifest.templates,
        },
        filters: seq![
            manifest.data_sources@.map_values(|d: ManifestDataSource<D>| d.source),
        ],
        restarts: 0,
        entity_lfu_cache: None,
    }
}

fn new_context<D, P, C>(manifest: SubgraphManifest<D, P>) -> (ctx: IndexingContext<D, P, C>)
    ensures
        ctx@ == initial_context::<D, P, C>(manifest),
{
    let use_calls = templates_use_calls(&manifest.data_sources, &manifest.templates);
    let sources = sources_of(manifest.data_sources);
    let mut filters: Vec<Vec<D>> = Vec::new();
    filters.push(sources);
    let ctx = IndexingContext {
        inputs: IndexingInputs {
            deployment_id: manifest.id,
            network_name: manifest.network_name,
            start_blocks: manifest.start_blocks,
            templates_use_calls: use_calls,
            top_level_templates: manifest.templates,
        },
        state: IndexingState { filters, restarts: 0, entity_lfu_cache: None },
    };
    assert(ctx@.filters =~= initial_context::<D, P, C>(manifest).filters);
    ctx
}

/// An outside call that the start of a subgraph asks for.
pub enum StartAction {
    /// Start the deployment in the store, and set its status `failed` to this.
    StartDeployment { deployment_id: String, failed: bool },
    /// Register the sensors of the subgraph.
    RegisterMetrics { subgraph_hash: String },
    /// Create a subgraph instance from the manifest.
    CreateInstance,
    /// Have the subgraph indexed in the context that has been set up.
    Spawn,
    /// The start is over, with this result.
    Finish(Result<(), String>),
}

/// The answer to such a request, or the text of its error.
pub enum StartEvent {
    DeploymentStarted(Result<(), String>),
    InstanceCreated(Result<(), String>),
}

/// A subgraph while it is started. `C` is the contents of its entity cache.
pub enum StartSubgraph<D, P, C> {
    /// The status of the deployment is being cleared.
    StartingDeployment(SubgraphManifest<D, P>),
    /// The instance is being created.
    CreatingInstance(IndexingContext<D, P, C>),
    /// The subgraph is ready to be indexed.
    Started(IndexingContext<D, P, C>),
    /// The subgraph could not be started.
    Failed,
}

/// What the start of a subgraph stands for.
pub enum StartModel<D, P, C> {
    StartingDeployment(SubgraphManifest<D, P>),
    CreatingInstance(ContextModel<D, P, C>),
    Started(ContextModel<D, P, C>),
    Failed,
}

impl<D, P, C> StartModel<D, P, C> {
    /// Goes on with an answer: the state after it, and what there is to do.
    pub open spec fn next(self, event: StartEvent) -> (Self, Seq<StartAction>) {
        match (self, event) {
            (
                StartModel::StartingDeployment(manifest),
                StartEvent::DeploymentStarted(Ok(_)),
            ) => (
                StartModel::CreatingInstance(initial_context(manifest)),
                seq![
                    StartAction::RegisterMetrics { subgraph_hash: manifest.id },
                    StartAction::CreateInstance,
                ],
            ),
            (StartModel::StartingDeployment(_), StartEvent::DeploymentStarted(Err(cause))) => (
                StartModel::Failed,
                seq![StartAction::Finish(Err(cause))],
            ),
            (StartModel::CreatingInstance(ctx), StartEvent::InstanceCreated(Ok(_))) => (
                StartModel::Started(ctx),
                seq![StartAction::Spawn, StartAction::Finish(Ok(()))],
            ),
            (StartModel::CreatingInstance(_), StartEvent::InstanceCreated(Err(cause))) => (
                StartModel::Failed,
                seq![StartAction::Finish(Err(cause))],
            ),
            _ => (self, Seq::empty()),
        }
    }
}

impl<D, P, C> StartSubgraph<D, P, C> {
    pub open spec fn view(&self) -> StartModel<D, P, C> {
        match self {
            StartSubgraph::StartingDeployment(manifest) => StartModel::StartingDeployment(*manifest),
            StartSubgraph::CreatingInstance(ctx) => StartModel::CreatingInstance(ctx@),
            StartSubgraph::Started(ctx) => StartModel::Started(ctx@),
            StartSubgraph::Failed => StartModel::Failed,
        }
    }

    /// Goes on with an answer. One that answers no outstanding request changes nothing.
    pub fn step(self, event: StartEvent) -> (r: (Self, Vec<StartAction>))
        ensures
            (r.0@, r.1@) == self@.next(event),
    {
        let mut actions: Vec<StartAction> = Vec::new();
        let next = match (self, event) {
            (
                StartSubgraph::StartingDeployment(manifest),
                StartEvent::DeploymentStarted(Ok(_)),
            ) => {
                actions.push(StartAction::RegisterMetrics { subgraph_hash: manifest.id.clone() });
                actions.push(StartAction::CreateInstance);
                StartSubgraph::CreatingInstance(new_context(manifest))
            },
            (StartSubgraph::StartingDeployment(_), StartEvent::DeploymentStarted(Err(cause))) => {
                actions.push(StartAction::Finish(Err(cause)));
                StartSubgraph::Failed
            },
            (StartSubgraph::CreatingInstance(ctx), StartEvent::InstanceCreated(Ok(_))) => {
                actions.push(StartAction::Spawn);
                actions.push(StartAction::Finish(Ok(())));
                StartSubgraph::Started(ctx)
            },
            (StartSubgraph::CreatingInstance(_), StartEvent::InstanceCreated(Err(cause))) => {
                actions.push(StartAction::Finish(Err(cause)));
                StartSubgraph::Failed
            },
            (unchanged, _) => unchanged,
        };
        assert(actions@ =~= self@.next(event).1);
        (next, actions)
    }
}

/// Begins to start a subgraph. Being told explicitly to start it implies that it has not
/// failed (yet), so its 'failed' status is cleared first.
pub fn start_subgraph<D, P, C>(manifest: SubgraphManifest<D, P>) -> (r: (
    StartSubgraph<D, P, C>,
    Vec<StartAction>,
))
    ensures
        r.0@ == StartModel::<D, P, C>::StartingDeployment(manifest),
        r.1@ == seq![
            StartAction::StartDeployment { deployment_id: manifest.id, failed: false },
        ],
{
    let mut actions: Vec<StartAction> = Vec::new();
    actions.push(
        StartAction::StartDeployment { deployment_id: manifest.id.clone(), failed: false },
    );
    (StartSubgraph::StartingDeployment(manifest), actions)
}

/// The state after these answers, and all that there was to do on the way.
pub open spec fn run_start<D, P, C>(manifest: SubgraphManifest<D, P>, events: Seq<StartEvent>) -> (
    StartModel<D, P, C>,
    Seq<StartAction>,
)
    decreases events.len(),
{
    if events.len() == 0 {
        (
            StartModel::StartingDeployment(manifest),
            seq![StartAction::StartDeployment { deployment_id: manifest.id, failed: false }],
        )
    } else {
        let (state, actions) = run_start::<D, P, C>(manifest, events.drop_last());
        let (next, more) = state.next(events.last());
        (next, actions + more)
    }
}

impl StartEvent {
    /// The 'failed' status of the deployment was cleared.
    pub open spec fn is_cleared(self) -> bool {
        self matches StartEvent::DeploymentStarted(Ok(_))
    }

    /// The instance was created.
    pub open spec fn is_created(self) -> bool {
        self matches StartEvent::InstanceCreated(Ok(_))
    }
}

/// Whether one of the answers is that the 'failed' status was cleared.
pub open spec fn was_cleared(events: Seq<StartEvent>) -> bool {
    exists|i: int| 0 <= i < events.len() && (#[trigger] events[i]).is_cleared()
}

/// Whether one of the answers is that the instance was created.
pub open spec fn was_created(events: Seq<StartEvent>) -> bool {
    exists|i: int| 0 <= i < events.len() && (#[trigger] events[i]).is_created()
}

/// Sensors and an instance are made only after the 'failed' status was cleared, and a
/// subgraph is handed over to be indexed only after its instance was created too, and then
/// in its initial context.
pub proof fn law_start_needs_cleared_status<D, P, C>(
    manifest: SubgraphManifest<D, P>,
    events: Seq<StartEvent>,
)
    ensures
        ({
            let (state, actions) = run_start::<D, P, C>(manifest, events);
            &&& forall|i: int|
                0 <= i < actions.len() && ((#[trigger] actions[i]) is RegisterMetrics
                    || actions[i] is CreateInstance) ==> was_cleared(events)
            &&& forall|i: int|
                0 <= i < actions.len() && (#[trigger] actions[i]) is Spawn ==> was_cleared(events)
                    && was_created(events) && state is Started
            &&& state matches StartModel::Started(ctx) ==> ctx == initial_context::<D, P, C>(
                manifest,
            ) && actions.contains(StartAction::Spawn)
        }),
    decreases events.len(),
{
    if events.len() > 0 {
        let earlier = events.drop_last();
        law_start_needs_cleared_status::<D, P, C>(manifest, earlier);
        lemma_start_states::<D, P, C>(manifest, earlier);
        let (state, actions) = run_start::<D, P, C>(manifest, earlier);
        let (next, more) = state.next(events.last());
        lemma_start_events_grow(events);
        if state is CreatingInstance && next is Started {
            assert((actions + more)[actions.len() as int] == StartAction::Spawn);
        }
        if state is Started {
            assert(actions + more =~= actions);
        }
    }
}

proof fn lemma_start_events_grow(events: Seq<StartEvent>)
    requires
        events.len() > 0,
    ensures
        was_cleared(events.drop_last()) || events.last().is_cleared() ==> was_cleared(events),
        was_created(events.drop_last()) || events.last().is_created() ==> was_created(events),
{
    let earlier = events.drop_last();
    assert(events[events.len() - 1] == events.last());
    if was_cleared(earlier) {
        let i = choose|i: int| 0 <= i < earlier.len() && (#[trigger] earlier[i]).is_cleared();
        assert(events[i].is_cleared());
    }
    if was_created(earlier) {
        let i = choose|i: int| 0 <= i < earlier.len() && (#[trigger] earlier[i]).is_created();
        assert(events[i].is_created());
    }
}

proof fn lemma_start_states<D, P, C>(manifest: SubgraphManifest<D, P>, events: Seq<StartEvent>)
    ensures
        match run_start::<D, P, C>(manifest, events).0 {
            StartModel::StartingDeployment(m) => m == manifest,
            StartModel::CreatingInstance(ctx) => ctx == initial_context::<D, P, C>(manifest)
                && was_cleared(events),
            StartModel::Started(ctx) => ctx == initial_context::<D, P, C>(manifest) && was_cleared(
                events,
            ) && was_created(events),
            StartModel::Failed => true,
        },
    decreases events.len(),
{
    if events.len() > 0 {
        lemma_start_states::<D, P, C>(manifest, events.drop_last());
        lemma_start_events_grow(events);
    }
}

/// If the 'failed' status cannot be cleared, the start is over with that error, whatever
/// else happens: nothing else is asked for.
pub proof fn law_uncleared_status_ends_start<D, P, C>(
    manifest: SubgraphManifest<D, P>,
    cause: String,
    later: Seq<StartEvent>,
)
    ensures
        run_start::<D, P, C>(
            manifest,
            seq![StartEvent::DeploymentStarted(Err(cause))] + later,
        ) == (
            StartModel::<D, P, C>::Failed,
            seq![
                StartAction::StartDeployment { deployment_id: manifest.id, failed: false },
                StartAction::Finish(Err(cause)),
            ],
        ),
    decreases later.len(),
{
    let first = seq![StartEvent::DeploymentStarted(Err(cause))];
    let events = first + later;
    if later.len() == 0 {
        assert(events =~= first);
        assert(first.drop_last() =~= Seq::empty());
        reveal_with_fuel(run_start, 2);
        assert(run_start::<D, P, C>(manifest, first).1 =~= seq![
            StartAction::StartDeployment { deployment_id: manifest.id, failed: false },
            StartAction::Finish(Err(cause)),
        ]);
    } else {
        law_uncleared_status_ends_start::<D, P, C>(manifest, cause, later.drop_last());
        assert(events.drop_last() =~= first + later.drop_last());
        let (state, actions) = run_start::<D, P, C>(manifest, events.drop_last());
        assert(actions + Seq::<StartAction>::empty() =~= actions);
    }
}

/// A subgraph is indexed in the context that its manifest describes: the filters of the block
/// stream are made from all of its data sources, one for each and in order; the inputs are
/// those of the manifest; all blocks come with their calls exactly if a template of a data
/// source or of the manifest has a call handler or a block handler with a call filter; no
/// restart has been counted, and the entity cache is empty.
pub proof fn law_context_is_that_of_the_manifest<D, P, C>(
    manifest: SubgraphManifest<D, P>,
    events: Seq<StartEvent>,
    ctx: ContextModel<D, P, C>,
)
    requires
        run_start::<D, P, C>(manifest, events).0 == StartModel::Started(ctx) || run_start::<
            D,
            P,
            C,
        >(manifest, events).0 == StartModel::CreatingInstance(ctx),
    ensures
        ctx.filters.len() == 1,
        ctx.filters[0].len() == manifest.data_sources@.len(),
        forall|i: int|
            0 <= i < manifest.data_sources@.len() ==> #[trigger] ctx.filters[0][i]
                == manifest.data_sources@[i].source,
        ctx.inputs.deployment_id == manifest.id,
        ctx.inputs.network_name == manifest.network_name,
        ctx.inputs.start_blocks == manifest.start_blocks,
        ctx.inputs.top_level_templates == manifest.templates,
        forall|i: int, j: int|
            0 <= i < manifest.data_sources@.len() && 0 <= j
                < manifest.data_sources@[i].templates@.len() && ((
            #[trigger] manifest.data_sources@[i].templates@[j]).has_call_handler
                || manifest.data_sources@[i].templates@[j].has_block_handler_with_call_filter)
                ==> ctx.inputs.templates_use_calls,
        forall|k: int|
            0 <= k < manifest.templates@.len() && ((
            #[trigger] manifest.templates@[k]).has_call_handler
                || manifest.templates@[k].has_block_handler_with_call_filter)
                ==> ctx.inputs.templates_use_calls,
        ctx.inputs.templates_use_calls ==> ({
            ||| exists|i: int, j: int|
                0 <= i < manifest.data_sources@.len() && 0 <= j
                    < manifest.data_sources@[i].templates@.len() && ((
                #[trigger] manifest.data_sources@[i].templates@[j]).has_call_handler
                    || manifest.data_sources@[i].templates@[j].has_block_handler_with_call_filter)
            ||| exists|k: int|
                0 <= k < manifest.templates@.len() && ((
                #[trigger] manifest.templates@[k]).has_call_handler
                    || manifest.templates@[k].has_block_handler_with_call_filter)
        }),
        ctx.restarts == 0,
        ctx.entity_lfu_cache is None,
{
    lemma_start_states::<D, P, C>(manifest, events);
    assert forall|i: int, j: int|
        0 <= i < manifest.data_sources@.len() && 0 <= j < manifest.data_sources@[i].templates@.len()
            && ((#[trigger] manifest.data_sources@[i].templates@[j]).has_call_handler
            || manifest.data_sources@[i].templates@[j].has_block_handler_with_call_filter)
        implies ctx.inputs.templates_use_calls by {
        assert(manifest.data_sources@[i].templates@[j].needs_calls());
    }
    assert forall|k: int|
        0 <= k < manifest.templates@.len() && ((#[trigger] manifest.templates@[k]).has_call_handler
            || manifest.templates@[k].has_block_handler_with_call_filter)
        implies ctx.inputs.templates_use_calls by {
        assert(manifest.templates@[k].needs_calls());
    }
    if ctx.inputs.templates_use_calls {
        if exists|i: int, j: int|
            0 <= i < manifest.data_sources@.len() && 0 <= j
                < manifest.data_sources@[i].templates@.len() && (
            #[trigger] manifest.data_sources@[i].templates@[j]).needs_calls() {
            let (i, j) = choose|i: int, j: int|
                0 <= i < manifest.data_sources@.len() && 0 <= j
                    < manifest.data_sources@[i].templates@.len() && (
                #[trigger] manifest.data_sources@[i].templates@[j]).needs_calls();
            assert(manifest.data_sources@[i].templates@[j].has_call_handler
                || manifest.data_sources@[i].templates@[j].has_block_handler_with_call_filter);
        } else {
            let k = choose|k: int|
                0 <= k < manifest.templates@.len() && (
                #[trigger] manifest.templates@[k]).needs_calls();
            assert(manifest.templates@[k].has_call_handler
                || manifest.templates@[k].has_block_handler_with_call_filter);
        }
    }
}

/// A start is carried through to its end. Once the 'failed' status is cleared the sensors are
/// registered and an instance is created, both for the deployment of the manifest; once there
/// is an instance the subgraph is handed over to be indexed and the start has succeeded. If
/// no instance can be created, the start has failed with that error and nothing is indexed.
pub proof fn law_start_is_carried_through<D, P, C>(
    manifest: SubgraphManifest<D, P>,
    cleared: StartEvent,
    created: StartEvent,
)
    requires
        cleared matches StartEvent::DeploymentStarted(Ok(_)),
        created is InstanceCreated,
    ensures
        ({
            let begun = seq![
                StartAction::StartDeployment { deployment_id: manifest.id, failed: false },
                StartAction::RegisterMetrics { subgraph_hash: manifest.id },
                StartAction::CreateInstance,
            ];
            let (waiting, asked) = run_start::<D, P, C>(manifest, seq![cleared]);
            let (ended, done) = run_start::<D, P, C>(manifest, seq![cleared, created]);
            &&& waiting is CreatingInstance
            &&& asked == begun
            &&& match created {
                StartEvent::InstanceCreated(Err(cause)) => ended is Failed && done == begun.push(
                    StartAction::Finish(Err(cause)),
                ),
                _ => ended is Started && done.len() == 5 && done.take(3) == begun && done[3]
                    == StartAction::Spawn && (done[4] matches StartAction::Finish(Ok(_))),
            }
        }),
{
    let one = seq![cleared];
    let two = seq![cleared, created];
    assert(one.drop_last() =~= Seq::empty());
    assert(two.drop_last() =~= one);
    reveal_with_fuel(run_start, 3);
    let asked = run_start::<D, P, C>(manifest, one).1;
    let done = run_start::<D, P, C>(manifest, two).1;
    let begun = seq![
        StartAction::StartDeployment { deployment_id: manifest.id, failed: false },
        StartAction::RegisterMetrics { subgraph_hash: manifest.id },
        StartAction::CreateInstance,
    ];
    assert(asked =~= begun);
    if let StartEvent::InstanceCreated(Err(cause)) = created {
        assert(done =~= begun.push(StartAction::Finish(Err(cause))));
    } else {
        assert(done.take(3) =~= begun);
    }
}

/// An answer to a request that is not outstanding changes nothing: one that the status was
/// cleared or not counts only while it is being cleared, and one on the instance only while
/// it is being created.
pub proof fn law_start_ignores_other_answers<D, P, C>(state: StartModel<D, P, C>, event: StartEvent)
    requires
        !(state is StartingDeployment && event is DeploymentStarted),
        !(state is CreatingInstance && event is InstanceCreated),
    ensures
        state.next(event) == (state, Seq::<StartAction>::empty()),
{
}

} // verus!
