//! The manager: it starts and stops subgraphs as they are assigned to it.
use crate::history::{gather, lemma_gather_add, lemma_gather_few};
use crate::metrics::SubgraphInstanceManagerMetrics;
use crate::start::SubgraphManifest;
use crate::string_map::StringMap;
use vstd::prelude::*;
use vstd::string::*;

verus! {

/// What the manager is told by the provider of assignments.
pub enum SubgraphAssignmentProviderEvent<D, P> {
    SubgraphStart(SubgraphManifest<D, P>),
    SubgraphStop(String),
}

/// What the manager learns.
pub enum ManagerEvent<D, P> {
    Assignment(SubgraphAssignmentProviderEvent<D, P>),
    /// A subgraph was started, or could not be. A deployment may be started more than once;
    /// `run` is a number that tells its runs apart.
    Started { id: String, run: u64, result: Result<(), String> },
    /// A run of a subgraph has come to its end.
    Ended { id: String, run: u64 },
}

/// What there is to do for the manager.
pub enum ManagerAction<D, P> {
    /// Start a subgraph, with the services of its network.
    StartSubgraph(SubgraphManifest<D, P>),
    /// Stop a subgraph.
    StopSubgraph(String),
    /// Count one subgraph more.
    IncrementSubgraphCount,
    /// Count one subgraph less.
    DecrementSubgraphCount,
}

/// The manager. For each network there is a store `S` and an Ethereum adapter `A`.
pub struct SubgraphInstanceManager<S, A> {
    pub stores: StringMap<S>,
    pub eth_adapters: StringMap<A>,
    pub metrics: SubgraphInstanceManagerMetrics,
    /// The deployments that are being indexed, each with its latest run.
    pub counted: StringMap<u64>,
}

/// What is wrong with a network for which there is no store, or no adapter.
pub open spec fn missing_service(has_store: bool, network: Seq<char>) -> Seq<char> {
    if has_store {
        "expected eth adapter that matches subgraph network: "@ + network
    } else {
        "expected store that matches subgraph network: "@ + network
    }
}

/// A run is the one that counts for its deployment.
pub open spec fn counts(counted: Map<Seq<char>, u64>, id: Seq<char>, run: u64) -> bool {
    counted.contains_key(id) && counted[id] == run
}

/// The deployments that are being indexed after an event: one is from when it has been
/// started until it is told to stop, or its run ends by itself.
pub open spec fn counted_after<D, P>(
    counted: Map<Seq<char>, u64>,
    event: ManagerEvent<D, P>,
) -> Map<Seq<char>, u64> {
    match event {
        ManagerEvent::Assignment(SubgraphAssignmentProviderEvent::SubgraphStart(_)) => counted,
        ManagerEvent::Assignment(SubgraphAssignmentProviderEvent::SubgraphStop(id)) =>
            counted.remove(id@),
        ManagerEvent::Started { id, run, result: Ok(_) } => counted.insert(id@, run),
        ManagerEvent::Started { id, run, result: Err(_) } => counted,
        ManagerEvent::Ended { id, run } => if counts(counted, id@, run) {
            counted.remove(id@)
        } else {
            counted
        },
    }
}

/// What the manager does with an event. The sensor follows the number of deployments that
/// are being indexed: it changes only with a deployment that begins or ceases to be.
pub open spec fn reaction<D, P>(
    counted: Map<Seq<char>, u64>,
    event: ManagerEvent<D, P>,
) -> Seq<ManagerAction<D, P>> {
    match event {
        ManagerEvent::Assignment(SubgraphAssignmentProviderEvent::SubgraphStart(manifest)) => seq![
            ManagerAction::StartSubgraph(manifest),
        ],
        ManagerEvent::Assignment(SubgraphAssignmentProviderEvent::SubgraphStop(id)) =>
            if counted.contains_key(id@) {
                seq![ManagerAction::StopSubgraph(id), ManagerAction::DecrementSubgraphCount]
            } else {
                seq![ManagerAction::StopSubgraph(id)]
            },
        ManagerEvent::Started { id, run, result: Ok(_) } => if counted.contains_key(id@) {
            Seq::empty()
        } else {
            seq![ManagerAction::IncrementSubgraphCount]
        },
        ManagerEvent::Started { id, run, result: Err(_) } => Seq::empty(),
        ManagerEvent::Ended { id, run } => if counts(counted, id@, run) {
            seq![ManagerAction::DecrementSubgraphCount]
        } else {
            Seq::empty()
        },
    }
}

impl<S, A> SubgraphInstanceManager<S, A> {
    pub open spec fn wf(&self) -> bool {
        self.stores.wf() && self.eth_adapters.wf() && self.counted.wf()
    }

    /// There is a store and an Ethereum adapter for a network.
    pub open spec fn serves(&self, network: Seq<char>) -> bool {
        self.stores@.contains_key(network) && self.eth_adapters@.contains_key(network)
    }

    /// A subgraph that is to be started is on a network with a store and an adapter.
    pub open spec fn can_handle<D, P>(&self, event: ManagerEvent<D, P>) -> bool {
        event matches ManagerEvent::Assignment(
            SubgraphAssignmentProviderEvent::SubgraphStart(manifest),
        ) ==> self.serves(manifest.network_name@)
    }

    /// Creates a new manager.
    pub fn new(stores: StringMap<S>, eth_adapters: StringMap<A>) -> (manager: Self)
        requires
            stores.wf(),
            eth_adapters.wf(),
        ensures
            manager.wf(),
            manager.stores == stores,
            manager.eth_adapters == eth_adapters,
            manager.counted@ == Map::<Seq<char>, u64>::empty(),
            manager.metrics.subgraph_count.name@ == "subgraph_count"@,
            manager.metrics.subgraph_count.help@
                == "Counts the number of subgraphs currently being indexed by the graph-node."@,
    {
        SubgraphInstanceManager {
            stores,
            eth_adapters,
            metrics: SubgraphInstanceManagerMetrics::new(),
            counted: StringMap::new(),
        }
    }

    /// The store and the Ethereum adapter of a network, or a message that says which of them
    /// is missing.
    pub fn network_services(&self, network: &String) -> (r: Result<(&S, &A), String>)
        requires
            self.wf(),
        ensures
            match r {
                Ok((store, eth_adapter)) => {
                    &&& self.serves(network@)
                    &&& self.stores@[network@] == *store
                    &&& self.eth_adapters@[network@] == *eth_adapter
                },
                Err(message) => {
                    &&& !self.serves(network@)
                    &&& message@ == missing_service(
                        self.stores@.contains_key(network@),
                        network@,
                    )
                },
            },
            r is Ok <==> self.stores@.contains_key(network@) && self.eth_adapters@.contains_key(
                network@,
            ),
            !self.stores@.contains_key(network@) ==> r->Err_0@
                == "expected store that matches subgraph network: "@ + network@,
            self.stores@.contains_key(network@) && !self.eth_adapters@.contains_key(network@)
                ==> r->Err_0@ == "expected eth adapter that matches subgraph network: "@ + network@,
    {
        match self.stores.get(network) {
            Some(store) => match self.eth_adapters.get(network) {
                Some(eth_adapter) => Ok((store, eth_adapter)),
                None => Err(
                    "expected eth adapter that matches subgraph network: ".to_owned().concat(
                        network.as_str(),
                    ),
                ),
            },
            None => Err(
                "expected store that matches subgraph network: ".to_owned().concat(
                    network.as_str(),
                ),
            ),
        }
    }

    /// Handle an incoming event.
    pub fn handle_subgraph_events<D, P>(&mut self, event: ManagerEvent<D, P>) -> (actions: Vec<
        ManagerAction<D, P>,
    >)
        requires
            old(self).wf(),
            old(self).can_handle(event),
        ensures
            actions@ == reaction(old(self).counted@, event),
            event matches ManagerEvent::Assignment(
                SubgraphAssignmentProviderEvent::SubgraphStart(manifest),
            ) ==> actions@ == seq![ManagerAction::<D, P>::StartSubgraph(manifest)],
            event matches ManagerEvent::Assignment(
                SubgraphAssignmentProviderEvent::SubgraphStop(id),
            ) ==> actions@.len() > 0 && actions@[0] == ManagerAction::<D, P>::StopSubgraph(id),
            final(self).wf(),
            final(self).counted@ == counted_after(old(self).counted@, event),
            final(self).stores == old(self).stores,
            final(self).eth_adapters == old(self).eth_adapters,
            final(self).metrics == old(self).metrics,
    {
        let mut actions: Vec<ManagerAction<D, P>> = Vec::new();
        match event {
            ManagerEvent::Assignment(SubgraphAssignmentProviderEvent::SubgraphStart(manifest)) => {
                actions.push(ManagerAction::StartSubgraph(manifest));
            },
            ManagerEvent::Assignment(SubgraphAssignmentProviderEvent::SubgraphStop(id)) => {
                let removed = self.counted.remove(&id);
                actions.push(ManagerAction::StopSubgraph(id));
                if removed.is_some() {
                    actions.push(ManagerAction::DecrementSubgraphCount);
                }
            },
            ManagerEvent::Started { id, run, result: Ok(_) } => {
                if self.counted.insert(id, run).is_none() {
                    actions.push(ManagerAction::IncrementSubgraphCount);
                }
            },
            ManagerEvent::Started { id: _, run: _, result: Err(_) } => {},
            ManagerEvent::Ended { id, run } => {
                let current = match self.counted.get(&id) {
                    Some(latest) => *latest == run,
                    None => false,
                };
                if current {
                    self.counted.remove(&id);
                    actions.push(ManagerAction::DecrementSubgraphCount);
                }
            },
        }
        assert(actions@ =~= reaction(old(self).counted@, event));
        actions
    }
}

impl<D, P> ManagerAction<D, P> {
    /// How the action changes what the sensor shows.
    pub open spec fn count_change(self) -> int {
        match self {
            ManagerAction::IncrementSubgraphCount => 1,
            ManagerAction::DecrementSubgraphCount => -1,
            _ => 0,
        }
    }
}

impl<D, P> ManagerEvent<D, P> {
    /// The deployment is indexed in this run from this event on.
    pub open spec fn begins(self, deployment: Seq<char>, number: u64) -> bool {
        self matches ManagerEvent::Started { id, run, result: Ok(_) } && id@ == deployment && run
            == number
    }

    /// The deployment is not, or no longer, indexed in this run after this event: it is told
    /// to stop, the run has ended, or another run has taken its place.
    pub open spec fn ends(self, deployment: Seq<char>, number: u64) -> bool {
        match self {
            ManagerEvent::Assignment(SubgraphAssignmentProviderEvent::SubgraphStop(id)) => id@
                == deployment,
            ManagerEvent::Started { id, run, result: Ok(_) } => id@ == deployment && run != number,
            ManagerEvent::Ended { id, run } => id@ == deployment && run == number,
            _ => false,
        }
    }
}

/// The number that the sensor shows after these actions.
pub open spec fn subgraph_count<D, P>(actions: Seq<ManagerAction<D, P>>) -> int
    decreases actions.len(),
{
    if actions.len() == 0 {
        0
    } else {
        subgraph_count(actions.drop_last()) + actions.last().count_change()
    }
}

/// The deployments that are being indexed after these events, from none, and all that the
/// manager does with them.
pub open spec fn run_manager<D, P>(events: Seq<ManagerEvent<D, P>>) -> (
    Map<Seq<char>, u64>,
    Seq<ManagerAction<D, P>>,
)
    decreases events.len(),
{
    if events.len() == 0 {
        (Map::empty(), Seq::empty())
    } else {
        let (counted, actions) = run_manager(events.drop_last());
        (counted_after(counted, events.last()), actions + reaction(counted, events.last()))
    }
}

proof fn lemma_count_add<D, P>(first: Seq<ManagerAction<D, P>>, second: Seq<ManagerAction<D, P>>)
    ensures
        subgraph_count(first + second) == subgraph_count(first) + subgraph_count(second),
    decreases second.len(),
{
    if second.len() == 0 {
        assert(first + second =~= first);
    } else {
        lemma_count_add(first, second.drop_last());
        assert((first + second).drop_last() =~= first + second.drop_last());
    }
}

/// The sensor shows the number of deployments that are being indexed. It is never negative:
/// to stop one that is not being indexed changes nothing, and so does a start that fails.
pub proof fn law_count_is_number_of_indexed<D, P>(events: Seq<ManagerEvent<D, P>>)
    ensures
        run_manager(events).0.dom().finite(),
        subgraph_count(run_manager(events).1) == run_manager(events).0.dom().len(),
    decreases events.len(),
{
    if events.len() > 0 {
        let (counted, actions) = run_manager(events.drop_last());
        let more = reaction(counted, events.last());
        law_count_is_number_of_indexed(events.drop_last());
        lemma_count_add(actions, more);
        reveal_with_fuel(subgraph_count, 3);
        if more.len() == 2 {
            assert(more.drop_last().last() == more[0]);
        }
        match events.last() {
            ManagerEvent::Assignment(SubgraphAssignmentProviderEvent::SubgraphStop(id)) => {
                assert(counted.remove(id@).dom() =~= counted.dom().remove(id@));
            },
            ManagerEvent::Started { id, run, result: Ok(_) } => {
                assert(counted.insert(id@, run).dom() =~= counted.dom().insert(id@));
            },
            ManagerEvent::Ended { id, run } => {
                assert(counted.remove(id@).dom() =~= counted.dom().remove(id@));
            },
            _ => {},
        }
    }
}

/// A run counts exactly if it has begun and neither ended since, nor was its deployment told
/// to stop or started anew.
pub proof fn law_counted_runs_are_those_going_on<D, P>(
    events: Seq<ManagerEvent<D, P>>,
    id: Seq<char>,
    run: u64,
)
    ensures
        counts(run_manager(events).0, id, run) <==> exists|i: int|
            {
                &&& 0 <= i < events.len()
                &&& (#[trigger] events[i]).begins(id, run)
                &&& forall|k: int| i < k < events.len() ==> !(#[trigger] events[k]).ends(id, run)
            },
    decreases events.len(),
{
    if events.len() > 0 {
        let earlier = events.drop_last();
        let last = events.last();
        let n = events.len() - 1;
        law_counted_runs_are_those_going_on(earlier, id, run);
        if counts(run_manager(events).0, id, run) {
            if last.begins(id, run) {
                assert(events[n].begins(id, run));
            } else {
                let i = choose|i: int|
                    {
                        &&& 0 <= i < earlier.len()
                        &&& (#[trigger] earlier[i]).begins(id, run)
                        &&& forall|k: int|
                            i < k < earlier.len() ==> !(#[trigger] earlier[k]).ends(id, run)
                    };
                assert(events[i].begins(id, run));
                assert forall|k: int| i < k < events.len() implies !(#[trigger] events[k]).ends(
                    id,
                    run,
                ) by {
                    if k < n {
                        assert(!earlier[k].ends(id, run));
                    }
                }
            }
        }
        if exists|i: int|
            {
                &&& 0 <= i < events.len()
                &&& (#[trigger] events[i]).begins(id, run)
                &&& forall|k: int| i < k < events.len() ==> !(#[trigger] events[k]).ends(id, run)
            } {
            let i = choose|i: int|
                {
                    &&& 0 <= i < events.len()
                    &&& (#[trigger] events[i]).begins(id, run)
                    &&& forall|k: int|
                        i < k < events.len() ==> !(#[trigger] events[k]).ends(id, run)
                };
            if i < n {
                assert(earlier[i].begins(id, run));
                assert forall|k: int| i < k < earlier.len() implies !(#[trigger] earlier[k]).ends(
                    id,
                    run,
                ) by {
                    assert(!events[k].ends(id, run));
                }
                assert(!events[n].ends(id, run));
            }
        }
    }
}

impl<D, P> ManagerEvent<D, P> {
    /// The subgraph that the provider of assignments wants started.
    pub open spec fn to_start(self) -> Seq<SubgraphManifest<D, P>> {
        match self {
            ManagerEvent::Assignment(SubgraphAssignmentProviderEvent::SubgraphStart(manifest)) =>
                seq![manifest],
            _ => Seq::empty(),
        }
    }

    /// The subgraph that the provider of assignments wants stopped.
    pub open spec fn to_stop(self) -> Seq<String> {
        match self {
            ManagerEvent::Assignment(SubgraphAssignmentProviderEvent::SubgraphStop(id)) => seq![id],
            _ => Seq::empty(),
        }
    }
}

impl<D, P> ManagerAction<D, P> {
    /// The subgraph that is started.
    pub open spec fn starts(self) -> Seq<SubgraphManifest<D, P>> {
        match self {
            ManagerAction::StartSubgraph(manifest) => seq![manifest],
            _ => Seq::empty(),
        }
    }

    /// The subgraph that is stopped.
    pub open spec fn stops(self) -> Seq<String> {
        match self {
            ManagerAction::StopSubgraph(id) => seq![id],
            _ => Seq::empty(),
        }
    }

    /// One item if the sensor is moved.
    pub open spec fn moves(self) -> Seq<()> {
        match self {
            ManagerAction::IncrementSubgraphCount => seq![()],
            ManagerAction::DecrementSubgraphCount => seq![()],
            _ => Seq::empty(),
        }
    }
}

/// Assignments are carried out: every subgraph that is to be started is started, with its
/// manifest as it came, every subgraph that is to be stopped is stopped, each once and in the
/// order of the assignments, and no other.
pub proof fn law_assignments_are_carried_out<D, P>(events: Seq<ManagerEvent<D, P>>)
    ensures
        gather(run_manager(events).1, |action: ManagerAction<D, P>| action.starts()) == gather(
            events,
            |event: ManagerEvent<D, P>| event.to_start(),
        ),
        gather(run_manager(events).1, |action: ManagerAction<D, P>| action.stops()) == gather(
            events,
            |event: ManagerEvent<D, P>| event.to_stop(),
        ),
    decreases events.len(),
{
    let starts = |action: ManagerAction<D, P>| action.starts();
    let stops = |action: ManagerAction<D, P>| action.stops();
    if events.len() > 0 {
        let (counted, actions) = run_manager(events.drop_last());
        let more = reaction(counted, events.last());
        law_assignments_are_carried_out(events.drop_last());
        lemma_gather_add(actions, more, starts);
        lemma_gather_add(actions, more, stops);
        lemma_gather_few(more, starts);
        lemma_gather_few(more, stops);
        assert(gather(more, starts) =~= events.last().to_start());
        assert(gather(more, stops) =~= events.last().to_stop());
    }
}

/// With each event the sensor moves at most once, and it moves exactly if a deployment begins
/// or ceases to be indexed.
pub proof fn law_count_moves_with_indexing<D, P>(
    counted: Map<Seq<char>, u64>,
    event: ManagerEvent<D, P>,
)
    ensures
        ({
            let moves = gather(
                reaction(counted, event),
                |action: ManagerAction<D, P>| action.moves(),
            );
            &&& moves.len() <= 1
            &&& moves.len() == 1 <==> counted_after(counted, event).dom() != counted.dom()
        }),
{
    let after = counted_after(counted, event);
    lemma_gather_few(reaction(counted, event), |action: ManagerAction<D, P>| action.moves());
    match event {
        ManagerEvent::Assignment(SubgraphAssignmentProviderEvent::SubgraphStop(id)) => {
            if counted.contains_key(id@) {
                assert(!after.dom().contains(id@));
            } else {
                assert(after.dom() =~= counted.dom());
            }
        },
        ManagerEvent::Started { id, run, result: Ok(_) } => {
            if counted.contains_key(id@) {
                assert(after.dom() =~= counted.dom());
            } else {
                assert(after.dom().contains(id@));
            }
        },
        ManagerEvent::Ended { id, run } => {
            if counts(counted, id@, run) {
                assert(!after.dom().contains(id@));
            }
        },
        _ => {},
    }
}

/// The manager can handle every event but the start of a subgraph on a network for which
/// there is no store or no Ethereum adapter.
pub proof fn law_manager_handles_all_but_unserved_starts<S, A, D, P>(
    manager: SubgraphInstanceManager<S, A>,
    event: ManagerEvent<D, P>,
)
    ensures
        !manager.can_handle(event) <==> (event matches ManagerEvent::Assignment(
            SubgraphAssignmentProviderEvent::SubgraphStart(manifest),
        ) && !(manager.stores@.contains_key(manifest.network_name@)
            && manager.eth_adapters@.contains_key(manifest.network_name@))),
{
}

} // verus!
