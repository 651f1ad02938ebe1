//! Data sources that a subgraph creates while it is indexed.
use crate::progress::{into_queue, Progress};
use std::collections::VecDeque;
use vstd::prelude::*;

verus! {

/// New data sources while they are set up one after the other. `I` describes a data source
/// that is to be made from a template, `D` is a data source, and `H` the runtime host that
/// runs its handlers.
pub struct DataSourceCreation<I, D, H> {
    waiting: VecDeque<I>,
    current: Option<D>,
    data_sources: Vec<D>,
    runtime_hosts: Vec<H>,
}

/// What the set-up of new data sources stands for.
pub struct DataSourceCreationModel<I, D, H> {
    /// The descriptions that were not taken up yet, in order.
    pub waiting: Seq<I>,
    /// The data source that has no host yet, or `None` while it is being made.
    pub current: Option<D>,
    /// The data sources that are set up, in order, and for each its host.
    pub data_sources: Seq<D>,
    pub runtime_hosts: Seq<H>,
}

/// An outside call that the set-up of data sources asks for.
pub enum CreationRequest<I> {
    /// Make a data source from its description.
    Instantiate(I),
    /// Add the current data source to the subgraph instance and make a host for it.
    AddHost,
}

/// The answer to such a request, or the text of its error.
pub enum CreationEvent<D, H> {
    Instantiated(Result<D, String>),
    HostAdded(Result<H, String>),
}

pub type CreationProgress<I, D, H> = Progress<
    DataSourceCreation<I, D, H>,
    CreationRequest<I>,
    (Vec<D>, Vec<H>),
    String,
>;

pub type CreationProgressModel<I, D, H> = Progress<
    DataSourceCreationModel<I, D, H>,
    CreationRequest<I>,
    (Seq<D>, Seq<H>),
    String,
>;

/// What the progress of a set-up stands for.
pub open spec fn creation_progress<I, D, H>(
    p: CreationProgress<I, D, H>,
) -> CreationProgressModel<I, D, H> {
    match p {
        Progress::Ask(creation, request) => Progress::Ask(creation@, request),
        Progress::Done(created) => Progress::Done((created.0@, created.1@)),
        Progress::Failed(cause) => Progress::Failed(cause),
        Progress::Unchanged(creation) => Progress::Unchanged(creation@),
    }
}

impl<I, D, H> DataSourceCreationModel<I, D, H> {
    /// Takes up the first description that waits, or ends the set-up where none does.
    pub open spec fn proceed(
        waiting: Seq<I>,
        data_sources: Seq<D>,
        runtime_hosts: Seq<H>,
    ) -> CreationProgressModel<I, D, H> {
        if waiting.len() == 0 {
            Progress::Done((data_sources, runtime_hosts))
        } else {
            Progress::Ask(
                DataSourceCreationModel {
                    waiting: waiting.skip(1),
                    current: None,
                    data_sources,
                    runtime_hosts,
                },
                CreationRequest::Instantiate(waiting[0]),
            )
        }
    }

    /// Whether an event is the answer that is waited for.
    pub open spec fn awaits(self, event: CreationEvent<D, H>) -> bool {
        self.current is Some <==> event is HostAdded
    }

    /// Goes on with an answer.
    pub open spec fn next(self, event: CreationEvent<D, H>) -> CreationProgressModel<I, D, H> {
        match (self.current, event) {
            (None, CreationEvent::Instantiated(Ok(data_source))) => Progress::Ask(
                DataSourceCreationModel { current: Some(data_source), ..self },
                CreationRequest::AddHost,
            ),
            (None, CreationEvent::Instantiated(Err(cause))) => Progress::Failed(cause),
            (Some(data_source), CreationEvent::HostAdded(Ok(host))) => Self::proceed(
                self.waiting,
                self.data_sources.push(data_source),
                self.runtime_hosts.push(host),
            ),
            (Some(_), CreationEvent::HostAdded(Err(cause))) => Progress::Failed(cause),
            _ => Progress::Unchanged(self),
        }
    }
}

impl<I, D, H> DataSourceCreation<I, D, H> {
    pub closed spec fn view(&self) -> DataSourceCreationModel<I, D, H> {
        DataSourceCreationModel {
            waiting: self.waiting@,
            current: self.current,
            data_sources: self.data_sources@,
            runtime_hosts: self.runtime_hosts@,
        }
    }

    /// The data source that has no host yet.
    pub fn current(&self) -> (r: Option<&D>)
        ensures
            match r {
                Some(data_source) => self@.current == Some(*data_source),
                None => self@.current is None,
            },
    {
        match &self.current {
            Some(data_source) => Some(data_source),
            None => None,
        }
    }

    fn proceed(waiting: VecDeque<I>, data_sources: Vec<D>, runtime_hosts: Vec<H>) -> (r:
        CreationProgress<I, D, H>)
        ensures
            creation_progress(r) == DataSourceCreationModel::proceed(
                waiting@,
                data_sources@,
                runtime_hosts@,
            ),
    {
        let mut waiting = waiting;
        match waiting.pop_front() {
            Some(info) => Progress::Ask(
                DataSourceCreation { waiting, current: None, data_sources, runtime_hosts },
                CreationRequest::Instantiate(info),
            ),
            None => Progress::Done((data_sources, runtime_hosts)),
        }
    }

    /// Goes on with an answer. The first error ends the set-up.
    pub fn step(self, event: CreationEvent<D, H>) -> (r: CreationProgress<I, D, H>)
        ensures
            creation_progress(r) == self@.next(event),
    {
        let DataSourceCreation { waiting, current, data_sources, runtime_hosts } = self;
        match (current, event) {
            (None, CreationEvent::Instantiated(Ok(data_source))) => Progress::Ask(
                DataSourceCreation {
                    waiting,
                    current: Some(data_source),
                    data_sources,
                    runtime_hosts,
                },
                CreationRequest::AddHost,
            ),
            (None, CreationEvent::Instantiated(Err(cause))) => Progress::Failed(cause),
            (Some(data_source), CreationEvent::HostAdded(Ok(host))) => {
                let mut data_sources = data_sources;
                let mut runtime_hosts = runtime_hosts;
                data_sources.push(data_source);
                runtime_hosts.push(host);
                Self::proceed(waiting, data_sources, runtime_hosts)
            },
            (Some(_), CreationEvent::HostAdded(Err(cause))) => Progress::Failed(cause),
            (current, _) => Progress::Unchanged(
                DataSourceCreation { waiting, current, data_sources, runtime_hosts },
            ),
        }
    }
}

/// Starts to set up the data sources that handlers have asked for.
pub fn create_dynamic_data_sources<I, D, H>(created_data_sources: Vec<I>) -> (r: CreationProgress<
    I,
    D,
    H,
>)
    ensures
        creation_progress(r) == DataSourceCreationModel::<I, D, H>::proceed(
            created_data_sources@,
            Seq::<D>::empty(),
            Seq::<H>::empty(),
        ),
{
    DataSourceCreation::proceed(into_queue(created_data_sources), Vec::new(), Vec::new())
}

/// Where a set-up stands after these answers.
pub open spec fn run_creation<I, D, H>(
    start: CreationProgressModel<I, D, H>,
    events: Seq<CreationEvent<D, H>>,
) -> CreationProgressModel<I, D, H>
    decreases events.len(),
{
    if events.len() == 0 {
        start
    } else {
        match run_creation(start, events.drop_last()) {
            Progress::Ask(creation, request) => creation.next(events.last()),
            ended => ended,
        }
    }
}

/// The answers when all goes well: for each data source itself and then its host.
pub open spec fn creation_successes<D, H>(
    data_sources: Seq<D>,
    runtime_hosts: Seq<H>,
) -> Seq<CreationEvent<D, H>>
    recommends
        data_sources.len() == runtime_hosts.len(),
    decreases data_sources.len(),
{
    if data_sources.len() == 0 {
        Seq::empty()
    } else {
        creation_successes(data_sources.drop_last(), runtime_hosts.drop_last()).push(
            CreationEvent::Instantiated(Ok(data_sources.last())),
        ).push(CreationEvent::HostAdded(Ok(runtime_hosts.last())))
    }
}

/// Data sources are set up one after the other, in the order in which they were asked for,
/// each with its own host; the set-up ends with all of them.
pub proof fn law_creation_in_order<I, D, H>(
    infos: Seq<I>,
    data_sources: Seq<D>,
    runtime_hosts: Seq<H>,
)
    requires
        data_sources.len() == runtime_hosts.len(),
        data_sources.len() <= infos.len(),
    ensures
        ({
            let end = run_creation(
                DataSourceCreationModel::<I, D, H>::proceed(infos, Seq::empty(), Seq::empty()),
                creation_successes(data_sources, runtime_hosts),
            );
            let n = data_sources.len() as int;
            if n < infos.len() {
                end is Ask && end->Ask_1 == CreationRequest::Instantiate(infos[n])
            } else {
                end == CreationProgressModel::<I, D, H>::Done((data_sources, runtime_hosts))
            }
        }),
{
    lemma_run_creation(infos, data_sources, runtime_hosts);
}

proof fn lemma_run_creation<I, D, H>(
    infos: Seq<I>,
    data_sources: Seq<D>,
    runtime_hosts: Seq<H>,
)
    requires
        data_sources.len() == runtime_hosts.len(),
        data_sources.len() <= infos.len(),
    ensures
        run_creation(
            DataSourceCreationModel::<I, D, H>::proceed(infos, Seq::empty(), Seq::empty()),
            creation_successes(data_sources, runtime_hosts),
        ) == DataSourceCreationModel::<I, D, H>::proceed(
            infos.skip(data_sources.len() as int),
            data_sources,
            runtime_hosts,
        ),
    decreases data_sources.len(),
{
    let start = DataSourceCreationModel::<I, D, H>::proceed(infos, Seq::empty(), Seq::empty());
    let events = creation_successes(data_sources, runtime_hosts);
    let n = data_sources.len() as int;
    if n == 0 {
        assert(infos.skip(0) =~= infos);
        assert(data_sources =~= Seq::empty());
        assert(runtime_hosts =~= Seq::empty());
    } else {
        let earlier = creation_successes(data_sources.drop_last(), runtime_hosts.drop_last());
        lemma_run_creation(infos, data_sources.drop_last(), runtime_hosts.drop_last());
        assert(events.drop_last().drop_last() =~= earlier);
        assert(run_creation(start, events.drop_last()) == match run_creation(start, earlier) {
            Progress::Ask(creation, request) => creation.next(events.drop_last().last()),
            ended => ended,
        });
        assert(infos.skip(n - 1).skip(1) =~= infos.skip(n));
        assert(data_sources.drop_last().push(data_sources.last()) =~= data_sources);
        assert(runtime_hosts.drop_last().push(runtime_hosts.last()) =~= runtime_hosts);
    }
}

/// The first error ends the set-up with that error, and no data source is handed on:
/// neither the one that failed nor those before it.
pub proof fn law_creation_error_ends_set_up<I, D, H>(
    infos: Seq<I>,
    data_sources: Seq<D>,
    runtime_hosts: Seq<H>,
    data_source: D,
    cause: String,
)
    requires
        data_sources.len() == runtime_hosts.len(),
        data_sources.len() < infos.len(),
    ensures
        ({
            let start = DataSourceCreationModel::<I, D, H>::proceed(
                infos,
                Seq::empty(),
                Seq::empty(),
            );
            let before = creation_successes(data_sources, runtime_hosts);
            let failed = CreationProgressModel::<I, D, H>::Failed(cause);
            &&& run_creation(start, before.push(CreationEvent::Instantiated(Err(cause)))) == failed
            &&& run_creation(
                start,
                before.push(CreationEvent::Instantiated(Ok(data_source))).push(
                    CreationEvent::HostAdded(Err(cause)),
                ),
            ) == failed
        }),
{
    lemma_run_creation(infos, data_sources, runtime_hosts);
    let start = DataSourceCreationModel::<I, D, H>::proceed(infos, Seq::empty(), Seq::empty());
    let before = creation_successes(data_sources, runtime_hosts);
    let refused = before.push(CreationEvent::Instantiated(Err(cause)));
    assert(refused.drop_last() =~= before);
    let made = before.push(CreationEvent::Instantiated(Ok(data_source)));
    assert(made.drop_last() =~= before);
    assert(run_creation(start, made) == match run_creation(start, before) {
        Progress::Ask(creation, request) => creation.next(made.last()),
        ended => ended,
    });
    let unhosted = made.push(CreationEvent::HostAdded(Err(cause)));
    assert(unhosted.drop_last() =~= made);
}

/// New data sources while they are recorded one after the other in the state of the block,
/// `B`.
pub struct DataSourcePersistence<D, B> {
    current: D,
    state: Option<B>,
    waiting: VecDeque<D>,
    persisted: Vec<D>,
}

/// What the recording of new data sources stands for.
pub struct DataSourcePersistenceModel<D, B> {
    /// The data source that is being recorded.
    pub current: D,
    /// The state to record it in while an id is made for it, or `None` once it is handed out.
    pub state: Option<B>,
    /// The data sources after it, and those before it, in order.
    pub waiting: Seq<D>,
    pub persisted: Seq<D>,
}

/// An outside call that the recording of data sources asks for.
pub enum PersistenceRequest<B> {
    /// Make an id for the entity of the current data source.
    MakeId,
    /// Add the operations that write the entity of the current data source, under this id, to
    /// the state of the block.
    Record { id: String, state: B },
}

/// The answer to such a request, or the text of its error.
pub enum PersistenceEvent<B> {
    IdMade(String),
    Recorded(Result<B, String>),
}

/// At the end there are all data sources, and the state that they are recorded in.
pub type PersistenceProgress<D, B> = Progress<
    DataSourcePersistence<D, B>,
    PersistenceRequest<B>,
    (Vec<D>, B),
    String,
>;

pub type PersistenceProgressModel<D, B> = Progress<
    DataSourcePersistenceModel<D, B>,
    PersistenceRequest<B>,
    (Seq<D>, B),
    String,
>;

/// What the progress of a recording stands for.
pub open spec fn persistence_progress<D, B>(
    p: PersistenceProgress<D, B>,
) -> PersistenceProgressModel<D, B> {
    match p {
        Progress::Ask(persistence, request) => Progress::Ask(persistence@, request),
        Progress::Done(end) => Progress::Done((end.0@, end.1)),
        Progress::Failed(cause) => Progress::Failed(cause),
        Progress::Unchanged(persistence) => Progress::Unchanged(persistence@),
    }
}

impl<D, B> DataSourcePersistenceModel<D, B> {
    /// Takes up the first data source that waits, or ends the recording where none does.
    pub open spec fn proceed(
        waiting: Seq<D>,
        persisted: Seq<D>,
        state: B,
    ) -> PersistenceProgressModel<D, B> {
        if waiting.len() == 0 {
            Progress::Done((persisted, state))
        } else {
            Progress::Ask(
                DataSourcePersistenceModel {
                    current: waiting[0],
                    state: Some(state),
                    waiting: waiting.skip(1),
                    persisted,
                },
                PersistenceRequest::MakeId,
            )
        }
    }

    /// Whether an event is the answer that is waited for.
    pub open spec fn awaits(self, event: PersistenceEvent<B>) -> bool {
        self.state is Some <==> event is IdMade
    }

    /// Goes on with an answer.
    pub open spec fn next(self, event: PersistenceEvent<B>) -> PersistenceProgressModel<D, B> {
        match (self.state, event) {
            (Some(state), PersistenceEvent::IdMade(id)) => Progress::Ask(
                DataSourcePersistenceModel { state: None, ..self },
                PersistenceRequest::Record { id, state },
            ),
            (None, PersistenceEvent::Recorded(Ok(state))) => Self::proceed(
                self.waiting,
                self.persisted.push(self.current),
                state,
            ),
            (None, PersistenceEvent::Recorded(Err(cause))) => Progress::Failed(cause),
            _ => Progress::Unchanged(self),
        }
    }
}

impl<D, B> DataSourcePersistence<D, B> {
    pub closed spec fn view(&self) -> DataSourcePersistenceModel<D, B> {
        DataSourcePersistenceModel {
            current: self.current,
            state: self.state,
            waiting: self.waiting@,
            persisted: self.persisted@,
        }
    }

    /// The data source that is being recorded.
    pub fn current(&self) -> (data_source: &D)
        ensures
            *data_source == self@.current,
    {
        &self.current
    }

    fn proceed(waiting: VecDeque<D>, persisted: Vec<D>, state: B) -> (r: PersistenceProgress<D, B>)
        ensures
            persistence_progress(r) == DataSourcePersistenceModel::proceed(
                waiting@,
                persisted@,
                state,
            ),
    {
        let mut waiting = waiting;
        match waiting.pop_front() {
            Some(current) => Progress::Ask(
                DataSourcePersistence { current, state: Some(state), waiting, persisted },
                PersistenceRequest::MakeId,
            ),
            None => Progress::Done((persisted, state)),
        }
    }

    /// Goes on with an answer. The first error ends the recording.
    pub fn step(self, event: PersistenceEvent<B>) -> (r: PersistenceProgress<D, B>)
        ensures
            persistence_progress(r) == self@.next(event),
    {
        let DataSourcePersistence { current, state, waiting, persisted } = self;
        match (state, event) {
            (Some(state), PersistenceEvent::IdMade(id)) => Progress::Ask(
                DataSourcePersistence { current, state: None, waiting, persisted },
                PersistenceRequest::Record { id, state },
            ),
            (None, PersistenceEvent::Recorded(Ok(state))) => {
                let mut persisted = persisted;
                persisted.push(current);
                Self::proceed(waiting, persisted, state)
            },
            (None, PersistenceEvent::Recorded(Err(cause))) => Progress::Failed(cause),
            (state, _) => Progress::Unchanged(
                DataSourcePersistence { current, state, waiting, persisted },
            ),
        }
    }
}

/// Starts to record new data sources in the state of the block. When it is done, the result
/// is what the filters of the block stream have to be extended by, and the new state.
pub fn persist_dynamic_data_sources<D, B>(data_sources: Vec<D>, state: B) -> (r:
    PersistenceProgress<D, B>)
    ensures
        persistence_progress(r) == DataSourcePersistenceModel::proceed(
            data_sources@,
            Seq::empty(),
            state,
        ),
{
    DataSourcePersistence::proceed(into_queue(data_sources), Vec::new(), state)
}

/// Where a recording stands after these answers.
pub open spec fn run_persistence<D, B>(
    start: PersistenceProgressModel<D, B>,
    events: Seq<PersistenceEvent<B>>,
) -> PersistenceProgressModel<D, B>
    decreases events.len(),
{
    if events.len() == 0 {
        start
    } else {
        match run_persistence(start, events.drop_last()) {
            Progress::Ask(persistence, request) => persistence.next(events.last()),
            ended => ended,
        }
    }
}

/// The answers when all goes well: for each data source its id, and the state of the block
/// after it was recorded.
pub open spec fn persistence_successes<B>(answers: Seq<(String, B)>) -> Seq<PersistenceEvent<B>>
    decreases answers.len(),
{
    if answers.len() == 0 {
        Seq::empty()
    } else {
        persistence_successes(answers.drop_last()).push(
            PersistenceEvent::IdMade(answers.last().0),
        ).push(PersistenceEvent::Recorded(Ok(answers.last().1)))
    }
}

/// The state of the block that the last of these recordings has left behind.
pub open spec fn state_after_recording<B>(state: B, answers: Seq<(String, B)>) -> B {
    if answers.len() == 0 {
        state
    } else {
        answers.last().1
    }
}

/// Data sources are recorded one after the other, each once and in order: an id is made for
/// each of them afresh, and it is recorded under that id, in the state of the block that the
/// one before it has left behind. The filters are extended only after the last, and by all of
/// them.
pub proof fn law_persistence_in_order<D, B>(
    data_sources: Seq<D>,
    state: B,
    answers: Seq<(String, B)>,
    id: String,
)
    requires
        answers.len() <= data_sources.len(),
    ensures
        ({
            let start = DataSourcePersistenceModel::proceed(data_sources, Seq::empty(), state);
            let events = persistence_successes(answers);
            let n = answers.len() as int;
            let now = state_after_recording(state, answers);
            if n < data_sources.len() {
                &&& run_persistence(start, events) matches Progress::Ask(before, making)
                &&& before.current == data_sources[n]
                &&& making == PersistenceRequest::<B>::MakeId
                &&& run_persistence(
                    start,
                    events.push(PersistenceEvent::IdMade(id)),
                ) matches Progress::Ask(after, recording)
                &&& after.current == data_sources[n]
                &&& recording == PersistenceRequest::Record { id, state: now }
            } else {
                run_persistence(start, events) == PersistenceProgressModel::<D, B>::Done(
                    (data_sources, now),
                )
            }
        }),
{
    lemma_run_persistence(data_sources, state, answers);
    assert(data_sources.take(data_sources.len() as int) =~= data_sources);
    let events = persistence_successes(answers);
    assert(events.push(PersistenceEvent::IdMade(id)).drop_last() =~= events);
}

proof fn lemma_run_persistence<D, B>(data_sources: Seq<D>, state: B, answers: Seq<(String, B)>)
    requires
        answers.len() <= data_sources.len(),
    ensures
        run_persistence(
            DataSourcePersistenceModel::proceed(data_sources, Seq::empty(), state),
            persistence_successes(answers),
        ) == DataSourcePersistenceModel::proceed(
            data_sources.skip(answers.len() as int),
            data_sources.take(answers.len() as int),
            state_after_recording(state, answers),
        ),
    decreases answers.len(),
{
    let n = answers.len() as int;
    if n == 0 {
        assert(data_sources.skip(0) =~= data_sources);
        assert(data_sources.take(0) =~= Seq::empty());
    } else {
        let start = DataSourcePersistenceModel::proceed(data_sources, Seq::empty(), state);
        let earlier = persistence_successes(answers.drop_last());
        let events = persistence_successes(answers);
        lemma_run_persistence(data_sources, state, answers.drop_last());
        assert(events.drop_last().drop_last() =~= earlier);
        assert(run_persistence(start, events.drop_last()) == match run_persistence(
            start,
            earlier,
        ) {
            Progress::Ask(persistence, request) => persistence.next(events.drop_last().last()),
            ended => ended,
        });
        assert(data_sources.skip(n - 1).skip(1) =~= data_sources.skip(n));
        assert(data_sources.take(n - 1).push(data_sources[n - 1]) =~= data_sources.take(n));
    }
}

/// The first error ends the recording with that error, and no filter is extended.
pub proof fn law_persistence_error_ends_recording<D, B>(
    data_sources: Seq<D>,
    state: B,
    answers: Seq<(String, B)>,
    id: String,
    cause: String,
)
    requires
        answers.len() < data_sources.len(),
    ensures
        run_persistence(
            DataSourcePersistenceModel::proceed(data_sources, Seq::empty(), state),
            persistence_successes(answers).push(PersistenceEvent::IdMade(id)).push(
                PersistenceEvent::Recorded(Err(cause)),
            ),
        ) == PersistenceProgressModel::<D, B>::Failed(cause),
{
    lemma_run_persistence(data_sources, state, answers);
    let start = DataSourcePersistenceModel::proceed(data_sources, Seq::empty(), state);
    let before = persistence_successes(answers);
    let made = before.push(PersistenceEvent::IdMade(id));
    assert(made.drop_last() =~= before);
    let failed = made.push(PersistenceEvent::Recorded(Err(cause)));
    assert(failed.drop_last() =~= made);
    assert(run_persistence(start, made) is Ask);
}

/// Between a data source that was made and the next there is a host: once a data source is
/// made, what is asked for is a host for just that one.
pub proof fn law_each_data_source_gets_a_host<I, D, H>(
    infos: Seq<I>,
    data_sources: Seq<D>,
    runtime_hosts: Seq<H>,
    data_source: D,
)
    requires
        data_sources.len() == runtime_hosts.len(),
        data_sources.len() < infos.len(),
    ensures
        run_creation(
            DataSourceCreationModel::<I, D, H>::proceed(infos, Seq::empty(), Seq::empty()),
            creation_successes(data_sources, runtime_hosts).push(
                CreationEvent::Instantiated(Ok(data_source)),
            ),
        ) matches Progress::Ask(creation, request) && request is AddHost && creation.current
            == Some(data_source),
{
    lemma_run_creation(infos, data_sources, runtime_hosts);
    let before = creation_successes(data_sources, runtime_hosts);
    let made = before.push(CreationEvent::Instantiated(Ok(data_source)));
    assert(made.drop_last() =~= before);
}

/// An answer to a request that is not outstanding changes nothing: a data source while a host
/// is waited for, or a host while a data source is.
pub proof fn law_creation_ignores_other_answers<I, D, H>(
    creation: DataSourceCreationModel<I, D, H>,
    event: CreationEvent<D, H>,
)
    requires
        creation.current is Some ==> event is Instantiated,
        creation.current is None ==> event is HostAdded,
    ensures
        creation.next(event) == CreationProgressModel::<I, D, H>::Unchanged(creation),
{
}

/// An answer to a request that is not outstanding changes nothing: an id while a recording is
/// waited for, or the end of a recording while an id is.
pub proof fn law_persistence_ignores_other_answers<D, B>(
    persistence: DataSourcePersistenceModel<D, B>,
    event: PersistenceEvent<B>,
)
    requires
        persistence.state is Some ==> event is Recorded,
        persistence.state is None ==> event is IdMade,
    ensures
        persistence.next(event) == PersistenceProgressModel::<D, B>::Unchanged(persistence),
{
}

} // verus!
