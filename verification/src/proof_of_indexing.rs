//! The proof of indexing: a digest per causality region that every block adds to.
use crate::progress::{into_queue, Progress};
use std::collections::VecDeque;
use vstd::prelude::*;

verus! {

/// Where an entity is stored.
pub struct EntityKey {
    pub subgraph_id: String,
    pub entity_type: String,
    pub entity_id: String,
}

/// An attribute of an entity, as far as it matters here.
pub enum AttributeValue {
    String(String),
    Other,
}

/// A stored proof of indexing: its attribute `digest`, where it has one.
pub struct StoredProof {
    pub digest: Option<AttributeValue>,
}

impl StoredProof {
    /// A stored proof of indexing has a digest, and the digest is a string.
    pub open spec fn well_formed(self) -> bool {
        self.digest matches Some(AttributeValue::String(_))
    }

    pub fn is_well_formed(&self) -> (r: bool)
        ensures
            r == self.well_formed(),
    {
        match &self.digest {
            Some(AttributeValue::String(_)) => true,
            _ => false,
        }
    }
}

/// The digest that a region had before the block, where it had one.
pub open spec fn previous_digest(stored: Option<StoredProof>) -> Option<String> {
    match stored {
        Some(StoredProof { digest: Some(AttributeValue::String(digest)) }) => Some(digest),
        _ => None,
    }
}

/// A proof of indexing that is to be stored.
pub struct NewProof {
    pub id: String,
    pub digest: String,
}

impl NewProof {
    /// What is read once the proof is stored.
    pub open spec fn stored(self) -> StoredProof {
        StoredProof { digest: Some(AttributeValue::String(self.digest)) }
    }
}

/// An outside call that the update asks for. `S` is the stream of events of a region, and
/// `B` the state of the block, which proofs are read from and written to.
pub enum ProofRequest<S, B> {
    /// Find out whether the deployment keeps proofs of indexing at all.
    CheckSupport { deployment_id: String },
    /// Read the stored proof.
    Read { key: EntityKey, state: B },
    /// Finish the stream of a region on top of its previous digest.
    Finish { stream: S, previous: Option<String> },
    /// Store the new proof.
    Write { key: EntityKey, entity: NewProof, state: B },
}

/// The answer to such a request, or the text of its error. What has to do with the state of
/// the block gives it back.
pub enum ProofEvent<B> {
    Supported(Result<bool, String>),
    Read(Result<(B, Option<StoredProof>), String>),
    Finished(String),
    Written(Result<B, String>),
}

impl<B> ProofEvent<B> {
    /// What was read is no proof at all, or a proof with a digest.
    pub open spec fn readable(self) -> bool {
        self matches ProofEvent::Read(Ok((_, Some(stored)))) ==> stored.well_formed()
    }

    pub fn is_readable(&self) -> (r: bool)
        ensures
            r == self.readable(),
    {
        match self {
            ProofEvent::Read(Ok((_, Some(stored)))) => stored.is_well_formed(),
            _ => true,
        }
    }
}

/// What the update waits for.
pub enum ProofStage<S, B> {
    Support { state: B },
    Read { region: String, stream: S },
    Finish { region: String, state: B },
    Write,
}

/// The proofs of the regions of a block while they are updated one after the other.
pub struct ProofUpdate<S, B> {
    deployment_id: String,
    poi_object: String,
    stage: ProofStage<S, B>,
    waiting: VecDeque<(String, S)>,
}

/// What the update of the proofs stands for.
pub struct ProofUpdateModel<S, B> {
    pub deployment_id: String,
    /// The type of the entities that hold proofs.
    pub poi_object: String,
    pub stage: ProofStage<S, B>,
    /// The regions that were not taken up yet, each with its stream.
    pub waiting: Seq<(String, S)>,
}

/// At the end there is the state of the block that the proofs are written to.
pub type ProofProgress<S, B> = Progress<ProofUpdate<S, B>, ProofRequest<S, B>, B, String>;

pub type ProofProgressModel<S, B> = Progress<ProofUpdateModel<S, B>, ProofRequest<S, B>, B, String>;

/// What the progress of an update stands for.
pub open spec fn proof_progress<S, B>(p: ProofProgress<S, B>) -> ProofProgressModel<S, B> {
    match p {
        Progress::Ask(update, request) => Progress::Ask(update@, request),
        Progress::Done(state) => Progress::Done(state),
        Progress::Failed(cause) => Progress::Failed(cause),
        Progress::Unchanged(update) => Progress::Unchanged(update@),
    }
}

/// Where the proof of a region is stored.
pub open spec fn proof_key(deployment_id: String, poi_object: String, region: String) -> EntityKey {
    EntityKey { subgraph_id: deployment_id, entity_type: poi_object, entity_id: region }
}

impl<S, B> ProofUpdateModel<S, B> {
    /// Takes up the first region that waits, or ends the update where none does.
    pub open spec fn proceed(
        deployment_id: String,
        poi_object: String,
        waiting: Seq<(String, S)>,
        state: B,
    ) -> ProofProgressModel<S, B> {
        if waiting.len() == 0 {
            Progress::Done(state)
        } else {
            Progress::Ask(
                ProofUpdateModel {
                    deployment_id,
                    poi_object,
                    stage: ProofStage::Read { region: waiting[0].0, stream: waiting[0].1 },
                    waiting: waiting.skip(1),
                },
                ProofRequest::Read {
                    key: proof_key(deployment_id, poi_object, waiting[0].0),
                    state,
                },
            )
        }
    }

    /// Begins the update with what the block has left behind, if anything: before a region
    /// is taken up it has to be known that the deployment keeps proofs.
    pub open spec fn start(
        deployment_id: String,
        poi_object: String,
        taken: Option<Seq<(String, S)>>,
        state: B,
    ) -> ProofProgressModel<S, B> {
        match taken {
            Some(waiting) => Progress::Ask(
                ProofUpdateModel {
                    deployment_id,
                    poi_object,
                    stage: ProofStage::Support { state },
                    waiting,
                },
                ProofRequest::CheckSupport { deployment_id },
            ),
            None => Progress::Done(state),
        }
    }

    /// Whether an event is the answer that is waited for.
    pub open spec fn awaits(self, event: ProofEvent<B>) -> bool {
        match self.stage {
            ProofStage::Support { state } => event is Supported,
            ProofStage::Read { region, stream } => event is Read,
            ProofStage::Finish { region, state } => event is Finished,
            ProofStage::Write => event is Written,
        }
    }

    /// Goes on with an answer.
    pub open spec fn next(self, event: ProofEvent<B>) -> ProofProgressModel<S, B> {
        match (self.stage, event) {
            (ProofStage::Support { state }, ProofEvent::Supported(Ok(true))) => Self::proceed(
                self.deployment_id,
                self.poi_object,
                self.waiting,
                state,
            ),
            (ProofStage::Support { state }, ProofEvent::Supported(Ok(false))) => Progress::Done(
                state,
            ),
            (ProofStage::Support { state }, ProofEvent::Supported(Err(cause))) => Progress::Failed(
                cause,
            ),
            (ProofStage::Read { region, stream }, ProofEvent::Read(Ok((state, stored)))) =>
                Progress::Ask(
                ProofUpdateModel { stage: ProofStage::Finish { region, state }, ..self },
                ProofRequest::Finish { stream, previous: previous_digest(stored) },
            ),
            (ProofStage::Read { region, stream }, ProofEvent::Read(Err(cause))) => Progress::Failed(
                cause,
            ),
            (ProofStage::Finish { region, state }, ProofEvent::Finished(digest)) => Progress::Ask(
                ProofUpdateModel { stage: ProofStage::Write, ..self },
                ProofRequest::Write {
                    key: proof_key(self.deployment_id, self.poi_object, region),
                    entity: NewProof { id: region, digest },
                    state,
                },
            ),
            (ProofStage::Write, ProofEvent::Written(Ok(state))) => Self::proceed(
                self.deployment_id,
                self.poi_object,
                self.waiting,
                state,
            ),
            (ProofStage::Write, ProofEvent::Written(Err(cause))) => Progress::Failed(cause),
            _ => Progress::Unchanged(self),
        }
    }
}

impl<S, B> ProofUpdate<S, B> {
    pub closed spec fn view(&self) -> ProofUpdateModel<S, B> {
        ProofUpdateModel {
            deployment_id: self.deployment_id,
            poi_object: self.poi_object,
            stage: self.stage,
            waiting: self.waiting@,
        }
    }

    fn key(deployment_id: &String, poi_object: &String, region: &String) -> (key: EntityKey)
        ensures
            key == proof_key(*deployment_id, *poi_object, *region),
    {
        EntityKey {
            subgraph_id: deployment_id.clone(),
            entity_type: poi_object.clone(),
            entity_id: region.clone(),
        }
    }

    fn proceed(
        deployment_id: String,
        poi_object: String,
        waiting: VecDeque<(String, S)>,
        state: B,
    ) -> (r: ProofProgress<S, B>)
        ensures
            proof_progress(r) == ProofUpdateModel::proceed(
                deployment_id,
                poi_object,
                waiting@,
                state,
            ),
    {
        let mut waiting = waiting;
        match waiting.pop_front() {
            Some((region, stream)) => {
                let key = Self::key(&deployment_id, &poi_object, &region);
                Progress::Ask(
                    ProofUpdate {
                        deployment_id,
                        poi_object,
                        stage: ProofStage::Read { region, stream },
                        waiting,
                    },
                    ProofRequest::Read { key, state },
                )
            },
            None => Progress::Done(state),
        }
    }

    /// Goes on with an answer. The first error ends the update.
    pub fn step(self, event: ProofEvent<B>) -> (r: ProofProgress<S, B>)
        requires
            event.readable(),
        ensures
            proof_progress(r) == self@.next(event),
    {
        let ProofUpdate { deployment_id, poi_object, stage, waiting } = self;
        match (stage, event) {
            (ProofStage::Support { state }, ProofEvent::Supported(Ok(supported))) => {
                if supported {
                    Self::proceed(deployment_id, poi_object, waiting, state)
                } else {
                    Progress::Done(state)
                }
            },
            (ProofStage::Support { state: _ }, ProofEvent::Supported(Err(cause))) =>
                Progress::Failed(cause),
            (ProofStage::Read { region, stream }, ProofEvent::Read(Ok((state, stored)))) => {
                let previous = match stored {
                    Some(StoredProof { digest: Some(AttributeValue::String(digest)) }) => Some(
                        digest,
                    ),
                    _ => None,
                };
                Progress::Ask(
                    ProofUpdate {
                        deployment_id,
                        poi_object,
                        stage: ProofStage::Finish { region, state },
                        waiting,
                    },
                    ProofRequest::Finish { stream, previous },
                )
            },
            (ProofStage::Read { region: _, stream: _ }, ProofEvent::Read(Err(cause))) =>
                Progress::Failed(cause),
            (ProofStage::Finish { region, state }, ProofEvent::Finished(digest)) => {
                let key = Self::key(&deployment_id, &poi_object, &region);
                Progress::Ask(
                    ProofUpdate { deployment_id, poi_object, stage: ProofStage::Write, waiting },
                    ProofRequest::Write { key, entity: NewProof { id: region, digest }, state },
                )
            },
            (ProofStage::Write, ProofEvent::Written(Ok(state))) => Self::proceed(
                deployment_id,
                poi_object,
                waiting,
                state,
            ),
            (ProofStage::Write, ProofEvent::Written(Err(cause))) => Progress::Failed(cause),
            (stage, _) => Progress::Unchanged(
                ProofUpdate { deployment_id, poi_object, stage, waiting },
            ),
        }
    }
}

/// Begins to turn what a block has added to the proof of indexing into entity updates in the
/// state of the block. `taken` is what the block has left behind, taken out of it;
/// `poi_object` is the type of the entities that hold proofs.
pub fn update_proof_of_indexing<S, B>(
    deployment_id: String,
    poi_object: String,
    taken: Option<Vec<(String, S)>>,
    state: B,
) -> (r: ProofProgress<S, B>)
    ensures
        proof_progress(r) == ProofUpdateModel::start(
            deployment_id,
            poi_object,
            match taken {
                Some(regions) => Some(regions@),
                None => None,
            },
            state,
        ),
{
    match taken {
        Some(regions) => {
            let request = ProofRequest::CheckSupport { deployment_id: deployment_id.clone() };
            Progress::Ask(
                ProofUpdate {
                    deployment_id,
                    poi_object,
                    stage: ProofStage::Support { state },
                    waiting: into_queue(regions),
                },
                request,
            )
        },
        None => Progress::Done(state),
    }
}

/// Where an update stands after these answers.
pub open spec fn run_proof<S, B>(
    start: ProofProgressModel<S, B>,
    events: Seq<ProofEvent<B>>,
) -> ProofProgressModel<S, B>
    decreases events.len(),
{
    if events.len() == 0 {
        start
    } else {
        match run_proof(start, events.drop_last()) {
            Progress::Ask(update, request) => update.next(events.last()),
            ended => ended,
        }
    }
}

/// How the update of a region goes when all goes well: what was stored, the new digest, and
/// the states of the block after the proof was read and after it was written.
pub struct RegionAnswers<B> {
    pub stored: Option<StoredProof>,
    pub read: B,
    pub digest: String,
    pub written: B,
}

impl<B> RegionAnswers<B> {
    /// What is stored is no proof at all, or a proof with a digest.
    pub open spec fn readable(self) -> bool {
        self.stored matches Some(stored) ==> stored.well_formed()
    }
}

/// The answers when all goes well: that proofs are kept, and then for each region what was
/// stored, the new digest, and that it was written.
pub open spec fn proof_successes<B>(answers: Seq<RegionAnswers<B>>) -> Seq<ProofEvent<B>>
    decreases answers.len(),
{
    if answers.len() == 0 {
        seq![ProofEvent::Supported(Ok(true))]
    } else {
        let last = answers.last();
        proof_successes(answers.drop_last()).push(
            ProofEvent::Read(Ok((last.read, last.stored))),
        ).push(ProofEvent::Finished(last.digest)).push(ProofEvent::Written(Ok(last.written)))
    }
}

/// The state of the block that the last of these regions has left behind.
pub open spec fn state_after_regions<B>(state: B, answers: Seq<RegionAnswers<B>>) -> B {
    if answers.len() == 0 {
        state
    } else {
        answers.last().written
    }
}

/// A deployment that keeps no proofs of indexing gets none: the update ends with nothing
/// read or written, and the state of the block as it was. So it does where the block has left
/// nothing behind.
pub proof fn law_unsupported_proof_is_dropped<S, B>(
    deployment_id: String,
    poi_object: String,
    regions: Seq<(String, S)>,
    state: B,
)
    ensures
        run_proof(
            ProofUpdateModel::start(deployment_id, poi_object, Some(regions), state),
            seq![ProofEvent::Supported(Ok(false))],
        ) == ProofProgressModel::<S, B>::Done(state),
        ProofUpdateModel::<S, B>::start(deployment_id, poi_object, None, state)
            == ProofProgressModel::<S, B>::Done(state),
{
    let events = seq![ProofEvent::<B>::Supported(Ok(false))];
    assert(events.drop_last() =~= Seq::empty());
    reveal_with_fuel(run_proof, 2);
}

proof fn lemma_run_proof<S, B>(
    deployment_id: String,
    poi_object: String,
    regions: Seq<(String, S)>,
    state: B,
    answers: Seq<RegionAnswers<B>>,
)
    requires
        answers.len() <= regions.len(),
    ensures
        run_proof(
            ProofUpdateModel::start(deployment_id, poi_object, Some(regions), state),
            proof_successes(answers),
        ) == ProofUpdateModel::proceed(
            deployment_id,
            poi_object,
            regions.skip(answers.len() as int),
            state_after_regions(state, answers),
        ),
    decreases answers.len(),
{
    let start = ProofUpdateModel::start(deployment_id, poi_object, Some(regions), state);
    let events = proof_successes(answers);
    if answers.len() == 0 {
        assert(regions.skip(0) =~= regions);
        assert(events.drop_last() =~= Seq::empty());
        reveal_with_fuel(run_proof, 2);
    } else {
        lemma_run_proof(deployment_id, poi_object, regions, state, answers.drop_last());
        lemma_run_region(
            deployment_id,
            poi_object,
            regions,
            state,
            answers.drop_last(),
            answers.last(),
        );
    }
}

/// The region that comes after these answers is updated: what is stored under its key is
/// read, its stream is finished on top of that digest, and the new digest is stored under the
/// same key, each in the state of the block that the call before has left behind.
pub open spec fn region_is_updated<S, B>(
    deployment_id: String,
    poi_object: String,
    regions: Seq<(String, S)>,
    state: B,
    answers: Seq<RegionAnswers<B>>,
    answer: RegionAnswers<B>,
) -> bool {
    let start = ProofUpdateModel::start(deployment_id, poi_object, Some(regions), state);
    let before = proof_successes(answers);
    let read = before.push(ProofEvent::Read(Ok((answer.read, answer.stored))));
    let finished = read.push(ProofEvent::Finished(answer.digest));
    let (region, stream) = regions[answers.len() as int];
    let key = EntityKey {
        subgraph_id: deployment_id,
        entity_type: poi_object,
        entity_id: region,
    };
    &&& run_proof(start, before) matches Progress::Ask(_, request)
    &&& request == ProofRequest::<S, B>::Read { key, state: state_after_regions(state, answers) }
    &&& run_proof(start, read) matches Progress::Ask(_, request)
    &&& request == ProofRequest::<S, B>::Finish {
        stream,
        previous: match answer.stored {
            Some(StoredProof { digest: Some(AttributeValue::String(digest)) }) => Some(digest),
            _ => None,
        },
    }
    &&& run_proof(start, finished) matches Progress::Ask(_, request)
    &&& request == ProofRequest::<S, B>::Write {
        key,
        entity: NewProof { id: region, digest: answer.digest },
        state: answer.read,
    }
}

proof fn lemma_run_region<S, B>(
    deployment_id: String,
    poi_object: String,
    regions: Seq<(String, S)>,
    state: B,
    answers: Seq<RegionAnswers<B>>,
    answer: RegionAnswers<B>,
)
    requires
        answers.len() < regions.len(),
        run_proof(
            ProofUpdateModel::start(deployment_id, poi_object, Some(regions), state),
            proof_successes(answers),
        ) == ProofUpdateModel::proceed(
            deployment_id,
            poi_object,
            regions.skip(answers.len() as int),
            state_after_regions(state, answers),
        ),
    ensures
        region_is_updated(deployment_id, poi_object, regions, state, answers, answer),
        run_proof(
            ProofUpdateModel::start(deployment_id, poi_object, Some(regions), state),
            proof_successes(answers).push(
                ProofEvent::Read(Ok((answer.read, answer.stored))),
            ).push(ProofEvent::Finished(answer.digest)).push(
                ProofEvent::Written(Ok(answer.written)),
            ),
        ) == ProofUpdateModel::proceed(
            deployment_id,
            poi_object,
            regions.skip(answers.len() as int + 1),
            answer.written,
        ),
{
    let before = proof_successes(answers);
    let n = answers.len() as int;
    assert(regions.skip(n)[0] == regions[n]);
    assert(regions.skip(n).skip(1) =~= regions.skip(n + 1));
    let read = before.push(ProofEvent::Read(Ok((answer.read, answer.stored))));
    assert(read.drop_last() =~= before);
    let finished = read.push(ProofEvent::Finished(answer.digest));
    assert(finished.drop_last() =~= read);
    let written = finished.push(ProofEvent::Written(Ok(answer.written)));
    assert(written.drop_last() =~= finished);
}

/// The proof of each region is updated once, one region after the other: what is stored
/// under its key is read, the stream of the region is finished on top of that digest, and
/// the new digest is stored under the same key. Each call has the state of the block that the
/// one before it has left behind. After the last region the update ends with the last state.
pub proof fn law_each_region_is_updated<S, B>(
    deployment_id: String,
    poi_object: String,
    regions: Seq<(String, S)>,
    state: B,
    answers: Seq<RegionAnswers<B>>,
    answer: RegionAnswers<B>,
)
    requires
        answers.len() <= regions.len(),
        forall|i: int| 0 <= i < answers.len() ==> (#[trigger] answers[i]).readable(),
        answer.readable(),
    ensures
        ({
            let start = ProofUpdateModel::start(deployment_id, poi_object, Some(regions), state);
            let before = proof_successes(answers);
            let now = state_after_regions(state, answers);
            if answers.len() == regions.len() {
                run_proof(start, before) == ProofProgressModel::<S, B>::Done(now)
            } else {
                region_is_updated(deployment_id, poi_object, regions, state, answers, answer)
            }
        }),
{
    lemma_run_proof(deployment_id, poi_object, regions, state, answers);
    if answers.len() < regions.len() {
        lemma_run_region(deployment_id, poi_object, regions, state, answers, answer);
    }
}

/// The digest that one update writes for a region is what the next one goes on from: the
/// next update reads the proof of the region under the key that the first has written it
/// to, and where it finds there what was written, it finishes the stream of the region on
/// top of that digest.
pub proof fn law_digest_is_carried_on<S, B>(
    deployment_id: String,
    poi_object: String,
    first_regions: Seq<(String, S)>,
    first_state: B,
    first_answers: Seq<RegionAnswers<B>>,
    first: RegionAnswers<B>,
    second_regions: Seq<(String, S)>,
    second_state: B,
    second_answers: Seq<RegionAnswers<B>>,
    found: B,
)
    requires
        first_answers.len() < first_regions.len(),
        second_answers.len() < second_regions.len(),
        first_regions[first_answers.len() as int].0
            == second_regions[second_answers.len() as int].0,
        forall|i: int| 0 <= i < first_answers.len() ==> (#[trigger] first_answers[i]).readable(),
        forall|i: int| 0 <= i < second_answers.len() ==> (#[trigger] second_answers[i]).readable(),
        first.readable(),
    ensures
        ({
            let one = ProofUpdateModel::start(
                deployment_id,
                poi_object,
                Some(first_regions),
                first_state,
            );
            let two = ProofUpdateModel::start(
                deployment_id,
                poi_object,
                Some(second_regions),
                second_state,
            );
            let finished = proof_successes(first_answers).push(
                ProofEvent::Read(Ok((first.read, first.stored))),
            ).push(ProofEvent::Finished(first.digest));
            let before = proof_successes(second_answers);
            &&& run_proof(one, finished) matches Progress::Ask(_, written)
            &&& written matches ProofRequest::Write { key: written_key, entity, state: _ }
            &&& run_proof(two, before) matches Progress::Ask(_, reading)
            &&& reading matches ProofRequest::Read { key: read_key, state: _ }
            &&& read_key == written_key
            &&& run_proof(
                two,
                before.push(ProofEvent::Read(Ok((found, Some(entity.stored()))))),
            ) matches Progress::Ask(_, request)
            &&& request == ProofRequest::<S, B>::Finish {
                stream: second_regions[second_answers.len() as int].1,
                previous: Some(first.digest),
            }
        }),
{
    law_each_region_is_updated(
        deployment_id,
        poi_object,
        first_regions,
        first_state,
        first_answers,
        first,
    );
    let entity = NewProof {
        id: first_regions[first_answers.len() as int].0,
        digest: first.digest,
    };
    law_each_region_is_updated(
        deployment_id,
        poi_object,
        second_regions,
        second_state,
        second_answers,
        RegionAnswers {
            stored: Some(entity.stored()),
            read: found,
            digest: first.digest,
            written: found,
        },
    );
}

/// The first error ends the update with that error: that it cannot be found out whether proofs
/// are kept, or that the proof of some region cannot be read, or cannot be written.
pub proof fn law_proof_error_ends_update<S, B>(
    deployment_id: String,
    poi_object: String,
    regions: Seq<(String, S)>,
    state: B,
    answers: Seq<RegionAnswers<B>>,
    read: B,
    stored: Option<StoredProof>,
    digest: String,
    cause: String,
)
    requires
        answers.len() < regions.len(),
    ensures
        ({
            let start = ProofUpdateModel::start(deployment_id, poi_object, Some(regions), state);
            let before = proof_successes(answers);
            let failed = ProofProgressModel::<S, B>::Failed(cause);
            &&& run_proof(start, seq![ProofEvent::Supported(Err(cause))]) == failed
            &&& run_proof(start, before.push(ProofEvent::Read(Err(cause)))) == failed
            &&& run_proof(
                start,
                before.push(ProofEvent::Read(Ok((read, stored)))).push(
                    ProofEvent::Finished(digest),
                ).push(ProofEvent::Written(Err(cause))),
            ) == failed
        }),
{
    let start = ProofUpdateModel::start(deployment_id, poi_object, Some(regions), state);
    let before = proof_successes(answers);
    let unknown = seq![ProofEvent::<B>::Supported(Err(cause))];
    assert(unknown.drop_last() =~= Seq::empty());
    assert(run_proof(start, unknown) == match run_proof(start, Seq::empty()) {
        Progress::Ask(update, request) => update.next(unknown.last()),
        ended => ended,
    });
    lemma_run_proof(deployment_id, poi_object, regions, state, answers);
    let unread = before.push(ProofEvent::Read(Err(cause)));
    assert(unread.drop_last() =~= before);
    let after = before.push(ProofEvent::Read(Ok((read, stored))));
    assert(after.drop_last() =~= before);
    let finished = after.push(ProofEvent::Finished(digest));
    assert(finished.drop_last() =~= after);
    let unwritten = finished.push(ProofEvent::Written(Err(cause)));
    assert(unwritten.drop_last() =~= finished);
    assert(run_proof(start, after) is Ask);
    assert(run_proof(start, finished) is Ask);
}

/// The support of proofs is asked for first, for the deployment itself, whatever regions the
/// block has left behind.
pub proof fn law_support_is_asked_for<S, B>(
    deployment_id: String,
    poi_object: String,
    regions: Seq<(String, S)>,
    state: B,
)
    ensures
        ({
            let start = ProofUpdateModel::start(deployment_id, poi_object, Some(regions), state);
            &&& start matches Progress::Ask(_, request)
            &&& request == (ProofRequest::<S, B>::CheckSupport { deployment_id })
        }),
{
}

/// An answer to a request that is not outstanding changes nothing.
pub proof fn law_proof_ignores_other_answers<S, B>(
    update: ProofUpdateModel<S, B>,
    event: ProofEvent<B>,
)
    requires
        update.stage is Support ==> event !is Supported,
        update.stage is Read ==> event !is Read,
        update.stage is Finish ==> event !is Finished,
        update.stage is Write ==> event !is Written,
    ensures
        update.next(event) == ProofProgressModel::<S, B>::Unchanged(update),
{
}

/// Every answer can be gone on with but a stored proof without a digest that is a string.
pub proof fn law_only_broken_proofs_are_unreadable<B>(event: ProofEvent<B>)
    ensures
        !event.readable() <==> (event matches ProofEvent::Read(Ok((_, Some(stored)))) && !(
        stored.digest matches Some(AttributeValue::String(_)))),
{
}

} // verus!
