//! The triggers of a block, and how they are processed one after the other.
use crate::error::IndexingError;
use crate::metrics::TriggerType;
use crate::progress::{into_queue, Progress};
use std::collections::VecDeque;
use vstd::prelude::*;

verus! {

/// Something in a block that a subgraph has a handler for. The payload is what the handler
/// is given.
pub enum EthereumTrigger<X> {
    Log { transaction_hash: Option<[u8; 32]>, payload: X },
    Call { transaction_hash: Option<[u8; 32]>, payload: X },
    Block { payload: X },
}

/// What is remembered of a trigger while its handlers run.
#[derive(Clone, Copy)]
pub struct TriggerInFlight {
    pub trigger_type: TriggerType,
    pub transaction_id: Option<[u8; 32]>,
}

impl<X> EthereumTrigger<X> {
    /// The kind of the trigger, and the transaction that it belongs to. A block belongs to
    /// no transaction.
    pub open spec fn in_flight(self) -> TriggerInFlight {
        match self {
            EthereumTrigger::Log { transaction_hash, payload } => TriggerInFlight {
                trigger_type: TriggerType::Event,
                transaction_id: transaction_hash,
            },
            EthereumTrigger::Call { transaction_hash, payload } => TriggerInFlight {
                trigger_type: TriggerType::Call,
                transaction_id: transaction_hash,
            },
            EthereumTrigger::Block { payload } => TriggerInFlight {
                trigger_type: TriggerType::Block,
                transaction_id: None,
            },
        }
    }

    pub fn to_in_flight(&self) -> (r: TriggerInFlight)
        ensures
            r == self.in_flight(),
    {
        match self {
            EthereumTrigger::Log { transaction_hash, payload: _ } => TriggerInFlight {
                trigger_type: TriggerType::Event,
                transaction_id: *transaction_hash,
            },
            EthereumTrigger::Call { transaction_hash, payload: _ } => TriggerInFlight {
                trigger_type: TriggerType::Call,
                transaction_id: *transaction_hash,
            },
            EthereumTrigger::Block { payload: _ } => TriggerInFlight {
                trigger_type: TriggerType::Block,
                transaction_id: None,
            },
        }
    }
}

/// How long a trigger of a kind took.
pub struct TriggerObservation<V> {
    pub trigger_type: TriggerType,
    pub elapsed: V,
}

/// The triggers of a block while they are processed one after the other: one is with its
/// handlers, the others wait. `I` describes a data source that a handler has asked for.
pub struct TriggerPass<X, I> {
    block: String,
    current: TriggerInFlight,
    waiting: VecDeque<EthereumTrigger<X>>,
    created: Vec<I>,
}

/// What a pass over triggers stands for.
pub struct TriggerPassModel<X, I> {
    /// The block pointer, as it is displayed.
    pub block: String,
    pub current: TriggerInFlight,
    pub waiting: Seq<EthereumTrigger<X>>,
    /// The data sources that were asked for so far, in order.
    pub created: Seq<I>,
}

/// The trigger that is next comes with the state of the block to process it in; at the end
/// there are the data sources that were asked for and the state of the block. `B` is the
/// state of the block.
pub type TriggerProgress<X, I, B> = Progress<
    TriggerPass<X, I>,
    (EthereumTrigger<X>, B),
    (Vec<I>, B),
    IndexingError,
>;

pub type TriggerProgressModel<X, I, B> = Progress<
    TriggerPassModel<X, I>,
    (EthereumTrigger<X>, B),
    (Seq<I>, B),
    IndexingError,
>;

/// What comes of a trigger: the state of the block after it and the data sources that its
/// handlers asked for, or the text of their error.
pub type TriggerOutcome<I, B> = Result<(B, Vec<I>), String>;

/// What the progress of a pass stands for.
pub open spec fn trigger_progress<X, I, B>(
    p: TriggerProgress<X, I, B>,
) -> TriggerProgressModel<X, I, B> {
    match p {
        Progress::Ask(pass, request) => Progress::Ask(pass@, request),
        Progress::Done(end) => Progress::Done((end.0@, end.1)),
        Progress::Failed(error) => Progress::Failed(error),
        Progress::Unchanged(pass) => Progress::Unchanged(pass@),
    }
}

impl<X, I> TriggerPassModel<X, I> {
    /// Takes up the first trigger that waits, or ends the pass where none does.
    pub open spec fn proceed<B>(
        block: String,
        waiting: Seq<EthereumTrigger<X>>,
        created: Seq<I>,
        state: B,
    ) -> TriggerProgressModel<X, I, B> {
        if waiting.len() == 0 {
            Progress::Done((created, state))
        } else {
            Progress::Ask(
                TriggerPassModel {
                    block,
                    current: waiting[0].in_flight(),
                    waiting: waiting.skip(1),
                    created,
                },
                (waiting[0], state),
            )
        }
    }

    /// Goes on after the handlers of the current trigger have run.
    pub open spec fn next<B>(self, outcome: TriggerOutcome<I, B>) -> TriggerProgressModel<X, I, B> {
        match outcome {
            Ok((state, created)) => Self::proceed(
                self.block,
                self.waiting,
                self.created + created@,
                state,
            ),
            Err(cause) => Progress::Failed(
                IndexingError::Trigger {
                    block: self.block,
                    transaction: self.current.transaction_id,
                    cause,
                },
            ),
        }
    }
}

impl<X, I> TriggerPass<X, I> {
    pub closed spec fn view(&self) -> TriggerPassModel<X, I> {
        TriggerPassModel {
            block: self.block,
            current: self.current,
            waiting: self.waiting@,
            created: self.created@,
        }
    }

    fn proceed<B>(
        block: String,
        waiting: VecDeque<EthereumTrigger<X>>,
        created: Vec<I>,
        state: B,
    ) -> (r: TriggerProgress<X, I, B>)
        ensures
            trigger_progress(r) == TriggerPassModel::proceed(block, waiting@, created@, state),
    {
        let mut waiting = waiting;
        match waiting.pop_front() {
            Some(trigger) => {
                let current = trigger.to_in_flight();
                Progress::Ask(TriggerPass { block, current, waiting, created }, (trigger, state))
            },
            None => Progress::Done((created, state)),
        }
    }

    /// Goes on after the handlers of the current trigger have run. A trigger that was
    /// processed is worth an observation; one that failed is not.
    pub fn step<B, V>(self, outcome: TriggerOutcome<I, B>, elapsed: V) -> (r: (
        Option<TriggerObservation<V>>,
        TriggerProgress<X, I, B>,
    ))
        ensures
            trigger_progress(r.1) == self@.next(outcome),
            r.0 == match outcome {
                Ok(_) => Some(
                    TriggerObservation { trigger_type: self@.current.trigger_type, elapsed },
                ),
                Err(_) => None,
            },
    {
        match outcome {
            Ok((state, new)) => {
                let observation = TriggerObservation {
                    trigger_type: self.current.trigger_type,
                    elapsed,
                };
                let mut created = self.created;
                let mut new = new;
                created.append(&mut new);
                (Some(observation), Self::proceed(self.block, self.waiting, created, state))
            },
            Err(cause) => (
                None,
                Progress::Failed(
                    IndexingError::Trigger {
                        block: self.block,
                        transaction: self.current.transaction_id,
                        cause,
                    },
                ),
            ),
        }
    }
}

/// Starts to process the triggers of a block one after the other, the first of them in this
/// state of the block.
pub fn process_triggers<X, I, B>(block: String, triggers: Vec<EthereumTrigger<X>>, state: B) -> (r:
    TriggerProgress<X, I, B>)
    ensures
        trigger_progress(r) == TriggerPassModel::<X, I>::proceed(
            block,
            triggers@,
            Seq::<I>::empty(),
            state,
        ),
{
    TriggerPass::proceed(block, into_queue(triggers), Vec::new(), state)
}

/// Where a pass stands after the handlers have run this often, with these outcomes.
pub open spec fn run_triggers<X, I, B>(
    start: TriggerProgressModel<X, I, B>,
    outcomes: Seq<TriggerOutcome<I, B>>,
) -> TriggerProgressModel<X, I, B>
    decreases outcomes.len(),
{
    if outcomes.len() == 0 {
        start
    } else {
        match run_triggers(start, outcomes.drop_last()) {
            Progress::Ask(pass, request) => pass.next(outcomes.last()),
            ended => ended,
        }
    }
}

/// The data sources that handlers asked for, in the order in which they did.
pub open spec fn created_in<I, B>(outcomes: Seq<TriggerOutcome<I, B>>) -> Seq<I>
    decreases outcomes.len(),
{
    if outcomes.len() == 0 {
        Seq::empty()
    } else {
        created_in(outcomes.drop_last()) + match outcomes.last() {
            Ok((_, created)) => created@,
            Err(_) => Seq::empty(),
        }
    }
}

/// The state of the block that the last of these outcomes has left behind.
pub open spec fn state_after<I, B>(state: B, outcomes: Seq<TriggerOutcome<I, B>>) -> B {
    if outcomes.len() == 0 {
        state
    } else {
        outcomes.last()->Ok_0.0
    }
}

/// Triggers are processed one after the other, in the order in which they are in the block:
/// after as many successes as there are triggers before it, a trigger is next. It sees the
/// state of the block that the trigger before it has left behind. After the last one the
/// pass ends with all data sources that were asked for, in order, and with the last state.
pub proof fn law_triggers_in_order<X, I, B>(
    block: String,
    triggers: Seq<EthereumTrigger<X>>,
    state: B,
    outcomes: Seq<TriggerOutcome<I, B>>,
)
    requires
        outcomes.len() <= triggers.len(),
        forall|i: int| 0 <= i < outcomes.len() ==> (#[trigger] outcomes[i]) is Ok,
    ensures
        ({
            let end = run_triggers(
                TriggerPassModel::<X, I>::proceed(block, triggers, Seq::empty(), state),
                outcomes,
            );
            let now = state_after(state, outcomes);
            if outcomes.len() < triggers.len() {
                end is Ask && end->Ask_1 == (triggers[outcomes.len() as int], now)
            } else {
                end == TriggerProgressModel::<X, I, B>::Done((created_in(outcomes), now))
            }
        }),
{
    lemma_run_triggers(block, triggers, state, outcomes);
}

proof fn lemma_run_triggers<X, I, B>(
    block: String,
    triggers: Seq<EthereumTrigger<X>>,
    state: B,
    outcomes: Seq<TriggerOutcome<I, B>>,
)
    requires
        outcomes.len() <= triggers.len(),
        forall|i: int| 0 <= i < outcomes.len() ==> (#[trigger] outcomes[i]) is Ok,
    ensures
        run_triggers(
            TriggerPassModel::<X, I>::proceed(block, triggers, Seq::empty(), state),
            outcomes,
        ) == TriggerPassModel::<X, I>::proceed(
            block,
            triggers.skip(outcomes.len() as int),
            created_in(outcomes),
            state_after(state, outcomes),
        ),
    decreases outcomes.len(),
{
    if outcomes.len() == 0 {
        assert(triggers.skip(0) =~= triggers);
    } else {
        lemma_run_triggers(block, triggers, state, outcomes.drop_last());
        let n = outcomes.len() as int;
        assert(triggers.skip(n - 1).skip(1) =~= triggers.skip(n));
        assert(outcomes[n - 1] is Ok);
    }
}

/// The first trigger that fails ends the pass, with an error that names its block and its
/// transaction, where it has one.
pub proof fn law_first_failure_ends_pass<X, I, B>(
    block: String,
    triggers: Seq<EthereumTrigger<X>>,
    state: B,
    successes: Seq<TriggerOutcome<I, B>>,
    cause: String,
)
    requires
        successes.len() < triggers.len(),
        forall|i: int| 0 <= i < successes.len() ==> (#[trigger] successes[i]) is Ok,
    ensures
        run_triggers(
            TriggerPassModel::<X, I>::proceed(block, triggers, Seq::empty(), state),
            successes.push(Err(cause)),
        ) == TriggerProgressModel::<X, I, B>::Failed(
            IndexingError::Trigger {
                block,
                transaction: triggers[successes.len() as int].in_flight().transaction_id,
                cause,
            },
        ),
{
    lemma_run_triggers(block, triggers, state, successes);
    assert(successes.push(Err(cause)).drop_last() =~= successes);
}

/// A log is an event and belongs to the transaction that it names, and so does a call; a block
/// belongs to no transaction.
pub proof fn law_triggers_have_a_kind<X>(transaction_hash: Option<[u8; 32]>, payload: X)
    ensures
        ({
            let log = EthereumTrigger::Log { transaction_hash, payload }.in_flight();
            let call = EthereumTrigger::Call { transaction_hash, payload }.in_flight();
            let block = EthereumTrigger::Block { payload }.in_flight();
            &&& log.trigger_type is Event && log.transaction_id == transaction_hash
            &&& call.trigger_type is Call && call.transaction_id == transaction_hash
            &&& block.trigger_type is Block && block.transaction_id is None
        }),
{
}

} // verus!
