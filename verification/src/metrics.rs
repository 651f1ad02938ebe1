//! The sensors of the manager and of each subgraph instance: what they are called, how
//! they are laid out, and what is fed to them.
use vstd::prelude::*;
use vstd::string::*;

verus! {

/// What sets off a handler of a subgraph.
#[derive(Clone, Copy, PartialEq, Eq, Structural, Debug)]
pub enum TriggerType {
    Event,
    Call,
    Block,
}

impl TriggerType {
    /// The value of the label `trigger_type` for this kind of trigger.
    pub open spec fn label(self) -> Seq<char> {
        match self {
            TriggerType::Event => "event"@,
            TriggerType::Call => "call"@,
            TriggerType::Block => "block"@,
        }
    }

    pub fn label_value(&self) -> (label: &'static str)
        ensures
            label@ == self.label(),
            *self is Event ==> label@ == "event"@,
            *self is Call ==> label@ == "call"@,
            *self is Block ==> label@ == "block"@,
    {
        match self {
            TriggerType::Event => "event",
            TriggerType::Call => "call",
            TriggerType::Block => "block",
        }
    }
}

/// A single number that goes up and down.
pub struct GaugeOpts {
    pub name: String,
    pub help: String,
}

/// A distribution of values. The upper bounds of its buckets are in hundredths.
pub struct HistogramOpts {
    pub name: String,
    pub help: String,
    pub buckets: Vec<u32>,
}

/// A family of distributions, one for each combination of label values.
pub struct HistogramVecOpts {
    pub opts: HistogramOpts,
    pub label_names: Vec<String>,
}

/// A sensor that is to be registered.
pub enum Registration<'a> {
    Histogram(&'a HistogramOpts),
    HistogramVec(&'a HistogramVecOpts),
}

impl<'a> Registration<'a> {
    /// The name of the sensor.
    pub open spec fn name(self) -> Seq<char> {
        match self {
            Registration::Histogram(opts) => opts.name@,
            Registration::HistogramVec(family) => family.opts.name@,
        }
    }
}

impl HistogramOpts {
    /// Name, description and bucket bounds are these.
    pub open spec fn is(self, name: Seq<char>, help: Seq<char>, buckets: Seq<u32>) -> bool {
        &&& self.name@ == name
        &&& self.help@ == help
        &&& self.buckets@ == buckets
    }
}

/// The sensors of the manager itself.
pub struct SubgraphInstanceManagerMetrics {
    pub subgraph_count: GaugeOpts,
}

impl SubgraphInstanceManagerMetrics {
    pub fn new() -> (r: Self)
        ensures
            r.subgraph_count.name@ == "subgraph_count"@,
            r.subgraph_count.help@
                == "Counts the number of subgraphs currently being indexed by the graph-node."@,
    {
        SubgraphInstanceManagerMetrics {
            subgraph_count: GaugeOpts {
                name: "subgraph_count".to_owned(),
                help:
                    "Counts the number of subgraphs currently being indexed by the graph-node.".to_owned(),
            },
        }
    }
}

/// A value for one distribution out of a family.
pub struct Observation<V> {
    pub metric: String,
    pub label: &'static str,
    pub value: V,
}

/// The sensors of one subgraph instance.
pub struct SubgraphInstanceMetrics {
    pub block_trigger_count: HistogramOpts,
    pub block_processing_duration: HistogramOpts,
    pub block_ops_transaction_duration: HistogramOpts,
    pub trigger_processing_duration: HistogramVecOpts,
}

fn named(prefix: &str, subgraph_hash: &str) -> (name: String)
    ensures
        name@ == prefix@ + subgraph_hash@,
{
    prefix.to_owned().concat(subgraph_hash)
}

impl SubgraphInstanceMetrics {
    /// The names under which the sensors are registered, in the order in which they are
    /// registered.
    pub open spec fn registered(self) -> Seq<Seq<char>> {
        seq![
            self.block_trigger_count.name@,
            self.trigger_processing_duration.opts.name@,
            self.block_processing_duration.name@,
            self.block_ops_transaction_duration.name@,
        ]
    }

    /// The names of the sensors, in the order in which they are given up.
    pub open spec fn unregistered(self) -> Seq<Seq<char>> {
        seq![
            self.block_processing_duration.name@,
            self.block_trigger_count.name@,
            self.trigger_processing_duration.opts.name@,
            self.block_ops_transaction_duration.name@,
        ]
    }

    /// These are the sensors of the deployment with this hash.
    pub open spec fn of(self, subgraph_hash: Seq<char>) -> bool {
        &&& self.block_trigger_count.is(
            "subgraph_block_trigger_count_"@ + subgraph_hash,
            "Measures the number of triggers in each block for a subgraph deployment"@,
            seq![100u32, 500u32, 1000u32, 2000u32, 5000u32],
        )
        &&& self.trigger_processing_duration.opts.is(
            "subgraph_trigger_processing_duration_"@ + subgraph_hash,
            "Measures duration of trigger processing for a subgraph deployment"@,
            seq![1u32, 5u32, 10u32, 50u32, 150u32, 500u32, 1000u32, 3000u32, 12000u32],
        )
        &&& self.trigger_processing_duration.label_names@.len() == 1
        &&& self.trigger_processing_duration.label_names@[0]@ == "trigger_type"@
        &&& self.block_processing_duration.is(
            "subgraph_block_processing_duration_"@ + subgraph_hash,
            "Measures duration of block processing for a subgraph deployment"@,
            seq![5u32, 20u32, 70u32, 150u32, 400u32, 1000u32, 6000u32, 12000u32, 24000u32],
        )
        &&& self.block_ops_transaction_duration.is(
            "subgraph_transact_block_operations_duration_"@ + subgraph_hash,
            "Measures duration of commiting all the entity operations in a block and updating the subgraph pointer"@,
            seq![1u32, 5u32, 10u32, 30u32, 70u32, 200u32],
        )
    }

    pub fn new(subgraph_hash: &str) -> (r: Self)
        ensures
            r.of(subgraph_hash@),
            r.block_trigger_count.name@ == "subgraph_block_trigger_count_"@ + subgraph_hash@,
            r.block_trigger_count.help@
                == "Measures the number of triggers in each block for a subgraph deployment"@,
            r.block_trigger_count.buckets@ == seq![100u32, 500u32, 1000u32, 2000u32, 5000u32],
            r.trigger_processing_duration.opts.name@ == "subgraph_trigger_processing_duration_"@
                + subgraph_hash@,
            r.trigger_processing_duration.opts.help@
                == "Measures duration of trigger processing for a subgraph deployment"@,
            r.trigger_processing_duration.opts.buckets@ == seq![
                1u32,
                5u32,
                10u32,
                50u32,
                150u32,
                500u32,
                1000u32,
                3000u32,
                12000u32,
            ],
            r.trigger_processing_duration.label_names@.len() == 1,
            r.trigger_processing_duration.label_names@[0]@ == "trigger_type"@,
            r.block_processing_duration.name@ == "subgraph_block_processing_duration_"@
                + subgraph_hash@,
            r.block_processing_duration.help@
                == "Measures duration of block processing for a subgraph deployment"@,
            r.block_processing_duration.buckets@ == seq![
                5u32,
                20u32,
                70u32,
                150u32,
                400u32,
                1000u32,
                6000u32,
                12000u32,
                24000u32,
            ],
            r.block_ops_transaction_duration.name@
                == "subgraph_transact_block_operations_duration_"@ + subgraph_hash@,
            r.block_ops_transaction_duration.help@
                == "Measures duration of commiting all the entity operations in a block and updating the subgraph pointer"@,
            r.block_ops_transaction_duration.buckets@ == seq![
                1u32,
                5u32,
                10u32,
                30u32,
                70u32,
                200u32,
            ],
    {
        let block_trigger_count = HistogramOpts {
            name: named("subgraph_block_trigger_count_", subgraph_hash),
            help:
                "Measures the number of triggers in each block for a subgraph deployment".to_owned(),
            buckets: vec![100, 500, 1000, 2000, 5000],
        };
        let mut label_names: Vec<String> = Vec::new();
        label_names.push("trigger_type".to_owned());
        let trigger_processing_duration = HistogramVecOpts {
            opts: HistogramOpts {
                name: named("subgraph_trigger_processing_duration_", subgraph_hash),
                help:
                    "Measures duration of trigger processing for a subgraph deployment".to_owned(),
                buckets: vec![1, 5, 10, 50, 150, 500, 1000, 3000, 12000],
            },
            label_names,
        };
        let block_processing_duration = HistogramOpts {
            name: named("subgraph_block_processing_duration_", subgraph_hash),
            help: "Measures duration of block processing for a subgraph deployment".to_owned(),
            buckets: vec![5, 20, 70, 150, 400, 1000, 6000, 12000, 24000],
        };
        let block_ops_transaction_duration = HistogramOpts {
            name: named("subgraph_transact_block_operations_duration_", subgraph_hash),
            help:
                "Measures duration of commiting all the entity operations in a block and updating the subgraph pointer".to_owned(),
            buckets: vec![1, 5, 10, 30, 70, 200],
        };
        SubgraphInstanceMetrics {
            block_trigger_count,
            block_processing_duration,
            block_ops_transaction_duration,
            trigger_processing_duration,
        }
    }

    /// The sensors to register, in the order in which to register them.
    pub fn register(&self) -> (r: Vec<Registration<'_>>)
        ensures
            r@ == seq![
                Registration::Histogram(&self.block_trigger_count),
                Registration::HistogramVec(&self.trigger_processing_duration),
                Registration::Histogram(&self.block_processing_duration),
                Registration::Histogram(&self.block_ops_transaction_duration),
            ],
            r@.map_values(|sensor: Registration<'_>| sensor.name()) == self.registered(),
    {
        let mut r: Vec<Registration<'_>> = Vec::new();
        r.push(Registration::Histogram(&self.block_trigger_count));
        r.push(Registration::HistogramVec(&self.trigger_processing_duration));
        r.push(Registration::Histogram(&self.block_processing_duration));
        r.push(Registration::Histogram(&self.block_ops_transaction_duration));
        r
    }

    /// The value to feed to the trigger sensors when a trigger of this kind has been
    /// processed.
    pub fn observe_trigger_processing_duration<V>(
        &self,
        duration: V,
        trigger: TriggerType,
    ) -> (r: Observation<V>)
        ensures
            r.metric@ == self.trigger_processing_duration.opts.name@,
            r.label@ == trigger.label(),
            trigger is Event ==> r.label@ == "event"@,
            trigger is Call ==> r.label@ == "call"@,
            trigger is Block ==> r.label@ == "block"@,
            r.value == duration,
    {
        Observation {
            metric: self.trigger_processing_duration.opts.name.clone(),
            label: trigger.label_value(),
            value: duration,
        }
    }

    /// The names of the sensors to give up, in the order in which to give them up.
    pub fn unregister(&self) -> (names: Vec<String>)
        ensures
            names@.map_values(|name: String| name@) == self.unregistered(),
            names@.len() == 4,
            names@[0]@ == self.block_processing_duration.name@,
            names@[1]@ == self.block_trigger_count.name@,
            names@[2]@ == self.trigger_processing_duration.opts.name@,
            names@[3]@ == self.block_ops_transaction_duration.name@,
    {
        let mut names: Vec<String> = Vec::new();
        names.push(self.block_processing_duration.name.clone());
        names.push(self.block_trigger_count.name.clone());
        names.push(self.trigger_processing_duration.opts.name.clone());
        names.push(self.block_ops_transaction_duration.name.clone());
        names
    }
}

/// The four sensors of a deployment have four different names, and no sensor of one
/// deployment has the name of a sensor of another.
pub proof fn law_sensor_names_are_distinct(
    first: SubgraphInstanceMetrics,
    first_hash: Seq<char>,
    second: SubgraphInstanceMetrics,
    second_hash: Seq<char>,
    i: int,
    j: int,
)
    requires
        first.of(first_hash),
        second.of(second_hash),
        0 <= i < 4,
        0 <= j < 4,
        first_hash != second_hash || i != j,
    ensures
        first.registered()[i] != second.registered()[j],
{
    reveal_strlit("subgraph_block_trigger_count_");
    reveal_strlit("subgraph_trigger_processing_duration_");
    reveal_strlit("subgraph_block_processing_duration_");
    reveal_strlit("subgraph_transact_block_operations_duration_");
    let a = first.registered()[i];
    let b = second.registered()[j];
    if i == j {
        let prefix = if i == 0 {
            "subgraph_block_trigger_count_"@
        } else if i == 1 {
            "subgraph_trigger_processing_duration_"@
        } else if i == 2 {
            "subgraph_block_processing_duration_"@
        } else {
            "subgraph_transact_block_operations_duration_"@
        };
        assert(a == prefix + first_hash && b == prefix + second_hash);
        assert(a.skip(prefix.len() as int) =~= first_hash);
        assert(b.skip(prefix.len() as int) =~= second_hash);
    } else {
        assert(a[9] != b[9] || a[15] != b[15] || a[11] != b[11]);
    }
}

/// What is given up when an instance ends is exactly what was registered when it began.
pub proof fn law_unregister_undoes_new(metrics: SubgraphInstanceMetrics, subgraph_hash: Seq<char>)
    requires
        metrics.of(subgraph_hash),
    ensures
        metrics.registered().no_duplicates(),
        metrics.unregistered().no_duplicates(),
        metrics.registered().to_set() == metrics.unregistered().to_set(),
{
    let registered = metrics.registered();
    let unregistered = metrics.unregistered();
    assert forall|i: int, j: int|
        0 <= i < registered.len() && 0 <= j < registered.len() && i != j implies registered[i]
        != registered[j] by {
        law_sensor_names_are_distinct(metrics, subgraph_hash, metrics, subgraph_hash, i, j);
    }
    assert(unregistered[0] == registered[2]);
    assert(unregistered[1] == registered[0]);
    assert(unregistered[2] == registered[1]);
    assert(unregistered[3] == registered[3]);
    assert(registered.to_set() =~= unregistered.to_set());
}

} // verus!
