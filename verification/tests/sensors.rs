use instance_manager::metrics::{
    Registration, SubgraphInstanceManagerMetrics, SubgraphInstanceMetrics, TriggerType,
};

fn bounds(hundredths: &[u32]) -> Vec<f64> {
    hundredths.iter().map(|n| *n as f64 / 100.0).collect()
}

#[test]
fn trigger_types_have_labels() {
    assert_eq!(TriggerType::Event.label_value(), "event");
    assert_eq!(TriggerType::Call.label_value(), "call");
    assert_eq!(TriggerType::Block.label_value(), "block");
}

#[test]
fn manager_counts_subgraphs() {
    let metrics = SubgraphInstanceManagerMetrics::new();
    assert_eq!(metrics.subgraph_count.name, "subgraph_count");
    assert_eq!(
        metrics.subgraph_count.help,
        "Counts the number of subgraphs currently being indexed by the graph-node."
    );
}

#[test]
fn sensors_of_an_instance() {
    let metrics = SubgraphInstanceMetrics::new("Qm1");
    assert_eq!(metrics.block_trigger_count.name, "subgraph_block_trigger_count_Qm1");
    assert_eq!(
        metrics.block_trigger_count.help,
        "Measures the number of triggers in each block for a subgraph deployment"
    );
    assert_eq!(bounds(&metrics.block_trigger_count.buckets), vec![1.0, 5.0, 10.0, 20.0, 50.0]);

    let triggers = &metrics.trigger_processing_duration;
    assert_eq!(triggers.opts.name, "subgraph_trigger_processing_duration_Qm1");
    assert_eq!(
        triggers.opts.help,
        "Measures duration of trigger processing for a subgraph deployment"
    );
    assert_eq!(triggers.label_names, vec!["trigger_type".to_string()]);
    assert_eq!(
        bounds(&triggers.opts.buckets),
        vec![0.01, 0.05, 0.1, 0.5, 1.5, 5.0, 10.0, 30.0, 120.0]
    );

    let blocks = &metrics.block_processing_duration;
    assert_eq!(blocks.name, "subgraph_block_processing_duration_Qm1");
    assert_eq!(
        blocks.help,
        "Measures duration of block processing for a subgraph deployment"
    );
    assert_eq!(
        bounds(&blocks.buckets),
        vec![0.05, 0.2, 0.7, 1.5, 4.0, 10.0, 60.0, 120.0, 240.0]
    );

    let ops = &metrics.block_ops_transaction_duration;
    assert_eq!(ops.name, "subgraph_transact_block_operations_duration_Qm1");
    assert_eq!(
        ops.help,
        "Measures duration of commiting all the entity operations in a block and updating the \
         subgraph pointer"
    );
    assert_eq!(bounds(&ops.buckets), vec![0.01, 0.05, 0.1, 0.3, 0.7, 2.0]);
}

#[test]
fn trigger_duration_goes_to_its_label() {
    let metrics = SubgraphInstanceMetrics::new("Qm1");
    let observation = metrics.observe_trigger_processing_duration(0.25, TriggerType::Call);
    assert_eq!(observation.metric, "subgraph_trigger_processing_duration_Qm1");
    assert_eq!(observation.label, "call");
    assert_eq!(observation.value, 0.25);
}

#[test]
fn sensors_are_registered_in_order() {
    let metrics = SubgraphInstanceMetrics::new("Qm1");
    let names: Vec<String> = metrics
        .register()
        .iter()
        .map(|sensor| match sensor {
            Registration::Histogram(opts) => format!("one {}", opts.name),
            Registration::HistogramVec(family) => {
                format!("family {} by {}", family.opts.name, family.label_names[0])
            }
        })
        .collect();
    assert_eq!(
        names,
        vec![
            "one subgraph_block_trigger_count_Qm1",
            "family subgraph_trigger_processing_duration_Qm1 by trigger_type",
            "one subgraph_block_processing_duration_Qm1",
            "one subgraph_transact_block_operations_duration_Qm1",
        ]
    );
}

#[test]
fn unregister_gives_up_all_sensors() {
    let metrics = SubgraphInstanceMetrics::new("Qm1");
    assert_eq!(
        metrics.unregister(),
        vec![
            "subgraph_block_processing_duration_Qm1".to_string(),
            "subgraph_block_trigger_count_Qm1".to_string(),
            "subgraph_trigger_processing_duration_Qm1".to_string(),
            "subgraph_transact_block_operations_duration_Qm1".to_string(),
        ]
    );
}

#[test]
fn deployments_do_not_share_sensors() {
    let first = SubgraphInstanceMetrics::new("Qm1").unregister();
    let second = SubgraphInstanceMetrics::new("Qm2").unregister();
    let none = SubgraphInstanceMetrics::new("").unregister();
    for name in &first {
        assert!(!second.contains(name));
        assert!(!none.contains(name));
        assert_eq!(first.iter().filter(|other| *other == name).count(), 1);
    }
}
