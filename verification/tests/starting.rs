use instance_manager::start::{
    start_subgraph, templates_use_calls, DataSourceTemplate, ManifestDataSource,
    ManifestTemplate, StartAction, StartEvent, StartSubgraph, SubgraphManifest,
};

type Start = StartSubgraph<&'static str, &'static str, u8>;

fn template(calls: bool, filtered_blocks: bool) -> DataSourceTemplate {
    DataSourceTemplate {
        has_call_handler: calls,
        has_block_handler_with_call_filter: filtered_blocks,
    }
}

fn source(
    source: &'static str,
    templates: Vec<DataSourceTemplate>,
) -> ManifestDataSource<&'static str> {
    ManifestDataSource { source, templates }
}

fn top_level(
    template: &'static str,
    calls: bool,
    filtered_blocks: bool,
) -> ManifestTemplate<&'static str> {
    ManifestTemplate {
        template,
        has_call_handler: calls,
        has_block_handler_with_call_filter: filtered_blocks,
    }
}

fn manifest() -> SubgraphManifest<&'static str, &'static str> {
    SubgraphManifest {
        id: "Qm1".to_string(),
        network_name: "mainnet".to_string(),
        data_sources: vec![
            source("factory", vec![template(false, false)]),
            source("token", vec![template(false, false), template(false, true)]),
        ],
        templates: vec![top_level("pair", false, false)],
        start_blocks: vec![3, 5],
    }
}

#[test]
fn calls_are_needed_for_call_handlers() {
    let none = vec![top_level("pair", false, false)];
    assert!(templates_use_calls(&vec![source("a", vec![template(true, false)])], &none));
    assert!(templates_use_calls(&vec![source("a", vec![template(false, true)])], &none));
    let sources = vec![
        source("a", vec![]),
        source("b", vec![template(false, false), template(true, true)]),
    ];
    assert!(templates_use_calls(&sources, &none));
    assert!(!templates_use_calls(&vec![source("a", vec![template(false, false)])], &none));
    assert!(!templates_use_calls(&vec![source("a", vec![])], &none));
    assert!(!templates_use_calls::<u8, u8>(&vec![], &vec![]));
}

#[test]
fn calls_are_needed_for_top_level_templates() {
    let sources = vec![source("a", vec![]), source("b", vec![template(false, false)])];
    assert!(templates_use_calls(&sources, &vec![top_level("pair", true, false)]));
    let templates = vec![top_level("pair", false, false), top_level("pool", false, true)];
    assert!(templates_use_calls(&sources, &templates));

    let mut manifest = manifest();
    manifest.data_sources = vec![source("factory", vec![])];
    manifest.templates = vec![top_level("pair", true, false)];
    let (start, _): (Start, _) = start_subgraph(manifest);
    let (start, _) = start.step(StartEvent::DeploymentStarted(Ok(())));
    match start {
        StartSubgraph::CreatingInstance(ctx) => assert!(ctx.inputs.templates_use_calls),
        _ => panic!("no instance is created"),
    }
}

#[test]
fn failed_status_is_cleared_first() {
    let (_, actions): (Start, _) = start_subgraph(manifest());
    assert_eq!(actions.len(), 1);
    assert!(matches!(
        &actions[0],
        StartAction::StartDeployment { deployment_id, failed: false } if deployment_id == "Qm1"
    ));
}

#[test]
fn subgraph_starts_in_its_initial_context() {
    let (start, _): (Start, _) = start_subgraph(manifest());
    let (start, actions) = start.step(StartEvent::DeploymentStarted(Ok(())));
    assert_eq!(actions.len(), 2);
    assert!(matches!(
        &actions[0],
        StartAction::RegisterMetrics { subgraph_hash } if subgraph_hash == "Qm1"
    ));
    assert!(matches!(actions[1], StartAction::CreateInstance));
    let (start, actions) = start.step(StartEvent::InstanceCreated(Ok(())));
    assert_eq!(actions.len(), 2);
    assert!(matches!(actions[0], StartAction::Spawn));
    assert!(matches!(actions[1], StartAction::Finish(Ok(()))));
    let ctx = match start {
        StartSubgraph::Started(ctx) => ctx,
        _ => panic!("the subgraph has not started"),
    };
    assert_eq!(ctx.inputs.deployment_id, "Qm1");
    assert_eq!(ctx.inputs.network_name, "mainnet");
    assert_eq!(ctx.inputs.start_blocks, vec![3, 5]);
    assert!(ctx.inputs.templates_use_calls);
    assert_eq!(ctx.inputs.top_level_templates.len(), 1);
    assert_eq!(ctx.inputs.top_level_templates[0].template, "pair");
    assert_eq!(ctx.state.filters, vec![vec!["factory", "token"]]);
    assert_eq!(ctx.state.restarts, 0);
    assert_eq!(ctx.state.entity_lfu_cache, None);
}

#[test]
fn start_ends_if_the_status_cannot_be_cleared() {
    let (start, _): (Start, _) = start_subgraph(manifest());
    let (start, actions) = start.step(StartEvent::DeploymentStarted(Err("down".to_string())));
    assert_eq!(actions.len(), 1);
    assert!(matches!(&actions[0], StartAction::Finish(Err(cause)) if cause == "down"));
    assert!(matches!(start, StartSubgraph::Failed));
    let (start, actions) = start.step(StartEvent::DeploymentStarted(Ok(())));
    assert!(actions.is_empty());
    let (start, actions) = start.step(StartEvent::InstanceCreated(Ok(())));
    assert!(actions.is_empty());
    assert!(matches!(start, StartSubgraph::Failed));
}

#[test]
fn start_ends_if_no_instance_can_be_created() {
    let (start, _): (Start, _) = start_subgraph(manifest());
    let (start, _) = start.step(StartEvent::DeploymentStarted(Ok(())));
    let (start, actions) = start.step(StartEvent::InstanceCreated(Err("bad wasm".to_string())));
    assert_eq!(actions.len(), 1);
    assert!(matches!(&actions[0], StartAction::Finish(Err(cause)) if cause == "bad wasm"));
    assert!(matches!(start, StartSubgraph::Failed));
}

#[test]
fn answers_out_of_turn_change_nothing() {
    let (start, _): (Start, _) = start_subgraph(manifest());
    let (start, actions) = start.step(StartEvent::InstanceCreated(Ok(())));
    assert!(actions.is_empty());
    assert!(matches!(start, StartSubgraph::StartingDeployment(_)));
}
