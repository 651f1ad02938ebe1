use instance_manager::block::{BlockWithTriggers, Indexing};
use instance_manager::context::{IndexingContext, IndexingInputs, IndexingState};
use instance_manager::instances::{register_guard, release_guard};
use instance_manager::string_map::StringMap;
use instance_manager::error::{CancelableError, IndexingError};
use instance_manager::run::{run_subgraph, RunAction, RunEvent, RunPhase, SubgraphRun};
use instance_manager::trigger::EthereumTrigger;

struct Kinds;

impl Indexing for Kinds {
    type Block = u32;
    type BlockPointer = u32;
    type BlockState = u32;
    type Payload = u32;
    type Info = u32;
    type DataSource = &'static str;
    type Host = u32;
    type Template = u32;
    type Cache = &'static str;
    type Stream = u32;
    type Modifications = u32;
    type Elapsed = f64;
}

type Context = IndexingContext<&'static str, u32, &'static str>;

fn context() -> Context {
    IndexingContext {
        inputs: IndexingInputs {
            deployment_id: "Qm1".to_string(),
            network_name: "mainnet".to_string(),
            start_blocks: vec![3, 5],
            templates_use_calls: true,
            top_level_templates: vec![],
        },
        state: IndexingState {
            filters: vec![vec!["manifest"]],
            restarts: 0,
            entity_lfu_cache: Some("warm"),
        },
    }
}

fn block(number: u32, triggers: u32) -> RunEvent<Kinds> {
    RunEvent::Block(BlockWithTriggers {
        ethereum_block: number,
        triggers: (0..triggers).map(|payload| EthereumTrigger::Block { payload }).collect(),
    })
}

fn processed(ctx: Context, needs_restart: bool) -> RunEvent<Kinds> {
    RunEvent::BlockProcessed { result: Ok((ctx, needs_restart)), elapsed: 0.5 }
}

fn names(actions: &[RunAction<Kinds>]) -> Vec<String> {
    actions
        .iter()
        .map(|action| match action {
            RunAction::BuildStream => "build".to_string(),
            RunAction::RegisterGuard { deployment_id } => format!("register {}", deployment_id),
            RunAction::ReleaseGuard { deployment_id } => format!("release {}", deployment_id),
            RunAction::AwaitEvent => "await".to_string(),
            RunAction::ObserveTriggerCount(n) => format!("count {}", n),
            RunAction::ProcessBlock { block, .. } => format!("process {}", block.ethereum_block),
            RunAction::ObserveBlockDuration(elapsed) => format!("took {}", elapsed),
            RunAction::SetFailed { deployment_id, failed, error } => {
                format!("{} failed {}: {}", deployment_id, failed, error.message())
            }
            RunAction::UnregisterMetrics => "unregister".to_string(),
            RunAction::Terminate => "terminate".to_string(),
        })
        .collect()
}

fn streaming(run: &SubgraphRun<Kinds>) -> &Context {
    match &run.phase {
        RunPhase::Streaming(ctx) => ctx,
        _ => panic!("no events are awaited"),
    }
}

fn lent(actions: Vec<RunAction<Kinds>>) -> Context {
    for action in actions {
        if let RunAction::ProcessBlock { ctx, .. } = action {
            return ctx;
        }
    }
    panic!("no block is processed")
}

#[test]
fn run_starts_with_a_stream_and_its_guard() {
    let (run, actions) = run_subgraph::<Kinds>(context());
    assert_eq!(names(&actions), vec!["build", "register Qm1", "await"]);
    assert_eq!(run.deployment_id, "Qm1");
    assert_eq!(streaming(&run).state.entity_lfu_cache, Some("warm"));
}

#[test]
fn block_is_processed_and_the_next_awaited() {
    let (run, _) = run_subgraph::<Kinds>(context());
    let (run, actions) = run.step(block(7, 3));
    assert_eq!(names(&actions), vec!["count 3", "process 7"]);
    let ctx = lent(actions);
    let (run, actions) = run.step(processed(ctx, false));
    assert_eq!(names(&actions), vec!["took 0.5", "await"]);
    assert_eq!(streaming(&run).state.restarts, 0);
    let (_, actions) = run.step(block(8, 0));
    assert_eq!(names(&actions), vec!["process 8"]);
}

#[test]
fn block_with_new_data_sources_restarts_the_stream() {
    let (run, _) = run_subgraph::<Kinds>(context());
    let (run, actions) = run.step(block(7, 0));
    let mut ctx = lent(actions);
    ctx.extend_filters(vec!["new"]);
    let (run, actions) = run.step(processed(ctx, true));
    assert_eq!(
        names(&actions),
        vec!["took 0.5", "release Qm1", "build", "register Qm1", "await"]
    );
    assert_eq!(streaming(&run).state.restarts, 1);
    assert_eq!(streaming(&run).state.filters, vec![vec!["manifest"], vec!["new"]]);
}

#[test]
fn stream_is_built_from_the_context() {
    let (run, _) = run_subgraph::<Kinds>(context());
    let request = run.stream_request().unwrap();
    assert_eq!(request.deployment_id, "Qm1");
    assert_eq!(request.network_name, "mainnet");
    assert_eq!(*request.start_blocks, vec![3, 5]);
    assert_eq!(*request.filters, vec![vec!["manifest"]]);
    assert!(request.templates_use_calls);

    let (run, actions) = run.step(block(7, 0));
    assert!(run.stream_request().is_none());
    let mut ctx = lent(actions);
    ctx.extend_filters(vec!["new"]);
    let (run, _) = run.step(processed(ctx, true));
    assert_eq!(
        *run.stream_request().unwrap().filters,
        vec![vec!["manifest"], vec!["new"]]
    );
}

#[test]
fn restarts_are_counted() {
    let (mut run, _) = run_subgraph::<Kinds>(context());
    for needs_restart in [true, false, true, true] {
        let (next, actions) = run.step(block(1, 1));
        run = next.step(processed(lent(actions), needs_restart)).0;
    }
    assert_eq!(streaming(&run).state.restarts, 3);
}

#[test]
fn revert_empties_the_cache() {
    let (run, _) = run_subgraph::<Kinds>(context());
    let (run, actions) = run.step(RunEvent::Revert);
    assert_eq!(names(&actions), vec!["await"]);
    assert_eq!(streaming(&run).state.entity_lfu_cache, None);
    assert_eq!(streaming(&run).state.filters, vec![vec!["manifest"]]);
}

#[test]
fn stream_errors_are_dropped() {
    let (run, _) = run_subgraph::<Kinds>(context());
    let (run, actions) = run.step(RunEvent::StreamError("timeout".to_string()));
    assert_eq!(names(&actions), vec!["await"]);
    assert_eq!(streaming(&run).state.entity_lfu_cache, Some("warm"));
}

#[test]
fn stream_errors_do_not_disturb_a_run() {
    let error = || RunEvent::StreamError("timeout".to_string());
    let (run, _) = run_subgraph::<Kinds>(context());
    let (run, _) = run.step(error());
    let (run, actions) = run.step(block(7, 1));
    assert_eq!(names(&actions), vec!["count 1", "process 7"]);
    let (run, nothing) = run.step(error());
    assert!(nothing.is_empty());
    let (run, actions) = run.step(processed(lent(actions), true));
    assert_eq!(
        names(&actions),
        vec!["took 0.5", "release Qm1", "build", "register Qm1", "await"]
    );
    let (run, _) = run.step(error());
    assert_eq!(streaming(&run).state.restarts, 1);
    assert_eq!(streaming(&run).state.entity_lfu_cache, Some("warm"));
}

#[test]
fn guard_of_the_latest_stream_is_kept() {
    let mut instances: StringMap<u32> = StringMap::new();
    register_guard(&mut instances, "Qm2".to_string(), 99);
    let mut built = 0;
    let mut keep = |instances: &mut StringMap<u32>, actions: &[RunAction<Kinds>]| {
        for action in actions {
            match action {
                RunAction::BuildStream => built += 1,
                RunAction::RegisterGuard { deployment_id } => {
                    register_guard(instances, deployment_id.clone(), built);
                }
                RunAction::ReleaseGuard { deployment_id } => {
                    assert_eq!(release_guard(instances, deployment_id), Some(built));
                }
                _ => {}
            }
        }
    };
    let (mut run, actions) = run_subgraph::<Kinds>(context());
    keep(&mut instances, &actions);
    assert_eq!(instances.get(&"Qm1".to_string()), Some(&1));
    for latest in [2, 3] {
        let (next, actions) = run.step(block(1, 0));
        let (next, actions) = next.step(processed(lent(actions), true));
        run = next;
        keep(&mut instances, &actions);
        assert_eq!(instances.get(&"Qm1".to_string()), Some(&latest));
    }
    assert_eq!(instances.get(&"Qm2".to_string()), Some(&99));
}

#[test]
fn canceled_block_ends_the_run_quietly() {
    let (run, _) = run_subgraph::<Kinds>(context());
    let (run, _) = run.step(block(7, 0));
    let (run, actions) =
        run.step(RunEvent::BlockProcessed { result: Err(CancelableError::Cancel), elapsed: 0.5 });
    assert_eq!(names(&actions), vec!["took 0.5", "unregister", "terminate"]);
    let (run, actions) = run.step(block(8, 0));
    assert!(actions.is_empty());
    assert!(matches!(run.phase, RunPhase::Terminated));
}

#[test]
fn failed_block_marks_the_deployment_as_failed() {
    let (run, _) = run_subgraph::<Kinds>(context());
    let (run, _) = run.step(block(7, 0));
    let error = IndexingError::Other { cause: "boom".to_string() };
    let (run, actions) = run.step(RunEvent::BlockProcessed {
        result: Err(CancelableError::Error(error)),
        elapsed: 0.5,
    });
    assert_eq!(
        names(&actions),
        vec!["took 0.5", "Qm1 failed true: boom", "unregister", "terminate"]
    );
    assert!(matches!(run.phase, RunPhase::Terminated));
}

#[test]
fn events_out_of_turn_change_nothing() {
    let (run, _) = run_subgraph::<Kinds>(context());
    let (run, actions) = run.step(processed(context(), true));
    assert!(actions.is_empty());
    assert_eq!(streaming(&run).state.restarts, 0);
    let (run, _) = run.step(block(7, 0));
    let (run, actions) = run.step(block(8, 0));
    assert!(actions.is_empty());
    assert!(matches!(run.phase, RunPhase::Processing));
}

#[test]
fn restart_that_cannot_be_counted_is_noticed() {
    let mut ctx = context();
    ctx.state.restarts = u64::MAX;
    assert!(!processed(ctx, true).is_countable());
    let mut ctx = context();
    ctx.state.restarts = u64::MAX;
    assert!(processed(ctx, false).is_countable());
    assert!(processed(context(), true).is_countable());
    assert!(block(1, 1).is_countable());
}

#[test]
fn cache_is_taken_and_put_back() {
    let mut ctx = context();
    assert_eq!(ctx.take_entity_cache(), Some("warm"));
    assert_eq!(ctx.take_entity_cache(), None);
    ctx.put_entity_cache("cold");
    assert_eq!(ctx.state.entity_lfu_cache, Some("cold"));
}
