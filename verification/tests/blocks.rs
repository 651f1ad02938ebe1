use instance_manager::block::{
    process_block, BlockAction, BlockEvent, BlockProcessing, BlockWithTriggers, Indexing,
};
use instance_manager::context::{IndexingContext, IndexingInputs, IndexingState};
use instance_manager::data_source::{CreationEvent, CreationRequest, PersistenceEvent};
use instance_manager::error::{CancelableError, IndexingError};
use instance_manager::metrics::TriggerType;
use instance_manager::proof_of_indexing::{ProofEvent, ProofRequest};
use instance_manager::trigger::EthereumTrigger;
use std::collections::VecDeque;

struct Kinds;

impl Indexing for Kinds {
    type Block = u32;
    type BlockPointer = (u64, &'static str);
    type BlockState = Vec<String>;
    type Payload = &'static str;
    type Info = &'static str;
    type DataSource = String;
    type Host = String;
    type Template = &'static str;
    type Cache = &'static str;
    type Stream = u32;
    type Modifications = &'static str;
    type Elapsed = f64;
}

type Context = IndexingContext<String, &'static str, &'static str>;
type Trigger = EthereumTrigger<&'static str>;

fn context() -> Context {
    IndexingContext {
        inputs: IndexingInputs {
            deployment_id: "Qm1".to_string(),
            network_name: "mainnet".to_string(),
            start_blocks: vec![1],
            templates_use_calls: false,
            top_level_templates: vec![],
        },
        state: IndexingState {
            filters: vec![vec!["manifest".to_string()]],
            restarts: 4,
            entity_lfu_cache: Some("warm"),
        },
    }
}

fn trigger(payload: &'static str) -> Trigger {
    EthereumTrigger::Log { transaction_hash: Some([9; 32]), payload }
}

fn payload(trigger: &Trigger) -> &'static str {
    match trigger {
        EthereumTrigger::Log { payload, .. } => payload,
        EthereumTrigger::Call { payload, .. } => payload,
        EthereumTrigger::Block { payload } => payload,
    }
}

/// What the outside world answers, and a record of what it was asked for.
struct World {
    created: Vec<(&'static str, Vec<&'static str>)>,
    found: VecDeque<Vec<&'static str>>,
    failing: Option<&'static str>,
    canceled: bool,
    supported: bool,
    should_migrate: bool,
    log: Vec<String>,
    /// The state that the changes were computed from.
    state: Vec<String>,
}

fn changed(mut state: Vec<String>, what: &str) -> Vec<String> {
    state.push(what.to_string());
    state
}

fn world() -> World {
    World {
        created: vec![],
        found: VecDeque::new(),
        failing: None,
        canceled: false,
        supported: true,
        should_migrate: false,
        log: vec![],
        state: vec![],
    }
}

impl World {
    fn reply<T>(&self, what: &str, value: T) -> Result<T, String> {
        if self.failing == Some(what) {
            Err(format!("{} failed", what))
        } else {
            Ok(value)
        }
    }

    fn created_by(&self, payload: &str) -> Vec<&'static str> {
        self.created
            .iter()
            .filter(|(by, _)| *by == payload)
            .flat_map(|(_, infos)| infos.clone())
            .collect()
    }

    fn perform(
        &mut self,
        block: &BlockProcessing<Kinds>,
        action: BlockAction<Kinds>,
    ) -> Option<BlockEvent<Kinds>> {
        match action {
            BlockAction::OpenBlockState(cache) => {
                self.log.push(format!("open {:?}", cache));
                Some(BlockEvent::BlockStateOpened(vec![]))
            }
            BlockAction::ProcessTrigger { trigger, state } => {
                self.log.push(format!("trigger {}", payload(&trigger)));
                let state = changed(state, payload(&trigger));
                let created = self.created_by(payload(&trigger));
                let outcome = self.reply(payload(&trigger), (state, created));
                Some(BlockEvent::TriggerProcessed { outcome, elapsed: 0.5 })
            }
            BlockAction::ObserveTrigger(observation) => {
                assert_eq!(observation.trigger_type, TriggerType::Event);
                assert_eq!(observation.elapsed, 0.5);
                self.log.push("observe trigger".to_string());
                None
            }
            BlockAction::Create(CreationRequest::Instantiate(info)) => {
                self.log.push(format!("make {}", info));
                let made = self.reply("make", format!("source {}", info));
                Some(BlockEvent::Create(CreationEvent::Instantiated(made)))
            }
            BlockAction::Create(CreationRequest::AddHost) => {
                let source = block.current_data_source().unwrap();
                self.log.push(format!("host for {}", source));
                let host = self.reply("host", format!("host of {}", source));
                Some(BlockEvent::Create(CreationEvent::HostAdded(host)))
            }
            BlockAction::FindTriggers => {
                self.log.push(format!("find for {:?}", block.new_data_sources().unwrap()));
                let found = self.found.pop_front().unwrap_or_default();
                let triggers = found.into_iter().map(trigger).collect();
                Some(BlockEvent::TriggersFound(self.reply("find", triggers)))
            }
            BlockAction::MakeDataSourceId => {
                let id = format!("id of {}", block.current_data_source().unwrap());
                Some(BlockEvent::Persist(PersistenceEvent::IdMade(id)))
            }
            BlockAction::PersistDataSource { deployment_id, pointer, id, state } => {
                assert_eq!(deployment_id, "Qm1");
                assert_eq!(pointer, (5, "ff"));
                let source = block.current_data_source().unwrap();
                assert_eq!(id, format!("id of {}", source));
                self.log.push(format!("record {}", source));
                let state = changed(state, source);
                let recorded = self.reply("record", state);
                Some(BlockEvent::Persist(PersistenceEvent::Recorded(recorded)))
            }
            BlockAction::ProcessInHosts { trigger, state } => {
                let hosts = block.runtime_hosts().unwrap();
                self.log.push(format!("trigger {} in {:?}", payload(&trigger), hosts));
                let state = changed(state, payload(&trigger));
                let created = self.created_by(payload(&trigger));
                Some(BlockEvent::ProcessedInHosts(self.reply(payload(&trigger), (state, created))))
            }
            BlockAction::CheckCanceled => {
                self.log.push("canceled?".to_string());
                Some(BlockEvent::Canceled(self.canceled))
            }
            BlockAction::TakeProof(state) => {
                self.log.push("take proof".to_string());
                let taken = Some(vec![("mainnet".to_string(), 1)]);
                Some(BlockEvent::ProofTaken { state: changed(state, "taken"), taken })
            }
            BlockAction::UpdateProof(request) => {
                let event = match request {
                    ProofRequest::CheckSupport { deployment_id } => {
                        assert_eq!(deployment_id, "Qm1");
                        ProofEvent::Supported(self.reply("support", self.supported))
                    }
                    ProofRequest::Read { key, state } => {
                        assert_eq!(key.subgraph_id, "Qm1");
                        assert_eq!(key.entity_type, "Poi$");
                        ProofEvent::Read(Ok((changed(state, "read"), None)))
                    }
                    ProofRequest::Finish { stream, previous } => {
                        assert_eq!(stream, 1);
                        assert_eq!(previous, None);
                        ProofEvent::Finished("digest".to_string())
                    }
                    ProofRequest::Write { key, entity, state } => {
                        self.log.push(format!("proof {} = {}", key.entity_id, entity.digest));
                        ProofEvent::Written(Ok(changed(state, "written")))
                    }
                };
                Some(BlockEvent::UpdateProof(event))
            }
            BlockAction::ComputeModifications(state) => {
                self.log.push("compute".to_string());
                self.state = state;
                let computed = self.reply("compute", ("changes", "large"));
                Some(BlockEvent::ModificationsComputed(computed))
            }
            BlockAction::EvictCache { cache, limit } => {
                self.log.push(format!("evict {} to {}", cache, limit));
                Some(BlockEvent::CacheEvicted("small"))
            }
            BlockAction::Transact { deployment_id, pointer, modifications } => {
                assert_eq!(deployment_id, "Qm1");
                assert_eq!(pointer, (5, "ff"));
                self.log.push(format!("store {}", modifications));
                let should_migrate = self.reply("store", self.should_migrate);
                Some(BlockEvent::Transacted { should_migrate, elapsed: 0.25 })
            }
            BlockAction::ObserveTransaction(elapsed) => {
                assert_eq!(elapsed, 0.25);
                self.log.push("observe store".to_string());
                None
            }
            BlockAction::MigrateDeployment { deployment_id, pointer } => {
                assert_eq!(deployment_id, "Qm1");
                assert_eq!(pointer, (5, "ff"));
                self.log.push("migrate".to_string());
                None
            }
            BlockAction::Finish => {
                self.log.push("finish".to_string());
                None
            }
        }
    }

    fn run(
        &mut self,
        triggers: Vec<&'static str>,
    ) -> Result<(Context, bool), CancelableError<IndexingError>> {
        let triggers = triggers.into_iter().map(trigger).collect();
        let (mut block, mut actions) = process_block::<Kinds>(
            context(),
            1000,
            "Poi$".to_string(),
            (5, "ff"),
            "#5 (ff)".to_string(),
            BlockWithTriggers { ethereum_block: 5, triggers },
        );
        assert_eq!(*block.ethereum_block(), 5);
        loop {
            let mut event = None;
            for action in actions {
                assert!(event.is_none());
                event = self.perform(&block, action);
            }
            match event {
                Some(event) => {
                    assert!(event.is_readable());
                    let (next, more) = block.step(event);
                    block = next;
                    actions = more;
                }
                None => return block.into_result().unwrap(),
            }
        }
    }
}

fn message(result: Result<(Context, bool), CancelableError<IndexingError>>) -> String {
    match result {
        Err(CancelableError::Error(error)) => error.message(),
        Err(CancelableError::Cancel) => panic!("the block is canceled"),
        Ok(_) => panic!("the block is processed"),
    }
}

#[test]
fn block_without_data_sources() {
    let mut world = world();
    let (ctx, needs_restart) = world.run(vec!["a", "b"]).ok().unwrap();
    assert!(!needs_restart);
    assert_eq!(ctx.state.filters, vec![vec!["manifest".to_string()]]);
    assert_eq!(ctx.state.restarts, 4);
    assert_eq!(ctx.state.entity_lfu_cache, Some("small"));
    assert_eq!(
        world.log,
        vec![
            "open Some(\"warm\")",
            "trigger a",
            "observe trigger",
            "trigger b",
            "observe trigger",
            "canceled?",
            "take proof",
            "proof mainnet = digest",
            "compute",
            "evict large to 1000",
            "store changes",
            "observe store",
            "finish",
        ]
    );
    assert_eq!(world.state, vec!["a", "b", "taken", "read", "written"]);
}

#[test]
fn block_without_triggers() {
    let mut world = world();
    let (_, needs_restart) = world.run(vec![]).ok().unwrap();
    assert!(!needs_restart);
    assert_eq!(world.log[1], "canceled?");
}

#[test]
fn new_data_sources_see_the_block_breadth_first() {
    let mut world = world();
    world.created = vec![("a", vec!["one"]), ("b", vec!["two"]), ("x", vec!["three"])];
    world.found = vec![vec!["x", "y"], vec![]].into();
    let (ctx, needs_restart) = world.run(vec!["a", "b"]).ok().unwrap();
    assert!(needs_restart);
    assert_eq!(
        ctx.state.filters,
        vec![
            vec!["manifest".to_string()],
            vec!["source one".to_string(), "source two".to_string()],
            vec!["source three".to_string()],
        ]
    );
    assert_eq!(
        world.log[..22].to_vec(),
        vec![
            "open Some(\"warm\")",
            "trigger a",
            "observe trigger",
            "trigger b",
            "observe trigger",
            "make one",
            "host for source one",
            "make two",
            "host for source two",
            "find for [\"source one\", \"source two\"]",
            "record source one",
            "record source two",
            "trigger x in [\"host of source one\", \"host of source two\"]",
            "trigger y in [\"host of source one\", \"host of source two\"]",
            "make three",
            "host for source three",
            "find for [\"source three\"]",
            "record source three",
            "canceled?",
            "take proof",
            "proof mainnet = digest",
            "compute",
        ]
    );
    assert_eq!(
        world.state,
        vec![
            "a",
            "b",
            "source one",
            "source two",
            "x",
            "y",
            "source three",
            "taken",
            "read",
            "written",
        ]
    );
}

#[test]
fn canceled_block_is_not_stored() {
    let mut world = world();
    world.canceled = true;
    let result = world.run(vec!["a"]);
    assert!(matches!(result, Err(CancelableError::Cancel)));
    assert_eq!(world.log.last().unwrap(), "finish");
    assert_eq!(world.log[world.log.len() - 2], "canceled?");
    assert!(!world.log.iter().any(|line| line.starts_with("store")));
}

#[test]
fn failed_trigger_fails_the_block() {
    let mut world = world();
    world.failing = Some("b");
    assert_eq!(
        message(world.run(vec!["a", "b", "c"])),
        "Failed to process trigger in block #5 (ff), transaction \
         0909090909090909090909090909090909090909090909090909090909090909: b failed"
    );
    assert_eq!(
        world.log,
        vec!["open Some(\"warm\")", "trigger a", "observe trigger", "trigger b", "finish"]
    );
}

#[test]
fn failed_trigger_of_a_new_data_source_fails_the_block() {
    let mut world = world();
    world.created = vec![("a", vec!["one"])];
    world.found = vec![vec!["x"]].into();
    world.failing = Some("x");
    assert_eq!(message(world.run(vec!["a"])), "x failed");
}

#[test]
fn every_outside_error_fails_the_block() {
    for (what, text) in [
        ("make", "make failed"),
        ("host", "host failed"),
        ("find", "find failed"),
        ("record", "record failed"),
        ("support", "support failed"),
        ("compute", "Error while processing block stream for a subgraph: compute failed"),
        ("store", "Error while processing block stream for a subgraph: store failed"),
    ] {
        let mut world = world();
        world.created = vec![("a", vec!["one"])];
        world.failing = Some(what);
        assert_eq!(message(world.run(vec!["a"])), text);
        assert!(!world.log.contains(&"observe store".to_string()));
        assert_eq!(world.log.contains(&"store changes".to_string()), what == "store");
    }
}

#[test]
fn deployment_is_migrated_if_the_store_says_so() {
    let mut world = world();
    world.should_migrate = true;
    assert!(world.run(vec![]).is_ok());
    let n = world.log.len();
    assert_eq!(world.log[n - 4..].to_vec(), vec!["store changes", "observe store", "migrate", "finish"]);
}

#[test]
fn proof_is_not_written_if_unsupported() {
    let mut world = world();
    world.supported = false;
    assert!(world.run(vec![]).is_ok());
    assert!(world.log.contains(&"take proof".to_string()));
    assert!(!world.log.iter().any(|line| line.starts_with("proof")));
    assert_eq!(world.state, vec!["taken"]);
}

#[test]
fn block_ignores_answers_out_of_turn() {
    let (block, actions) = process_block::<Kinds>(
        context(),
        1000,
        "Poi$".to_string(),
        (5, "ff"),
        "#5 (ff)".to_string(),
        BlockWithTriggers { ethereum_block: 5, triggers: vec![trigger("a")] },
    );
    assert_eq!(actions.len(), 1);
    assert_eq!(block.context().inputs.deployment_id, "Qm1");
    assert_eq!(block.context().state.entity_lfu_cache, None);
    let (block, actions) = block.step(BlockEvent::Canceled(true));
    assert!(actions.is_empty());
    assert!(block.current_data_source().is_none());
    assert!(block.new_data_sources().is_none());
    assert!(block.runtime_hosts().is_none());
    assert!(block.into_result().is_none());
}
