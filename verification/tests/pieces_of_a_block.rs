use instance_manager::data_source::{
    create_dynamic_data_sources, persist_dynamic_data_sources, CreationEvent, CreationProgress,
    CreationRequest, PersistenceEvent, PersistenceProgress, PersistenceRequest,
};
use instance_manager::error::IndexingError;
use instance_manager::metrics::TriggerType;
use instance_manager::progress::Progress;
use instance_manager::proof_of_indexing::{
    update_proof_of_indexing, AttributeValue, ProofEvent, ProofProgress, ProofRequest, StoredProof,
};
use instance_manager::trigger::{process_triggers, EthereumTrigger, TriggerProgress};

fn log(payload: u32) -> EthereumTrigger<u32> {
    EthereumTrigger::Log { transaction_hash: Some([payload as u8; 32]), payload }
}

fn call(payload: u32) -> EthereumTrigger<u32> {
    EthereumTrigger::Call { transaction_hash: None, payload }
}

fn block(payload: u32) -> EthereumTrigger<u32> {
    EthereumTrigger::Block { payload }
}

fn payload(trigger: &EthereumTrigger<u32>) -> u32 {
    match trigger {
        EthereumTrigger::Log { payload, .. } => *payload,
        EthereumTrigger::Call { payload, .. } => *payload,
        EthereumTrigger::Block { payload } => *payload,
    }
}

fn triggers(list: Vec<EthereumTrigger<u32>>) -> TriggerProgress<u32, &'static str, u32> {
    process_triggers("#1 (aa)".to_string(), list, 100)
}

#[test]
fn triggers_have_a_kind_and_maybe_a_transaction() {
    let kept = log(7).to_in_flight();
    assert_eq!(kept.trigger_type, TriggerType::Event);
    assert_eq!(kept.transaction_id, Some([7; 32]));
    let kept = EthereumTrigger::Call { transaction_hash: Some([8; 32]), payload: 0 }.to_in_flight();
    assert_eq!(kept.trigger_type, TriggerType::Call);
    assert_eq!(kept.transaction_id, Some([8; 32]));
    let kept = block(9).to_in_flight();
    assert_eq!(kept.trigger_type, TriggerType::Block);
    assert_eq!(kept.transaction_id, None);
}

#[test]
fn no_triggers_no_work() {
    assert!(matches!(triggers(vec![]), Progress::Done((created, 100)) if created.is_empty()));
}

#[test]
fn triggers_are_processed_in_order() {
    let mut progress = triggers(vec![log(1), call(2), block(3)]);
    let answers = vec![vec!["a"], vec![], vec!["b", "c"]];
    let mut seen = vec![];
    let mut states = vec![];
    let mut observed = vec![];
    for (i, answer) in answers.into_iter().enumerate() {
        let (pass, trigger, state) = match progress {
            Progress::Ask(pass, (trigger, state)) => (pass, trigger, state),
            _ => panic!("a trigger is missing"),
        };
        seen.push(payload(&trigger));
        states.push(state);
        let (observation, next) = pass.step(Ok((state + 1, answer)), i as f64);
        let observation = observation.unwrap();
        observed.push((observation.trigger_type, observation.elapsed));
        progress = next;
    }
    assert_eq!(seen, vec![1, 2, 3]);
    assert_eq!(states, vec![100, 101, 102]);
    assert_eq!(
        observed,
        vec![(TriggerType::Event, 0.0), (TriggerType::Call, 1.0), (TriggerType::Block, 2.0)]
    );
    assert!(matches!(
        progress,
        Progress::Done((created, 103)) if created == vec!["a", "b", "c"]
    ));
}

#[test]
fn first_trigger_that_fails_ends_the_pass() {
    let pass = match triggers(vec![call(1), log(2), block(3)]) {
        Progress::Ask(pass, _) => pass,
        _ => panic!("a trigger is missing"),
    };
    let pass = match pass.step(Ok((101, vec![])), 0.0).1 {
        Progress::Ask(pass, _) => pass,
        _ => panic!("a trigger is missing"),
    };
    let (observation, progress) = pass.step::<u32, f64>(Err("boom".to_string()), 0.0);
    assert!(observation.is_none());
    match progress {
        Progress::Failed(IndexingError::Trigger { block, transaction, cause }) => {
            assert_eq!(block, "#1 (aa)");
            assert_eq!(transaction, Some([2; 32]));
            assert_eq!(cause, "boom");
        }
        _ => panic!("the pass goes on"),
    }
}

fn creation(infos: Vec<u32>) -> CreationProgress<u32, String, u8> {
    create_dynamic_data_sources(infos)
}

#[test]
fn data_sources_are_set_up_in_order() {
    let mut progress = creation(vec![10, 20]);
    for (info, host) in [(10, 1), (20, 2)] {
        let setup = match progress {
            Progress::Ask(setup, CreationRequest::Instantiate(asked)) => {
                assert_eq!(asked, info);
                setup
            }
            _ => panic!("no data source is made"),
        };
        assert_eq!(setup.current(), None);
        let setup = match setup.step(CreationEvent::Instantiated(Ok(format!("source {}", info)))) {
            Progress::Ask(setup, CreationRequest::AddHost) => setup,
            _ => panic!("no host is made"),
        };
        assert_eq!(setup.current(), Some(&format!("source {}", info)));
        progress = setup.step(CreationEvent::HostAdded(Ok(host)));
    }
    match progress {
        Progress::Done((sources, hosts)) => {
            assert_eq!(sources, vec!["source 10".to_string(), "source 20".to_string()]);
            assert_eq!(hosts, vec![1, 2]);
        }
        _ => panic!("the set-up goes on"),
    }
}

#[test]
fn nothing_to_set_up() {
    assert!(matches!(
        creation(vec![]),
        Progress::Done((sources, hosts)) if sources.is_empty() && hosts.is_empty()
    ));
}

#[test]
fn error_ends_the_set_up() {
    let setup = match creation(vec![10, 20]) {
        Progress::Ask(setup, _) => setup,
        _ => panic!("no data source is made"),
    };
    assert!(matches!(
        setup.step(CreationEvent::Instantiated(Err("no template".to_string()))),
        Progress::Failed(cause) if cause == "no template"
    ));
    let setup = match creation(vec![10, 20]) {
        Progress::Ask(setup, _) => setup,
        _ => panic!("no data source is made"),
    };
    let setup = match setup.step(CreationEvent::Instantiated(Ok("source".to_string()))) {
        Progress::Ask(setup, _) => setup,
        _ => panic!("no host is made"),
    };
    assert!(matches!(
        setup.step(CreationEvent::HostAdded(Err("too many".to_string()))),
        Progress::Failed(cause) if cause == "too many"
    ));
}

#[test]
fn set_up_ignores_answers_out_of_turn() {
    let setup = match creation(vec![10]) {
        Progress::Ask(setup, _) => setup,
        _ => panic!("no data source is made"),
    };
    let setup = match setup.step(CreationEvent::HostAdded(Ok(1))) {
        Progress::Unchanged(setup) => setup,
        _ => panic!("an answer out of turn counts"),
    };
    let setup = match setup.step(CreationEvent::Instantiated(Ok("source".to_string()))) {
        Progress::Ask(setup, CreationRequest::AddHost) => setup,
        _ => panic!("no host is made"),
    };
    assert!(matches!(
        setup.step(CreationEvent::Instantiated(Ok("other".to_string()))),
        Progress::Unchanged(setup) if setup.current() == Some(&"source".to_string())
    ));
}

#[test]
fn data_sources_are_recorded_in_order() {
    let mut progress: PersistenceProgress<u32, String> =
        persist_dynamic_data_sources(vec![5, 6, 7], "state".to_string());
    for source in [5, 6, 7] {
        let recording = match progress {
            Progress::Ask(recording, PersistenceRequest::MakeId) => recording,
            _ => panic!("a data source is missing"),
        };
        assert_eq!(*recording.current(), source);
        let id = format!("id of {}", source);
        let (recording, state) = match recording.step(PersistenceEvent::IdMade(id)) {
            Progress::Ask(recording, PersistenceRequest::Record { id, state }) => {
                assert_eq!(id, format!("id of {}", source));
                (recording, state)
            }
            _ => panic!("the data source is not recorded"),
        };
        assert_eq!(*recording.current(), source);
        let state = format!("{} {}", state, source);
        progress = recording.step(PersistenceEvent::Recorded(Ok(state)));
    }
    assert!(matches!(
        progress,
        Progress::Done((batch, state)) if batch == vec![5, 6, 7] && state == "state 5 6 7"
    ));
}

#[test]
fn error_ends_the_recording() {
    let recording = match persist_dynamic_data_sources(vec![5, 6], 100) {
        Progress::Ask(recording, _) => recording,
        _ => panic!("a data source is missing"),
    };
    let recording = match recording.step(PersistenceEvent::IdMade("id".to_string())) {
        Progress::Ask(recording, PersistenceRequest::Record { id, state: 100 }) => {
            assert_eq!(id, "id");
            recording
        }
        _ => panic!("the data source is not recorded"),
    };
    let recording = match recording.step(PersistenceEvent::IdMade("other".to_string())) {
        Progress::Unchanged(recording) => recording,
        _ => panic!("an answer out of turn counts"),
    };
    assert!(matches!(
        recording.step(PersistenceEvent::Recorded(Err("full".to_string()))),
        Progress::Failed(cause) if cause == "full"
    ));
}

#[test]
fn nothing_to_record() {
    assert!(matches!(
        persist_dynamic_data_sources::<u32, u32>(vec![], 100),
        Progress::Done((batch, 100)) if batch.is_empty()
    ));
}

fn begin(taken: Option<Vec<(&str, u32)>>) -> ProofProgress<u32, u32> {
    let taken = taken.map(|regions| {
        regions.into_iter().map(|(region, stream)| (region.to_string(), stream)).collect()
    });
    update_proof_of_indexing("Qm1".to_string(), "Poi$".to_string(), taken, 100)
}

fn digest(text: &str) -> Option<StoredProof> {
    Some(StoredProof { digest: Some(AttributeValue::String(text.to_string())) })
}

#[test]
fn no_proof_no_update() {
    assert!(matches!(begin(None), Progress::Done(100)));
}

#[test]
fn unsupported_proof_is_dropped() {
    let update = match begin(Some(vec![("ethereum/mainnet", 1)])) {
        Progress::Ask(update, ProofRequest::CheckSupport { deployment_id }) => {
            assert_eq!(deployment_id, "Qm1");
            update
        }
        _ => panic!("support is not checked"),
    };
    assert!(matches!(update.step(ProofEvent::Supported(Ok(false))), Progress::Done(100)));
}

#[test]
fn each_region_is_updated_under_its_key() {
    let update = match begin(Some(vec![("first", 1), ("second", 2)])) {
        Progress::Ask(update, ProofRequest::CheckSupport { deployment_id }) => {
            assert_eq!(deployment_id, "Qm1");
            update
        }
        _ => panic!("support is not checked"),
    };
    let mut progress = update.step(ProofEvent::Supported(Ok(true)));
    let mut latest = 100;
    for (region, stream, stored, previous, new) in [
        ("first", 1, digest("old"), Some("old"), "new"),
        ("second", 2, None, None, "fresh"),
    ] {
        let update = match progress {
            Progress::Ask(update, ProofRequest::Read { key, state }) => {
                assert_eq!(state, latest);
                assert_eq!(key.subgraph_id, "Qm1");
                assert_eq!(key.entity_type, "Poi$");
                assert_eq!(key.entity_id, region);
                update
            }
            _ => panic!("nothing is read"),
        };
        let update = match update.step(ProofEvent::Read(Ok((latest + 1, stored)))) {
            Progress::Ask(update, ProofRequest::Finish { stream: asked, previous: before }) => {
                assert_eq!(asked, stream);
                assert_eq!(before.as_deref(), previous);
                update
            }
            _ => panic!("the stream is not finished"),
        };
        let update = match update.step(ProofEvent::Finished(new.to_string())) {
            Progress::Ask(update, ProofRequest::Write { key, entity, state }) => {
                assert_eq!(state, latest + 1);
                assert_eq!(key.subgraph_id, "Qm1");
                assert_eq!(key.entity_type, "Poi$");
                assert_eq!(key.entity_id, region);
                assert_eq!(entity.id, region);
                assert_eq!(entity.digest, new);
                update
            }
            _ => panic!("nothing is written"),
        };
        latest += 2;
        progress = update.step(ProofEvent::Written(Ok(latest)));
    }
    assert!(matches!(progress, Progress::Done(104)));
}

#[test]
fn digest_is_carried_on_to_the_next_update() {
    let mut stored = None;
    let mut previous = vec![];
    for new in ["first", "second", "third"] {
        let update = match begin(Some(vec![("mainnet", 1)])) {
            Progress::Ask(update, _) => update,
            _ => panic!("support is not checked"),
        };
        let update = match update.step(ProofEvent::Supported(Ok(true))) {
            Progress::Ask(update, _) => update,
            _ => panic!("nothing is read"),
        };
        let update = match update.step(ProofEvent::Read(Ok((101, stored)))) {
            Progress::Ask(update, ProofRequest::Finish { previous: before, .. }) => {
                previous.push(before);
                update
            }
            _ => panic!("the stream is not finished"),
        };
        stored = match update.step(ProofEvent::Finished(new.to_string())) {
            Progress::Ask(_, ProofRequest::Write { entity, .. }) => digest(&entity.digest),
            _ => panic!("nothing is written"),
        };
    }
    assert_eq!(previous, vec![None, Some("first".to_string()), Some("second".to_string())]);
}

#[test]
fn errors_end_the_update() {
    let start = || match begin(Some(vec![("first", 1)])) {
        Progress::Ask(update, _) => update,
        _ => panic!("support is not checked"),
    };
    let go = |progress: ProofProgress<u32, u32>| match progress {
        Progress::Ask(update, _) => update,
        _ => panic!("the update has ended"),
    };
    let failed = |progress: ProofProgress<u32, u32>| match progress {
        Progress::Failed(cause) => cause,
        _ => panic!("the update goes on"),
    };
    let error = || "down".to_string();
    assert_eq!(failed(start().step(ProofEvent::Supported(Err(error())))), "down");
    let reading = go(start().step(ProofEvent::Supported(Ok(true))));
    assert_eq!(failed(reading.step(ProofEvent::Read(Err(error())))), "down");
    let reading = go(start().step(ProofEvent::Supported(Ok(true))));
    let finishing = go(reading.step(ProofEvent::Read(Ok((101, None)))));
    let writing = go(finishing.step(ProofEvent::Finished("d".to_string())));
    assert_eq!(failed(writing.step(ProofEvent::Written(Err(error())))), "down");
}

#[test]
fn update_ignores_answers_out_of_turn() {
    let update = match begin(Some(vec![("first", 1)])) {
        Progress::Ask(update, _) => update,
        _ => panic!("support is not checked"),
    };
    assert!(matches!(update.step(ProofEvent::Written(Ok(101))), Progress::Unchanged(_)));
}

#[test]
fn stored_proof_without_digest_is_noticed() {
    assert!(digest("x").unwrap().is_well_formed());
    assert!(!StoredProof { digest: None }.is_well_formed());
    assert!(!StoredProof { digest: Some(AttributeValue::Other) }.is_well_formed());
    assert!(ProofEvent::Read(Ok((0, None))).is_readable());
    assert!(ProofEvent::Read(Ok((0, digest("x")))).is_readable());
    assert!(!ProofEvent::Read(Ok((0, Some(StoredProof { digest: None })))).is_readable());
    assert!(ProofEvent::<u32>::Read(Err("down".to_string())).is_readable());
}
