use instance_manager::instances::{register_guard, release_guard, stop_subgraph};
use instance_manager::manager::{
    ManagerAction, ManagerEvent, SubgraphAssignmentProviderEvent, SubgraphInstanceManager,
};
use instance_manager::start::SubgraphManifest;
use instance_manager::string_map::StringMap;
use std::cell::Cell;
use std::rc::Rc;

type Event = ManagerEvent<u32, u32>;

fn manifest(id: &str, network: &str) -> SubgraphManifest<u32, u32> {
    SubgraphManifest {
        id: id.to_string(),
        network_name: network.to_string(),
        data_sources: vec![],
        templates: vec![],
        start_blocks: vec![],
    }
}

fn key(text: &str) -> String {
    text.to_string()
}

#[test]
fn map_holds_one_value_under_a_key() {
    let mut map: StringMap<u32> = StringMap::new();
    assert_eq!(map.get(&key("a")), None);
    assert_eq!(map.insert(key("a"), 1), None);
    assert_eq!(map.insert(key("b"), 2), None);
    assert_eq!(map.insert(key("a"), 3), Some(1));
    assert_eq!(map.get(&key("a")), Some(&3));
    assert_eq!(map.get(&key("b")), Some(&2));
    assert_eq!(map.remove(&key("a")), Some(3));
    assert_eq!(map.remove(&key("a")), None);
    assert_eq!(map.get(&key("a")), None);
    assert_eq!(map.get(&key("b")), Some(&2));
}

#[test]
fn stop_gives_up_the_running_guard() {
    let mut instances: StringMap<u32> = StringMap::new();
    assert_eq!(register_guard(&mut instances, key("one"), 10), None);
    assert_eq!(register_guard(&mut instances, key("two"), 20), None);
    assert_eq!(release_guard(&mut instances, &key("one")), Some(10));
    assert_eq!(register_guard(&mut instances, key("one"), 11), None);
    assert_eq!(stop_subgraph(&mut instances, &key("one")), Some(11));
    assert_eq!(instances.get(&key("one")), None);
    assert_eq!(instances.get(&key("two")), Some(&20));
}

#[test]
fn stop_of_an_unknown_subgraph_does_nothing() {
    let mut instances: StringMap<u32> = StringMap::new();
    register_guard(&mut instances, key("two"), 20);
    assert_eq!(stop_subgraph(&mut instances, &key("one")), None);
    assert_eq!(instances.get(&key("two")), Some(&20));
}

#[test]
fn second_start_gives_up_the_first_guard() {
    let mut instances: StringMap<u32> = StringMap::new();
    register_guard(&mut instances, key("one"), 10);
    assert_eq!(register_guard(&mut instances, key("one"), 11), Some(10));
    assert_eq!(instances.get(&key("one")), Some(&11));
}

#[test]
fn guard_that_is_given_up_can_be_dropped() {
    struct Guard(Rc<Cell<u32>>);
    impl Drop for Guard {
        fn drop(&mut self) {
            self.0.set(self.0.get() + 1);
        }
    }
    let dropped = Rc::new(Cell::new(0));
    let mut instances: StringMap<Guard> = StringMap::new();
    register_guard(&mut instances, key("one"), Guard(dropped.clone()));
    assert_eq!(dropped.get(), 0);
    drop(stop_subgraph(&mut instances, &key("one")));
    assert_eq!(dropped.get(), 1);
}

fn manager() -> SubgraphInstanceManager<&'static str, &'static str> {
    let mut stores = StringMap::new();
    stores.insert(key("mainnet"), "main store");
    stores.insert(key("ropsten"), "test store");
    let mut adapters = StringMap::new();
    adapters.insert(key("mainnet"), "main adapter");
    SubgraphInstanceManager::new(stores, adapters)
}

#[test]
fn manager_finds_the_services_of_a_network() {
    let manager = manager();
    let (store, adapter) = manager.network_services(&key("mainnet")).unwrap();
    assert_eq!(*store, "main store");
    assert_eq!(*adapter, "main adapter");
}

#[test]
fn manager_names_the_service_that_is_missing() {
    let manager = manager();
    assert_eq!(
        manager.network_services(&key("ropsten")).unwrap_err(),
        "expected eth adapter that matches subgraph network: ropsten"
    );
    assert_eq!(
        manager.network_services(&key("goerli")).unwrap_err(),
        "expected store that matches subgraph network: goerli"
    );
}

type Manager = SubgraphInstanceManager<&'static str, &'static str>;

fn start(id: &str) -> Event {
    let manifest = manifest(id, "mainnet");
    Event::Assignment(SubgraphAssignmentProviderEvent::SubgraphStart(manifest))
}

fn stop(id: &str) -> Event {
    Event::Assignment(SubgraphAssignmentProviderEvent::SubgraphStop(id.to_string()))
}

fn started(id: &str, run: u64) -> Event {
    Event::Started { id: id.to_string(), run, result: Ok(()) }
}

fn not_started(id: &str, run: u64) -> Event {
    Event::Started { id: id.to_string(), run, result: Err(key("no")) }
}

fn ended(id: &str, run: u64) -> Event {
    Event::Ended { id: id.to_string(), run }
}

/// How the count changes with an event.
fn change(manager: &mut Manager, event: Event) -> i64 {
    let mut count = 0;
    for action in manager.handle_subgraph_events(event) {
        match action {
            ManagerAction::IncrementSubgraphCount => count += 1,
            ManagerAction::DecrementSubgraphCount => count -= 1,
            _ => {}
        }
    }
    count
}

#[test]
fn start_is_counted_when_it_has_succeeded() {
    let mut manager = manager();
    let actions = manager.handle_subgraph_events(start("one"));
    assert_eq!(actions.len(), 1);
    match &actions[0] {
        ManagerAction::StartSubgraph(manifest) => assert_eq!(manifest.id, "one"),
        _ => panic!("the subgraph is not started"),
    }
    let actions = manager.handle_subgraph_events(started("one", 1));
    assert_eq!(actions.len(), 1);
    assert!(matches!(actions[0], ManagerAction::IncrementSubgraphCount));
    assert_eq!(manager.counted.get(&key("one")), Some(&1));
}

#[test]
fn failed_start_is_not_counted() {
    let mut manager = manager();
    assert!(manager.handle_subgraph_events(not_started("one", 1)).is_empty());
    assert_eq!(change(&mut manager, stop("one")), 0);
}

#[test]
fn stop_of_an_indexed_subgraph_is_counted() {
    let mut manager = manager();
    manager.handle_subgraph_events(started("one", 1));
    let actions = manager.handle_subgraph_events(stop("one"));
    assert_eq!(actions.len(), 2);
    assert!(matches!(&actions[0], ManagerAction::StopSubgraph(id) if id == "one"));
    assert!(matches!(actions[1], ManagerAction::DecrementSubgraphCount));
    assert_eq!(manager.counted.get(&key("one")), None);
}

#[test]
fn stop_of_a_subgraph_that_is_not_indexed_is_not_counted() {
    let mut manager = manager();
    let actions = manager.handle_subgraph_events(stop("QmA"));
    assert_eq!(actions.len(), 1);
    assert!(matches!(&actions[0], ManagerAction::StopSubgraph(id) if id == "QmA"));
}

#[test]
fn run_that_ends_by_itself_is_counted_once() {
    let mut manager = manager();
    assert_eq!(change(&mut manager, started("one", 1)), 1);
    assert_eq!(change(&mut manager, ended("one", 1)), -1);
    assert_eq!(change(&mut manager, ended("one", 1)), 0);
    assert_eq!(change(&mut manager, stop("one")), 0);
}

#[test]
fn end_of_an_older_run_does_not_count() {
    let mut manager = manager();
    assert_eq!(change(&mut manager, started("one", 1)), 1);
    assert_eq!(change(&mut manager, stop("one")), -1);
    assert_eq!(change(&mut manager, started("one", 2)), 1);
    assert_eq!(change(&mut manager, ended("one", 1)), 0);
    assert_eq!(change(&mut manager, started("one", 3)), 0);
    assert_eq!(change(&mut manager, ended("one", 2)), 0);
    assert_eq!(change(&mut manager, ended("one", 3)), -1);
}

#[test]
fn count_is_the_number_of_indexed_subgraphs() {
    let mut manager = manager();
    let events = vec![
        (started("one", 1), 1),
        (not_started("two", 2), 1),
        (started("two", 3), 2),
        (stop("one"), 1),
        (started("three", 4), 2),
        (stop("unknown"), 2),
        (stop("two"), 1),
        (stop("two"), 1),
        (ended("three", 4), 0),
        (stop("three"), 0),
    ];
    let mut count: i64 = 0;
    for (event, expected) in events {
        count += change(&mut manager, event);
        assert_eq!(count, expected);
    }
}
