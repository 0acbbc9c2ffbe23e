//! The live view: binding to the active collection, recomputation on every
//! mutation, and isolation between collections.

use mytool::filter::FilterPreference;
use mytool::live::{TodoError, TodoState};
use mytool::model::{Collection, Store, Task};

fn lv_task(title: &str, completed: bool) -> Task {
    Task { title: title.to_string(), completed }
}

fn lv_collection(title: &str, tasks: Vec<Task>) -> Collection {
    Collection { title: title.to_string(), tasks }
}

fn lv_home_store() -> Store {
    Store {
        collections: vec![lv_collection("Home", vec![
            lv_task("Buy milk", false),
            lv_task("Pay bills", true),
        ])],
    }
}

#[test]
fn concrete_scenario_open_done_all() {
    let mut state = TodoState::new(lv_home_store(), FilterPreference::Open);
    assert_eq!(state.visible_titles(), vec!["Buy milk".to_string()]);
    state.set_preference(FilterPreference::Done);
    assert_eq!(state.visible_titles(), vec!["Pay bills".to_string()]);
    state.set_preference(FilterPreference::All);
    assert_eq!(
        state.visible_titles(),
        vec!["Buy milk".to_string(), "Pay bills".to_string()]
    );
}

#[test]
fn new_state_binds_to_first_collection() {
    let state = TodoState::new(lv_home_store(), FilterPreference::All);
    assert_eq!(state.active, Some(0));
    assert_eq!(state.visible_count(), 2);
    let empty = TodoState::new(Store { collections: Vec::new() }, FilterPreference::All);
    assert_eq!(empty.active, None);
    assert_eq!(empty.visible_count(), 0);
}

#[test]
fn completing_a_task_moves_it_between_views() {
    let store = Store {
        collections: vec![lv_collection("Home", vec![
            lv_task("a", false),
            lv_task("b", false),
            lv_task("c", true),
        ])],
    };
    let mut state = TodoState::new(store, FilterPreference::Open);
    assert_eq!(state.visible_count(), 2);
    assert!(state.set_task_completed(0, true));
    assert_eq!(state.visible_count(), 1);
    assert_eq!(state.visible_titles(), vec!["b".to_string()]);
    state.set_preference(FilterPreference::Done);
    assert_eq!(state.visible_count(), 2);
    assert_eq!(state.visible_titles(), vec!["a".to_string(), "c".to_string()]);
}

#[test]
fn reopening_a_task_moves_it_back() {
    let mut state = TodoState::new(lv_home_store(), FilterPreference::Open);
    assert!(state.set_task_completed(1, false));
    assert_eq!(state.visible_count(), 2);
    state.set_preference(FilterPreference::Done);
    assert_eq!(state.visible_count(), 0);
    assert!(!state.list_visible());
}

#[test]
fn out_of_range_task_is_refused() {
    let mut state = TodoState::new(lv_home_store(), FilterPreference::All);
    assert!(!state.set_task_completed(2, true));
    assert_eq!(state.visible_count(), 2);
}

#[test]
fn switching_isolates_the_view_from_the_old_collection() {
    let store = Store {
        collections: vec![
            lv_collection("A", vec![lv_task("a1", false), lv_task("a2", false)]),
            lv_collection("B", vec![lv_task("b1", false)]),
        ],
    };
    let mut state = TodoState::new(store, FilterPreference::Open);
    assert_eq!(state.visible_count(), 2);
    assert!(state.switch_collection(1));
    assert_eq!(state.visible_count(), 1);
    // Mutating the no-longer-active collection A must not move B's view.
    assert!(state.set_task_completed_in(0, 0, true));
    assert_eq!(state.visible_count(), 1);
    assert_eq!(state.visible_titles(), vec!["b1".to_string()]);
    // Switching back shows the mutation took effect in A.
    assert!(state.switch_collection(0));
    assert_eq!(state.visible_titles(), vec!["a2".to_string()]);
}

#[test]
fn switch_to_missing_collection_is_refused() {
    let mut state = TodoState::new(lv_home_store(), FilterPreference::All);
    assert!(!state.switch_collection(5));
    assert_eq!(state.active, Some(0));
    assert_eq!(state.visible_count(), 2);
}

#[test]
fn add_task_appends_open_and_recomputes() {
    let mut state = TodoState::new(lv_home_store(), FilterPreference::Open);
    assert!(state.add_task("Water plants".to_string()));
    assert_eq!(
        state.visible_titles(),
        vec!["Buy milk".to_string(), "Water plants".to_string()]
    );
    state.set_preference(FilterPreference::All);
    assert_eq!(state.visible_count(), 3);
}

#[test]
fn add_task_without_active_collection_is_refused() {
    let mut state = TodoState::new(Store { collections: Vec::new() }, FilterPreference::All);
    assert!(!state.add_task("orphan".to_string()));
}

#[test]
fn remove_task_drops_the_entry() {
    let mut state = TodoState::new(lv_home_store(), FilterPreference::All);
    assert!(state.remove_task(0));
    assert_eq!(state.visible_titles(), vec!["Pay bills".to_string()]);
    assert!(!state.remove_task(1));
}

#[test]
fn remove_done_tasks_keeps_the_open_ones_in_order() {
    let store = Store {
        collections: vec![lv_collection("Home", vec![
            lv_task("a", true),
            lv_task("b", false),
            lv_task("c", true),
            lv_task("d", false),
        ])],
    };
    let mut state = TodoState::new(store, FilterPreference::All);
    assert!(state.remove_done_tasks());
    assert_eq!(state.visible_titles(), vec!["b".to_string(), "d".to_string()]);
    assert_eq!(state.store.collections[0].tasks.len(), 2);
}

#[test]
fn new_collection_requires_a_title() {
    let mut state = TodoState::new(lv_home_store(), FilterPreference::All);
    assert_eq!(
        state.new_collection(String::new()),
        Err(TodoError::EmptyCollectionTitle)
    );
    assert_eq!(state.active, Some(0));
    let idx = state.new_collection("Garden".to_string()).expect("non-empty title");
    assert_eq!(idx, 1);
    assert_eq!(state.active, Some(1));
    assert_eq!(state.visible_count(), 0);
    assert_eq!(state.store.collections[1].title, "Garden");
}

#[test]
fn list_visible_tracks_the_count() {
    let mut state = TodoState::new(lv_home_store(), FilterPreference::Done);
    assert!(state.list_visible());
    assert!(state.set_task_completed(1, false));
    assert!(!state.list_visible());
}

#[test]
fn preference_from_settings_string() {
    let mut state = TodoState::new(lv_home_store(), FilterPreference::All);
    state.set_preference_str("Done");
    assert_eq!(state.visible_titles(), vec!["Pay bills".to_string()]);
    state.set_preference_str("nonsense");
    assert_eq!(state.visible_count(), 2);
}
