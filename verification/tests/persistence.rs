//! The persistence gateway: the exact file text, round trips, first-run
//! behavior, and rejection of malformed text.

use mytool::model::{Collection, Store, Task};
use mytool::persist::{load_from_str, save_to_string, LoadError};

fn ps_task(title: &str, completed: bool) -> Task {
    Task { title: title.to_string(), completed }
}

fn ps_collection(title: &str, tasks: Vec<Task>) -> Collection {
    Collection { title: title.to_string(), tasks }
}

fn ps_assert_round_trip(store: &Store) {
    let text = save_to_string(store);
    let back = load_from_str(Some(&text)).expect("saved text must load");
    assert_eq!(back.collections.len(), store.collections.len());
    for (c1, c2) in back.collections.iter().zip(store.collections.iter()) {
        assert_eq!(c1.title, c2.title);
        assert_eq!(c1.tasks.len(), c2.tasks.len());
        for (t1, t2) in c1.tasks.iter().zip(c2.tasks.iter()) {
            assert_eq!(t1.title, t2.title);
            assert_eq!(t1.completed, t2.completed);
        }
    }
}

#[test]
fn empty_store_saves_as_empty_array() {
    let store = Store { collections: Vec::new() };
    assert_eq!(save_to_string(&store), "[]");
}

#[test]
fn one_collection_saves_exactly() {
    let store = Store {
        collections: vec![ps_collection("Home", vec![
            ps_task("Buy milk", false),
            ps_task("Pay bills", true),
        ])],
    };
    assert_eq!(
        save_to_string(&store),
        "[{\"title\":\"Home\",\"tasks\":[{\"title\":\"Buy milk\",\"completed\":false},\
         {\"title\":\"Pay bills\",\"completed\":true}]}]"
    );
}

#[test]
fn titles_are_escaped() {
    let store = Store {
        collections: vec![ps_collection("a\"b\\c", vec![ps_task("line\nbreak\ttab", false)])],
    };
    assert_eq!(
        save_to_string(&store),
        "[{\"title\":\"a\\\"b\\\\c\",\"tasks\":[{\"title\":\"line\\u000abreak\\u0009tab\",\
         \"completed\":false}]}]"
    );
    ps_assert_round_trip(&store);
}

#[test]
fn round_trip_keeps_titles_flags_and_order() {
    let store = Store {
        collections: vec![
            ps_collection("Home", vec![ps_task("Buy milk", false), ps_task("Pay bills", true)]),
            ps_collection("Work", vec![]),
            ps_collection("", vec![ps_task("", true), ps_task("x", false)]),
        ],
    };
    ps_assert_round_trip(&store);
}

#[test]
fn round_trip_of_empty_store() {
    ps_assert_round_trip(&Store { collections: Vec::new() });
}

#[test]
fn round_trip_with_unicode_titles() {
    let store = Store {
        collections: vec![ps_collection("p\u{00e9}\u{2713}\u{1f600}", vec![
            ps_task("caf\u{00e9} \u{265e}", true),
        ])],
    };
    ps_assert_round_trip(&store);
}

#[test]
fn missing_file_loads_as_empty_store() {
    let store = load_from_str(None).expect("first run is not an error");
    assert_eq!(store.collections.len(), 0);
}

#[test]
fn empty_array_loads_as_empty_store() {
    let store = load_from_str(Some("[]")).expect("the empty array is a store");
    assert_eq!(store.collections.len(), 0);
}

#[test]
fn garbage_is_a_deserialization_error() {
    assert!(matches!(load_from_str(Some("not json")), Err(LoadError::Deserialization)));
    assert!(matches!(load_from_str(Some("")), Err(LoadError::Deserialization)));
    assert!(matches!(load_from_str(Some("{}")), Err(LoadError::Deserialization)));
    assert!(matches!(load_from_str(Some("[")), Err(LoadError::Deserialization)));
    assert!(matches!(
        load_from_str(Some("[{\"title\":\"x\"}]")),
        Err(LoadError::Deserialization)
    ));
}

#[test]
fn trailing_text_is_a_deserialization_error() {
    assert!(matches!(load_from_str(Some("[] ")), Err(LoadError::Deserialization)));
    assert!(matches!(load_from_str(Some("[]x")), Err(LoadError::Deserialization)));
}

#[test]
fn truncated_record_is_a_deserialization_error() {
    let good = "[{\"title\":\"Home\",\"tasks\":[]}]";
    assert!(load_from_str(Some(good)).is_ok());
    let cut = &good[..good.len() - 2];
    assert!(matches!(load_from_str(Some(cut)), Err(LoadError::Deserialization)));
}

#[test]
fn load_reads_back_what_was_written() {
    let text = "[{\"title\":\"Home\",\"tasks\":[{\"title\":\"Buy milk\",\"completed\":false}]},\
                {\"title\":\"Work\",\"tasks\":[]}]";
    let store = load_from_str(Some(text)).expect("well-formed store text");
    assert_eq!(store.collections.len(), 2);
    assert_eq!(store.collections[0].title, "Home");
    assert_eq!(store.collections[0].tasks.len(), 1);
    assert_eq!(store.collections[0].tasks[0].title, "Buy milk");
    assert!(!store.collections[0].tasks[0].completed);
    assert_eq!(store.collections[1].title, "Work");
    assert_eq!(store.collections[1].tasks.len(), 0);
}

#[test]
fn duplicate_gives_an_equal_independent_store() {
    let store = Store {
        collections: vec![ps_collection("Home", vec![ps_task("Buy milk", false)])],
    };
    let copy = store.duplicate();
    assert_eq!(save_to_string(&copy), save_to_string(&store));
}
