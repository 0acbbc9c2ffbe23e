//! The filter policy: preference parsing, predicate derivation, and the
//! membership `apply` computes.

use mytool::filter::{apply, compute_view, current_predicate, FilterPreference};
use mytool::model::Task;

fn ft_task(title: &str, completed: bool) -> Task {
    Task { title: title.to_string(), completed }
}

fn ft_mixed() -> Vec<Task> {
    vec![
        ft_task("a", false),
        ft_task("b", true),
        ft_task("c", false),
        ft_task("d", true),
        ft_task("e", false),
    ]
}

#[test]
fn parse_known_preferences() {
    assert_eq!(FilterPreference::parse("All"), Some(FilterPreference::All));
    assert_eq!(FilterPreference::parse("Open"), Some(FilterPreference::Open));
    assert_eq!(FilterPreference::parse("Done"), Some(FilterPreference::Done));
    assert_eq!(FilterPreference::parse("done"), None);
    assert_eq!(FilterPreference::parse(""), None);
}

#[test]
fn stale_setting_falls_back_to_all() {
    assert_eq!(FilterPreference::from_setting("Yesterday"), FilterPreference::All);
    assert_eq!(FilterPreference::from_setting("Open"), FilterPreference::Open);
}

#[test]
fn setting_str_round_trips() {
    for p in [FilterPreference::All, FilterPreference::Open, FilterPreference::Done] {
        let s = p.setting_str();
        assert_eq!(FilterPreference::parse(&s), Some(p));
    }
}

#[test]
fn current_predicate_maps_all_to_none() {
    assert_eq!(current_predicate("All"), None);
    assert_eq!(current_predicate("Open"), Some(FilterPreference::Open));
    assert_eq!(current_predicate("Done"), Some(FilterPreference::Done));
    assert_eq!(current_predicate("Stale"), None);
}

#[test]
fn apply_selects_exactly_the_matching_tasks_in_order() {
    let tasks = ft_mixed();
    assert_eq!(apply(None, &tasks), vec![0, 1, 2, 3, 4]);
    assert_eq!(apply(Some(FilterPreference::Open), &tasks), vec![0, 2, 4]);
    assert_eq!(apply(Some(FilterPreference::Done), &tasks), vec![1, 3]);
}

#[test]
fn apply_on_empty_sequence() {
    let tasks: Vec<Task> = Vec::new();
    assert_eq!(apply(Some(FilterPreference::Open), &tasks), Vec::<usize>::new());
    assert_eq!(apply(None, &tasks), Vec::<usize>::new());
}

#[test]
fn compute_view_matches_apply() {
    let tasks = ft_mixed();
    assert_eq!(
        compute_view(&FilterPreference::Done, &tasks),
        apply(Some(FilterPreference::Done), &tasks)
    );
    assert_eq!(compute_view(&FilterPreference::All, &tasks), apply(None, &tasks));
}

#[test]
fn filtering_twice_changes_nothing() {
    let tasks = ft_mixed();
    let p = FilterPreference::Open;
    let first = compute_view(&p, &tasks);
    let filtered: Vec<Task> = first
        .iter()
        .map(|&i| ft_task(&tasks[i].title, tasks[i].completed))
        .collect();
    let second = compute_view(&p, &filtered);
    assert_eq!(second, vec![0, 1, 2]);
    assert_eq!(filtered.len(), first.len());
}

#[test]
fn matches_tests_completion_state() {
    let open = ft_task("x", false);
    let done = ft_task("y", true);
    assert!(FilterPreference::All.matches(&open));
    assert!(FilterPreference::All.matches(&done));
    assert!(FilterPreference::Open.matches(&open));
    assert!(!FilterPreference::Open.matches(&done));
    assert!(!FilterPreference::Done.matches(&open));
    assert!(FilterPreference::Done.matches(&done));
}
