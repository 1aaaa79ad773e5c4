//! Ordering, the Zen filter and the selection cursor.

use tasktui::app::Data;
use tasktui::sorting::sort_tasks;
use tasktui::task::{Task, Timestamp};

fn task(name: &str, time: Option<i64>, complete: bool) -> Task {
    Task {
        name: String::from(name),
        description: String::from("d"),
        subject: String::from("s"),
        time: time.map(|secs| Timestamp { secs, offset_secs: 0 }),
        complete,
        starred: false,
    }
}

fn names(d: &Data) -> Vec<String> {
    let mut out = Vec::new();
    let mut it = d.iter();
    while let Some(t) = it.next() {
        out.push(t.name);
    }
    out
}

#[test]
fn sort_orders_by_completion_deadline_and_time() {
    let mut tasks = vec![
        task("complete_nodl", None, true),
        task("later", Some(500), false),
        task("nodl", None, false),
        task("complete_dl", Some(100), true),
        task("sooner", Some(200), false),
    ];
    sort_tasks(&mut tasks);
    let order: Vec<&str> = tasks.iter().map(|t| t.name.as_str()).collect();
    assert_eq!(order, vec!["sooner", "later", "nodl", "complete_dl", "complete_nodl"]);
}

#[test]
fn sort_is_stable_for_equal_keys() {
    let mut tasks = vec![
        task("first", Some(100), false),
        task("second", Some(100), false),
        task("third", Some(100), false),
    ];
    sort_tasks(&mut tasks);
    let order: Vec<&str> = tasks.iter().map(|t| t.name.as_str()).collect();
    assert_eq!(order, vec!["first", "second", "third"]);
}

#[test]
fn new_selects_first_task_when_any() {
    let d = Data::new(vec![task("a", None, false)]);
    assert_eq!(d.index, Some(0));
    let e = Data::new(Vec::new());
    assert_eq!(e.index, None);
}

#[test]
fn filter_hides_complete_tasks() {
    let mut d = Data::new(vec![
        task("a", None, false),
        task("b", None, true),
        task("c", Some(10), false),
    ]);
    assert_eq!(d.len(), 3);
    d.toggle_filter_zen();
    assert_eq!(d.len(), 2);
    assert_eq!(names(&d), vec!["a", "c"]);
    assert_eq!(d.get(1).unwrap().name, "c");
    assert!(d.get(2).is_none());
}

#[test]
fn filter_toggle_twice_restores_view() {
    let mut d = Data::new(vec![
        task("a", None, false),
        task("b", None, true),
        task("c", Some(10), false),
    ]);
    let before = names(&d);
    let len_before = d.len();
    d.toggle_filter_zen();
    d.toggle_filter_zen();
    assert_eq!(names(&d), before);
    assert_eq!(d.len(), len_before);
}

#[test]
fn filter_toggle_clamps_selection() {
    let mut d = Data::new(vec![
        task("a", None, false),
        task("b", None, true),
        task("c", None, true),
    ]);
    d.index = Some(2);
    d.toggle_filter_zen();
    // only "a" stays visible: the cursor is pulled to it
    assert_eq!(d.index, Some(0));
    d.toggle_filter_zen();
    assert_eq!(d.index, Some(0));
}

#[test]
fn filter_toggle_empties_selection_with_view() {
    let mut d = Data::new(vec![task("done", None, true)]);
    assert_eq!(d.index, Some(0));
    d.toggle_filter_zen();
    assert_eq!(d.len(), 0);
    assert_eq!(d.index, None);
    d.toggle_filter_zen();
    assert_eq!(d.index, Some(0));
}

#[test]
fn toggle_status_resolves_through_filter() {
    let mut d = Data::new(vec![
        task("a", None, false),
        task("b", None, true),
        task("c", None, false),
    ]);
    d.toggle_filter_zen();
    // visible: [a, c]; select c and complete it
    d.index = Some(1);
    d.toggle_task_status();
    assert!(d.tasks[2].complete);
    assert!(!d.tasks[0].complete);
    // c left the view; the cursor is clamped onto a
    assert_eq!(d.len(), 1);
    assert_eq!(d.index, Some(0));
}

#[test]
fn toggle_star_resolves_through_filter() {
    let mut d = Data::new(vec![
        task("a", None, false),
        task("b", None, true),
        task("c", None, false),
    ]);
    d.toggle_filter_zen();
    d.index = Some(1);
    d.toggle_task_star();
    assert!(d.tasks[2].starred);
    assert!(!d.tasks[1].starred);
    assert_eq!(d.index, Some(1));
}

#[test]
fn remove_selected_through_filter() {
    let mut d = Data::new(vec![
        task("a", None, false),
        task("b", None, true),
        task("c", None, false),
    ]);
    d.toggle_filter_zen();
    d.index = Some(1);
    d.remove_selected();
    assert_eq!(d.tasks.len(), 2);
    assert_eq!(d.tasks[0].name, "a");
    assert_eq!(d.tasks[1].name, "b");
    assert_eq!(d.index, Some(0));
}

#[test]
fn iterator_walks_snapshot_once() {
    let d = Data::new(vec![task("a", None, false), task("b", None, false)]);
    let mut it = d.iter();
    assert_eq!(it.next().unwrap().name, "a");
    assert_eq!(it.next().unwrap().name, "b");
    assert!(it.next().is_none());
    assert!(it.next().is_none());
}

#[test]
fn sort_then_filter_agree() {
    let mut d = Data::new(vec![
        task("done", Some(50), true),
        task("urgent", Some(10), false),
        task("someday", None, false),
    ]);
    d.sort();
    assert_eq!(names(&d), vec!["urgent", "someday", "done"]);
    d.toggle_filter_zen();
    assert_eq!(names(&d), vec!["urgent", "someday"]);
}
