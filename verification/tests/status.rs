//! The urgency rule and the humanized remaining-time labels.

use tasktui::task::{now_timestamp, Task, TaskStatus, Timestamp};
use tasktui::labels::{duration_label, time_quantity_format};

fn task(time: Option<Timestamp>, complete: bool) -> Task {
    Task {
        name: String::from("t"),
        description: String::from("d"),
        subject: String::from("s"),
        time,
        complete,
        starred: false,
    }
}

fn ts(secs: i64) -> Timestamp {
    Timestamp { secs, offset_secs: 0 }
}

#[test]
fn complete_is_always_zen() {
    let t = task(Some(ts(0)), true);
    assert_eq!(t.get_status(&None), TaskStatus::Zen);
    assert_eq!(t.get_status(&Some(-1_000_000)), TaskStatus::Zen);
    assert_eq!(t.get_status(&Some(0)), TaskStatus::Zen);
    assert_eq!(t.get_status(&Some(1_000_000_000)), TaskStatus::Zen);
}

#[test]
fn incomplete_without_deadline_is_normal() {
    let t = task(None, false);
    assert_eq!(t.get_status(&None), TaskStatus::Normal);
    assert_eq!(t.get_status_now(), TaskStatus::Normal);
}

#[test]
fn imminent_incomplete_is_panic() {
    let t = task(Some(ts(0)), false);
    assert_eq!(t.get_status(&Some(86_400)), TaskStatus::Panic);
    assert_eq!(t.get_status(&Some(0)), TaskStatus::Panic);
    assert_eq!(t.get_status(&Some(-86_400)), TaskStatus::Panic);
    assert_eq!(t.get_status(&Some(2 * 86_400 - 1)), TaskStatus::Panic);
}

#[test]
fn far_incomplete_is_normal() {
    let t = task(Some(ts(0)), false);
    assert_eq!(t.get_status(&Some(2 * 86_400)), TaskStatus::Normal);
    assert_eq!(t.get_status(&Some(10 * 86_400)), TaskStatus::Normal);
}

#[test]
fn pay_rent_scenario() {
    let now = now_timestamp();
    let due = Timestamp { secs: now.secs + 86_400, offset_secs: now.offset_secs };
    let mut rent = task(Some(due), false);
    rent.name = String::from("Pay rent");
    assert_eq!(rent.get_status_now(), TaskStatus::Panic);
    rent.complete = true;
    assert_eq!(rent.get_status_now(), TaskStatus::Zen);
    let mut someday = task(None, false);
    someday.name = String::from("Someday");
    assert_eq!(someday.get_status_now(), TaskStatus::Normal);
    assert_eq!(someday.delta(), "∞");
}

#[test]
fn delta_close_deadline_is_no_time() {
    let t = task(Some(ts(0)), false);
    assert_eq!(t.delta_at(&ts(30)), "No time!");
    assert_eq!(t.delta_at(&ts(-59)), "No time!");
    assert_eq!(t.delta_at(&ts(-60)), "1 minute");
}

#[test]
fn delta_mixed_units() {
    let t = task(Some(ts(90_060)), false);
    assert_eq!(t.delta_at(&ts(0)), "1 day 1 hour 1 minute");
    let t2 = task(Some(ts(2 * 86_400 + 2 * 3_600 + 120)), false);
    assert_eq!(t2.delta_at(&ts(0)), "2 days 2 hours 2 minutes");
    let t3 = task(Some(ts(3_600)), false);
    assert_eq!(t3.delta_at(&ts(0)), "1 hour");
    let t4 = task(Some(ts(0)), false);
    assert_eq!(t4.delta_at(&ts(90_060)), "-1 day -1 hour -1 minute");
}

#[test]
fn duration_label_short_form_drops_minutes() {
    assert_eq!(duration_label(&Some(90_060), true), "1 day 1 hour 1 minute");
    assert_eq!(duration_label(&Some(90_060), false), "1 day 1 hour");
    assert_eq!(duration_label(&Some(30), true), "");
    assert_eq!(duration_label(&None, true), "∞");
}

#[test]
fn time_quantity_format_cases() {
    assert_eq!(time_quantity_format("day", 1), Some(String::from("1 day")));
    assert_eq!(time_quantity_format("day", -1), Some(String::from("-1 day")));
    assert_eq!(time_quantity_format("day", 2), Some(String::from("2 days")));
    assert_eq!(time_quantity_format("hour", -3), Some(String::from("-3 hours")));
    assert_eq!(time_quantity_format("minute", 0), None);
}

#[test]
fn default_task_is_default() {
    let t = Task::default();
    assert!(t.is_default());
    assert!(t.time.is_some());
    let mut named = Task::default();
    named.name = String::from("edited");
    assert!(!named.is_default());
    let mut starred = Task::default();
    starred.starred = true;
    assert!(!starred.is_default());
}
