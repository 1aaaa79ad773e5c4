//! The persisted task table: exact text, the proved round trip on real
//! data, and the rejections.

use tasktui::storages::{StorageError, TaskEntry, TomlStorage};
use tasktui::task::{Task, Timestamp};

fn task(name: &str, description: &str, subject: &str, time: Option<(i64, i32)>, complete: bool, starred: bool) -> Task {
    Task {
        name: String::from(name),
        description: String::from(description),
        subject: String::from(subject),
        time: time.map(|(secs, offset_secs)| Timestamp { secs, offset_secs }),
        complete,
        starred,
    }
}

fn storage() -> TomlStorage {
    TomlStorage::new(String::from("tasks.toml"))
}

#[test]
fn dump_exact_text() {
    let tasks = vec![task("A", "B", "C", None, false, true)];
    let text = storage().dump(&tasks);
    assert_eq!(
        text,
        "[[tasks]]\nname = \"A\"\ndescription = \"B\"\nsubject = \"C\"\ntime = \"none\"\ncomplete = false\nstarred = true\n"
    );
}

#[test]
fn dump_exact_text_with_deadline() {
    let tasks = vec![task("A", "B", "C", Some((-120, 3600)), true, false)];
    let text = storage().dump(&tasks);
    assert_eq!(
        text,
        "[[tasks]]\nname = \"A\"\ndescription = \"B\"\nsubject = \"C\"\ntime = \"-120 3600\"\ncomplete = true\nstarred = false\n"
    );
}

#[test]
fn round_trip_preserves_everything() {
    let tasks = vec![
        task("Pay rent", "Move the money\nbefore noon", "home", Some((1_700_000_000, 7200)), false, true),
        task("quote \" and \\ slash", "tab\there", "misc", None, true, false),
        task("", "", "", Some((-5, -3599)), false, false),
        task("unicode ∞ name", "déjà vu", "ünïcode", Some((0, 0)), true, true),
    ];
    let st = storage();
    let text = st.dump(&tasks);
    let back = st.parse(&text).expect("the dump must read back");
    assert_eq!(back, tasks);
    // a null deadline round-trips as "no deadline", never a parsed date
    assert!(back[1].time.is_none());
}

#[test]
fn empty_table_round_trips() {
    let st = storage();
    let text = st.dump(&Vec::new());
    assert_eq!(text, "");
    assert_eq!(st.parse(&text).unwrap(), Vec::new());
}

#[test]
fn should_save_iff_text_differs() {
    let tasks = vec![task("A", "B", "C", None, false, false)];
    let st = storage();
    let text = st.dump(&tasks);
    assert!(!st.should_save(&text, &tasks));
    assert!(st.should_save("", &tasks));
    let mut changed = vec![task("A", "B", "C", None, false, false)];
    changed[0].complete = true;
    assert!(st.should_save(&text, &changed));
}

#[test]
fn parse_rejects_unterminated_text() {
    let st = storage();
    assert_eq!(st.parse("[[tasks]]"), Err(StorageError::Malformed));
}

#[test]
fn parse_rejects_short_block() {
    let st = storage();
    assert_eq!(st.parse("[[tasks]]\nname = \"A\"\n"), Err(StorageError::Malformed));
}

#[test]
fn parse_rejects_wrong_header() {
    let st = storage();
    let text = "[[items]]\nname = \"A\"\ndescription = \"B\"\nsubject = \"C\"\ntime = \"none\"\ncomplete = false\nstarred = false\n";
    assert_eq!(st.parse(text), Err(StorageError::Malformed));
}

#[test]
fn parse_rejects_bad_flag() {
    let st = storage();
    let text = "[[tasks]]\nname = \"A\"\ndescription = \"B\"\nsubject = \"C\"\ntime = \"none\"\ncomplete = maybe\nstarred = false\n";
    assert_eq!(st.parse(text), Err(StorageError::Malformed));
}

#[test]
fn parse_rejects_bad_deadline() {
    let st = storage();
    let text = "[[tasks]]\nname = \"A\"\ndescription = \"B\"\nsubject = \"C\"\ntime = \"soon\"\ncomplete = false\nstarred = false\n";
    assert_eq!(st.parse(text), Err(StorageError::Malformed));
}

#[test]
fn parse_rejects_out_of_range_deadline() {
    let st = storage();
    let text = "[[tasks]]\nname = \"A\"\ndescription = \"B\"\nsubject = \"C\"\ntime = \"99999999999999999999 0\"\ncomplete = false\nstarred = false\n";
    assert_eq!(st.parse(text), Err(StorageError::Malformed));
    let text2 = "[[tasks]]\nname = \"A\"\ndescription = \"B\"\nsubject = \"C\"\ntime = \"0 86400\"\ncomplete = false\nstarred = false\n";
    assert_eq!(st.parse(text2), Err(StorageError::Malformed));
}

#[test]
fn parse_rejects_lone_backslash() {
    let st = storage();
    let text = "[[tasks]]\nname = \"A\\\"\ndescription = \"B\"\nsubject = \"C\"\ntime = \"none\"\ncomplete = false\nstarred = false\n";
    assert_eq!(st.parse(text), Err(StorageError::Malformed));
}

#[test]
fn parse_accepts_written_escapes() {
    let st = storage();
    let text = "[[tasks]]\nname = \"a\\nb\"\ndescription = \"q\\\"q\"\nsubject = \"s\\\\s\"\ntime = \"none\"\ncomplete = false\nstarred = false\n";
    let tasks = st.parse(text).unwrap();
    assert_eq!(tasks[0].name, "a\nb");
    assert_eq!(tasks[0].description, "q\"q");
    assert_eq!(tasks[0].subject, "s\\s");
}

#[test]
fn task_entry_round_trip() {
    let t = task("N", "D", "S", Some((42, -60)), true, false);
    let entry = TaskEntry::from_task(&t);
    assert_eq!(entry.time.as_deref(), Some("42 -60"));
    let back = entry.to_task().unwrap();
    assert_eq!(back, t);
}

#[test]
fn task_entry_without_deadline() {
    let t = task("N", "D", "S", None, false, true);
    let entry = TaskEntry::from_task(&t);
    assert!(entry.time.is_none());
    let back = entry.to_task().unwrap();
    assert_eq!(back, t);
}

#[test]
fn task_entry_rejects_garbage_time() {
    let entry = TaskEntry {
        name: String::from("N"),
        description: String::from("D"),
        subject: String::from("S"),
        time: Some(String::from("tomorrow")),
        complete: false,
        starred: false,
    };
    assert!(entry.to_task().is_err());
}

#[test]
fn storage_remembers_its_path() {
    let st = TomlStorage::new(String::from("somewhere/tasks.toml"));
    assert_eq!(st.path, "somewhere/tasks.toml");
}
