//! Key routing: panes, popups, focus, the delete flow and the exit
//! sequence.

use tasktui::app::{App, AppEffect, CurrentPane};
use tasktui::keys::Key;
use tasktui::panes::{DescriptionEntry, DescriptionPane, TasksPane};
use tasktui::popups::{Popup, PopupAction};
use tasktui::task::{Task, Timestamp};

fn task(name: &str, time: Option<i64>, complete: bool) -> Task {
    Task {
        name: String::from(name),
        description: String::from("d"),
        subject: String::from("s"),
        time: time.map(|secs| Timestamp { secs, offset_secs: 0 }),
        complete,
        starred: false,
    }
}

fn app3() -> App {
    App::new(vec![
        task("a", Some(100), false),
        task("b", None, false),
        task("c", None, true),
    ])
}

#[test]
fn quit_with_clean_store_exits_without_prompt() {
    let mut app = app3();
    let effect = app.handle_key_event(Key::Char('q'), false);
    assert_eq!(effect, AppEffect::Nothing);
    assert!(app.exit);
    assert!(app.current_popup.is_none());
}

#[test]
fn quit_with_dirty_store_always_prompts() {
    let mut app = app3();
    let effect = app.handle_key_event(Key::Char('q'), true);
    assert_eq!(effect, AppEffect::Nothing);
    assert!(!app.exit);
    assert!(matches!(app.current_popup, Some(Popup::ConfirmExitSave)));
}

#[test]
fn exit_prompt_saves_on_confirm() {
    let mut app = app3();
    app.handle_key_event(Key::Char('q'), true);
    let effect = app.handle_key_event(Key::Char('y'), true);
    assert_eq!(effect, AppEffect::Save);
    assert!(app.exit);
    assert!(app.current_popup.is_none());
}

#[test]
fn exit_prompt_enter_also_confirms() {
    let mut app = app3();
    app.handle_key_event(Key::Char('q'), true);
    let effect = app.handle_key_event(Key::Enter, true);
    assert_eq!(effect, AppEffect::Save);
    assert!(app.exit);
}

#[test]
fn exit_prompt_discard_exits_without_saving() {
    let mut app = app3();
    app.handle_key_event(Key::Char('q'), true);
    let effect = app.handle_key_event(Key::Char('n'), true);
    assert_eq!(effect, AppEffect::Nothing);
    assert!(app.exit);
}

#[test]
fn exit_prompt_escape_cancels() {
    let mut app = app3();
    app.handle_key_event(Key::Char('q'), true);
    let effect = app.handle_key_event(Key::Esc, true);
    assert_eq!(effect, AppEffect::Nothing);
    assert!(!app.exit);
    assert!(app.current_popup.is_none());
}

#[test]
fn open_popup_swallows_other_keys() {
    let mut app = app3();
    app.handle_key_event(Key::Char('q'), true);
    let before = app.data.index;
    let effect = app.handle_key_event(Key::Char('j'), true);
    assert_eq!(effect, AppEffect::Nothing);
    assert!(matches!(app.current_popup, Some(Popup::ConfirmExitSave)));
    assert_eq!(app.data.index, before);
    assert!(!app.exit);
}

#[test]
fn deleting_a_default_task_never_prompts() {
    let mut app = App::new(vec![Task::default()]);
    let effect = app.handle_key_event(Key::Char('d'), false);
    assert_eq!(effect, AppEffect::Nothing);
    assert!(app.current_popup.is_none());
    assert_eq!(app.data.tasks.len(), 0);
}

#[test]
fn deleting_an_edited_task_always_prompts() {
    let mut app = app3();
    let effect = app.handle_key_event(Key::Char('d'), false);
    assert_eq!(effect, AppEffect::Nothing);
    assert_eq!(app.data.tasks.len(), 3);
    match &app.current_popup {
        Some(Popup::ConfirmDelete { text }) => {
            assert_eq!(text, "Would you like to remove task \"s: a\"");
        },
        _ => panic!("expected the delete-confirmation popup"),
    }
    // confirm with d: the task goes
    app.handle_key_event(Key::Char('d'), false);
    assert!(app.current_popup.is_none());
    assert_eq!(app.data.tasks.len(), 2);
    assert_eq!(app.data.tasks[0].name, "b");
}

#[test]
fn delete_prompt_escape_keeps_the_task() {
    let mut app = app3();
    app.handle_key_event(Key::Char('d'), false);
    app.handle_key_event(Key::Esc, false);
    assert!(app.current_popup.is_none());
    assert_eq!(app.data.tasks.len(), 3);
}

#[test]
fn focus_switch_drives_description_subfocus() {
    let mut app = app3();
    assert_eq!(app.current_pane, CurrentPane::Left);
    app.handle_key_event(Key::Char('l'), false);
    assert_eq!(app.current_pane, CurrentPane::Right);
    assert_eq!(app.right_pane.current_entry, Some(DescriptionEntry::Header));
    app.handle_key_event(Key::Char('h'), false);
    assert_eq!(app.current_pane, CurrentPane::Left);
    assert_eq!(app.right_pane.current_entry, None);
}

#[test]
fn filter_key_toggles_zen_filter() {
    let mut app = app3();
    assert!(!app.data.filter_zen);
    app.handle_key_event(Key::Char('f'), false);
    assert!(app.data.filter_zen);
    assert_eq!(app.data.len(), 2);
    app.handle_key_event(Key::Char('f'), false);
    assert!(!app.data.filter_zen);
}

#[test]
fn save_and_edit_effects() {
    let mut app = app3();
    assert_eq!(app.handle_key_event(Key::Char('w'), false), AppEffect::Save);
    assert_eq!(app.handle_key_event(Key::Char('e'), false), AppEffect::Edit);
}

#[test]
fn add_key_appends_a_default_task() {
    let mut app = app3();
    app.handle_key_event(Key::Char('p'), false);
    assert_eq!(app.data.tasks.len(), 4);
    assert!(app.data.tasks[3].is_default());
}

#[test]
fn navigation_keys_move_and_wrap() {
    let mut app = app3();
    assert_eq!(app.data.index, Some(0));
    app.handle_key_event(Key::Char('j'), false);
    assert_eq!(app.data.index, Some(1));
    app.handle_key_event(Key::Char('j'), false);
    assert_eq!(app.data.index, Some(2));
    app.handle_key_event(Key::Char('j'), false);
    assert_eq!(app.data.index, Some(0));
    app.handle_key_event(Key::Char('k'), false);
    assert_eq!(app.data.index, Some(2));
    app.handle_key_event(Key::Char('g'), false);
    assert_eq!(app.data.index, Some(0));
    app.handle_key_event(Key::Char('G'), false);
    assert_eq!(app.data.index, Some(2));
}

#[test]
fn number_column_key_toggles() {
    let mut app = app3();
    assert!(!app.left_pane.show_numbers);
    app.handle_key_event(Key::Char('i'), false);
    assert!(app.left_pane.show_numbers);
    app.handle_key_event(Key::Char('i'), false);
    assert!(!app.left_pane.show_numbers);
}

#[test]
fn completion_and_star_keys_hit_selection() {
    let mut app = app3();
    app.handle_key_event(Key::Char('j'), false);
    app.handle_key_event(Key::Char('c'), false);
    assert!(app.data.tasks[1].complete);
    app.handle_key_event(Key::Char('s'), false);
    assert!(app.data.tasks[1].starred);
}

#[test]
fn description_pane_cycles_subfocus() {
    let mut pane = DescriptionPane::default();
    assert_eq!(pane.current_entry, None);
    pane.next();
    assert_eq!(pane.current_entry, None);
    pane.enter();
    assert_eq!(pane.current_entry, Some(DescriptionEntry::Header));
    pane.next();
    assert_eq!(pane.current_entry, Some(DescriptionEntry::Deadline));
    pane.next();
    assert_eq!(pane.current_entry, Some(DescriptionEntry::Description));
    pane.next();
    assert_eq!(pane.current_entry, Some(DescriptionEntry::Header));
    pane.previous();
    assert_eq!(pane.current_entry, Some(DescriptionEntry::Description));
    pane.leave();
    assert_eq!(pane.current_entry, None);
}

#[test]
fn tasks_pane_nav_on_empty_view_clears_selection() {
    let mut app = App::new(Vec::new());
    assert_eq!(app.data.index, None);
    app.handle_key_event(Key::Char('j'), false);
    assert_eq!(app.data.index, None);
    app.handle_key_event(Key::Char('G'), false);
    assert_eq!(app.data.index, None);
}

#[test]
fn popup_texts() {
    let p = Popup::ConfirmExitSave;
    assert_eq!(p.title(), " Warning ");
    assert_eq!(p.paragraph(), "You have unsaved progress. Save it?");
    assert_eq!(p.size(), (65, 25));
    let d = Popup::ConfirmDelete { text: String::from("x") };
    assert_eq!(d.paragraph(), "x");
}

#[test]
fn popup_action_values() {
    let mut app = app3();
    let mut data_popup = tasktui::app::Data::new(Vec::new());
    let p = Popup::ConfirmExitSave;
    assert_eq!(p.handle_key_event(Key::Char('y'), &mut data_popup), PopupAction::SaveAndExit);
    assert_eq!(p.handle_key_event(Key::Char('n'), &mut data_popup), PopupAction::Exit);
    assert_eq!(p.handle_key_event(Key::Esc, &mut data_popup), PopupAction::Close);
    assert_eq!(p.handle_key_event(Key::Char('x'), &mut data_popup), PopupAction::Stay);
    let _ = app.handle_key_event(Key::Other, false);
}

#[test]
fn replace_selected_swaps_the_task() {
    let mut app = app3();
    let template = app.selected_task().unwrap();
    assert_eq!(template.name, "a");
    let replacement = task("rewritten", None, false);
    app.replace_selected(replacement);
    assert_eq!(app.data.tasks[0].name, "rewritten");
    assert_eq!(app.data.tasks.len(), 3);
}

#[test]
fn tasks_pane_new_starts_plain() {
    let pane = TasksPane::new();
    assert!(!pane.show_numbers);
}
