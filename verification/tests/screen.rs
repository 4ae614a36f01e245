use mdsorto::app::{AppState, CountdownApp};
use mdsorto::display::TextColor;
use mdsorto::terminal::{input_event, stop_step, StopAction, TerminalInput};
use mdsorto::app::{Event, Key};

/// One millisecond, in the library's nanoseconds.
const MS: i64 = 1_000_000;

#[test]
fn timer_color_follows_time_left() {
    let mut app = CountdownApp::new();
    assert_eq!(app.timer_color(), TextColor::Gray);
    app.state = AppState::Running;
    app.time_left = 15_001 * MS;
    assert_eq!(app.timer_color(), TextColor::Green);
    app.time_left = 15_000 * MS;
    assert_eq!(app.timer_color(), TextColor::Yellow);
    app.time_left = 5_001 * MS;
    assert_eq!(app.timer_color(), TextColor::Yellow);
    app.time_left = 5_000 * MS;
    assert_eq!(app.timer_color(), TextColor::Red);
    app.time_left = -3;
    assert_eq!(app.timer_color(), TextColor::Red);
}

#[test]
fn person_color_and_name() {
    let mut app = CountdownApp::new();
    assert_eq!(app.person_color(), TextColor::Blue);
    assert_eq!(app.current_name(), "Prep time");
    app.current_person = 2;
    assert_eq!(app.person_color(), TextColor::Gray);
    assert_eq!(app.current_name(), "Person 2");
}

#[test]
fn people_list_skips_prep_time() {
    let app = CountdownApp::new();
    assert_eq!(app.people_list(), "Person 1 Person 2 Person 3 ");
}

#[test]
fn help_text_words() {
    let mut app = CountdownApp::new();
    let h = app.help_text();
    assert_eq!((h.space_action, h.pause_action, h.back_key, h.back_action), ("start", "unpause", "", ""));
    app.state = AppState::Running;
    app.current_person = 1;
    let h = app.help_text();
    assert_eq!((h.space_action, h.pause_action, h.back_key, h.back_action), ("next", "pause", " : b ", "previous"));
    app.current_person = 3;
    let h = app.help_text();
    assert_eq!(h.space_action, "quit");
}

#[test]
fn terminal_inputs_to_events() {
    assert_eq!(input_event(TerminalInput::Key { key: Key::Char('p'), press: true }), Some(Event::Key(Key::Char('p'))));
    assert_eq!(input_event(TerminalInput::Key { key: Key::Enter, press: false }), None);
    assert_eq!(input_event(TerminalInput::Other), None);
    assert_eq!(input_event(TerminalInput::ReadError), Some(Event::Error));
    assert_eq!(input_event(TerminalInput::Closed), None);
}

#[test]
fn stop_waits_then_aborts_then_gives_up() {
    let mut waits = 0;
    let mut actions = Vec::new();
    loop {
        let (w, action) = stop_step(waits);
        waits = w;
        actions.push(action);
        if action == StopAction::AbortAndGiveUp {
            break;
        }
    }
    assert_eq!(waits, 11);
    assert_eq!(&actions[..5], &[StopAction::Wait; 5]);
    assert_eq!(&actions[5..10], &[StopAction::Abort; 5]);
    assert_eq!(actions[10], StopAction::AbortAndGiveUp);
}
