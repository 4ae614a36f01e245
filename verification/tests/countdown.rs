use mdsorto::app::{
    AppState, CountdownApp, Event, Key, Message, DEFAULT_PREP_TIME, DEFAULT_TIME_EACH,
    MIN_TIME_LEFT, PREP_TIME_STR, TIME_ADJUSTMENT,
};

/// One millisecond, in the library's nanoseconds.
const MS: i64 = 1_000_000;

#[test]
fn test_default_app_creation() {
    let app = CountdownApp::new();
    assert_eq!(app.state, AppState::Paused);
    assert_eq!(app.current_person, 0);
    assert_eq!(app.time_each, DEFAULT_TIME_EACH);
    assert_eq!(app.prep_time, DEFAULT_PREP_TIME);
    assert!(app.people.len() >= 1); // At least prep time entry
}

#[test]
fn test_extra10() {
    let mut app = CountdownApp::new();
    app.time_left = 30_000 * MS;
    app.extra10();
    assert_eq!(app.time_left, 30_000 * MS + TIME_ADJUSTMENT);
}

#[test]
fn test_lose10() {
    let mut app = CountdownApp::new();
    app.time_left = 30_000 * MS;
    app.lose10();
    assert_eq!(app.time_left, 30_000 * MS - TIME_ADJUSTMENT);
}

#[test]
fn test_lose10_minimum() {
    let mut app = CountdownApp::new();
    app.time_left = 5_000 * MS;
    app.lose10(); // 5 - 10 = -5, should clamp to MIN_TIME_LEFT
    assert_eq!(app.time_left, MIN_TIME_LEFT);
}

#[test]
fn test_back_at_start() {
    let mut app = CountdownApp::new();
    app.current_person = 0;
    let initial = app.current_person;
    app.back();
    assert_eq!(app.current_person, initial); // Should not go negative
}

#[test]
fn test_back_from_second_person() {
    let mut app = CountdownApp::new();
    app.current_person = 2;
    app.time_left = 10_000 * MS;
    app.back();
    assert_eq!(app.current_person, 1);
    assert_eq!(app.time_left, app.time_each); // Should reset to time_each
}

#[test]
fn test_back_to_prep_time() {
    let mut app = CountdownApp::new();
    app.current_person = 1;
    app.time_left = 10_000 * MS;
    app.back();
    assert_eq!(app.current_person, 0);
    assert_eq!(app.time_left, app.prep_time); // Should reset to prep_time
}

#[test]
fn test_next_person_advances() {
    let mut app = CountdownApp::new();
    let initial = app.current_person;
    app.next_person();
    assert_eq!(app.current_person, initial + 1);
    assert_eq!(app.time_left, app.time_each);
}

#[test]
fn test_next_person_quits_at_end() {
    let mut app = CountdownApp::new();
    app.current_person = (app.people.len() - 1) as u32;
    app.next_person();
    assert_eq!(app.state, AppState::Quitting);
}

#[test]
fn test_restart() {
    let mut app = CountdownApp::new();
    app.time_left = 10_000 * MS;
    app.restart();
    assert_eq!(app.time_left, app.time_each);
}

#[test]
fn test_pause_unpause() {
    let mut app = CountdownApp::new();
    assert_eq!(app.state, AppState::Paused);

    app.unpause();
    assert_eq!(app.state, AppState::Running);

    app.pause();
    assert_eq!(app.state, AppState::Paused);
}

#[test]
fn test_pausetoggle() {
    let mut app = CountdownApp::new();
    assert_eq!(app.state, AppState::Paused);

    app.pausetoggle();
    assert_eq!(app.state, AppState::Running);

    app.pausetoggle();
    assert_eq!(app.state, AppState::Paused);
}

#[test]
fn test_quit() {
    let mut app = CountdownApp::new();
    app.quit();
    assert_eq!(app.state, AppState::Quitting);
}

#[test]
fn test_start_or_next_when_paused() {
    let mut app = CountdownApp::new();
    assert_eq!(app.state, AppState::Paused);
    app.start_or_next(0);
    assert_eq!(app.state, AppState::Running);
}

#[test]
fn test_start_or_next_when_running() {
    let mut app = CountdownApp::new();
    app.state = AppState::Running;
    let initial_person = app.current_person;
    app.start_or_next(0);
    assert_eq!(app.current_person, initial_person + 1);
}

#[test]
fn test_format_timeleft() {
    let mut app = CountdownApp::new();

    app.time_left = 90_500 * MS;
    assert_eq!(app.format_timeleft(), "01:30.5");

    app.time_left = 125_300 * MS;
    assert_eq!(app.format_timeleft(), "02:05.3");

    app.time_left = 5_700 * MS;
    assert_eq!(app.format_timeleft(), "00:05.7");
}

#[test]
fn new_app_lists_prep_time_and_three_people() {
    let app = CountdownApp::default();
    let names: Vec<&str> = app.people.iter().map(|p| p.as_str()).collect();
    assert_eq!(names, vec![PREP_TIME_STR, "Person 1", "Person 2", "Person 3"]);
    assert_eq!(app.time_left, DEFAULT_PREP_TIME);
    assert_eq!(app.time_left, app.prep_time);
    assert_eq!(app.last_tick_time, 0);
}

#[test]
fn format_timeleft_edges() {
    let mut app = CountdownApp::new();
    app.time_left = -500 * MS;
    assert_eq!(app.format_timeleft(), "00:00.0");
    app.time_left = 0;
    assert_eq!(app.format_timeleft(), "00:00.0");
    app.time_left = 6_000_000 * MS;
    assert_eq!(app.format_timeleft(), "100:00.0");
    app.time_left = 59_999 * MS;
    assert_eq!(app.format_timeleft(), "00:59.9");
    app.time_left = i64::MAX;
    // whole seconds and tenths stop at u32::MAX
    assert_eq!(app.format_timeleft(), "71582788:15.5");
}

#[test]
fn tick_counts_down_while_running() {
    let mut app = CountdownApp::new();
    app.start_or_next(1_000);
    assert_eq!(app.last_tick_time, 1_000);
    app.tick(1_060);
    assert_eq!(app.time_left, DEFAULT_PREP_TIME - 60);
    assert_eq!(app.last_tick_time, 1_060);
    // a clock that went backwards takes nothing off
    app.tick(1_000);
    assert_eq!(app.time_left, DEFAULT_PREP_TIME - 60);
}

#[test]
fn tick_while_paused_keeps_time() {
    let mut app = CountdownApp::new();
    app.tick(50_000);
    assert_eq!(app.time_left, DEFAULT_PREP_TIME);
    assert_eq!(app.last_tick_time, 50_000);
}

#[test]
fn tick_moves_on_when_time_runs_out() {
    let mut app = CountdownApp::new();
    app.start_or_next(0);
    app.tick(DEFAULT_TIME_EACH as u64);
    assert_eq!(app.current_person, 1);
    assert_eq!(app.time_left, DEFAULT_TIME_EACH);
    assert_eq!(app.state, AppState::Running);
}

#[test]
fn tick_past_last_speaker_quits() {
    let mut app = CountdownApp::new();
    app.current_person = 3;
    app.start_or_next(0);
    app.tick(u64::MAX);
    assert_eq!(app.state, AppState::Quitting);
    assert_eq!(app.current_person, 4);
}

#[test]
fn extra10_stops_at_largest_time() {
    let mut app = CountdownApp::new();
    app.time_left = i64::MAX - 5;
    app.extra10();
    assert_eq!(app.time_left, i64::MAX);
}

#[test]
fn lose10_undoes_extra10() {
    let mut app = CountdownApp::new();
    app.time_left = 12_345 * MS;
    app.extra10();
    app.lose10();
    assert_eq!(app.time_left, 12_345 * MS);
}

#[test]
fn back_undoes_next_person() {
    let mut app = CountdownApp::new();
    app.current_person = 1;
    app.next_person();
    app.back();
    assert_eq!(app.current_person, 1);
    assert_eq!(app.time_left, app.time_each);
}

#[test]
fn pausetoggle_from_quitting_pauses() {
    let mut app = CountdownApp::new();
    app.quit();
    app.pausetoggle();
    assert_eq!(app.state, AppState::Paused);
}

#[test]
fn start_or_next_when_quitting_does_nothing() {
    let mut app = CountdownApp::new();
    app.quit();
    app.start_or_next(5);
    assert_eq!(app.state, AppState::Quitting);
    assert_eq!(app.current_person, 0);
    assert_eq!(app.last_tick_time, 0);
}

#[test]
fn handle_event_maps_keys() {
    let app = CountdownApp::new();
    let cases = [
        (Key::Char('q'), Message::Quit),
        (Key::Char('Q'), Message::Quit),
        (Key::Esc, Message::Quit),
        (Key::Char('p'), Message::Pause),
        (Key::Char('P'), Message::Pause),
        (Key::Char(' '), Message::StartOrNext),
        (Key::Enter, Message::StartOrNext),
        (Key::Char('b'), Message::Back),
        (Key::Char('B'), Message::Back),
        (Key::Char('r'), Message::Restart),
        (Key::Char('R'), Message::Restart),
        (Key::Char('='), Message::Extra10),
        (Key::Char('+'), Message::Extra10),
        (Key::Char('-'), Message::Lose10),
        (Key::Char('_'), Message::Lose10),
        (Key::Char('x'), Message::Lose10),
        (Key::Char('X'), Message::Lose10),
        (Key::Char('z'), Message::Tick),
        (Key::Other, Message::Tick),
    ];
    for (key, message) in cases {
        assert_eq!(app.handle_event(Event::Key(key)), message);
    }
    assert_eq!(app.handle_event(Event::Tick), Message::Tick);
    assert_eq!(app.handle_event(Event::Error), Message::Tick);
}

#[test]
fn update_dispatches() {
    let mut app = CountdownApp::new();
    app.update(Message::StartOrNext, 7);
    assert_eq!(app.state, AppState::Running);
    assert_eq!(app.last_tick_time, 7);
    app.update(Message::Extra10, 7);
    assert_eq!(app.time_left, DEFAULT_PREP_TIME + TIME_ADJUSTMENT);
    app.update(Message::Lose10, 7);
    assert_eq!(app.time_left, DEFAULT_PREP_TIME);
    app.update(Message::StartOrNext, 7);
    assert_eq!(app.current_person, 1);
    app.update(Message::Back, 7);
    assert_eq!(app.current_person, 0);
    assert_eq!(app.time_left, DEFAULT_PREP_TIME);
    app.update(Message::Restart, 7);
    assert_eq!(app.time_left, DEFAULT_TIME_EACH);
    app.update(Message::Pause, 7);
    assert_eq!(app.state, AppState::Paused);
    app.update(Message::Tick, 100);
    assert_eq!(app.last_tick_time, 100);
    app.update(Message::Quit, 100);
    assert!(app.state.is_quitting());
}

#[test]
fn app_state_queries() {
    assert_eq!(AppState::default(), AppState::Paused);
    assert!(AppState::Paused.is_paused());
    assert!(AppState::Running.is_running());
    assert!(!AppState::Running.is_paused());
    assert!(AppState::Quitting.is_quitting());
}

#[test]
fn extra10_undoes_lose10() {
    let mut app = CountdownApp::new();
    app.time_left = 25_000 * MS;
    app.lose10();
    app.extra10();
    assert_eq!(app.time_left, 25_000 * MS);
}

#[test]
fn updates_keep_a_name_to_show() {
    let mut app = CountdownApp::new();
    let messages = [
        Message::StartOrNext,
        Message::StartOrNext,
        Message::Back,
        Message::Tick,
        Message::StartOrNext,
        Message::StartOrNext,
        Message::Pause,
        Message::StartOrNext,
        Message::StartOrNext,
        Message::StartOrNext,
    ];
    let mut now = 0;
    for m in messages {
        now += 10;
        app.update(m, now);
        assert!(app.state.is_quitting() || (app.current_person as usize) < app.people.len());
    }
    assert!(app.state.is_quitting());
}

#[test]
fn will_move_on_and_full_counter() {
    let mut app = CountdownApp::new();
    assert!(!app.will_move_on(Message::StartOrNext, 0));
    assert!(!app.will_move_on(Message::Tick, 1_000_000));
    app.start_or_next(0);
    assert!(app.will_move_on(Message::StartOrNext, 0));
    assert!(!app.will_move_on(Message::Tick, 1_000));
    assert!(app.will_move_on(Message::Tick, DEFAULT_PREP_TIME as u64));
    assert!(!app.will_move_on(Message::Back, 0));
    // messages that do not move on are carried out even with a full counter
    app.current_person = u32::MAX;
    app.update(Message::Back, 5);
    assert_eq!(app.current_person, u32::MAX - 1);
    app.current_person = u32::MAX;
    app.update(Message::Tick, 10);
    assert_eq!(app.time_left, DEFAULT_TIME_EACH - 10);
}
