//! The meeting: who speaks, how much time is left, and how each message changes that.

use vstd::prelude::*;

use crate::names::string_views;

verus! {

/// Name of the first entry of the list, the time to prepare before the first speaker.
pub const PREP_TIME_STR: &'static str = "Prep time";

/// Default time for each speaker, in nanoseconds.
pub const DEFAULT_TIME_EACH: i64 = 60_200_000_000;

/// Default time to prepare, in nanoseconds.
pub const DEFAULT_PREP_TIME: i64 = 30_200_000_000;

/// Least time that taking time away leaves, in nanoseconds.
pub const MIN_TIME_LEFT: i64 = 10_000_000;

/// Time that `+` adds and `-` takes away, in nanoseconds.
pub const TIME_ADJUSTMENT: i64 = 10_000_000_000;

/// Whether the countdown runs.
#[derive(PartialEq, Eq, Structural, Debug, Clone, Copy)]
pub enum AppState {
    Paused,
    Running,
    Quitting,
}

impl Default for AppState {
    fn default() -> (r: Self)
        ensures
            r == AppState::Paused,
    {
        AppState::Paused
    }
}

impl AppState {
    pub fn is_paused(&self) -> (b: bool)
        ensures
            b == (*self == AppState::Paused),
    {
        matches!(self, AppState::Paused)
    }

    pub fn is_running(&self) -> (b: bool)
        ensures
            b == (*self == AppState::Running),
    {
        matches!(self, AppState::Running)
    }

    pub fn is_quitting(&self) -> (b: bool)
        ensures
            b == (*self == AppState::Quitting),
    {
        matches!(self, AppState::Quitting)
    }
}

/// What the user or the clock asks for.
#[derive(PartialEq, Eq, Structural, Debug, Clone, Copy)]
pub enum Message {
    StartOrNext,
    Pause,
    Restart,
    Back,
    Extra10,
    Lose10,
    Tick,
    Quit,
}

/// A key that was pressed.
#[derive(PartialEq, Eq, Structural, Debug, Clone, Copy)]
pub enum Key {
    Char(char),
    Enter,
    Esc,
    /// Any other key.
    Other,
}

/// What the terminal reports.
#[derive(PartialEq, Eq, Structural, Debug, Clone, Copy)]
pub enum Event {
    Error,
    Tick,
    Key(Key),
}

/// The meeting. Times are in nanoseconds; `last_tick_time` is read on a clock of the
/// caller's, in nanoseconds.
#[derive(Debug)]
pub struct CountdownApp {
    pub state: AppState,
    /// `people[0]` is the preparation time, the others are the speakers in order.
    pub people: Vec<String>,
    pub current_person: u32,
    pub last_tick_time: u64,
    pub prep_time: i64,
    pub time_each: i64,
    pub time_left: i64,
}

/// A meeting as mathematical values.
#[verifier::ext_equal]
pub struct AppView {
    pub state: AppState,
    pub people: Seq<Seq<char>>,
    pub current_person: u32,
    pub last_tick_time: u64,
    pub prep_time: i64,
    pub time_each: i64,
    pub time_left: i64,
}

impl View for CountdownApp {
    type V = AppView;

    open spec fn view(&self) -> AppView {
        AppView {
            state: self.state,
            people: string_views(self.people@),
            current_person: self.current_person,
            last_tick_time: self.last_tick_time,
            prep_time: self.prep_time,
            time_each: self.time_each,
            time_left: self.time_left,
        }
    }
}

/// The meeting as it starts: paused on the preparation time, with the time to prepare left,
/// and three speakers.
pub open spec fn initial_view() -> AppView {
    AppView {
        state: AppState::Paused,
        people: seq![PREP_TIME_STR@, "Person 1"@, "Person 2"@, "Person 3"@],
        current_person: 0,
        last_tick_time: 0,
        prep_time: DEFAULT_PREP_TIME,
        time_each: DEFAULT_TIME_EACH,
        time_left: DEFAULT_PREP_TIME,
    }
}

pub open spec fn pause_spec(v: AppView) -> AppView {
    AppView { state: AppState::Paused, ..v }
}

pub open spec fn unpause_spec(v: AppView) -> AppView {
    AppView { state: AppState::Running, ..v }
}

pub open spec fn quit_spec(v: AppView) -> AppView {
    AppView { state: AppState::Quitting, ..v }
}

pub open spec fn pausetoggle_spec(v: AppView) -> AppView {
    if v.state == AppState::Paused {
        unpause_spec(v)
    } else {
        pause_spec(v)
    }
}

/// Back to the previous entry, with its full time; nothing before the first one.
pub open spec fn back_spec(v: AppView) -> AppView {
    if v.current_person == 0 {
        v
    } else {
        let c = (v.current_person - 1) as u32;
        AppView {
            current_person: c,
            time_left: if c == 0 {
                v.prep_time
            } else {
                v.time_each
            },
            ..v
        }
    }
}

/// `t + d`, or the largest `i64` where that is larger.
pub open spec fn add_capped(t: i64, d: int) -> i64 {
    if t + d > i64::MAX {
        i64::MAX
    } else {
        (t + d) as i64
    }
}

pub open spec fn extra10_spec(v: AppView) -> AppView {
    AppView { time_left: add_capped(v.time_left, TIME_ADJUSTMENT as int), ..v }
}

/// Ten seconds less, but never less than `MIN_TIME_LEFT`.
pub open spec fn lose10_spec(v: AppView) -> AppView {
    AppView {
        time_left: if v.time_left - TIME_ADJUSTMENT < MIN_TIME_LEFT {
            MIN_TIME_LEFT
        } else {
            (v.time_left - TIME_ADJUSTMENT) as i64
        },
        ..v
    }
}

pub open spec fn restart_spec(v: AppView) -> AppView {
    AppView { time_left: v.time_each, ..v }
}

/// On to the next entry with the full time of a speaker, or, after the last one, quitting.
pub open spec fn next_person_spec(v: AppView) -> AppView {
    let c = (v.current_person + 1) as u32;
    if c < (v.people.len() as u32) {
        AppView { current_person: c, time_left: v.time_each, ..v }
    } else {
        AppView { current_person: c, state: AppState::Quitting, ..v }
    }
}

/// `t - d`, or the smallest `i64` where that is smaller.
pub open spec fn sub_capped(t: i64, d: int) -> i64 {
    if t - d < i64::MIN {
        i64::MIN
    } else {
        (t - d) as i64
    }
}

/// The time left once the clock reads `now`: unless paused, less the time since the last
/// reading (none where the clock went back).
pub open spec fn ticked_time(v: AppView, now: u64) -> i64 {
    let dur: int = if now >= v.last_tick_time {
        now - v.last_tick_time
    } else {
        0
    };
    if v.state != AppState::Paused {
        sub_capped(v.time_left, dur)
    } else {
        v.time_left
    }
}

/// The clock reads `now`: unless paused, the time since the last reading is taken off; where
/// no time is left, on to the next entry.
pub open spec fn tick_spec(v: AppView, now: u64) -> AppView {
    let t = ticked_time(v, now);
    let w = AppView { last_tick_time: now, time_left: t, ..v };
    if t <= 0 {
        next_person_spec(w)
    } else {
        w
    }
}

/// Whether a message moves on to the next entry: start-or-next while running, or a tick that
/// leaves no time.
pub open spec fn message_moves_on(v: AppView, message: Message, now: u64) -> bool {
    match message {
        Message::StartOrNext => v.state == AppState::Running,
        Message::Tick => ticked_time(v, now) <= 0,
        _ => false,
    }
}

/// Paused: start, counting from `now`. Running: on to the next entry. Quitting: nothing.
pub open spec fn start_or_next_spec(v: AppView, now: u64) -> AppView {
    if v.state == AppState::Paused {
        AppView { state: AppState::Running, last_tick_time: now, ..v }
    } else if v.state == AppState::Running {
        next_person_spec(v)
    } else {
        v
    }
}

pub open spec fn update_spec(v: AppView, message: Message, now: u64) -> AppView {
    match message {
        Message::StartOrNext => start_or_next_spec(v, now),
        Message::Pause => pausetoggle_spec(v),
        Message::Back => back_spec(v),
        Message::Extra10 => extra10_spec(v),
        Message::Lose10 => lose10_spec(v),
        Message::Restart => restart_spec(v),
        Message::Tick => tick_spec(v, now),
        Message::Quit => quit_spec(v),
    }
}

/// The message for a key: `q`, `Q` or Esc quit; `p` or `P` pause and unpause; space or
/// Enter start or move on; `b` or `B` go back; `r` or `R` restart; `+` or `=` add ten
/// seconds; `-`, `_`, `x` or `X` take ten seconds away. Everything else is a tick.
pub open spec fn message_for(event: Event) -> Message {
    match event {
        Event::Key(key) => match key {
            Key::Esc => Message::Quit,
            Key::Enter => Message::StartOrNext,
            Key::Char(c) => if c == 'q' || c == 'Q' {
                Message::Quit
            } else if c == 'p' || c == 'P' {
                Message::Pause
            } else if c == ' ' {
                Message::StartOrNext
            } else if c == 'b' || c == 'B' {
                Message::Back
            } else if c == 'r' || c == 'R' {
                Message::Restart
            } else if c == '=' || c == '+' {
                Message::Extra10
            } else if c == '-' || c == '_' || c == 'x' || c == 'X' {
                Message::Lose10
            } else {
                Message::Tick
            },
            Key::Other => Message::Tick,
        },
        _ => Message::Tick,
    }
}


impl CountdownApp {
    /// A meeting paused before the preparation time, with three speakers and the default times.
    pub fn new() -> (app: Self)
        ensures
            app@ == initial_view(),
    {
        let mut people: Vec<String> = Vec::new();
        people.push(String::from_str(PREP_TIME_STR));
        people.push(String::from_str("Person 1"));
        people.push(String::from_str("Person 2"));
        people.push(String::from_str("Person 3"));
        let app = CountdownApp {
            state: AppState::Paused,
            people,
            current_person: 0,
            last_tick_time: 0,
            prep_time: DEFAULT_PREP_TIME,
            time_each: DEFAULT_TIME_EACH,
            time_left: DEFAULT_PREP_TIME,
        };
        proof {
            assert(app@.people =~= initial_view().people);
        }
        app
    }

    /// The message that an event asks for.
    pub fn handle_event(&self, event: Event) -> (m: Message)
        ensures
            m == message_for(event),
    {
        match event {
            Event::Key(key) => match key {
                Key::Esc => Message::Quit,
                Key::Enter => Message::StartOrNext,
                Key::Char(c) => {
                    if c == 'q' || c == 'Q' {
                        Message::Quit
                    } else if c == 'p' || c == 'P' {
                        Message::Pause
                    } else if c == ' ' {
                        Message::StartOrNext
                    } else if c == 'b' || c == 'B' {
                        Message::Back
                    } else if c == 'r' || c == 'R' {
                        Message::Restart
                    } else if c == '=' || c == '+' {
                        Message::Extra10
                    } else if c == '-' || c == '_' || c == 'x' || c == 'X' {
                        Message::Lose10
                    } else {
                        Message::Tick
                    }
                },
                Key::Other => Message::Tick,
            },
            _ => Message::Tick,
        }
    }

    /// Carries out a message; the clock reads `now`.
    pub fn update(&mut self, message: Message, now: u64)
        requires
            message_moves_on(old(self)@, message, now) ==> old(self).current_person < u32::MAX,
        ensures
            final(self)@ == update_spec(old(self)@, message, now),
    {
        match message {
            Message::StartOrNext => self.start_or_next(now),
            Message::Pause => self.pausetoggle(),
            Message::Back => self.back(),
            Message::Extra10 => self.extra10(),
            Message::Lose10 => self.lose10(),
            Message::Restart => self.restart(),
            Message::Tick => self.tick(now),
            Message::Quit => self.quit(),
        }
    }

    /// Whether `message` would move on to the next entry with the clock reading `now`.
    pub fn will_move_on(&self, message: Message, now: u64) -> (b: bool)
        ensures
            b == message_moves_on(self@, message, now),
    {
        match message {
            Message::StartOrNext => self.state.is_running(),
            Message::Tick => {
                let dur: u64 = if now >= self.last_tick_time {
                    now - self.last_tick_time
                } else {
                    0
                };
                let t: i128 = if !self.state.is_paused() {
                    self.time_left as i128 - dur as i128
                } else {
                    self.time_left as i128
                };
                t <= 0
            },
            _ => false,
        }
    }

    pub fn start_or_next(&mut self, now: u64)
        requires
            old(self).state == AppState::Running ==> old(self).current_person < u32::MAX,
        ensures
            final(self)@ == start_or_next_spec(old(self)@, now),
    {
        if self.state.is_paused() {
            self.unpause();
            self.last_tick_time = now;
        } else if self.state.is_running() {
            self.next_person();
        }
    }

    pub fn pausetoggle(&mut self)
        ensures
            final(self)@ == pausetoggle_spec(old(self)@),
    {
        if self.state.is_paused() {
            self.unpause()
        } else {
            self.pause()
        };
    }

    pub fn pause(&mut self)
        ensures
            final(self)@ == pause_spec(old(self)@),
    {
        self.state = AppState::Paused;
    }

    pub fn unpause(&mut self)
        ensures
            final(self)@ == unpause_spec(old(self)@),
    {
        self.state = AppState::Running;
    }

    pub fn back(&mut self)
        ensures
            final(self)@ == back_spec(old(self)@),
    {
        if self.current_person == 0 {
            return ;
        }
        self.current_person -= 1;
        if self.current_person == 0 {
            self.time_left = self.prep_time;
        } else {
            self.time_left = self.time_each;
        }
    }

    pub fn extra10(&mut self)
        ensures
            final(self)@ == extra10_spec(old(self)@),
    {
        if self.time_left > i64::MAX - TIME_ADJUSTMENT {
            self.time_left = i64::MAX;
        } else {
            self.time_left += TIME_ADJUSTMENT;
        }
    }

    pub fn lose10(&mut self)
        ensures
            final(self)@ == lose10_spec(old(self)@),
    {
        if self.time_left < MIN_TIME_LEFT + TIME_ADJUSTMENT {
            self.time_left = MIN_TIME_LEFT;
        } else {
            self.time_left -= TIME_ADJUSTMENT;
        }
    }

    pub fn restart(&mut self)
        ensures
            final(self)@ == restart_spec(old(self)@),
    {
        self.time_left = self.time_each;
    }

    /// The clock reads `now`.
    pub fn tick(&mut self, now: u64)
        requires
            ticked_time(old(self)@, now) <= 0 ==> old(self).current_person < u32::MAX,
        ensures
            final(self)@ == tick_spec(old(self)@, now),
    {
        let dur: u64 = if now >= self.last_tick_time {
            now - self.last_tick_time
        } else {
            0
        };
        self.last_tick_time = now;
        if !self.state.is_paused() {
            if dur > (self.time_left as i128 - i64::MIN as i128) as u64 {
                self.time_left = i64::MIN;
            } else {
                self.time_left = (self.time_left as i128 - dur as i128) as i64;
            }
        }
        if self.time_left <= 0 {
            self.next_person();
        }
    }

    pub fn next_person(&mut self)
        requires
            old(self).current_person < u32::MAX,
        ensures
            final(self)@ == next_person_spec(old(self)@),
    {
        self.current_person += 1;
        let people_count = self.people.len() as u32;
        if self.current_person < people_count {
            self.time_left = self.time_each;
        } else {
            self.quit();
        }
    }

    pub fn quit(&mut self)
        ensures
            final(self)@ == quit_spec(old(self)@),
    {
        self.state = AppState::Quitting;
    }
}

impl Default for CountdownApp {
    fn default() -> (app: Self)
        ensures
            app@ == initial_view(),
    {
        Self::new()
    }
}

} // verus!
