//! What holds of the meeting across messages, and of reading its settings.

use vstd::prelude::*;

use crate::app::{
    back_spec, extra10_spec, lose10_spec, next_person_spec, pausetoggle_spec, restart_spec,
    start_or_next_spec, tick_spec, ticked_time,
    update_spec, message_for, message_moves_on, AppState, Event, AppView, Message, DEFAULT_PREP_TIME, DEFAULT_TIME_EACH, MIN_TIME_LEFT,
    PREP_TIME_STR, TIME_ADJUSTMENT,
};
use crate::decimal::{
    digits_value, lemma_pow10_add, lemma_pow10_positive, lemma_pow10_small, ns_floor, ns_in_range, pow10,
};
use crate::display::{decimal, digit_char, timer_color_of, TextColor};
use crate::names::{
    add_name, keep_first, lemma_gather_step, lemma_split_commas_nonempty, non_empty, people_names, split_commas, trim, trim_all,
    MAX_PEOPLE,
};
use crate::setup::{configured, with_people, with_prep_time, with_time_each};
use crate::time_config::{
    digit_of, digit_run_end, digit_seq, is_digit_char, lemma_digit_run_end, lemma_valid_time_in_range,
    parse_decimal, sign_len, time_config_of, TimeConfig, MAX_TIME, MIN_TIME,
};

verus! {

/// Taking ten seconds away never leaves less than `MIN_TIME_LEFT`.
pub proof fn lemma_lose10_keeps_minimum(v: AppView)
    ensures
        lose10_spec(v).time_left >= MIN_TIME_LEFT,
{
}

/// Taking ten seconds away undoes adding them, where the time left was at least
/// `MIN_TIME_LEFT` and adding did not reach the largest `i64`.
pub proof fn lemma_lose10_undoes_extra10(v: AppView)
    requires
        MIN_TIME_LEFT <= v.time_left <= i64::MAX - TIME_ADJUSTMENT,
    ensures
        lose10_spec(extra10_spec(v)) == v,
{
    assert(lose10_spec(extra10_spec(v)) =~= v);
}

/// Adding ten seconds undoes taking them away, where at least `MIN_TIME_LEFT` remained.
pub proof fn lemma_extra10_undoes_lose10(v: AppView)
    requires
        v.time_left >= MIN_TIME_LEFT + TIME_ADJUSTMENT,
    ensures
        extra10_spec(lose10_spec(v)) == v,
{
    assert(extra10_spec(lose10_spec(v)) =~= v);
}

/// Pausing and unpausing twice gives back the meeting, unless it was quitting.
pub proof fn lemma_pausetoggle_twice(v: AppView)
    requires
        v.state != AppState::Quitting,
    ensures
        pausetoggle_spec(pausetoggle_spec(v)) == v,
{
    assert(pausetoggle_spec(pausetoggle_spec(v)) =~= v);
}

/// Going back undoes moving on, where moving on did not end the meeting: the same entry
/// again, with its full time.
pub proof fn lemma_back_undoes_next_person(v: AppView)
    requires
        v.current_person + 1 < (v.people.len() as u32),
    ensures
        back_spec(next_person_spec(v)) == (AppView {
            time_left: if v.current_person == 0 {
                v.prep_time
            } else {
                v.time_each
            },
            ..v
        }),
{
    assert(back_spec(next_person_spec(v)) =~= (AppView {
        time_left: if v.current_person == 0 {
            v.prep_time
        } else {
            v.time_each
        },
        ..v
    }));
}

/// While the meeting runs, every message leaves the current entry one of the list, or ends
/// the meeting: the screen always has a name to show.
pub proof fn lemma_update_keeps_entry_valid(v: AppView, message: Message, now: u64)
    requires
        v.state != AppState::Quitting,
        v.current_person < v.people.len(),
        v.people.len() <= u32::MAX,
    ensures
        ({
            let w = update_spec(v, message, now);
            w.state == AppState::Quitting || w.current_person < w.people.len()
        }),
{
}

/// The meeting after the events `steps` (each with the clock reading when it came), as the
/// program's loop runs it: each event's message is carried out, and events after the
/// meeting quits are not read.
pub open spec fn run_events(v: AppView, steps: Seq<(Event, u64)>) -> AppView
    decreases steps.len(),
{
    if steps.len() == 0 || v.state == AppState::Quitting {
        v
    } else {
        run_events(update_spec(v, message_for(steps[0].0), steps[0].1), steps.drop_first())
    }
}

/// Whenever the loop draws a frame, that is after any number of events while the meeting
/// has not quit, the current entry is one of the list, so it has a name to show; and no
/// message can move the entry past the largest `u32`.
pub proof fn lemma_run_keeps_entry_valid(v: AppView, steps: Seq<(Event, u64)>)
    requires
        v.state == AppState::Quitting || v.current_person < v.people.len(),
        v.people.len() <= u32::MAX,
    ensures
        ({
            let w = run_events(v, steps);
            &&& w.state == AppState::Quitting || w.current_person < w.people.len()
            &&& w.people == v.people
            &&& w.state != AppState::Quitting ==> w.current_person < u32::MAX
        }),
    decreases steps.len(),
{
    if steps.len() > 0 && v.state != AppState::Quitting {
        let m = message_for(steps[0].0);
        lemma_update_keeps_entry_valid(v, m, steps[0].1);
        lemma_update_moves_at_most_one(v, m, steps[0].1);
        lemma_run_keeps_entry_valid(update_spec(v, m, steps[0].1), steps.drop_first());
    }
}

/// Every message moves the current entry by at most one, and keeps the list of people.
pub proof fn lemma_update_moves_at_most_one(v: AppView, message: Message, now: u64)
    requires
        message_moves_on(v, message, now) ==> v.current_person < u32::MAX,
    ensures
        ({
            let w = update_spec(v, message, now);
            &&& v.current_person - 1 <= w.current_person <= v.current_person + 1
            &&& w.people == v.people
        }),
{
}

/// While paused the time left does not run down.
pub proof fn lemma_paused_tick_keeps_time(v: AppView, now: u64)
    requires
        v.state == AppState::Paused,
        v.time_left > 0,
    ensures
        tick_spec(v, now).time_left == v.time_left,
        tick_spec(v, now).current_person == v.current_person,
        tick_spec(v, now).last_tick_time == now,
{
}

/// While running, a tick takes off exactly the time since the last one.
pub proof fn lemma_running_tick_counts_down(v: AppView, now: u64)
    requires
        v.state == AppState::Running,
        now >= v.last_tick_time,
        v.time_left - (now - v.last_tick_time) > 0,
    ensures
        tick_spec(v, now).time_left == v.time_left - (now - v.last_tick_time),
        tick_spec(v, now).current_person == v.current_person,
        tick_spec(v, now).state == AppState::Running,
{
}

pub open spec fn color_rank(c: TextColor) -> int {
    match c {
        TextColor::Green => 1,
        TextColor::Yellow => 2,
        TextColor::Red => 3,
        _ => 0,
    }
}

/// As the time left runs down, the timer goes from green to yellow to red, never back.
pub proof fn lemma_timer_color_monotone(v: AppView, w: AppView)
    requires
        v.state == AppState::Running,
        w.state == AppState::Running,
        w.time_left <= v.time_left,
    ensures
        color_rank(timer_color_of(v)) <= color_rank(timer_color_of(w)),
{
}

/// A configured meeting has at least one speaker after the preparation time; a list of
/// people puts the preparation time first and gives at most `MAX_PEOPLE` speakers; each time
/// setting is the default or between one second and one hour.
pub proof fn lemma_configured(
    v: AppView,
    timeeach: Option<Seq<char>>,
    preptime: Option<Seq<char>>,
    people: Option<Seq<char>>,
)
    ensures
        ({
            let w = configured(v, timeeach, preptime, people);
            &&& w.people.len() >= 2
            &&& people is Some ==> w.people[0] == PREP_TIME_STR@ && w.people.len() <= MAX_PEOPLE
                + 1
            &&& timeeach is Some ==> (w.time_each == DEFAULT_TIME_EACH || MIN_TIME <= w.time_each
                <= MAX_TIME)
            &&& preptime is Some ==> (w.prep_time == DEFAULT_PREP_TIME || MIN_TIME <= w.prep_time
                <= MAX_TIME)
            &&& w.state == v.state
            &&& w.current_person == v.current_person
        }),
{
    if let Some(s) = timeeach {
        lemma_valid_time_in_range(s);
    }
    if let Some(s) = preptime {
        lemma_valid_time_in_range(s);
    }
    let v3 = with_people(with_prep_time(with_time_each(v, timeeach), preptime), people);
    if let Some(s) = people {
        assert(people_names(s).len() <= MAX_PEOPLE);
        assert(v3.people[0] == PREP_TIME_STR@);
    }
}

/// Moving on to an entry of the list gives that entry a speaker's full time, whatever was left
/// before; only the entry changes besides.
pub proof fn lemma_next_person_gives_full_time(v: AppView)
    requires
        v.current_person + 1 < (v.people.len() as u32),
    ensures
        next_person_spec(v).current_person == v.current_person + 1,
        next_person_spec(v).time_left == v.time_each,
        next_person_spec(v).state == v.state,
        next_person_spec(v).people == v.people,
        next_person_spec(v).time_each == v.time_each,
        next_person_spec(v).prep_time == v.prep_time,
{
}

/// Moving on while running, with space or when the time runs out, gives the next speaker
/// a full time.
pub proof fn lemma_moving_on_gives_full_time(v: AppView, now: u64)
    requires
        v.state == AppState::Running,
        v.current_person + 1 < (v.people.len() as u32),
    ensures
        start_or_next_spec(v, now).time_left == v.time_each,
        start_or_next_spec(v, now).current_person == v.current_person + 1,
        ticked_time(v, now) <= 0 ==> tick_spec(v, now).current_person == v.current_person + 1
            && tick_spec(v, now).time_left == v.time_each,
        ticked_time(v, now) > 0 ==> tick_spec(v, now).current_person == v.current_person,
{
}

/// Restarting gives the current entry a speaker's full time, whatever entry it is and whatever
/// was left; nothing else changes, so adding or taking time before a restart makes no
/// difference.
pub proof fn lemma_restart_gives_full_time(v: AppView)
    ensures
        restart_spec(v).time_left == v.time_each,
        restart_spec(v).current_person == v.current_person,
        restart_spec(v).state == v.state,
        restart_spec(v).people == v.people,
        restart_spec(v).last_tick_time == v.last_tick_time,
        restart_spec(extra10_spec(v)) == restart_spec(v),
        restart_spec(lose10_spec(v)) == restart_spec(v),
        restart_spec(restart_spec(v)) == restart_spec(v),
{
    assert(restart_spec(extra10_spec(v)) =~= restart_spec(v));
    assert(restart_spec(lose10_spec(v)) =~= restart_spec(v));
    assert(restart_spec(restart_spec(v)) =~= restart_spec(v));
}

/// Starting a paused meeting only sets it running and restarts the clock at `now`: the entry
/// and the time left stay as they were, so the countdown resumes where it was paused.
pub proof fn lemma_start_resumes(v: AppView, now: u64)
    requires
        v.state == AppState::Paused,
    ensures
        start_or_next_spec(v, now).state == AppState::Running,
        start_or_next_spec(v, now).last_tick_time == now,
        start_or_next_spec(v, now).time_left == v.time_left,
        start_or_next_spec(v, now).current_person == v.current_person,
        start_or_next_spec(v, now).people == v.people,
        start_or_next_spec(v, now).time_each == v.time_each,
        start_or_next_spec(v, now).prep_time == v.prep_time,
{
}

/// Pausing a running meeting and starting it again keeps the time left and the entry.
pub proof fn lemma_pause_then_start_keeps_time(v: AppView, now: u64)
    requires
        v.state == AppState::Running,
    ensures
        start_or_next_spec(pausetoggle_spec(v), now) == (AppView { last_tick_time: now, ..v }),
{
    assert(start_or_next_spec(pausetoggle_spec(v), now) =~= (AppView { last_tick_time: now, ..v }));
}

/// The pieces joined back together, with a comma between each two.
pub open spec fn join_commas(pieces: Seq<Seq<char>>) -> Seq<char>
    decreases pieces.len(),
{
    if pieces.len() == 0 {
        Seq::empty()
    } else if pieces.len() == 1 {
        pieces[0]
    } else {
        join_commas(pieces.drop_last()) + seq![','] + pieces.last()
    }
}

/// Splitting cuts at the commas and nowhere else: no piece holds a comma, and joining the
/// pieces with commas gives back the list exactly, spaces and all.
pub proof fn lemma_split_commas_cuts_at_commas(s: Seq<char>)
    ensures
        join_commas(split_commas(s)) == s,
        forall|i: int|
            0 <= i < split_commas(s).len() ==> !(#[trigger] split_commas(s)[i]).contains(','),
    decreases s.len(),
{
    if s.len() == 0 {
        assert(split_commas(s) =~= seq![Seq::<char>::empty()]);
        assert(join_commas(split_commas(s)) =~= s);
    } else {
        let init = s.drop_last();
        let c = s.last();
        let prev = split_commas(init);
        lemma_split_commas_cuts_at_commas(init);
        lemma_split_commas_nonempty(init);
        let cur = split_commas(s);
        if c == ',' {
            assert(cur == prev.push(Seq::empty()));
            assert(cur.drop_last() =~= prev);
            assert(join_commas(cur) =~= s);
            assert forall|i: int| 0 <= i < cur.len() implies !(#[trigger] cur[i]).contains(',') by {
                if i < prev.len() {
                    assert(cur[i] == prev[i]);
                } else {
                    assert(cur[i] =~= Seq::<char>::empty());
                }
            }
        } else {
            let k = prev.len() - 1;
            let last = prev.last().push(c);
            assert(cur == prev.update(k, last));
            if prev.len() == 1 {
                assert(join_commas(prev) == prev[0]);
                assert(join_commas(cur) == cur[0]);
                assert(join_commas(cur) =~= s);
            } else {
                assert(cur.drop_last() =~= prev.drop_last());
                assert(join_commas(prev) == join_commas(prev.drop_last()) + seq![','] + prev.last());
                assert(join_commas(cur) == join_commas(cur.drop_last()) + seq![','] + cur.last());
                assert(cur.last() == prev.last().push(c));
                assert(join_commas(cur) =~= join_commas(prev).push(c));
                assert(init.push(c) =~= s);
                assert(join_commas(cur) =~= s);
            }
            assert forall|i: int| 0 <= i < cur.len() implies !(#[trigger] cur[i]).contains(',') by {
                if i < k {
                    assert(cur[i] == prev[i]);
                } else {
                    assert(!prev[k].contains(','));
                    if last.contains(',') {
                        let j = choose|j: int| 0 <= j < last.len() && last[j] == ',';
                        if j < prev[k].len() {
                            assert(prev[k][j] == ',');
                        }
                    }
                }
            }
        }
    }
}

/// A list with no comma is a single piece.
pub proof fn lemma_split_without_commas(s: Seq<char>)
    requires
        !s.contains(','),
    ensures
        split_commas(s) == seq![s],
    decreases s.len(),
{
    if s.len() == 0 {
        assert(s =~= Seq::<char>::empty());
        assert(split_commas(s) =~= seq![s]);
    } else {
        let init = s.drop_last();
        assert(!init.contains(',')) by {
            if init.contains(',') {
                let j = choose|j: int| 0 <= j < init.len() && init[j] == ',';
                assert(s[j] == ',');
            }
        }
        lemma_split_without_commas(init);
        assert(s.last() != ',') by {
            assert(s[s.len() - 1] == s.last());
        }
        assert(init.push(s.last()) =~= s);
        assert(split_commas(s) =~= seq![s]);
    }
}

/// A list with no comma names one person, its text without surrounding whitespace, inner
/// spaces kept; or nobody where it is blank.
pub proof fn lemma_names_without_commas(s: Seq<char>)
    requires
        !s.contains(','),
    ensures
        people_names(s) == (if trim(s).len() > 0 {
            seq![trim(s)]
        } else {
            Seq::<Seq<char>>::empty()
        }),
{
    lemma_split_without_commas(s);
    assert(trim_all(seq![s]) =~= seq![trim(s)]);
    let ts = seq![trim(s)];
    assert(ts.drop_last() =~= Seq::<Seq<char>>::empty());
    reveal_with_fuel(Seq::filter, 2);
    if trim(s).len() > 0 {
        assert(non_empty(ts) =~= ts);
    } else {
        assert(non_empty(ts) =~= Seq::<Seq<char>>::empty());
    }
}

/// A comma followed by text without commas adds one last piece, that text.
pub proof fn lemma_split_append_piece(s: Seq<char>, t: Seq<char>)
    requires
        !t.contains(','),
    ensures
        split_commas(s + seq![','] + t) == split_commas(s).push(t),
    decreases t.len(),
{
    if t.len() == 0 {
        assert(s + seq![','] + t =~= s.push(','));
        assert((s.push(',')).drop_last() =~= s);
        assert(t =~= Seq::<char>::empty());
    } else {
        let t0 = t.drop_last();
        assert(!t0.contains(',')) by {
            if t0.contains(',') {
                let j = choose|j: int| 0 <= j < t0.len() && t0[j] == ',';
                assert(t[j] == ',');
            }
        }
        lemma_split_append_piece(s, t0);
        let whole = s + seq![','] + t;
        assert(whole.drop_last() =~= s + seq![','] + t0);
        assert(whole.last() == t.last());
        assert(t.last() != ',') by {
            assert(t[t.len() - 1] == t.last());
        }
        let prev = split_commas(s).push(t0);
        assert(t0.push(t.last()) =~= t);
        assert(prev.update(prev.len() - 1, t0.push(t.last())) =~= split_commas(s).push(t));
    }
}

/// Adding a comma and a piece to a list adds that piece, trimmed, as the last name, unless it
/// is blank or the list is full; the names before stay as they were. So "Ann Lee, Bob" names
/// "Ann Lee" and then "Bob".
pub proof fn lemma_names_append_piece(s: Seq<char>, t: Seq<char>)
    requires
        !t.contains(','),
    ensures
        people_names(s + seq![','] + t) == add_name(people_names(s), trim(t)),
{
    lemma_split_append_piece(s, t);
    lemma_gather_step(split_commas(s), t);
}

/// All characters are decimal digits.
pub open spec fn all_digit_chars(s: Seq<char>) -> bool {
    forall|i: int| 0 <= i < s.len() ==> is_digit_char(#[trigger] s[i])
}

proof fn lemma_digit_run_to_end(s: Seq<char>, i: int)
    requires
        0 <= i <= s.len(),
        all_digit_chars(s),
    ensures
        digit_run_end(s, i) == s.len(),
{
    lemma_digit_run_end(s, i);
}

/// A whole number of seconds, written as digits only (leading zeros allowed), is taken where
/// it lies between 1 and 3600, as that many seconds exactly, however many digits it has; any
/// other whole number is out of range.
pub proof fn lemma_whole_seconds_setting(s: Seq<char>)
    requires
        s.len() > 0,
        all_digit_chars(s),
    ensures
        ({
            let n = digits_value(digit_seq(s));
            time_config_of(s) == if 1 <= n <= 3600 {
                TimeConfig::Valid((n * 1_000_000_000) as i64)
            } else {
                TimeConfig::OutOfRange
            }
        }),
{
    let n = s.len() as int;
    assert(is_digit_char(s[0]));
    assert(sign_len(s, 0) == 0);
    lemma_digit_run_to_end(s, 0);
    lemma_digit_run_to_end(s, n);
    assert(s.subrange(0, n) + s.subrange(n, n) =~= s);
    let lit = parse_decimal(s)->0;
    assert(parse_decimal(s) is Some);
    assert(lit.digits == digit_seq(s));
    assert(lit.frac_len == 0);
    assert(lit.exp_digits =~= Seq::<u8>::empty());
    assert(digits_value(lit.exp_digits) == 0);
    assert(lit.exponent() == 0);
    assert(!lit.negative);
    lemma_pow10_small();
    assert(pow10(9) == 1_000_000_000);
}

proof fn lemma_decimal_digits(k: nat)
    ensures
        all_digit_chars(decimal(k)),
        decimal(k).len() > 0,
        digits_value(digit_seq(decimal(k))) == k,
    decreases k,
{
    let d = k % 10;
    assert((digit_char(d) as u32) == 48 + d);
    assert(digit_of(digit_char(d)) == d);
    if k < 10 {
        let s = decimal(k);
        assert(s == seq![digit_char(k)]);
        assert(digit_seq(s) =~= seq![d as u8]);
        assert(digit_seq(s).drop_last() =~= Seq::<u8>::empty());
        assert(digits_value(Seq::<u8>::empty()) == 0);
        assert(digit_seq(s).last() == d as u8);
        assert(digits_value(digit_seq(s)) == d);
        assert(is_digit_char(s[0]));
        assert forall|i: int| 0 <= i < s.len() implies is_digit_char(#[trigger] s[i]) by {
            assert(i == 0);
        }
    } else {
        lemma_decimal_digits(k / 10);
        let p = decimal(k / 10);
        let s = decimal(k);
        assert(s == p.push(digit_char(d)));
        assert(digit_seq(s) =~= digit_seq(p).push(d as u8));
        assert(digit_seq(s).drop_last() =~= digit_seq(p));
        assert(digit_seq(s).last() == d as u8);
        assert(digits_value(digit_seq(s)) == digits_value(digit_seq(p)) * 10 + d);
        assert((k / 10) * 10 + k % 10 == k);
        assert forall|i: int| 0 <= i < s.len() implies is_digit_char(#[trigger] s[i]) by {
            if i < p.len() {
                assert(s[i] == p[i]);
            }
        }
    }
}

/// Every whole number of seconds from 1 to 3600, written in decimal, is taken as exactly
/// that many seconds.
pub proof fn lemma_every_whole_second_setting(k: nat)
    requires
        1 <= k <= 3600,
    ensures
        time_config_of(decimal(k)) == TimeConfig::Valid((k * 1_000_000_000) as i64),
{
    lemma_decimal_digits(k);
    lemma_whole_seconds_setting(decimal(k));
}

/// Range and rounding of `n / 10^f` seconds, said in plain arithmetic: in range where
/// `10^f <= n <= 3600 * 10^f`, and then `n * 10^9 / 10^f` nanoseconds, rounded down.
proof fn lemma_fraction_scale(n: nat, f: nat)
    ensures
        ns_in_range(n, 9 - f) == (pow10(f) <= n <= 3600 * pow10(f)),
        ns_in_range(n, 9 - f) ==> ns_floor(n, 9 - f) == (n * 1_000_000_000) as int / pow10(f) as int,
{
    lemma_pow10_small();
    lemma_pow10_positive(f);
    if f <= 9 {
        let s = (9 - f) as nat;
        lemma_pow10_add(f, s);
        assert(f + s == 9);
        let p = pow10(f);
        let q = pow10(s);
        lemma_pow10_positive(s);
        assert(p * q == 1_000_000_000);
        assert((1_000_000_000 <= n * q) == (p <= n)) by (nonlinear_arith)
            requires
                p * q == 1_000_000_000,
                q >= 1,
        {
            if n * q >= p * q {
                if n < p {
                    assert(n * q < p * q);
                }
            }
        }
        assert((n * q <= 3_600_000_000_000) == (n <= 3600 * p)) by (nonlinear_arith)
            requires
                p * q == 1_000_000_000,
                q >= 1,
        {
            if n * q <= 3600 * (p * q) {
                if n > 3600 * p {
                    assert(n * q > (3600 * p) * q);
                }
            }
        }
        assert(n * 1_000_000_000 == (n * q) * p) by (nonlinear_arith)
            requires
                p * q == 1_000_000_000,
        ;
        vstd::arithmetic::div_mod::lemma_div_by_multiple((n * q) as int, p as int);
    } else {
        let j = (f - 9) as nat;
        lemma_pow10_add(9, j);
        assert(9 + j == f);
        let q = pow10(j);
        lemma_pow10_positive(j);
        assert(pow10(f) == 1_000_000_000 * q);
        vstd::arithmetic::div_mod::lemma_div_denominator((n * 1_000_000_000) as int, 1_000_000_000, q as int);
        vstd::arithmetic::div_mod::lemma_div_by_multiple(n as int, 1_000_000_000);
        assert((n * 1_000_000_000) as int / 1_000_000_000 == n);
    }
}

/// A number of seconds written with a decimal point, `digits . digits` (either side may be
/// empty, not both), is taken where its value `n / 10^f` (`n` the digits without the point,
/// `f` the digits after it) lies between 1 and 3600, as that value in nanoseconds rounded
/// down, however many digits it is written with; any other such number is out of range.
pub proof fn lemma_decimal_point_setting(a: Seq<char>, b: Seq<char>)
    requires
        all_digit_chars(a),
        all_digit_chars(b),
        a.len() + b.len() > 0,
    ensures
        ({
            let n = digits_value(digit_seq(a + b));
            let f = b.len();
            time_config_of(a + seq!['.'] + b) == if pow10(f) <= n <= 3600 * pow10(f) {
                TimeConfig::Valid(((n * 1_000_000_000) as int / pow10(f) as int) as i64)
            } else {
                TimeConfig::OutOfRange
            }
        }),
{
    let s = a + seq!['.'] + b;
    let la = a.len() as int;
    let n = s.len() as int;
    assert(s[la] == '.');
    assert(!is_digit_char(s[la]));
    if la > 0 {
        assert(s[0] == a[0]);
        assert(is_digit_char(s[0]));
    }
    assert(sign_len(s, 0) == 0);
    // the run of digits before the point ends at the point
    lemma_digit_run_end(s, 0);
    assert(digit_run_end(s, 0) == la) by {
        let e = digit_run_end(s, 0);
        if e < la {
            assert(s[e] == a[e]);
        }
        if e > la {
            assert(is_digit_char(s[la]));
        }
    }
    assert forall|i: int| la + 1 <= i < n implies is_digit_char(#[trigger] s[i]) by {
        assert(s[i] == b[i - la - 1]);
    }
    lemma_digit_run_end(s, la + 1);
    assert(digit_run_end(s, la + 1) == n);
    assert(s.subrange(0, la) =~= a);
    assert(s.subrange(la + 1, n) =~= b);
    let lit = parse_decimal(s)->0;
    assert(parse_decimal(s) is Some);
    assert(lit.digits == digit_seq(a + b));
    assert(lit.frac_len == b.len());
    assert(lit.exp_digits =~= Seq::<u8>::empty());
    assert(digits_value(lit.exp_digits) == 0);
    assert(lit.exponent() == 0);
    assert(!lit.negative);
    lemma_fraction_scale(digits_value(digit_seq(a + b)), b.len());
}

} // verus!
