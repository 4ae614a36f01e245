//! What the screen shows: the time left, colours, the list of people and the help line.

use vstd::prelude::*;

use crate::app::{AppState, AppView, CountdownApp};
use crate::names::string_views;

verus! {

/// At or below this much time left, in nanoseconds, the timer turns yellow.
pub const COLOR_YELLOW_THRESHOLD: i64 = 15_000_000_000;

/// At or below this much time left, in nanoseconds, the timer turns red.
pub const COLOR_RED_THRESHOLD: i64 = 5_000_000_000;

/// Colours of the screen's text.
#[derive(PartialEq, Eq, Structural, Debug, Clone, Copy)]
pub enum TextColor {
    Gray,
    Blue,
    Green,
    Yellow,
    Red,
}

pub open spec fn digit_char(d: nat) -> char {
    (48 + d) as char
}

/// Decimal digits of `n`, without leading zeros.
pub open spec fn decimal(n: nat) -> Seq<char>
    decreases n,
{
    if n < 10 {
        seq![digit_char(n)]
    } else {
        decimal(n / 10).push(digit_char(n % 10))
    }
}

/// At least two digits: a `0` in front of a single one.
pub open spec fn pad2(s: Seq<char>) -> Seq<char> {
    if s.len() < 2 {
        seq!['0'] + s
    } else {
        s
    }
}

/// `n`, or the largest `u32` where `n` is larger.
pub open spec fn cap_u32(n: int) -> nat {
    if n < 0 {
        0
    } else if n > u32::MAX {
        u32::MAX as nat
    } else {
        n as nat
    }
}

/// Whole seconds in `t` nanoseconds, none where `t` is negative, at most `u32::MAX`.
pub open spec fn whole_seconds(t: i64) -> nat {
    if t < 0 {
        0
    } else {
        cap_u32(t / 1_000_000_000)
    }
}

/// Whole tenths of a second in `t` nanoseconds, none where `t` is negative, at most
/// `u32::MAX`.
pub open spec fn whole_tenths(t: i64) -> nat {
    if t < 0 {
        0
    } else {
        cap_u32(t / 100_000_000)
    }
}

/// `mm:ss.t`: minutes and seconds with at least two digits each, and the tenth of a second.
pub open spec fn time_text(t: i64) -> Seq<char> {
    pad2(decimal(whole_seconds(t) / 60)) + seq![':'] + pad2(decimal(whole_seconds(t) % 60))
        + seq!['.'] + decimal(whole_tenths(t) % 10)
}

/// Each name followed by a space.
pub open spec fn spaced(names: Seq<Seq<char>>) -> Seq<char>
    decreases names.len(),
{
    if names.len() == 0 {
        Seq::empty()
    } else {
        spaced(names.drop_last()) + names.last() + seq![' ']
    }
}

/// Green with more than fifteen seconds left, yellow with more than five, else red, while
/// the countdown runs; gray when it does not.
pub open spec fn timer_color_of(v: AppView) -> TextColor {
    if v.state == AppState::Running {
        if v.time_left > COLOR_YELLOW_THRESHOLD {
            TextColor::Green
        } else if v.time_left > COLOR_RED_THRESHOLD {
            TextColor::Yellow
        } else {
            TextColor::Red
        }
    } else {
        TextColor::Gray
    }
}

/// The preparation time shows in blue, a speaker's name in gray.
pub open spec fn person_color_of(v: AppView) -> TextColor {
    if v.current_person == 0 {
        TextColor::Blue
    } else {
        TextColor::Gray
    }
}

/// The words of the help line that depend on the meeting.
pub struct HelpText {
    /// What space does: `start`, `next`, or `quit` on the last entry.
    pub space_action: &'static str,
    /// What `p` does: `pause` or `unpause`.
    pub pause_action: &'static str,
    /// ` : b ` where there is an entry to go back to, else empty.
    pub back_key: &'static str,
    /// `previous` where there is an entry to go back to, else empty.
    pub back_action: &'static str,
}

fn digit_str(d: u32) -> (r: &'static str)
    requires
        d < 10,
    ensures
        r@ == seq![digit_char(d as nat)],
{
    proof {
        reveal_strlit("0");
        reveal_strlit("1");
        reveal_strlit("2");
        reveal_strlit("3");
        reveal_strlit("4");
        reveal_strlit("5");
        reveal_strlit("6");
        reveal_strlit("7");
        reveal_strlit("8");
        reveal_strlit("9");
    }
    let r = if d == 0 {
        "0"
    } else if d == 1 {
        "1"
    } else if d == 2 {
        "2"
    } else if d == 3 {
        "3"
    } else if d == 4 {
        "4"
    } else if d == 5 {
        "5"
    } else if d == 6 {
        "6"
    } else if d == 7 {
        "7"
    } else if d == 8 {
        "8"
    } else {
        "9"
    };
    proof {
        assert(r@ =~= seq![digit_char(d as nat)]);
    }
    r
}

/// Appends the decimal digits of `n`.
fn push_decimal(out: &mut String, n: u32)
    ensures
        final(out)@ == old(out)@ + decimal(n as nat),
    decreases n,
{
    if n >= 10 {
        push_decimal(out, n / 10);
    }
    out.append(digit_str(n % 10));
    proof {
        if n >= 10 {
            assert(old(out)@ + decimal((n / 10) as nat) + seq![digit_char((n % 10) as nat)]
                =~= old(out)@ + decimal(n as nat));
        } else {
            assert(old(out)@ + seq![digit_char((n % 10) as nat)] =~= old(out)@ + decimal(n as nat));
        }
    }
}

/// Appends the decimal digits of `n`, with a `0` in front of a single one.
fn push_decimal2(out: &mut String, n: u32)
    ensures
        final(out)@ == old(out)@ + pad2(decimal(n as nat)),
{
    if n < 10 {
        out.append(digit_str(0));
        proof {
            reveal_with_fuel(decimal, 1);
        }
    }
    let ghost mid = out@;
    push_decimal(out, n);
    proof {
        if n < 10 {
            assert(decimal(n as nat).len() == 1);
            assert(old(out)@ + pad2(decimal(n as nat)) =~= mid + decimal(n as nat));
        } else {
            lemma_decimal_len(n as nat);
            assert(old(out)@ + pad2(decimal(n as nat)) =~= mid + decimal(n as nat));
        }
    }
}

proof fn lemma_decimal_len(n: nat)
    requires
        n >= 10,
    ensures
        decimal(n).len() >= 2,
    decreases n,
{
    if n / 10 >= 10 {
        lemma_decimal_len(n / 10);
    } else {
        assert(decimal(n / 10).len() == 1);
    }
    assert(decimal(n) == decimal(n / 10).push(digit_char(n % 10)));
}

impl CountdownApp {
    /// The time left as `mm:ss.t`.
    pub fn format_timeleft(&self) -> (s: String)
        ensures
            s@ == time_text(self.time_left),
    {
        let t = self.time_left;
        let secs: u32 = if t < 0 {
            0
        } else if t / 1_000_000_000 > 0xffff_ffff {
            0xffff_ffff
        } else {
            (t / 1_000_000_000) as u32
        };
        let tenths: u32 = if t < 0 {
            0
        } else if t / 100_000_000 > 0xffff_ffff {
            0xffff_ffff
        } else {
            (t / 100_000_000) as u32
        };
        let mut s = String::new();
        push_decimal2(&mut s, secs / 60);
        s.append(":");
        push_decimal2(&mut s, secs % 60);
        s.append(".");
        push_decimal(&mut s, tenths % 10);
        proof {
            reveal_strlit(":");
            reveal_strlit(".");
            assert(secs == whole_seconds(t));
            assert(tenths == whole_tenths(t));
            assert(s@ =~= time_text(t));
        }
        s
    }

    pub fn timer_color(&self) -> (c: TextColor)
        ensures
            c == timer_color_of(self@),
    {
        if self.state.is_running() {
            if self.time_left > COLOR_YELLOW_THRESHOLD {
                TextColor::Green
            } else if self.time_left > COLOR_RED_THRESHOLD {
                TextColor::Yellow
            } else {
                TextColor::Red
            }
        } else {
            TextColor::Gray
        }
    }

    pub fn person_color(&self) -> (c: TextColor)
        ensures
            c == person_color_of(self@),
    {
        if self.current_person == 0 {
            TextColor::Blue
        } else {
            TextColor::Gray
        }
    }

    /// The name of the current entry.
    pub fn current_name(&self) -> (name: &String)
        requires
            self.current_person < self.people@.len(),
        ensures
            name@ == self@.people[self.current_person as int],
    {
        &self.people[self.current_person as usize]
    }

    /// The speakers, each followed by a space.
    pub fn people_list(&self) -> (s: String)
        requires
            self.people@.len() >= 1,
        ensures
            s@ == spaced(self@.people.skip(1)),
    {
        let mut s = String::new();
        let n = self.people.len();
        let mut i: usize = 1;
        proof {
            assert(self@.people.skip(1).take(0) =~= Seq::<Seq<char>>::empty());
        }
        while i < n
            invariant
                1 <= i <= n,
                n == self.people@.len(),
                s@ == spaced(self@.people.skip(1).take(i - 1)),
            decreases n - i,
        {
            let ghost before = s@;
            s.append(self.people[i].as_str());
            s.append(" ");
            proof {
                reveal_strlit(" ");
                let ns = self@.people.skip(1).take(i as int);
                assert(ns.drop_last() =~= self@.people.skip(1).take(i - 1));
                assert(ns.last() == self.people@[i as int]@);
                assert(s@ =~= spaced(ns));
            }
            i = i + 1;
        }
        proof {
            assert(self@.people.skip(1).take(n - 1) =~= self@.people.skip(1));
        }
        s
    }

    /// The words of the help line.
    pub fn help_text(&self) -> (h: HelpText)
        requires
            self.current_person < u32::MAX,
        ensures
            h.space_action@ == (if self.current_person + 1 == (self.people@.len() as u32) {
                "quit"@
            } else if self.state == AppState::Running {
                "next"@
            } else {
                "start"@
            }),
            h.pause_action@ == (if self.state == AppState::Paused {
                "unpause"@
            } else {
                "pause"@
            }),
            h.back_key@ == (if self.current_person == 0 {
                ""@
            } else {
                " : b "@
            }),
            h.back_action@ == (if self.current_person == 0 {
                ""@
            } else {
                "previous"@
            }),
    {
        let mut space_action = if self.state.is_running() {
            "next"
        } else {
            "start"
        };
        if (self.current_person + 1) == self.people.len() as u32 {
            space_action = "quit"
        };
        let pause_action = if self.state.is_paused() {
            "unpause"
        } else {
            "pause"
        };
        let back_key = if self.current_person == 0 {
            ""
        } else {
            " : b "
        };
        let back_action = if self.current_person == 0 {
            ""
        } else {
            "previous"
        };
        HelpText { space_action, pause_action, back_key, back_action }
    }
}

} // verus!
