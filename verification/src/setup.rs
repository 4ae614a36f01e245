//! Setting a meeting up: the settings of the configuration file and the speaking order.

use vstd::prelude::*;

use crate::app::{AppView, CountdownApp, DEFAULT_PREP_TIME, DEFAULT_TIME_EACH, PREP_TIME_STR};
use crate::names::{people_names, split_names, string_views, MAX_PEOPLE};
use crate::shuffle::{shuffle_from, thread_rng};
use crate::time_config::{parse_time_config, time_config_of, TimeConfig};

verus! {

/// The settings of the `mdsorto` section of the configuration file, each where it is given.
pub struct ConfigSection {
    /// Seconds for each speaker.
    pub timeeach: Option<String>,
    /// Seconds to prepare.
    pub preptime: Option<String>,
    /// Names, separated by commas.
    pub people: Option<String>,
}

/// The time a setting gives, or `default`.
pub open spec fn config_time(s: Seq<char>, default: i64) -> i64 {
    match time_config_of(s) {
        TimeConfig::Valid(ns) => ns,
        _ => default,
    }
}

/// The two speakers a meeting gets when it has none.
pub open spec fn default_speakers() -> Seq<Seq<char>> {
    seq!["Person 1"@, "Person 2"@]
}

pub open spec fn with_time_each(v: AppView, timeeach: Option<Seq<char>>) -> AppView {
    match timeeach {
        Some(s) => {
            let t = config_time(s, DEFAULT_TIME_EACH);
            AppView { time_each: t, time_left: t, ..v }
        },
        None => v,
    }
}

pub open spec fn with_prep_time(v: AppView, preptime: Option<Seq<char>>) -> AppView {
    match preptime {
        Some(s) => {
            let t = config_time(s, DEFAULT_PREP_TIME);
            AppView { prep_time: t, time_left: t, ..v }
        },
        None => v,
    }
}

pub open spec fn with_people(v: AppView, people: Option<Seq<char>>) -> AppView {
    match people {
        Some(s) => AppView { people: seq![PREP_TIME_STR@] + people_names(s), ..v },
        None => v,
    }
}

/// Two speakers for a meeting that has none.
pub open spec fn with_some_speakers(v: AppView) -> AppView {
    if v.people.len() <= 1 {
        let first = if v.people.len() == 0 {
            seq![PREP_TIME_STR@]
        } else {
            v.people
        };
        AppView { people: first + default_speakers(), ..v }
    } else {
        v
    }
}

/// A meeting set up by a configuration section. The time for each speaker, then the time to
/// prepare, each also becomes the time left; a list of people replaces the entries after the
/// preparation time; a meeting left with no speaker gets two.
pub open spec fn configured(
    v: AppView,
    timeeach: Option<Seq<char>>,
    preptime: Option<Seq<char>>,
    people: Option<Seq<char>>,
) -> AppView {
    with_some_speakers(with_people(with_prep_time(with_time_each(v, timeeach), preptime), people))
}

pub open spec fn opt_view(o: Option<String>) -> Option<Seq<char>> {
    match o {
        Some(s) => Some(s@),
        None => None,
    }
}

impl CountdownApp {
    /// Takes the settings of a configuration section.
    pub fn apply_config(&mut self, section: &ConfigSection)
        ensures
            final(self)@ == configured(
                old(self)@,
                opt_view(section.timeeach),
                opt_view(section.preptime),
                opt_view(section.people),
            ),
    {
        let ghost v1 = with_time_each(self@, opt_view(section.timeeach));
        let ghost v2 = with_prep_time(v1, opt_view(section.preptime));
        let ghost v3 = with_people(v2, opt_view(section.people));
        if let Some(val) = &section.timeeach {
            self.time_each = parse_time_config(val.as_str(), DEFAULT_TIME_EACH);
            self.time_left = self.time_each;
        }
        assert(self@ =~= v1);
        if let Some(val) = &section.preptime {
            self.prep_time = parse_time_config(val.as_str(), DEFAULT_PREP_TIME);
            self.time_left = self.prep_time;
        }
        assert(self@ =~= v2);
        if let Some(val) = &section.people {
            let mut people: Vec<String> = Vec::new();
            people.push(String::from_str(PREP_TIME_STR));
            let names = split_names(val.as_str());
            let mut i: usize = 0;
            while i < names.len()
                invariant
                    i <= names@.len(),
                    string_views(people@) == seq![PREP_TIME_STR@] + string_views(
                        names@.take(i as int),
                    ),
                decreases names@.len() - i,
            {
                let ghost before = people@;
                people.push(names[i].clone());
                proof {
                    assert(names@.take(i + 1) =~= names@.take(i as int).push(names@[i as int]));
                    assert(string_views(people@) =~= string_views(before).push(names@[i as int]@));
                    assert(string_views(names@.take(i + 1)) =~= string_views(names@.take(i as int)).push(
                        names@[i as int]@,
                    ));
                }
                i = i + 1;
            }
            proof {
                assert(names@.take(names@.len() as int) =~= names@);
                assert(string_views(people@) =~= seq![PREP_TIME_STR@] + people_names(val@));
            }
            self.people = people;
        }
        assert(self@ =~= v3);
        if self.people.len() <= 1 {
            let ghost before = string_views(self.people@);
            if self.people.len() == 0 {
                self.people.push(String::from_str(PREP_TIME_STR));
            }
            self.people.push(String::from_str("Person 1"));
            self.people.push(String::from_str("Person 2"));
            proof {
                let first = if before.len() == 0 {
                    seq![PREP_TIME_STR@]
                } else {
                    before
                };
                assert(string_views(self.people@) =~= first + default_speakers());
            }
        }
        assert(self@ =~= with_some_speakers(v3));
    }

    /// Puts the speakers in a random order; the preparation time stays first.
    pub fn shuffle_people(&mut self)
        requires
            old(self).people@.len() >= 1,
        ensures
            final(self).people@.len() == old(self).people@.len(),
            final(self).people@[0] == old(self).people@[0],
            final(self).people@.skip(1).to_multiset() == old(self).people@.skip(1).to_multiset(),
            final(self).state == old(self).state,
            final(self).current_person == old(self).current_person,
            final(self).last_tick_time == old(self).last_tick_time,
            final(self).prep_time == old(self).prep_time,
            final(self).time_each == old(self).time_each,
            final(self).time_left == old(self).time_left,
    {
        let mut rng = thread_rng();
        shuffle_from(&mut self.people, 1, &mut rng);
        proof {
            assert(old(self).people@[0] == old(self).people@.take(1)[0]);
            assert(self.people@[0] == self.people@.take(1)[0]);
        }
    }
}

} // verus!
