//! Reading the list of people of the configuration file: names separated by commas.

use vstd::prelude::*;

verus! {

/// Most names that the list may hold.
pub const MAX_PEOPLE: usize = 100;

/// Characters with the Unicode `White_Space` property, as `char::is_whitespace` defines them.
pub open spec fn is_whitespace(c: char) -> bool {
    let u = c as u32;
    ||| 9 <= u <= 13
    ||| u == 0x20
    ||| u == 0x85
    ||| u == 0xA0
    ||| u == 0x1680
    ||| 0x2000 <= u <= 0x200A
    ||| u == 0x2028
    ||| u == 0x2029
    ||| u == 0x202F
    ||| u == 0x205F
    ||| u == 0x3000
}

/// Number of whitespace characters at the start.
pub open spec fn ws_prefix_len(s: Seq<char>) -> nat
    decreases s.len(),
{
    if s.len() > 0 && is_whitespace(s[0]) {
        1 + ws_prefix_len(s.drop_first())
    } else {
        0
    }
}

/// Number of whitespace characters at the end.
pub open spec fn ws_suffix_len(s: Seq<char>) -> nat
    decreases s.len(),
{
    if s.len() > 0 && is_whitespace(s.last()) {
        1 + ws_suffix_len(s.drop_last())
    } else {
        0
    }
}

/// `s` without its leading and trailing whitespace, as `str::trim` gives it.
pub open spec fn trim(s: Seq<char>) -> Seq<char> {
    let t = s.skip(ws_prefix_len(s) as int);
    t.take(t.len() - ws_suffix_len(t))
}

/// The pieces of `s` between commas, as `str::split(',')` gives them: one more than there
/// are commas.
pub open spec fn split_commas(s: Seq<char>) -> Seq<Seq<char>>
    decreases s.len(),
{
    if s.len() == 0 {
        seq![Seq::empty()]
    } else {
        let prev = split_commas(s.drop_last());
        if s.last() == ',' {
            prev.push(Seq::empty())
        } else {
            prev.update(prev.len() - 1, prev.last().push(s.last()))
        }
    }
}

pub open spec fn trim_all(fields: Seq<Seq<char>>) -> Seq<Seq<char>> {
    fields.map_values(|f: Seq<char>| trim(f))
}

pub open spec fn non_empty(names: Seq<Seq<char>>) -> Seq<Seq<char>> {
    names.filter(|t: Seq<char>| t.len() > 0)
}

/// The first `MAX_PEOPLE` entries.
pub open spec fn keep_first(names: Seq<Seq<char>>) -> Seq<Seq<char>> {
    if names.len() <= MAX_PEOPLE {
        names
    } else {
        names.take(MAX_PEOPLE as int)
    }
}

/// The names of a list: its comma-separated pieces, trimmed, the empty ones left out, at
/// most `MAX_PEOPLE` of them.
pub open spec fn people_names(s: Seq<char>) -> Seq<Seq<char>> {
    keep_first(non_empty(trim_all(split_commas(s))))
}

/// What adding the piece `t` to the names gathered so far gives.
pub open spec fn add_name(names: Seq<Seq<char>>, t: Seq<char>) -> Seq<Seq<char>> {
    if t.len() > 0 && names.len() < MAX_PEOPLE {
        names.push(t)
    } else {
        names
    }
}

pub open spec fn string_views(v: Seq<String>) -> Seq<Seq<char>> {
    v.map_values(|x: String| x@)
}

pub proof fn lemma_split_commas_nonempty(s: Seq<char>)
    ensures
        split_commas(s).len() >= 1,
    decreases s.len(),
{
    if s.len() > 0 {
        lemma_split_commas_nonempty(s.drop_last());
    }
}

pub proof fn lemma_gather_step(done: Seq<Seq<char>>, f: Seq<char>)
    ensures
        keep_first(non_empty(trim_all(done.push(f)))) == add_name(
            keep_first(non_empty(trim_all(done))),
            trim(f),
        ),
{
    broadcast use Seq::lemma_filter_push;

    let ts = trim_all(done);
    assert(trim_all(done.push(f)) =~= ts.push(trim(f)));
    let pred = |t: Seq<char>| t.len() > 0;
    ts.lemma_filter_push(trim(f), pred);
    let g = non_empty(ts);
    let t = trim(f);
    if t.len() > 0 {
        assert(non_empty(ts.push(t)) == g.push(t));
        if g.len() >= MAX_PEOPLE {
            assert(keep_first(g.push(t)) =~= keep_first(g));
        } else {
            assert(keep_first(g.push(t)) =~= keep_first(g).push(t));
        }
    } else {
        assert(non_empty(ts.push(t)) == g);
    }
}

proof fn lemma_ws_prefix_exact(s: Seq<char>, p: int)
    requires
        0 <= p <= s.len(),
        forall|i: int| 0 <= i < p ==> is_whitespace(#[trigger] s[i]),
        p == s.len() || !is_whitespace(s[p]),
    ensures
        ws_prefix_len(s) == p,
    decreases p,
{
    if p > 0 {
        let r = s.drop_first();
        assert forall|i: int| 0 <= i < p - 1 implies is_whitespace(#[trigger] r[i]) by {
            assert(r[i] == s[i + 1]);
        }
        lemma_ws_prefix_exact(r, p - 1);
    }
}

proof fn lemma_ws_suffix_exact(s: Seq<char>, m: int)
    requires
        0 <= m <= s.len(),
        forall|i: int| m <= i < s.len() ==> is_whitespace(#[trigger] s[i]),
        m == 0 || !is_whitespace(s[m - 1]),
    ensures
        ws_suffix_len(s) == s.len() - m,
    decreases s.len() - m,
{
    if m < s.len() {
        let r = s.drop_last();
        assert forall|i: int| m <= i < r.len() implies is_whitespace(#[trigger] r[i]) by {
            assert(r[i] == s[i]);
        }
        lemma_ws_suffix_exact(r, m);
    }
}

fn is_whitespace_char(c: char) -> (b: bool)
    ensures
        b == is_whitespace(c),
{
    let u = c as u32;
    (9 <= u && u <= 13) || u == 0x20 || u == 0x85 || u == 0xA0 || u == 0x1680 || (0x2000 <= u
        && u <= 0x200A) || u == 0x2028 || u == 0x2029 || u == 0x202F || u == 0x205F || u
        == 0x3000
}

/// The bounds of `cs[a..b]` without its leading and trailing whitespace.
fn trim_bounds(cs: &Vec<char>, a: usize, b: usize) -> (r: (usize, usize))
    requires
        a <= b <= cs.len(),
    ensures
        a <= r.0 <= r.1 <= b,
        cs@.subrange(r.0 as int, r.1 as int) == trim(cs@.subrange(a as int, b as int)),
{
    let ghost f = cs@.subrange(a as int, b as int);
    let mut lo = a;
    while lo < b && is_whitespace_char(cs[lo])
        invariant
            a <= lo <= b,
            b <= cs.len(),
            forall|i: int| a <= i < lo ==> is_whitespace(#[trigger] cs@[i]),
        decreases b - lo,
    {
        lo = lo + 1;
    }
    let mut hi = b;
    while hi > lo && is_whitespace_char(cs[hi - 1])
        invariant
            a <= lo <= hi <= b,
            b <= cs.len(),
            forall|i: int| hi <= i < b ==> is_whitespace(#[trigger] cs@[i]),
            lo == b || !is_whitespace(cs@[lo as int]),
        decreases hi - lo,
    {
        hi = hi - 1;
    }
    proof {
        assert forall|i: int| 0 <= i < lo - a implies is_whitespace(#[trigger] f[i]) by {
            assert(f[i] == cs@[a + i]);
        }
        lemma_ws_prefix_exact(f, lo - a);
        let t = f.skip(lo - a);
        assert(t =~= cs@.subrange(lo as int, b as int));
        assert forall|i: int| hi - lo <= i < t.len() implies is_whitespace(#[trigger] t[i]) by {
            assert(t[i] == cs@[lo + i]);
        }
        lemma_ws_suffix_exact(t, hi - lo);
        assert(t.take(t.len() - ws_suffix_len(t)) =~= cs@.subrange(lo as int, hi as int));
    }
    (lo, hi)
}


/// Adds the piece `value[start..end]`, trimmed, to `names` where it is not empty and there
/// is room.
fn add_piece(names: &mut Vec<String>, value: &str, cs: &Vec<char>, start: usize, end: usize)
    requires
        cs@ == value@,
        start <= end <= cs.len(),
    ensures
        string_views(final(names)@) == add_name(
            string_views(old(names)@),
            trim(cs@.subrange(start as int, end as int)),
        ),
{
    let (lo, hi) = trim_bounds(cs, start, end);
    if lo < hi && names.len() < MAX_PEOPLE {
        let piece = value.substring_char(lo, hi);
        let name = String::from_str(piece);
        let ghost before = names@;
        names.push(name);
        proof {
            assert(string_views(names@) =~= string_views(before).push(name@));
        }
    } else {
        proof {
            assert(cs@.subrange(lo as int, hi as int).len() == 0 || names@.len() >= MAX_PEOPLE);
        }
    }
}

/// The names of a comma-separated list: each piece trimmed, the empty ones left out, at
/// most `MAX_PEOPLE` of them, in order.
pub fn split_names(value: &str) -> (names: Vec<String>)
    ensures
        string_views(names@) == people_names(value@),
        names@.len() <= MAX_PEOPLE,
{
    let cs = crate::time_config::chars_of(value);
    let n = cs.len();
    let mut names: Vec<String> = Vec::new();
    let mut start: usize = 0;
    let mut i: usize = 0;
    let ghost mut done: Seq<Seq<char>> = Seq::empty();
    proof {
        assert(cs@.take(0) =~= Seq::<char>::empty());
        assert(split_commas(cs@.take(0)) =~= done.push(cs@.subrange(0, 0)));
        assert(string_views(names@) =~= keep_first(non_empty(trim_all(done)))) by {
            assert(trim_all(done) =~= Seq::<Seq<char>>::empty());
            reveal_with_fuel(Seq::filter, 1);
        }
    }
    while i < n
        invariant
            n == cs@.len(),
            cs@ == value@,
            start <= i <= n,
            split_commas(cs@.take(i as int)) == done.push(cs@.subrange(start as int, i as int)),
            string_views(names@) == keep_first(non_empty(trim_all(done))),
        decreases n - i,
    {
        let ghost s = cs@;
        proof {
            assert(s.take(i + 1).drop_last() =~= s.take(i as int));
            assert(s.take(i + 1).last() == s[i as int]);
            lemma_split_commas_nonempty(s.take(i as int));
            let t = s.take(i + 1);
            let prev = split_commas(s.take(i as int));
            assert(split_commas(t) == (if t.last() == ',' {
                prev.push(Seq::empty())
            } else {
                prev.update(prev.len() - 1, prev.last().push(t.last()))
            }));
            assert(prev.last() == s.subrange(start as int, i as int));
            assert(s.subrange(start as int, i as int).push(s[i as int]) =~= s.subrange(start as int, i + 1));
        }
        if cs[i] == ',' {
            add_piece(&mut names, value, &cs, start, i);
            proof {
                lemma_gather_step(done, s.subrange(start as int, i as int));
                done = done.push(s.subrange(start as int, i as int));
                assert(s.subrange(i + 1, i + 1) =~= Seq::<char>::empty());
                assert(split_commas(s.take(i + 1)) =~= done.push(s.subrange(i + 1, i + 1)));
            }
            start = i + 1;
        } else {
            proof {
                assert(split_commas(s.take(i + 1)) =~= done.push(s.subrange(start as int, i + 1)));
            }
        }
        i = i + 1;
    }
    add_piece(&mut names, value, &cs, start, n);
    proof {
        lemma_gather_step(done, cs@.subrange(start as int, n as int));
        assert(cs@.take(n as int) =~= cs@);
        assert(string_views(names@).len() == names@.len());
    }
    names
}

} // verus!
