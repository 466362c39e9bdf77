//! The duration parser: reads the first digits-colon-digits pair of a free
//! form cell value as an (hours, minutes) pair.

use vstd::prelude::*;
use crate::text::{chars_of, digit_val, is_digit, is_digit_char};

verus! {

/// Position i of s carries a colon with a digit on both sides: the colon of
/// a digits-colon-digits pair.
pub open spec fn colon_ok(s: Seq<char>, i: int) -> bool {
    0 < i < s.len() - 1 && s[i] == ':' && is_digit(s[i - 1]) && is_digit(s[i + 1])
}

/// Index of the first such colon at or after k; s.len() when there is none.
pub open spec fn first_colon_from(s: Seq<char>, k: int) -> int
    decreases s.len() - k,
{
    if k >= s.len() {
        s.len() as int
    } else if colon_ok(s, k) {
        k
    } else {
        first_colon_from(s, k + 1)
    }
}

/// Start of the digit run that ends right before position i.
pub open spec fn run_start(s: Seq<char>, i: int) -> int
    decreases i,
{
    if 0 < i <= s.len() && is_digit(s[i - 1]) {
        run_start(s, i - 1)
    } else {
        i
    }
}

/// End (exclusive) of the digit run that starts at position i.
pub open spec fn run_end(s: Seq<char>, i: int) -> int
    decreases s.len() - i,
{
    if 0 <= i < s.len() && is_digit(s[i]) {
        run_end(s, i + 1)
    } else {
        i
    }
}

/// Value of a run of digit characters, base ten, most significant first.
pub open spec fn run_value(s: Seq<char>) -> nat
    decreases s.len(),
{
    if s.len() == 0 {
        0
    } else {
        run_value(s.drop_last()) * 10 + digit_val(s.last())
    }
}

/// The defensive fallback: a digit run whose value does not fit the machine
/// word is read as zero rather than rejected.
pub open spec fn clamp_usize(n: nat) -> nat {
    if n > usize::MAX {
        0
    } else {
        n
    }
}

/// What parsing a cell value returns: around the first qualifying colon, the
/// digit run before it read as hours and the digit run after it read as
/// minutes; absent when no colon has a digit on both sides.
pub open spec fn spec_parse_duration(s: Seq<char>) -> Option<(nat, nat)> {
    let c = first_colon_from(s, 0);
    if c < s.len() {
        Some(
            (
                clamp_usize(run_value(s.subrange(run_start(s, c), c))),
                clamp_usize(run_value(s.subrange(c + 1, run_end(s, c + 1)))),
            ),
        )
    } else {
        None
    }
}

/// Parses duration cells of the form digits-colon-digits.
pub struct DurationParser {}

fn colon_at(cs: &Vec<char>, k: usize) -> (r: bool)
    requires
        k < cs@.len(),
    ensures
        r == colon_ok(cs@, k as int),
{
    if cs[k] != ':' || k == 0 || k >= cs.len() - 1 {
        false
    } else {
        is_digit_char(cs[k - 1]) && is_digit_char(cs[k + 1])
    }
}

/// Value of the digit run cs[start..end], read base ten; zero when the run
/// does not fit the machine word.
fn run_value_of(cs: &Vec<char>, start: usize, end: usize) -> (r: usize)
    requires
        start <= end <= cs@.len(),
        forall|j: int| start <= j < end ==> is_digit(cs@[j]),
    ensures
        r == clamp_usize(run_value(cs@.subrange(start as int, end as int))),
{
    let mut acc: usize = 0;
    let mut over: bool = false;
    let mut i: usize = start;
    proof {
        assert(cs@.subrange(start as int, start as int) =~= Seq::<char>::empty());
    }
    while i < end
        invariant
            start <= i <= end <= cs@.len(),
            forall|j: int| start <= j < end ==> is_digit(cs@[j]),
            !over ==> acc == run_value(cs@.subrange(start as int, i as int)),
            over ==> run_value(cs@.subrange(start as int, i as int)) > usize::MAX,
        decreases end - i,
    {
        let c = cs[i];
        let d = (c as u32 - '0' as u32) as usize;
        proof {
            let prefix = cs@.subrange(start as int, i as int);
            let next = cs@.subrange(start as int, i as int + 1);
            assert(next.drop_last() =~= prefix);
            assert(next.last() == cs@[i as int]);
            lemma_run_value_monotonic(next);
        }
        if over {
        } else {
            match acc.checked_mul(10) {
                Some(t) => {
                    match t.checked_add(d) {
                        Some(v) => {
                            acc = v;
                        },
                        None => {
                            over = true;
                        },
                    }
                },
                None => {
                    over = true;
                },
            }
        }
        i = i + 1;
    }
    if over {
        0
    } else {
        acc
    }
}

/// Extending a digit run does not shrink its value.
proof fn lemma_run_value_monotonic(s: Seq<char>)
    requires
        s.len() > 0,
    ensures
        run_value(s) >= run_value(s.drop_last()),
{
    assert(run_value(s) == run_value(s.drop_last()) * 10 + digit_val(s.last()));
}

proof fn lemma_first_colon_in_range(s: Seq<char>, k: int)
    requires
        0 <= k <= s.len(),
    ensures
        k <= first_colon_from(s, k) <= s.len(),
        first_colon_from(s, k) < s.len() ==> colon_ok(s, first_colon_from(s, k)),
        forall|j: int| k <= j < first_colon_from(s, k) ==> !colon_ok(s, j),
    decreases s.len() - k,
{
    if k < s.len() && !colon_ok(s, k) {
        lemma_first_colon_in_range(s, k + 1);
    }
}

/// The first colon-separated digit pair decides the result: where position i
/// carries the first colon of s that has a digit on both sides, parsing
/// returns exactly the digit run ending before i read as hours and the digit
/// run starting after i read as minutes.
pub proof fn lemma_parse_duration_first_match(s: Seq<char>, i: int)
    requires
        colon_ok(s, i),
        forall|j: int| 0 <= j < i ==> !colon_ok(s, j),
    ensures
        spec_parse_duration(s) == Some(
            (
                clamp_usize(run_value(s.subrange(run_start(s, i), i))),
                clamp_usize(run_value(s.subrange(i + 1, run_end(s, i + 1)))),
            ),
        ),
{
    lemma_first_colon_in_range(s, 0);
    let f = first_colon_from(s, 0);
    if f < i {
        assert(!colon_ok(s, f));
    }
    if i < f {
        assert(!colon_ok(s, i));
    }
    assert(f == i);
}

/// Parsing is absent exactly when no position of s carries a colon with a
/// digit on both sides.
pub proof fn lemma_parse_duration_absent(s: Seq<char>)
    ensures
        spec_parse_duration(s) is None <==> (forall|i: int| !colon_ok(s, i)),
{
    lemma_first_colon_in_range(s, 0);
    let f = first_colon_from(s, 0);
    if f < s.len() {
        assert(colon_ok(s, f));
    } else {
        assert forall|i: int| !colon_ok(s, i) by {
            if 0 <= i < s.len() {
                assert(!colon_ok(s, i));
            }
        }
    }
}

impl DurationParser {
    pub fn new() -> (r: DurationParser) {
        DurationParser {  }
    }

    /// Reads the first digits-colon-digits pair of raw as hours and minutes;
    /// None when raw holds no such pair.
    pub fn parse_duration(&self, raw: &str) -> (r: Option<(usize, usize)>)
        ensures
            r.is_some() <==> spec_parse_duration(raw@).is_some(),
            r matches Some(hm) ==> spec_parse_duration(raw@) matches Some(p) && hm.0 == p.0
                && hm.1 == p.1,
    {
        let cs = chars_of(raw);
        let n = cs.len();
        let mut k: usize = 0;
        while k < n && !colon_at(&cs, k)
            invariant
                0 <= k <= n,
                n == cs@.len(),
                cs@ == raw@,
                first_colon_from(raw@, 0) == first_colon_from(raw@, k as int),
            decreases n - k,
        {
            k = k + 1;
        }
        proof {
            assert(first_colon_from(raw@, k as int) == k as int || k == n);
        }
        if k == n {
            return None;
        }
        let mut h: usize = k;
        while h > 0 && is_digit_char(cs[h - 1])
            invariant
                0 <= h <= k < n,
                n == cs@.len(),
                cs@ == raw@,
                run_start(raw@, k as int) == run_start(raw@, h as int),
                forall|j: int| h <= j < k ==> is_digit(raw@[j]),
            decreases h,
        {
            h = h - 1;
        }
        let mut m: usize = k + 1;
        while m < n && is_digit_char(cs[m])
            invariant
                k + 1 <= m <= n,
                n == cs@.len(),
                cs@ == raw@,
                run_end(raw@, k as int + 1) == run_end(raw@, m as int),
                forall|j: int| k + 1 <= j < m ==> is_digit(raw@[j]),
            decreases n - m,
        {
            m = m + 1;
        }
        proof {
            assert(run_start(raw@, h as int) == h as int);
            assert(run_end(raw@, m as int) == m as int);
        }
        let hours = run_value_of(&cs, h, k);
        let minutes = run_value_of(&cs, k + 1, m);
        Some((hours, minutes))
    }
}

} // verus!
