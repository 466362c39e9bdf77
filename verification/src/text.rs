//! Character-level helpers shared by the duration parser and the cell
//! normalizer: digit tests, whitespace trimming, and decimal rendering.

use vstd::prelude::*;
use vstd::string::{StrSliceExecFns, StringExecFns};

verus! {

/// A decimal digit character.
pub open spec fn is_digit(c: char) -> bool {
    '0' <= c && c <= '9'
}

/// Whitespace as the cell normalizer understands it: the ASCII blanks that
/// occur around fields of a delimited text table.
pub open spec fn is_space(c: char) -> bool {
    c == ' ' || c == '\t' || c == '\n' || c == '\r'
}

/// Numeric value of a digit character.
pub open spec fn digit_val(c: char) -> nat {
    (c as u32 - '0' as u32) as nat
}

pub fn is_digit_char(c: char) -> (r: bool)
    ensures
        r == is_digit(c),
{
    '0' <= c && c <= '9'
}

pub fn is_space_char(c: char) -> (r: bool)
    ensures
        r == is_space(c),
{
    c == ' ' || c == '\t' || c == '\n' || c == '\r'
}

/// The characters of a string slice, as a vector.
pub fn chars_of(s: &str) -> (r: Vec<char>)
    ensures
        r@ == s@,
{
    let n = s.unicode_len();
    let mut r: Vec<char> = Vec::new();
    let mut i: usize = 0;
    proof {
        assert(r@ =~= s@.subrange(0, 0));
    }
    while i < n
        invariant
            i <= n,
            n == s@.len(),
            r@ == s@.subrange(0, i as int),
        decreases n - i,
    {
        r.push(s.get_char(i));
        i = i + 1;
        proof {
            assert(r@ =~= s@.subrange(0, i as int));
        }
    }
    proof {
        assert(r@ =~= s@);
    }
    r
}

/// Equality of two string slices, character by character.
pub fn str_eq(a: &str, b: &str) -> (r: bool)
    ensures
        r == (a@ == b@),
{
    let n = a.unicode_len();
    if n != b.unicode_len() {
        return false;
    }
    let mut i: usize = 0;
    while i < n
        invariant
            i <= n,
            n == a@.len(),
            n == b@.len(),
            forall|j: int| 0 <= j < i ==> a@[j] == b@[j],
        decreases n - i,
    {
        if a.get_char(i) != b.get_char(i) {
            return false;
        }
        i = i + 1;
    }
    proof {
        assert(a@ =~= b@);
    }
    true
}

/// First index at or after k that does not carry whitespace; s.len() when
/// only whitespace follows.
pub open spec fn trim_start_from(s: Seq<char>, k: int) -> int
    decreases s.len() - k,
{
    if 0 <= k < s.len() && is_space(s[k]) {
        trim_start_from(s, k + 1)
    } else {
        k
    }
}

/// Last bound at or below k such that no whitespace stands right before it;
/// 0 when only whitespace precedes k.
pub open spec fn trim_end_from(s: Seq<char>, k: int) -> int
    decreases k,
{
    if 0 < k <= s.len() && is_space(s[k - 1]) {
        trim_end_from(s, k - 1)
    } else {
        k
    }
}

/// The string with surrounding whitespace removed.
pub open spec fn spec_trim(s: Seq<char>) -> Seq<char> {
    let a = trim_start_from(s, 0);
    if a == s.len() {
        Seq::<char>::empty()
    } else {
        s.subrange(a, trim_end_from(s, s.len() as int))
    }
}

proof fn lemma_trim_start_props(s: Seq<char>, k: int)
    requires
        0 <= k <= s.len(),
    ensures
        k <= trim_start_from(s, k) <= s.len(),
        forall|j: int| k <= j < trim_start_from(s, k) ==> is_space(s[j]),
        trim_start_from(s, k) < s.len() ==> !is_space(s[trim_start_from(s, k)]),
    decreases s.len() - k,
{
    if k < s.len() && is_space(s[k]) {
        lemma_trim_start_props(s, k + 1);
    }
}

proof fn lemma_trim_end_props(s: Seq<char>, k: int)
    requires
        0 <= k <= s.len(),
    ensures
        0 <= trim_end_from(s, k) <= k,
        forall|j: int| trim_end_from(s, k) <= j < k ==> is_space(s[j]),
        trim_end_from(s, k) > 0 ==> !is_space(s[trim_end_from(s, k) - 1]),
    decreases k,
{
    if 0 < k && is_space(s[k - 1]) {
        lemma_trim_end_props(s, k - 1);
    }
}

/// The bounds that spec_trim takes a subrange between are well formed: where
/// some character is not whitespace, the start bound lies strictly below the
/// end bound.
proof fn lemma_trim_bounds(s: Seq<char>)
    requires
        trim_start_from(s, 0) < s.len(),
    ensures
        0 <= trim_start_from(s, 0) < trim_end_from(s, s.len() as int) <= s.len(),
        !is_space(s[trim_start_from(s, 0)]),
        !is_space(s[trim_end_from(s, s.len() as int) - 1]),
{
    let a = trim_start_from(s, 0);
    let b = trim_end_from(s, s.len() as int);
    lemma_trim_start_props(s, 0);
    lemma_trim_end_props(s, s.len() as int);
    if b <= a {
        assert(is_space(s[a]));
    }
}

/// Trimming is idempotent: a trimmed string carries no surrounding
/// whitespace, so trimming it again changes nothing.
pub proof fn lemma_trim_idempotent(s: Seq<char>)
    ensures
        spec_trim(spec_trim(s)) == spec_trim(s),
{
    let t = spec_trim(s);
    lemma_trim_start_props(s, 0);
    let a = trim_start_from(s, 0);
    if a == s.len() {
        assert(t.len() == 0);
        assert(trim_start_from(t, 0) == 0);
        assert(spec_trim(t) =~= t);
    } else {
        lemma_trim_bounds(s);
        let b = trim_end_from(s, s.len() as int);
        assert(t == s.subrange(a, b));
        assert(t[0] == s[a]);
        assert(t[t.len() - 1] == s[b - 1]);
        assert(trim_start_from(t, 0) == 0);
        assert(trim_end_from(t, t.len() as int) == t.len());
        assert(spec_trim(t) =~= t);
    }
}

/// The string with surrounding whitespace removed.
pub fn trim_cell(s: &str) -> (r: String)
    ensures
        r@ == spec_trim(s@),
{
    let n = s.unicode_len();
    let mut a: usize = 0;
    while a < n && is_space_char(s.get_char(a))
        invariant
            0 <= a <= n,
            n == s@.len(),
            trim_start_from(s@, 0) == trim_start_from(s@, a as int),
        decreases n - a,
    {
        a = a + 1;
    }
    proof {
        assert(trim_start_from(s@, a as int) == a as int);
    }
    if a == n {
        String::new()
    } else {
        let mut b: usize = n;
        while b > a && is_space_char(s.get_char(b - 1))
            invariant
                a < b <= n,
                a < n,
                n == s@.len(),
                !is_space(s@[a as int]),
                trim_end_from(s@, n as int) == trim_end_from(s@, b as int),
            decreases b,
        {
            b = b - 1;
        }
        proof {
            assert(trim_end_from(s@, b as int) == b as int);
        }
        let t = s.substring_char(a, b);
        String::from_str(t)
    }
}

/// The digit character for a value below ten.
pub open spec fn digit_char(d: nat) -> char {
    if d == 0 {
        '0'
    } else if d == 1 {
        '1'
    } else if d == 2 {
        '2'
    } else if d == 3 {
        '3'
    } else if d == 4 {
        '4'
    } else if d == 5 {
        '5'
    } else if d == 6 {
        '6'
    } else if d == 7 {
        '7'
    } else if d == 8 {
        '8'
    } else {
        '9'
    }
}

/// Decimal rendering of a number, most significant digit first, with no
/// leading zero except on zero itself.
pub open spec fn dec_rep(n: nat) -> Seq<char>
    decreases n,
{
    if n < 10 {
        seq![digit_char(n)]
    } else {
        dec_rep(n / 10).push(digit_char(n % 10))
    }
}

fn digit_str(d: usize) -> (r: &'static str)
    requires
        d < 10,
    ensures
        r@ == seq![digit_char(d as nat)],
{
    if d == 0 {
        proof {
            reveal_strlit("0");
            assert("0"@ =~= seq![digit_char(0)]);
        }
        "0"
    } else if d == 1 {
        proof {
            reveal_strlit("1");
            assert("1"@ =~= seq![digit_char(1)]);
        }
        "1"
    } else if d == 2 {
        proof {
            reveal_strlit("2");
            assert("2"@ =~= seq![digit_char(2)]);
        }
        "2"
    } else if d == 3 {
        proof {
            reveal_strlit("3");
            assert("3"@ =~= seq![digit_char(3)]);
        }
        "3"
    } else if d == 4 {
        proof {
            reveal_strlit("4");
            assert("4"@ =~= seq![digit_char(4)]);
        }
        "4"
    } else if d == 5 {
        proof {
            reveal_strlit("5");
            assert("5"@ =~= seq![digit_char(5)]);
        }
        "5"
    } else if d == 6 {
        proof {
            reveal_strlit("6");
            assert("6"@ =~= seq![digit_char(6)]);
        }
        "6"
    } else if d == 7 {
        proof {
            reveal_strlit("7");
            assert("7"@ =~= seq![digit_char(7)]);
        }
        "7"
    } else if d == 8 {
        proof {
            reveal_strlit("8");
            assert("8"@ =~= seq![digit_char(8)]);
        }
        "8"
    } else {
        proof {
            reveal_strlit("9");
            assert("9"@ =~= seq![digit_char(9)]);
        }
        "9"
    }
}

/// Decimal rendering of a number.
pub fn usize_to_string(n: usize) -> (r: String)
    ensures
        r@ == dec_rep(n as nat),
    decreases n,
{
    if n < 10 {
        String::from_str(digit_str(n))
    } else {
        let mut r = usize_to_string(n / 10);
        r.append(digit_str(n % 10));
        proof {
            assert(r@ =~= dec_rep(n as nat));
        }
        r
    }
}

/// A total of minutes, shown as hours, a colon, and a two-digit rest:
/// the hours are the total divided by sixty, the rest is zero-padded
/// to two places.
pub open spec fn spec_format_total(total: nat) -> Seq<char> {
    let rest = total % 60;
    dec_rep(total / 60) + seq![':'] + (if rest < 10 {
        seq!['0'] + dec_rep(rest)
    } else {
        dec_rep(rest)
    })
}

/// Format a total of minutes as hours and a two-digit rest of minutes.
pub fn format_total(total_minutes: usize) -> (r: String)
    ensures
        r@ == spec_format_total(total_minutes as nat),
{
    let hours = total_minutes / 60;
    let rest = total_minutes % 60;
    let mut r = usize_to_string(hours);
    proof {
        reveal_strlit(":");
        assert(":"@ =~= seq![':']);
    }
    r.append(":");
    if rest < 10 {
        proof {
            reveal_strlit("0");
            assert("0"@ =~= seq!['0']);
        }
        r.append("0");
    }
    let rest_str = usize_to_string(rest);
    r.append(rest_str.as_str());
    proof {
        assert(r@ =~= spec_format_total(total_minutes as nat));
    }
    r
}

} // verus!
