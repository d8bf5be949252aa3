//! Interpretation of the yes/no confirmation answer.
//!
//! Before a claim goes on the wire the user answers one line. After
//! surrounding whitespace is removed, an empty answer, `"y"` or `"yes"` in
//! any letter case confirms; anything else cancels. The empty answer
//! confirming is deliberate: the prompt defaults to yes.

use vstd::prelude::*;
use vstd::string::StrSliceExecFns;

verus! {

/// ASCII whitespace as terminal input carries it.
pub open spec fn is_space(c: char) -> bool {
    c == ' ' || c == '\t' || c == '\n' || c == '\r'
}

/// The sequence with leading whitespace removed.
pub open spec fn trim_front(s: Seq<char>) -> Seq<char>
    decreases s.len(),
{
    if s.len() > 0 && is_space(s[0]) {
        trim_front(s.skip(1))
    } else {
        s
    }
}

/// The sequence with trailing whitespace removed.
pub open spec fn trim_back(s: Seq<char>) -> Seq<char>
    decreases s.len(),
{
    if s.len() > 0 && is_space(s.last()) {
        trim_back(s.drop_last())
    } else {
        s
    }
}

/// The sequence with surrounding whitespace removed.
pub open spec fn trimmed(s: Seq<char>) -> Seq<char> {
    trim_back(trim_front(s))
}

/// The trimmed answer reads `"y"`, in either letter case.
pub open spec fn is_yes_short(t: Seq<char>) -> bool {
    t.len() == 1 && (t[0] == 'y' || t[0] == 'Y')
}

/// The trimmed answer reads `"yes"`, in any mix of letter cases.
pub open spec fn is_yes_long(t: Seq<char>) -> bool {
    &&& t.len() == 3
    &&& (t[0] == 'y' || t[0] == 'Y')
    &&& (t[1] == 'e' || t[1] == 'E')
    &&& (t[2] == 's' || t[2] == 'S')
}

/// The answer confirms the claim: empty, `"y"` or `"yes"` in any letter
/// case, once surrounding whitespace is removed.
pub open spec fn affirmative(s: Seq<char>) -> bool {
    let t = trimmed(s);
    ||| t.len() == 0
    ||| is_yes_short(t)
    ||| is_yes_long(t)
}

/// Decides whether one line of user input confirms the claim.
#[verifier::loop_isolation(false)]
pub fn is_affirmative(answer: &str) -> (r: bool)
    ensures
        r == affirmative(answer@),
{
    let n = answer.unicode_len();
    proof {
        assert(answer@.skip(0) =~= answer@);
    }
    let mut lo: usize = 0;
    let mut front_done = false;
    while lo < n && !front_done
        invariant
            0 <= lo <= n,
            trim_front(answer@.skip(lo as int)) == trim_front(answer@),
            front_done ==> lo < n && !is_space(answer@[lo as int]),
        decreases n - lo, (if front_done { 0int } else { 1int }),
    {
        let c = answer.get_char(lo);
        if c == ' ' || c == '\t' || c == '\n' || c == '\r' {
            proof {
                assert(answer@.skip(lo as int).skip(1) =~= answer@.skip(lo as int + 1));
            }
            lo = lo + 1;
        } else {
            front_done = true;
        }
    }
    proof {
        if lo == n {
            assert(answer@.skip(lo as int) =~= Seq::<char>::empty());
        }
        assert(trim_front(answer@) == answer@.skip(lo as int));
    }
    let mut hi: usize = n;
    let mut back_done = false;
    while hi > lo && !back_done
        invariant
            lo <= hi <= n,
            trim_back(answer@.subrange(lo as int, hi as int)) == trimmed(answer@),
            back_done ==> hi > lo && !is_space(answer@[hi - 1]),
        decreases hi - lo, (if back_done { 0int } else { 1int }),
    {
        let c = answer.get_char(hi - 1);
        if c == ' ' || c == '\t' || c == '\n' || c == '\r' {
            proof {
                assert(answer@.subrange(lo as int, hi as int).drop_last() =~= answer@.subrange(
                    lo as int,
                    hi as int - 1,
                ));
            }
            hi = hi - 1;
        } else {
            back_done = true;
        }
    }
    let ghost t = trimmed(answer@);
    proof {
        assert(t == answer@.subrange(lo as int, hi as int));
    }
    let m = hi - lo;
    if m == 0 {
        return true;
    }
    if m == 1 {
        let c = answer.get_char(lo);
        return c == 'y' || c == 'Y';
    }
    if m == 3 {
        let c0 = answer.get_char(lo);
        let c1 = answer.get_char(lo + 1);
        let c2 = answer.get_char(lo + 2);
        return (c0 == 'y' || c0 == 'Y') && (c1 == 'e' || c1 == 'E') && (c2 == 's' || c2 == 'S');
    }
    false
}

} // verus!
