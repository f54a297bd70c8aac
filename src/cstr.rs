//! Zero-terminated byte strings held in slices.
use vstd::prelude::*;

verus! {

/// The length of the string that `s` holds: the number of bytes before its first zero byte,
/// or all of `s` when it holds no zero byte.
pub open spec fn c_len(s: Seq<u8>) -> nat
    decreases s.len(),
{
    if s.len() == 0 {
        0
    } else if s[0] == 0 {
        0
    } else {
        1 + c_len(s.drop_first())
    }
}

/// `s` holds a zero byte, which ends the string it stores.
pub open spec fn is_terminated(s: Seq<u8>) -> bool {
    exists|i: int| 0 <= i < s.len() && s[i] == 0
}

/// The bytes of the string that `s` holds, without the terminator.
pub open spec fn c_content(s: Seq<u8>) -> Seq<u8> {
    s.take(c_len(s) as int)
}

/// `n` is the length of the string in `s`: no zero byte comes before `n`, and `n` is either
/// the end of `s` or the place of a zero byte.
pub proof fn lemma_c_len_at(s: Seq<u8>, n: int)
    requires
        0 <= n <= s.len(),
        forall|i: int| 0 <= i < n ==> s[i] != 0,
        n == s.len() || s[n] == 0,
    ensures
        c_len(s) == n,
    decreases n,
{
    if n > 0 {
        let t = s.drop_first();
        assert forall|i: int| 0 <= i < n - 1 implies t[i] != 0 by {
            assert(t[i] == s[i + 1]);
        }
        if n < s.len() {
            assert(t[n - 1] == s[n]);
        }
        lemma_c_len_at(t, n - 1);
    }
}

/// The string in a terminated `s` ends at a zero byte, and no zero byte comes before it.
pub proof fn lemma_c_len_terminated(s: Seq<u8>)
    requires
        is_terminated(s),
    ensures
        c_len(s) < s.len(),
        s[c_len(s) as int] == 0,
        forall|i: int| 0 <= i < c_len(s) ==> s[i] != 0,
    decreases s.len(),
{
    if s[0] != 0 {
        let t = s.drop_first();
        let k = choose|i: int| 0 <= i < s.len() && s[i] == 0;
        assert(t[k - 1] == s[k]);
        lemma_c_len_terminated(t);
        assert forall|i: int| 0 <= i < c_len(s) implies s[i] != 0 by {
            if i > 0 {
                assert(s[i] == t[i - 1]);
            }
        }
    }
}

/// Finds the terminator of the string in `s`: its offset, which is the string's length, or
/// `None` when `s` holds no zero byte.
pub fn terminator_offset(s: &[u8]) -> (r: Option<usize>)
    ensures
        r is Some <==> is_terminated(s@),
        r matches Some(n) ==> n == c_len(s@) && n < s@.len() && s@[n as int] == 0,
        r is None ==> c_len(s@) == s@.len(),
{
    let mut i: usize = 0;
    while i < s.len()
        invariant
            0 <= i <= s@.len(),
            forall|j: int| 0 <= j < i ==> s@[j] != 0,
        decreases s@.len() - i,
    {
        if s[i] == 0 {
            proof {
                lemma_c_len_at(s@, i as int);
            }
            return Some(i);
        }
        i = i + 1;
    }
    proof {
        lemma_c_len_at(s@, i as int);
    }
    None
}

} // verus!
