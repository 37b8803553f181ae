use vstd::prelude::*;

verus! {

/// How many characters at the start of `s` satisfy `p` without a break.
pub open spec fn run_len(s: Seq<char>, p: spec_fn(char) -> bool) -> nat
    decreases s.len(),
{
    if s.len() == 0 || !p(s[0]) {
        0
    } else {
        1 + run_len(s.drop_first(), p)
    }
}

/// A run stays inside the text, every character of it satisfies `p`, and the
/// character after it, if there is one, does not.
pub proof fn lemma_run_len(s: Seq<char>, p: spec_fn(char) -> bool)
    ensures
        run_len(s, p) <= s.len(),
        forall|i: int| 0 <= i < run_len(s, p) ==> p(#[trigger] s[i]),
        run_len(s, p) < s.len() ==> !p(s[run_len(s, p) as int]),
    decreases s.len(),
{
    if s.len() > 0 && p(s[0]) {
        let t = s.drop_first();
        lemma_run_len(t, p);
        assert forall|i: int| 0 <= i < run_len(s, p) implies p(#[trigger] s[i]) by {
            if i > 0 {
                assert(s[i] == t[i - 1]);
            }
        }
        if run_len(s, p) < s.len() {
            assert(s[run_len(s, p) as int] == t[run_len(t, p) as int]);
        }
    }
}

/// The three facts of `lemma_run_len` single the run's length out.
pub proof fn lemma_run_len_unique(s: Seq<char>, p: spec_fn(char) -> bool, n: nat)
    requires
        n <= s.len(),
        forall|i: int| 0 <= i < n ==> p(#[trigger] s[i]),
        n == s.len() || !p(s[n as int]),
    ensures
        run_len(s, p) == n,
    decreases s.len(),
{
    if n > 0 {
        let t = s.drop_first();
        assert forall|i: int| 0 <= i < n - 1 implies p(#[trigger] t[i]) by {
            assert(t[i] == s[i + 1]);
        }
        lemma_run_len_unique(t, p, (n - 1) as nat);
    }
}

/// A stretch of characters that satisfy `p` from the start is part of the run.
pub proof fn lemma_run_len_at_least(s: Seq<char>, p: spec_fn(char) -> bool, n: nat)
    requires
        n <= s.len(),
        forall|i: int| 0 <= i < n ==> p(#[trigger] s[i]),
    ensures
        n <= run_len(s, p),
{
    lemma_run_len(s, p);
}

/// The texts `s` and `t` have `n` characters or more, and the same first `n`.
pub open spec fn agree(s: Seq<char>, t: Seq<char>, n: nat) -> bool {
    &&& n <= s.len()
    &&& n <= t.len()
    &&& forall|i: int| 0 <= i < n ==> s[i] == t[i]
}

/// Texts that agree on `n` characters agree on what follows the first `k`
/// of them.
pub proof fn lemma_agree_skip(s: Seq<char>, t: Seq<char>, n: nat, k: nat)
    requires
        agree(s, t, n),
        k <= n,
    ensures
        agree(s.skip(k as int), t.skip(k as int), (n - k) as nat),
{
    assert forall|i: int| 0 <= i < n - k implies s.skip(k as int)[i] == t.skip(k as int)[i] by {
        assert(s[i + k] == t[i + k]);
    }
}

/// Texts that agree on `n` characters have the same first `m`, for `m` up
/// to `n`.
pub proof fn lemma_agree_take(s: Seq<char>, t: Seq<char>, n: nat, m: nat)
    requires
        agree(s, t, n),
        m <= n,
    ensures
        s.take(m as int) == t.take(m as int),
{
    assert(s.take(m as int) =~= t.take(m as int));
}

/// A run is decided by its characters and the one that follows: texts that
/// agree that far have the same run.
pub proof fn lemma_run_len_local(s: Seq<char>, t: Seq<char>, p: spec_fn(char) -> bool)
    requires
        agree(s, t, run_len(s, p) + 1),
    ensures
        run_len(t, p) == run_len(s, p),
{
    lemma_run_len(s, p);
    lemma_run_len_unique(t, p, run_len(s, p));
}

} // verus!
