use crate::error::ASTError;
use crate::error::Reason;
use crate::token::Lexeme;
use crate::token::TOKEN;
use vstd::prelude::*;

verus! {

/// What a scan is to return, as mathematics: the token and the number of
/// characters it takes up, or the reason why there is none.
pub type Scan = Result<(Lexeme, nat), Reason>;

/// The result `r` of a scanner is the one that `expected` describes: the same
/// token and the same length, or the error for the same reason.
pub open spec fn yields(r: Result<(TOKEN, usize), ASTError>, expected: Scan) -> bool {
    match expected {
        Ok((lexeme, n)) => r matches Ok((token, len)) && token@ == lexeme && len == n,
        Err(reason) => r matches Err(e) && e.reports(reason),
    }
}

/// The same for a scanner that only measures.
pub open spec fn measures(r: Result<usize, ASTError>, expected: Result<nat, Reason>) -> bool {
    match expected {
        Ok(n) => r matches Ok(len) && len == n,
        Err(reason) => r matches Err(e) && e.reports(reason),
    }
}

/// A scan that comes `skipped` characters into the text, seen from the start
/// of the text.
pub open spec fn shifted(scan: Scan, skipped: nat) -> Scan {
    match scan {
        Ok((lexeme, n)) => Ok((lexeme, n + skipped)),
        Err(reason) => Err(reason),
    }
}

/// A sequence read in two parts: `head`, read from `k` characters, and then
/// `rest`. The parts join, the lengths add up, and a failure of the rest is
/// the failure of the whole.
pub open spec fn after<T>(head: Seq<T>, k: nat, rest: Result<(Seq<T>, nat), Reason>) -> Result<
    (Seq<T>, nat),
    Reason,
> {
    match rest {
        Ok((tail, n)) => Ok((head + tail, k + n)),
        Err(reason) => Err(reason),
    }
}

/// Reading in three parts is the same, however the parts are grouped.
pub proof fn lemma_after_after<T>(
    a: Seq<T>,
    i: nat,
    b: Seq<T>,
    j: nat,
    rest: Result<(Seq<T>, nat), Reason>,
)
    ensures
        after(a, i, after(b, j, rest)) == after(a + b, i + j, rest),
{
    if let Ok((tail, n)) = rest {
        assert(a + (b + tail) =~= (a + b) + tail);
    }
}

/// An empty part read from no characters changes nothing.
pub proof fn lemma_after_nothing<T>(rest: Result<(Seq<T>, nat), Reason>)
    ensures
        after(Seq::empty(), 0, rest) == rest,
{
    if let Ok((tail, n)) = rest {
        assert(Seq::<T>::empty() + tail =~= tail);
    }
}

} // verus!
