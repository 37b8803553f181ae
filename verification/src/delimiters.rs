use crate::chars::is_whitespace;
use crate::chars::whitespace;
use crate::runs::agree;
use crate::runs::lemma_agree_skip;
use crate::runs::lemma_run_len;
use crate::runs::lemma_run_len_local;
use crate::runs::lemma_run_len_unique;
use crate::runs::run_len;
use crate::text::count_fits;
use vstd::prelude::*;
use vstd::std_specs::iter::IteratorSpec;

verus! {

/// The length of the whitespace that `s` begins with.
pub open spec fn whitespace_run(s: Seq<char>) -> nat {
    run_len(s, |c: char| is_whitespace(c))
}

/// The length of the line that `s` begins with, its newline not counted.
pub open spec fn line_run(s: Seq<char>) -> nat {
    run_len(s, |c: char| c != '\n')
}

/// How far a comment at the start of `s` reaches: through the end of its line
/// and on through the whitespace that follows the newline, so that the next
/// character is significant again. A last line without a newline is a comment
/// to its end.
pub open spec fn comment_len(s: Seq<char>) -> nat {
    let line = line_run(s);
    if line == s.len() {
        line
    } else {
        line + 1 + whitespace_run(s.skip(line + 1 as int))
    }
}

/// A comment stays inside the text, and is not empty unless the text is.
pub proof fn lemma_comment_len(s: Seq<char>)
    ensures
        comment_len(s) <= s.len(),
        s.len() > 0 ==> comment_len(s) > 0,
{
    lemma_run_len(s, |c: char| c != '\n');
    let line = line_run(s);
    if line < s.len() {
        lemma_run_len(s.skip(line + 1 as int), |c: char| is_whitespace(c));
    }
}

/// A comment that ends before the end of the text is decided by its own
/// characters and the one that follows.
pub proof fn lemma_comment_local(s: Seq<char>, t: Seq<char>)
    requires
        agree(s, t, comment_len(s) + 1),
    ensures
        comment_len(t) == comment_len(s),
{
    let line = line_run(s);
    lemma_run_len(s, |c: char| c != '\n');
    lemma_run_len_local(s, t, |c: char| c != '\n');
    let after_s = s.skip(line + 1 as int);
    let after_t = t.skip(line + 1 as int);
    lemma_agree_skip(s, t, comment_len(s) + 1, line + 1);
    lemma_run_len_local(after_s, after_t, |c: char| is_whitespace(c));
}

/// Counts the whitespace at the start of `data`.
pub fn seek_past_whitespace(data: &str) -> (n: usize)
    ensures
        n == whitespace_run(data@),
        n <= data@.len(),
{
    count_fits(data);
    let mut it = data.chars();
    let mut index: usize = 0;
    loop
        invariant_except_break
            it.remaining() == data@.skip(index as int),
        invariant
            index <= data@.len() <= usize::MAX,
            forall|i: int| 0 <= i < index ==> is_whitespace(#[trigger] data@[i]),
        ensures
            index == data@.len() || !is_whitespace(data@[index as int]),
        decreases data@.len() - index,
    {
        match it.next() {
            None => {
                break ;
            },
            Some(c) => {
                if !whitespace(c) {
                    break ;
                }
                assert(data@.skip(index as int).drop_first() =~= data@.skip(index + 1));
                index += 1;
            },
        }
    }
    proof {
        lemma_run_len_unique(data@, |c: char| is_whitespace(c), index as nat);
    }
    index
}

/// Measures the comment that `data` begins with.
pub fn seek_past_newline(data: &str) -> (n: usize)
    ensures
        n == comment_len(data@),
        n <= data@.len(),
        data@.len() > 0 ==> n > 0,
{
    count_fits(data);
    let mut it = data.chars();
    let mut index: usize = 0;
    let mut found = false;
    loop
        invariant_except_break
            it.remaining() == data@.skip(index as int),
            !found,
        invariant
            index <= data@.len() <= usize::MAX,
            forall|i: int| 0 <= i < index ==> #[trigger] data@[i] != '\n',
        ensures
            found ==> index < data@.len() && data@[index as int] == '\n' && it.remaining()
                == data@.skip(index + 1),
            !found ==> index == data@.len(),
        decreases data@.len() - index,
    {
        match it.next() {
            None => {
                break ;
            },
            Some(c) => {
                assert(data@.skip(index as int).drop_first() =~= data@.skip(index + 1));
                if c == '\n' {
                    found = true;
                    break ;
                }
                index += 1;
            },
        }
    }
    proof {
        lemma_run_len_unique(data@, |c: char| c != '\n', index as nat);
        lemma_comment_len(data@);
    }
    if !found {
        return index;
    }
    let line = index;
    let ghost rest = data@.skip(line + 1);
    index += 1;
    loop
        invariant_except_break
            it.remaining() == data@.skip(index as int),
        invariant
            line < index <= data@.len() <= usize::MAX,
            rest == data@.skip(line + 1),
            forall|i: int| 0 <= i < index - line - 1 ==> is_whitespace(#[trigger] rest[i]),
        ensures
            index == data@.len() || !is_whitespace(rest[index - line - 1]),
        decreases data@.len() - index,
    {
        match it.next() {
            None => {
                break ;
            },
            Some(c) => {
                assert(c == rest[index - line - 1]);
                if !whitespace(c) {
                    break ;
                }
                assert(data@.skip(index as int).drop_first() =~= data@.skip(index + 1));
                index += 1;
            },
        }
    }
    proof {
        lemma_run_len_unique(rest, |c: char| is_whitespace(c), (index - line - 1) as nat);
    }
    index
}

} // verus!
