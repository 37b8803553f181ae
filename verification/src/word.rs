use crate::chars::delimiter;
use crate::chars::is_delimiter;
use crate::chars::is_word_char;
use crate::chars::word_char;
use crate::error::ASTError;
use crate::error::Reason;
use crate::outcome::measures;
use crate::outcome::yields;
use crate::outcome::Scan;
use crate::runs::agree;
use crate::runs::lemma_agree_take;
use crate::runs::lemma_run_len;
use crate::runs::lemma_run_len_local;
use crate::runs::lemma_run_len_unique;
use crate::runs::run_len;
use crate::text::count_fits;
use crate::token::Tag;
use crate::token::TOKEN;
use vstd::prelude::*;
use vstd::std_specs::iter::IteratorSpec;
use vstd::string::StrSliceExecFns;

verus! {

/// The length of the word characters that `s` begins with.
pub open spec fn word_run(s: Seq<char>) -> nat {
    run_len(s, |c: char| is_word_char(c))
}

/// Where the word at the start of `s` ends. A word ends before a delimiter or
/// with the text; any other character that is not a word character makes the
/// word invalid.
pub open spec fn word_end(s: Seq<char>) -> Result<nat, Reason> {
    let n = word_run(s);
    if n < s.len() && !is_delimiter(s[n as int]) {
        Err(Reason::InvalidCharacterInWord(s[n as int]))
    } else {
        Ok(n)
    }
}

/// The named token of kind `tag` at the start of `s`: its name is the word
/// there, which must not be empty.
pub open spec fn named(s: Seq<char>, tag: Tag) -> Scan {
    match word_end(s) {
        Err(reason) => Err(reason),
        Ok(n) => if n == 0 {
            Err(Reason::ExpectedWord)
        } else {
            Ok((tag.lexeme(s.take(n as int)), n))
        },
    }
}

/// A named token is not empty and stays inside the text.
pub proof fn lemma_named_len(s: Seq<char>, tag: Tag)
    ensures
        named(s, tag) matches Ok((_, n)) ==> 0 < n <= s.len(),
{
    lemma_run_len(s, |c: char| is_word_char(c));
}

/// A named token that ends before the end of the text is decided by its own
/// characters and the one that follows.
pub proof fn lemma_named_local(s: Seq<char>, t: Seq<char>, tag: Tag)
    requires
        named(s, tag) matches Ok((_, n)) && agree(s, t, n + 1),
    ensures
        named(t, tag) == named(s, tag),
{
    let n = word_run(s);
    lemma_run_len_local(s, t, |c: char| is_word_char(c));
    lemma_agree_take(s, t, n + 1, n);
}

/// Measures the word that `data` begins with.
pub fn ensure_word_to_end(data: &str) -> (r: Result<usize, ASTError>)
    ensures
        measures(r, word_end(data@)),
        r matches Ok(n) ==> n <= data@.len(),
{
    count_fits(data);
    let mut it = data.chars();
    let mut index: usize = 0;
    let mut stop: Option<char> = None;
    loop
        invariant_except_break
            it.remaining() == data@.skip(index as int),
            stop is None,
        invariant
            index <= data@.len() <= usize::MAX,
            forall|i: int| 0 <= i < index ==> is_word_char(#[trigger] data@[i]),
        ensures
            stop is None ==> index == data@.len(),
            stop matches Some(c) ==> index < data@.len() && c == data@[index as int]
                && !is_word_char(c),
        decreases data@.len() - index,
    {
        match it.next() {
            None => {
                break ;
            },
            Some(c) => {
                if !word_char(c) {
                    stop = Some(c);
                    break ;
                }
                assert(data@.skip(index as int).drop_first() =~= data@.skip(index + 1));
                index += 1;
            },
        }
    }
    proof {
        lemma_run_len_unique(data@, |c: char| is_word_char(c), index as nat);
    }
    match stop {
        Some(c) => {
            if delimiter(c) {
                Ok(index)
            } else {
                Err(ASTError::new(Reason::InvalidCharacterInWord(c)))
            }
        },
        None => Ok(index),
    }
}

/// Reads the named token of kind `tag` that `data` begins with.
pub fn make_ident_or_error(data: &str, tag: Tag) -> (r: Result<(TOKEN, usize), ASTError>)
    ensures
        yields(r, named(data@, tag)),
        r matches Ok((_, n)) ==> 0 < n <= data@.len(),
{
    match ensure_word_to_end(data) {
        Err(e) => Err(e),
        Ok(n) => {
            if n == 0 {
                Err(ASTError::new(Reason::ExpectedWord))
            } else {
                let name = data.substring_char(0, n);
                assert(data@.subrange(0, n as int) == data@.take(n as int));
                Ok((TOKEN::from_tag(tag, name), n))
            }
        },
    }
}

} // verus!
