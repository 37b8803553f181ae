use crate::chars::is_whitespace;
use crate::chars::whitespace;
use crate::error::ASTError;
use crate::error::Reason;
use crate::outcome::after;
use crate::outcome::lemma_after_after;
use crate::outcome::lemma_after_nothing;
use crate::outcome::yields;
use crate::outcome::Scan;
use crate::quoted::lemma_quoted_len;
use crate::quoted::lemma_quoted_local;
use crate::quoted::lemma_quoted_reasons;
use crate::runs::agree;
use crate::runs::lemma_agree_skip;
use crate::quoted::quoted;
use crate::quoted::unquote;
use crate::text::count_fits;
use crate::token::lemma_array_view;
use crate::token::Lexeme;
use crate::token::TOKEN;
use vstd::prelude::*;
use vstd::std_specs::iter::IteratorSpec;

verus! {

/// The elements of an array, and how many characters they take up behind the
/// opening bracket, the closing one counted, or the reason why it is no
/// array.
pub type Elements = Result<(Seq<Lexeme>, nat), Reason>;

/// The array whose opening bracket stands just before `s`. Its elements are
/// quoted strings, in the order in which they stand; whitespace may stand
/// around them; a bracket closes the array and is counted. Nothing else may
/// stand in an array, be it the start of another kind of token or not: the
/// first character that is none of these is reported as an invalid element.
pub open spec fn elements(s: Seq<char>) -> Elements
    decreases s.len(),
    via elements_decreases
{
    if s.len() == 0 {
        Err(Reason::UnterminatedArray)
    } else if s[0] == ']' {
        Ok((Seq::empty(), 1))
    } else if is_whitespace(s[0]) {
        after(Seq::empty(), 1, elements(s.skip(1)))
    } else if s[0] == '"' {
        match quoted(s.skip(1)) {
            Err(reason) => Err(reason),
            Ok((text, n)) => after(
                seq![Lexeme::Quoted(text)],
                1 + n,
                elements(s.skip(1 + n as int)),
            ),
        }
    } else {
        Err(Reason::InvalidArrayElement(s[0]))
    }
}

#[via_fn]
proof fn elements_decreases(s: Seq<char>) {
    if s.len() > 0 {
        lemma_quoted_len(s.skip(1));
    }
}

/// The array token whose opening bracket stands just before `s`. Its length
/// is that of the whole array, both brackets counted: one more than what it
/// takes up of `s`.
pub open spec fn array_token(s: Seq<char>) -> Scan {
    match elements(s) {
        Ok((items, n)) => Ok((Lexeme::Array(items), n + 1)),
        Err(reason) => Err(reason),
    }
}

/// What an array takes up behind its opening bracket is not empty, stays
/// inside the text and ends with the closing bracket.
pub proof fn lemma_elements_closed(s: Seq<char>)
    ensures
        elements(s) matches Ok((_, n)) ==> 0 < n <= s.len() && s[n - 1] == ']',
    decreases s.len(),
{
    if s.len() == 0 || s[0] == ']' {
    } else if is_whitespace(s[0]) {
        lemma_elements_closed(s.skip(1));
    } else if s[0] == '"' {
        lemma_quoted_len(s.skip(1));
        if let Ok((_, n)) = quoted(s.skip(1)) {
            lemma_elements_closed(s.skip(1 + n as int));
        }
    }
}

/// An array is decided by its own characters, closing bracket included.
pub proof fn lemma_elements_local(s: Seq<char>, t: Seq<char>)
    requires
        elements(s) matches Ok((_, n)) && agree(s, t, n),
    ensures
        elements(t) == elements(s),
    decreases s.len(),
{
    lemma_elements_closed(s);
    let n = elements(s)->Ok_0.1;
    if s[0] == ']' {
    } else if is_whitespace(s[0]) {
        lemma_elements_closed(s.skip(1));
        lemma_agree_skip(s, t, n, 1);
        lemma_elements_local(s.skip(1), t.skip(1));
    } else {
        let inner = quoted(s.skip(1))->Ok_0.1;
        lemma_quoted_len(s.skip(1));
        lemma_elements_closed(s.skip(1 + inner as int));
        lemma_agree_skip(s, t, n, 1);
        lemma_quoted_local(s.skip(1), t.skip(1));
        lemma_agree_skip(s, t, n, 1 + inner);
        lemma_elements_local(s.skip(1 + inner as int), t.skip(1 + inner as int));
    }
}

/// An array token has its two brackets at least, and ends where the closing
/// bracket stands in the text.
pub proof fn lemma_array_len(s: Seq<char>)
    ensures
        array_token(s) matches Ok((_, n)) ==> 2 <= n <= s.len() + 1 && s[n - 2] == ']',
{
    lemma_elements_closed(s);
}

/// An array token is decided by the characters of the array.
pub proof fn lemma_array_local(s: Seq<char>, t: Seq<char>)
    requires
        array_token(s) matches Ok((_, n)) && agree(s, t, (n - 1) as nat),
    ensures
        array_token(t) == array_token(s),
{
    lemma_elements_local(s, t);
}

/// An array fails for want of its closing bracket, for a character that is
/// no element, or as the quoted string fails that is one of its elements.
pub proof fn lemma_elements_reasons(s: Seq<char>)
    ensures
        elements(s) matches Err(reason) ==> {
            ||| reason is UnterminatedArray
            ||| reason is InvalidArrayElement
            ||| reason is UnterminatedString
            ||| reason is InvalidEscapeCharacter
        },
    decreases s.len(),
{
    if s.len() == 0 || s[0] == ']' {
    } else if is_whitespace(s[0]) {
        lemma_elements_reasons(s.skip(1));
    } else if s[0] == '"' {
        lemma_quoted_len(s.skip(1));
        lemma_quoted_reasons(s.skip(1));
        if let Ok((_, n)) = quoted(s.skip(1)) {
            lemma_elements_reasons(s.skip(1 + n as int));
        }
    }
}

/// Reads the array whose opening bracket stands just before `data`. The
/// length is that of the whole array, both brackets counted, so it reaches
/// one past what the array takes up of `data`; for that the character count
/// of `data` has to stay under the largest `usize`.
pub fn parse_array(data: &str) -> (r: Result<(TOKEN, usize), ASTError>)
    requires
        data@.len() < usize::MAX,
    ensures
        yields(r, array_token(data@)),
        r matches Ok((_, n)) ==> 2 <= n <= data@.len() + 1 && data@[n - 2] == ']',
{
    count_fits(data);
    let mut it = data.chars();
    let mut items: Vec<TOKEN> = Vec::new();
    let ghost mut read: Seq<Lexeme> = Seq::empty();
    let mut index: usize = 0;
    proof {
        lemma_after_nothing(elements(data@));
        lemma_elements_closed(data@);
        lemma_array_len(data@);
        assert(data@.skip(0) =~= data@);
    }
    loop
        invariant
            index <= data@.len() < usize::MAX,
            it.remaining() == data@.skip(index as int),
            it.decrease() is Some,
            items@.len() == read.len(),
            forall|i: int| 0 <= i < read.len() ==> (#[trigger] items@[i])@ == read[i],
            elements(data@) == after(read, index as nat, elements(data@.skip(index as int))),
            elements(data@) matches Ok((_, n)) ==> n <= data@.len(),
        decreases data@.len() - index,
    {
        let ghost s = data@.skip(index as int);
        match it.next() {
            None => {
                return Err(ASTError::new(Reason::UnterminatedArray));
            },
            Some(c) => {
                assert(c == s[0]);
                assert(s.drop_first() =~= s.skip(1));
                assert(s.skip(1) =~= data@.skip(index + 1));
                if c == ']' {
                    proof {
                        assert(read + Seq::<Lexeme>::empty() =~= read);
                        lemma_array_view(items, read);
                    }
                    return Ok((TOKEN::Array(items), index + 2));
                } else if whitespace(c) {
                    proof {
                        lemma_after_after(
                            read,
                            index as nat,
                            Seq::empty(),
                            1,
                            elements(s.skip(1)),
                        );
                        assert(read + Seq::<Lexeme>::empty() =~= read);
                    }
                    index += 1;
                } else if c == '"' {
                    proof {
                        lemma_quoted_len(s.skip(1));
                    }
                    match unquote(&mut it) {
                        Err(e) => {
                            return Err(e);
                        },
                        Ok((text, n)) => {
                            proof {
                                let item = Lexeme::Quoted(text@);
                                lemma_after_after(
                                    read,
                                    index as nat,
                                    seq![item],
                                    (1 + n) as nat,
                                    elements(s.skip(1 + n)),
                                );
                                assert(s.skip(1).skip(n as int) =~= data@.skip(index + 1 + n));
                                assert(s.skip(1 + n) =~= data@.skip(index + 1 + n));
                                read = read + seq![item];
                            }
                            items.push(TOKEN::Quoted(text));
                            index = index + 1 + n;
                        },
                    }
                } else {
                    return Err(ASTError::new(Reason::InvalidArrayElement(c)));
                }
            },
        }
    }
}

} // verus!
