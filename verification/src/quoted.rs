use crate::error::ASTError;
use crate::error::Reason;
use crate::outcome::after;
use crate::outcome::lemma_after_after;
use crate::outcome::lemma_after_nothing;
use crate::outcome::yields;
use crate::outcome::Scan;
use crate::runs::agree;
use crate::runs::lemma_agree_skip;
use crate::text::count_fits;
use crate::token::Lexeme;
use crate::token::TOKEN;
use std::str::Chars;
use vstd::prelude::*;
use vstd::std_specs::iter::IteratorSpec;

verus! {

/// What the inside of a quoted string decodes to, and how many characters it
/// takes up, or the reason why it is no string.
pub type Decoded = Result<(Seq<char>, nat), Reason>;

/// The character that a backslash and `c` stand for. `x` and `u` take no
/// digits: each stands for U+0010.
pub open spec fn escape_value(c: char) -> Option<char> {
    if c == 'n' {
        Some('\n')
    } else if c == 't' {
        Some('\t')
    } else if c == 'r' {
        Some('\r')
    } else if c == '0' {
        Some('\0')
    } else if c == 'x' || c == 'u' {
        Some('\u{10}')
    } else if c == '\\' || c == '"' {
        Some(c)
    } else {
        None
    }
}

/// The quoted string whose opening quote stands just before `s`. A quote
/// closes it and is counted; a backslash and the character after it decode to
/// one character; every other character stands for itself. The first fault
/// from the left decides the reason.
pub open spec fn quoted(s: Seq<char>) -> Decoded
    decreases s.len(),
{
    if s.len() == 0 {
        Err(Reason::UnterminatedString)
    } else if s[0] == '"' {
        Ok((Seq::empty(), 1))
    } else if s[0] == '\\' {
        if s.len() == 1 {
            Err(Reason::UnterminatedString)
        } else {
            match escape_value(s[1]) {
                None => Err(Reason::InvalidEscapeCharacter(s[1])),
                Some(c) => after(seq![c], 2, quoted(s.skip(2))),
            }
        }
    } else {
        after(seq![s[0]], 1, quoted(s.skip(1)))
    }
}

/// The token that `quoted` decodes.
pub open spec fn quoted_token(s: Seq<char>) -> Scan {
    match quoted(s) {
        Ok((text, n)) => Ok((Lexeme::Quoted(text), n)),
        Err(reason) => Err(reason),
    }
}

/// A quoted string takes up at least its closing quote, which is the last
/// character it takes up, stays inside the text, and decodes to fewer
/// characters than it takes up.
pub proof fn lemma_quoted_len(s: Seq<char>)
    ensures
        quoted(s) matches Ok((text, n)) ==> text.len() < n <= s.len() && s[n - 1] == '"',
    decreases s.len(),
{
    if s.len() == 0 || s[0] == '"' {
    } else if s[0] == '\\' {
        if s.len() > 1 {
            lemma_quoted_len(s.skip(2));
        }
    } else {
        lemma_quoted_len(s.skip(1));
    }
}

/// A quoted string fails for want of its closing quote or for an escape
/// that is none.
pub proof fn lemma_quoted_reasons(s: Seq<char>)
    ensures
        quoted(s) matches Err(reason) ==> reason is UnterminatedString
            || reason is InvalidEscapeCharacter,
    decreases s.len(),
{
    if s.len() == 0 || s[0] == '"' {
    } else if s[0] == '\\' {
        if s.len() > 1 {
            lemma_quoted_reasons(s.skip(2));
        }
    } else {
        lemma_quoted_reasons(s.skip(1));
    }
}

/// Text without quote or backslash, then a quote, decodes to the text itself.
pub proof fn lemma_quoted_plain(t: Seq<char>, s: Seq<char>)
    requires
        forall|i: int| 0 <= i < t.len() ==> #[trigger] t[i] != '"' && t[i] != '\\',
        t.len() < s.len(),
        s.take(t.len() as int) == t,
        s[t.len() as int] == '"',
    ensures
        quoted(s) == Ok::<_, Reason>((t, t.len() + 1)),
    decreases t.len(),
{
    if t.len() == 0 {
        assert(t =~= Seq::empty());
    } else {
        assert(s[0] == t[0]) by {
            assert(s.take(t.len() as int)[0] == t[0]);
        }
        let t1 = t.skip(1);
        let s1 = s.skip(1);
        assert(s1.take(t1.len() as int) =~= t1) by {
            assert forall|i: int| 0 <= i < t1.len() implies s1.take(t1.len() as int)[i]
                == t1[i] by {
                assert(s.take(t.len() as int)[i + 1] == t[i + 1]);
            }
        }
        lemma_quoted_plain(t1, s1);
        assert(seq![s[0]] + t1 =~= t);
    }
}

/// A quoted string is decided by its own characters, closing quote included.
pub proof fn lemma_quoted_local(s: Seq<char>, t: Seq<char>)
    requires
        quoted(s) matches Ok((_, n)) && agree(s, t, n),
    ensures
        quoted(t) == quoted(s),
    decreases s.len(),
{
    lemma_quoted_len(s);
    let n = quoted(s)->Ok_0.1;
    if s[0] == '"' {
    } else if s[0] == '\\' {
        lemma_quoted_len(s.skip(2));
        lemma_agree_skip(s, t, n, 2);
        lemma_quoted_local(s.skip(2), t.skip(2));
    } else {
        lemma_quoted_len(s.skip(1));
        lemma_agree_skip(s, t, n, 1);
        lemma_quoted_local(s.skip(1), t.skip(1));
    }
}

/// The character that a backslash and `c` stand for.
fn unescape(c: char) -> (r: Option<char>)
    ensures
        r == escape_value(c),
{
    if c == 'n' {
        Some('\n')
    } else if c == 't' {
        Some('\t')
    } else if c == 'r' {
        Some('\r')
    } else if c == '0' {
        Some('\0')
    } else if c == 'x' || c == 'u' {
        Some('\u{10}')
    } else if c == '\\' || c == '"' {
        Some(c)
    } else {
        None
    }
}

/// Decodes the quoted string that the characters still to come from `it`
/// begin with, and leaves `it` behind the closing quote.
pub(crate) fn unquote(it: &mut Chars<'_>) -> (r: Result<(String, usize), ASTError>)
    requires
        (*old(it)).remaining().len() <= usize::MAX,
        (*old(it)).decrease() is Some,
    ensures
        (*final(it)).decrease() is Some,
        match quoted((*old(it)).remaining()) {
            Ok((text, n)) => {
                &&& r matches Ok((buf, len))
                &&& buf@ == text
                &&& len == n
                &&& (*final(it)).remaining() == (*old(it)).remaining().skip(n as int)
            },
            Err(reason) => r matches Err(e) && e.reports(reason),
        },
{
    let mut buf = String::new();
    let mut index: usize = 0;
    proof {
        lemma_after_nothing(quoted((*old(it)).remaining()));
        assert((*old(it)).remaining().skip(0) =~= (*old(it)).remaining());
    }
    loop
        invariant
            index <= (*old(it)).remaining().len() <= usize::MAX,
            (*it).decrease() is Some,
            (*it).remaining() == (*old(it)).remaining().skip(index as int),
            quoted((*old(it)).remaining()) == after(
                buf@,
                index as nat,
                quoted((*old(it)).remaining().skip(index as int)),
            ),
        decreases (*it).decrease()->0,
    {
        let ghost s = (*old(it)).remaining().skip(index as int);
        match it.next() {
            None => {
                return Err(ASTError::new(Reason::UnterminatedString));
            },
            Some(c) => {
                assert(c == s[0]);
                assert(s.drop_first() =~= s.skip(1));
                assert(s.skip(1) =~= (*old(it)).remaining().skip(index + 1));
                if c == '"' {
                    proof {
                        assert(buf@ + Seq::<char>::empty() =~= buf@);
                    }
                    return Ok((buf, index + 1));
                }
                if c == '\\' {
                    match it.next() {
                        None => {
                            return Err(ASTError::new(Reason::UnterminatedString));
                        },
                        Some(e) => {
                            assert(e == s[1]);
                            assert(s.skip(1).drop_first() =~= s.skip(2));
                            assert(s.skip(2) =~= (*old(it)).remaining().skip(index + 2));
                            match unescape(e) {
                                None => {
                                    return Err(
                                        ASTError::new(Reason::InvalidEscapeCharacter(e)),
                                    );
                                },
                                Some(v) => {
                                    proof {
                                        lemma_after_after(
                                            buf@,
                                            index as nat,
                                            seq![v],
                                            2,
                                            quoted(s.skip(2)),
                                        );
                                        assert(buf@ + seq![v] =~= buf@.push(v));
                                    }
                                    buf.push(v);
                                    index += 2;
                                },
                            }
                        },
                    }
                } else {
                    proof {
                        lemma_after_after(buf@, index as nat, seq![c], 1, quoted(s.skip(1)));
                        assert(buf@ + seq![c] =~= buf@.push(c));
                    }
                    buf.push(c);
                    index += 1;
                }
            },
        }
    }
}

/// Reads the quoted string whose opening quote stands just before `data`.
/// The length counts the characters of `data` through the closing quote.
pub fn parse_quoted(data: &str) -> (r: Result<(TOKEN, usize), ASTError>)
    ensures
        yields(r, quoted_token(data@)),
        r matches Ok((_, n)) ==> 0 < n <= data@.len() && data@[n - 1] == '"',
{
    count_fits(data);
    let mut it = data.chars();
    proof {
        lemma_quoted_len(data@);
    }
    match unquote(&mut it) {
        Ok((text, n)) => Ok((TOKEN::Quoted(text), n)),
        Err(e) => Err(e),
    }
}

} // verus!
