use crate::error::ASTError;
use crate::error::Reason;
use crate::lexer::lemma_lex_len;
use crate::lexer::lex;
use crate::lexer::tokenize;
use crate::text::after_chars;
use crate::text::count_fits;
use crate::token::Lexeme;
use crate::token::TOKEN;
use vstd::prelude::*;

verus! {

/// The significant tokens of a text, or the first failure and the offset of
/// the token that failed.
pub type Stream = Result<Seq<Lexeme>, (Reason, nat)>;

/// A stream that follows the token `lexeme` of `n` characters. A comment
/// leaves no token behind, only its length.
pub open spec fn behind(lexeme: Lexeme, n: nat, rest: Stream) -> Stream {
    match rest {
        Ok(tail) => Ok(
            if lexeme is Comment {
                tail
            } else {
                seq![lexeme] + tail
            },
        ),
        Err((reason, at)) => Err((reason, n + at)),
    }
}

/// The tokens of `s`, read one after the other, each from where the one
/// before it ended, to the end of the text. Comments and whitespace are left
/// out. The first token that fails ends the stream with its reason and the
/// number of characters before it.
pub open spec fn token_stream(s: Seq<char>) -> Stream
    decreases s.len(),
    via token_stream_decreases
{
    if s.len() == 0 {
        Ok(Seq::empty())
    } else {
        match lex(s) {
            Err(reason) => Err((reason, 0)),
            Ok((lexeme, n)) => behind(lexeme, n, token_stream(s.skip(n as int))),
        }
    }
}

#[via_fn]
proof fn token_stream_decreases(s: Seq<char>) {
    if s.len() > 0 {
        lemma_lex_len(s);
    }
}

/// The views of a sequence of tokens.
pub open spec fn lexemes(tokens: Seq<TOKEN>) -> Seq<Lexeme> {
    tokens.map_values(|token: TOKEN| token@)
}

/// What has been read so far, and the stream that is still to come.
spec fn so_far(read: Seq<Lexeme>, index: nat, rest: Stream) -> Stream {
    match rest {
        Ok(tail) => Ok(read + tail),
        Err((reason, at)) => Err((reason, index + at)),
    }
}

/// Before anything is read, the whole stream is still to come.
proof fn lemma_so_far_nothing(rest: Stream)
    ensures
        so_far(Seq::empty(), 0, rest) == rest,
{
    if let Ok(tail) = rest {
        assert(Seq::<Lexeme>::empty() + tail =~= tail);
    }
}

/// One more token read: it joins what has been read, unless it is a comment.
proof fn lemma_so_far_step(read: Seq<Lexeme>, index: nat, lexeme: Lexeme, n: nat, rest: Stream)
    ensures
        so_far(read, index, behind(lexeme, n, rest)) == so_far(
            if lexeme is Comment {
                read
            } else {
                read.push(lexeme)
            },
            index + n,
            rest,
        ),
{
    if let Ok(tail) = rest {
        assert(read + (seq![lexeme] + tail) =~= read.push(lexeme) + tail);
    }
}

/// Reads all of `data`: its significant tokens in order, or the error of the
/// first token that fails, with the number of characters before that token.
pub fn tokenize_all(data: &str) -> (r: Result<Vec<TOKEN>, (ASTError, usize)>)
    ensures
        match token_stream(data@) {
            Ok(all) => r matches Ok(tokens) && lexemes(tokens@) == all,
            Err((reason, at)) => r matches Err((e, offset)) && e.reports(reason) && offset == at,
        },
{
    count_fits(data);
    let mut tokens: Vec<TOKEN> = Vec::new();
    let mut rest = data;
    let mut index: usize = 0;
    proof {
        assert(data@.skip(0) =~= data@);
        lemma_so_far_nothing(token_stream(data@));
    }
    while !rest.is_empty()
        invariant
            index <= data@.len() <= usize::MAX,
            rest@ == data@.skip(index as int),
            token_stream(data@) == so_far(lexemes(tokens@), index as nat, token_stream(rest@)),
        decreases rest@.len(),
    {
        match tokenize(rest) {
            Err(e) => {
                return Err((e, index));
            },
            Ok((token, n)) => {
                proof {
                    lemma_so_far_step(
                        lexemes(tokens@),
                        index as nat,
                        token@,
                        n as nat,
                        token_stream(rest@.skip(n as int)),
                    );
                    assert(rest@.skip(n as int) =~= data@.skip(index + n));
                    assert(lexemes(tokens@.push(token)) =~= lexemes(tokens@).push(token@));
                }
                if !is_comment(&token) {
                    tokens.push(token);
                }
                rest = after_chars(rest, n);
                index += n;
            },
        }
    }
    proof {
        assert(lexemes(tokens@) + Seq::<Lexeme>::empty() =~= lexemes(tokens@));
    }
    Ok(tokens)
}

/// Tells whether `token` is a comment.
fn is_comment(token: &TOKEN) -> (b: bool)
    ensures
        b == (token@ is Comment),
{
    match token {
        TOKEN::Comment => true,
        _ => false,
    }
}

} // verus!
