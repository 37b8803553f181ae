use crate::array::lemma_array_local;
use crate::array::lemma_elements_reasons;
use crate::chars::is_ascii_letter;
use crate::chars::is_decimal_digit;
use crate::chars::is_letter;
use crate::chars::is_whitespace;
use crate::chars::is_word_char;
use crate::delimiters::lemma_comment_local;
use crate::delimiters::whitespace_run;
use crate::error::Reason;
use crate::lexer::lemma_lex_len;
use crate::lexer::lex;
use crate::lexer::sigil_tag;
use crate::lexer::starts_token;
use crate::number::lemma_number_local;
use crate::quoted::lemma_quoted_local;
use crate::quoted::lemma_quoted_plain;
use crate::quoted::lemma_quoted_reasons;
use crate::quoted::quoted_token;
use crate::runs::agree;
use crate::runs::lemma_agree_skip;
use crate::runs::lemma_run_len_at_least;
use crate::runs::lemma_run_len_local;
use crate::runs::lemma_run_len_unique;
use crate::token::Lexeme;
use crate::token::Tag;
use crate::word::lemma_named_local;
use vstd::prelude::*;

verus! {

/// The characters of a plain name: ASCII letters, decimal digits, `-`, `_`.
pub open spec fn is_plain_name_char(c: char) -> bool {
    is_ascii_letter(c) || is_decimal_digit(c) || c == '-' || c == '_'
}

/// A sigil, a plain name and a space read as the token of the sigil's kind
/// with that name, and the token takes up the sigil and the name.
pub proof fn law_sigil_and_name(sigil: char, name: Seq<char>)
    requires
        sigil_tag(sigil) is Some,
        name.len() > 0,
        forall|i: int| 0 <= i < name.len() ==> is_plain_name_char(#[trigger] name[i]),
    ensures
        lex(seq![sigil] + name + seq![' ']) == Ok::<_, Reason>(
            (sigil_tag(sigil)->0.lexeme(name), 1 + name.len()),
        ),
{
    let s = seq![sigil] + name + seq![' '];
    let rest = s.skip(1);
    assert(rest =~= name + seq![' ']);
    assert forall|i: int| 0 <= i < name.len() implies is_word_char(#[trigger] rest[i]) by {
        assert(rest[i] == name[i]);
        assert(is_plain_name_char(name[i]));
    }
    lemma_run_len_unique(rest, |c: char| is_word_char(c), name.len());
    assert(rest.take(name.len() as int) =~= name);
}

/// A sigil with nothing after it is an error: a word was expected.
pub proof fn law_sigil_alone(sigil: char)
    requires
        sigil_tag(sigil) is Some,
    ensures
        lex(seq![sigil]) == Err::<(Lexeme, nat), _>(Reason::ExpectedWord),
{
    assert(seq![sigil].skip(1) =~= Seq::<char>::empty());
}

/// Text without quote or backslash, between quotes, reads as the quoted
/// string of that text. The token takes up the text and both quotes; the
/// scanner for the inside of a string, which starts behind the opening quote,
/// counts the text and the closing quote.
pub proof fn law_plain_string(text: Seq<char>)
    requires
        forall|i: int| 0 <= i < text.len() ==> #[trigger] text[i] != '"' && text[i] != '\\',
    ensures
        quoted_token(text + seq!['"']) == Ok::<_, Reason>(
            (Lexeme::Quoted(text), text.len() + 1),
        ),
        lex(seq!['"'] + text + seq!['"']) == Ok::<_, Reason>(
            (Lexeme::Quoted(text), text.len() + 2),
        ),
{
    let inside = text + seq!['"'];
    assert(inside.take(text.len() as int) =~= text);
    lemma_quoted_plain(text, inside);
    assert((seq!['"'] + text + seq!['"']).skip(1) =~= inside);
}

/// A text whose first character starts no token fails with that character
/// as the invalid leading one, and no other text fails for that reason.
pub proof fn law_invalid_leading_character(s: Seq<char>)
    requires
        s.len() > 0,
    ensures
        !starts_token(s[0]) ==> lex(s) == Err::<(Lexeme, nat), _>(
            Reason::InvalidLeadingCharacter(s[0]),
        ),
        starts_token(s[0]) ==> !(lex(s) matches Err(reason) && reason is InvalidLeadingCharacter),
{
    lemma_quoted_reasons(s.skip(1));
    lemma_elements_reasons(s.skip(1));
}

/// Each reason comes from one kind of token only: a failure tells what the
/// text began with.
pub proof fn law_reason_tells_the_token(s: Seq<char>)
    requires
        s.len() > 0,
    ensures
        lex(s) matches Err(reason) ==> match reason {
            Reason::InvalidLeadingCharacter(c) => c == s[0] && !starts_token(c),
            Reason::ExpectedWord => sigil_tag(s[0]) is Some,
            Reason::InvalidCharacterInWord(_) => sigil_tag(s[0]) is Some || is_letter(s[0]),
            Reason::InvalidEscapeCharacter(_) => s[0] == '"' || s[0] == '[',
            Reason::UnterminatedString => s[0] == '"' || s[0] == '[',
            Reason::UnterminatedArray => s[0] == '[',
            Reason::InvalidArrayElement(_) => s[0] == '[',
            Reason::NumberTooLarge => is_decimal_digit(s[0]),
        },
{
    lemma_quoted_reasons(s.skip(1));
    lemma_elements_reasons(s.skip(1));
    if is_letter(s[0]) {
        lemma_run_len_at_least(s, |c: char| is_word_char(c), 1);
    }
}

/// Each whitespace character at the start of a text adds one to the count of
/// the whitespace there, so a token made of whitespace is never empty.
pub proof fn law_whitespace_counts_up(c: char, s: Seq<char>)
    requires
        is_whitespace(c),
    ensures
        whitespace_run(seq![c] + s) == 1 + whitespace_run(s),
        lex(seq![c] + s) == Ok::<_, Reason>((Lexeme::Comment, 1 + whitespace_run(s))),
{
    assert((seq![c] + s).drop_first() =~= s);
    assert((seq![c] + s).skip(1) =~= s);
}

/// Every token takes up at least one character and none beyond the text, so
/// that what is left for the next call is a shorter text that begins right
/// behind the token: nothing is read twice and nothing is left out.
pub proof fn law_token_advances(s: Seq<char>)
    requires
        s.len() > 0,
    ensures
        lex(s) matches Ok((_, n)) ==> {
            &&& 0 < n <= s.len()
            &&& s.take(n as int) + s.skip(n as int) == s
            &&& s.skip(n as int).len() < s.len()
        },
{
    lemma_lex_len(s);
    if let Ok((_, n)) = lex(s) {
        assert(s.take(n as int) + s.skip(n as int) =~= s);
    }
}

/// A token that ends before the end of the text is decided by its own
/// characters and the one that follows it. What comes later has no part in
/// it: a text that agrees that far begins with the same token.
pub proof fn law_token_is_local(s: Seq<char>, t: Seq<char>)
    requires
        s.len() > 0,
        lex(s) matches Ok((_, n)) && agree(s, t, n + 1),
    ensures
        lex(t) == lex(s),
{
    lemma_lex_len(s);
    let n = lex(s)->Ok_0.1;
    let c = s[0];
    assert(t[0] == c);
    lemma_agree_skip(s, t, n + 1, 1);
    let rest_s = s.skip(1);
    let rest_t = t.skip(1);
    if c == ';' {
        lemma_comment_local(s, t);
    } else if sigil_tag(c) is Some {
        lemma_named_local(rest_s, rest_t, sigil_tag(c)->0);
    } else if c == '(' || c == ')' {
    } else if c == '"' {
        lemma_quoted_local(rest_s, rest_t);
    } else if c == '[' {
        lemma_array_local(rest_s, rest_t);
    } else if is_whitespace(c) {
        lemma_run_len_local(rest_s, rest_t, |c: char| is_whitespace(c));
    } else if is_letter(c) {
        lemma_named_local(s, t, Tag::Words);
    } else if is_decimal_digit(c) {
        lemma_number_local(s, t);
    }
}

} // verus!
