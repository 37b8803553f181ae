use crate::array::array_token;
use crate::array::lemma_array_len;
use crate::array::parse_array;
use crate::chars::letter;
use crate::chars::decimal_digit;
use crate::chars::is_letter;
use crate::chars::is_decimal_digit;
use crate::chars::is_whitespace;
use crate::chars::whitespace;
use crate::delimiters::comment_len;
use crate::delimiters::lemma_comment_len;
use crate::delimiters::seek_past_newline;
use crate::delimiters::seek_past_whitespace;
use crate::delimiters::whitespace_run;
use crate::error::ASTError;
use crate::error::Reason;
use crate::number::lemma_number_len;
use crate::number::number;
use crate::number::parse_number;
use crate::outcome::shifted;
use crate::outcome::yields;
use crate::outcome::Scan;
use crate::quoted::lemma_quoted_len;
use crate::quoted::parse_quoted;
use crate::quoted::quoted_token;
use crate::runs::lemma_run_len;
use crate::text::after_chars;
use crate::text::count_fits;
use crate::token::Lexeme;
use crate::token::Tag;
use crate::token::TOKEN;
use crate::word::lemma_named_len;
use crate::word::make_ident_or_error;
use crate::word::named;
use vstd::prelude::*;
use vstd::string::StrSliceExecFns;

verus! {

/// The kind of token that the sigil `c` introduces, if `c` is a sigil.
pub open spec fn sigil_tag(c: char) -> Option<Tag> {
    if c == ':' {
        Some(Tag::Property)
    } else if c == ',' {
        Some(Tag::Interface)
    } else if c == '\'' {
        Some(Tag::Type)
    } else if c == '@' {
        Some(Tag::Declaration)
    } else if c == '%' {
        Some(Tag::Builtin)
    } else if c == '#' {
        Some(Tag::Pre)
    } else {
        None
    }
}

/// Whether a token may start with `c`.
pub open spec fn starts_token(c: char) -> bool {
    ||| c == ';'
    ||| sigil_tag(c) is Some
    ||| c == '('
    ||| c == ')'
    ||| c == '"'
    ||| c == '['
    ||| is_whitespace(c)
    ||| is_letter(c)
    ||| is_decimal_digit(c)
}

/// The token at the start of the text `s`, which is not empty, and the number
/// of characters it takes up, from the first character of `s` on.
///
/// The first character decides the kind. A sigil, a quote or a bracket is
/// counted with what it introduces: the scanners of names and of strings
/// count from behind it, so one is added, and the scanner of arrays counts
/// both brackets itself. Whitespace counts as a comment, so that a caller
/// skips both alike.
pub open spec fn lex(s: Seq<char>) -> Scan
    recommends
        s.len() > 0,
{
    let c = s[0];
    let rest = s.skip(1);
    if c == ';' {
        Ok((Lexeme::Comment, comment_len(s)))
    } else if sigil_tag(c) is Some {
        shifted(named(rest, sigil_tag(c)->0), 1)
    } else if c == '(' {
        Ok((Lexeme::OParen, 1))
    } else if c == ')' {
        Ok((Lexeme::CParen, 1))
    } else if c == '"' {
        shifted(quoted_token(rest), 1)
    } else if c == '[' {
        array_token(rest)
    } else if is_whitespace(c) {
        Ok((Lexeme::Comment, 1 + whitespace_run(rest)))
    } else if is_letter(c) {
        named(s, Tag::Words)
    } else if is_decimal_digit(c) {
        number(s)
    } else {
        Err(Reason::InvalidLeadingCharacter(c))
    }
}

/// A token is never empty and never reaches past the end of the text.
pub proof fn lemma_lex_len(s: Seq<char>)
    requires
        s.len() > 0,
    ensures
        lex(s) matches Ok((_, n)) ==> 0 < n <= s.len(),
{
    let c = s[0];
    let rest = s.skip(1);
    if c == ';' {
        lemma_comment_len(s);
    } else if sigil_tag(c) is Some {
        lemma_named_len(rest, sigil_tag(c)->0);
    } else if c == '(' || c == ')' {
    } else if c == '"' {
        lemma_quoted_len(rest);
    } else if c == '[' {
        lemma_array_len(rest);
    } else if is_whitespace(c) {
        lemma_run_len(rest, |c: char| is_whitespace(c));
    } else if is_letter(c) {
        lemma_named_len(s, Tag::Words);
    } else if is_decimal_digit(c) {
        lemma_number_len(s);
    }
}

/// The kind of token that `c` introduces, if it is a sigil.
fn sigil(c: char) -> (tag: Option<Tag>)
    ensures
        tag == sigil_tag(c),
{
    if c == ':' {
        Some(Tag::Property)
    } else if c == ',' {
        Some(Tag::Interface)
    } else if c == '\'' {
        Some(Tag::Type)
    } else if c == '@' {
        Some(Tag::Declaration)
    } else if c == '%' {
        Some(Tag::Builtin)
    } else if c == '#' {
        Some(Tag::Pre)
    } else {
        None
    }
}

/// Counts the first character in: `r` is what a scanner made of the text
/// after it.
fn with_head(r: Result<(TOKEN, usize), ASTError>) -> (out: Result<(TOKEN, usize), ASTError>)
    requires
        r matches Ok((_, n)) ==> n < usize::MAX,
    ensures
        match r {
            Ok((token, n)) => out == Ok::<_, ASTError>((token, (n + 1) as usize)),
            Err(e) => out == Err::<(TOKEN, usize), _>(e),
        },
{
    match r {
        Ok((token, n)) => Ok((token, n + 1)),
        Err(e) => Err(e),
    }
}

/// Reads the token that `data` begins with, and says how many characters of
/// `data` it takes up. The caller goes on behind them, and asks for no token
/// where no text is left: `data` must not be empty.
pub fn tokenize(data: &str) -> (r: Result<(TOKEN, usize), ASTError>)
    requires
        data@.len() > 0,
    ensures
        yields(r, lex(data@)),
        r matches Ok((_, n)) ==> 0 < n <= data@.len(),
{
    count_fits(data);
    proof {
        lemma_lex_len(data@);
    }
    let c = data.get_char(0);
    if c == ';' {
        Ok((TOKEN::Comment, seek_past_newline(data)))
    } else if let Some(tag) = sigil(c) {
        with_head(make_ident_or_error(after_chars(data, 1), tag))
    } else if c == '(' {
        Ok((TOKEN::OParen, 1))
    } else if c == ')' {
        Ok((TOKEN::CParen, 1))
    } else if c == '"' {
        with_head(parse_quoted(after_chars(data, 1)))
    } else if c == '[' {
        parse_array(after_chars(data, 1))
    } else if whitespace(c) {
        Ok((TOKEN::Comment, 1 + seek_past_whitespace(after_chars(data, 1))))
    } else if letter(c) {
        make_ident_or_error(data, Tag::Words)
    } else if decimal_digit(c) {
        parse_number(data)
    } else {
        Err(ASTError::new(Reason::InvalidLeadingCharacter(c)))
    }
}

} // verus!
