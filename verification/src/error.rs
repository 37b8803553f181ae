use vstd::prelude::*;
use vstd::string::StringExecFns;

verus! {

/// Why a scan failed. The set is closed: every error the lexer returns carries
/// exactly one of these.
#[derive(Clone, Copy, Debug, PartialEq, Eq, Structural)]
pub enum Reason {
    /// The text to read a token from starts with this character, and no
    /// token starts with it.
    InvalidLeadingCharacter(char),
    /// A word was due and a delimiter, or the end of the text, stood there.
    ExpectedWord,
    /// Inside a word stood this character, neither a word character nor a
    /// delimiter.
    InvalidCharacterInWord(char),
    /// Inside a quoted string a backslash was followed by this character.
    InvalidEscapeCharacter(char),
    /// The text ended inside a quoted string.
    UnterminatedString,
    /// The text ended inside an array.
    UnterminatedArray,
    /// Inside an array stood this character, where only a quoted string,
    /// whitespace or the closing bracket may stand.
    InvalidArrayElement(char),
    /// A numeric literal does not fit the token's payload.
    NumberTooLarge,
}

impl Reason {
    /// The message that goes with the reason.
    pub open spec fn message(self) -> Seq<char> {
        match self {
            Reason::InvalidLeadingCharacter(c) => "invalid token: "@.push(c),
            Reason::ExpectedWord => "expected a word"@,
            Reason::InvalidCharacterInWord(c) => "invalid character in word "@.push(c),
            Reason::InvalidEscapeCharacter(c) => "invalid escape character "@.push(c),
            Reason::UnterminatedString => "expected closing \""@,
            Reason::UnterminatedArray => "expected closing ]"@,
            Reason::InvalidArrayElement(c) => "invalid array element: "@.push(c),
            Reason::NumberTooLarge => "number too large"@,
        }
    }
}

/// A lexical error: the message, then the reason it stands for.
#[derive(Debug)]
pub struct ASTError(pub String, pub Reason);

impl ASTError {
    /// The error is the one for `reason`: it names it and carries its message.
    pub open spec fn reports(&self, reason: Reason) -> bool {
        self.1 == reason && self.0@ == reason.message()
    }

    /// The error for `reason`, with its message.
    pub fn new(reason: Reason) -> (e: ASTError)
        ensures
            e.reports(reason),
    {
        let text = match reason {
            Reason::InvalidLeadingCharacter(c) => naming("invalid token: ", c),
            Reason::ExpectedWord => String::from_str("expected a word"),
            Reason::InvalidCharacterInWord(c) => naming("invalid character in word ", c),
            Reason::InvalidEscapeCharacter(c) => naming("invalid escape character ", c),
            Reason::UnterminatedString => String::from_str("expected closing \""),
            Reason::UnterminatedArray => String::from_str("expected closing ]"),
            Reason::InvalidArrayElement(c) => naming("invalid array element: ", c),
            Reason::NumberTooLarge => String::from_str("number too large"),
        };
        ASTError(text, reason)
    }

    /// The reason, for a caller that branches on it.
    pub fn reason(&self) -> (r: Reason)
        ensures
            r == self.1,
    {
        self.1
    }
}

/// The message that names the character `c` after `prefix`.
fn naming(prefix: &str, c: char) -> (text: String)
    ensures
        text@ == prefix@.push(c),
{
    let mut text = String::from_str(prefix);
    text.push(c);
    text
}

} // verus!
