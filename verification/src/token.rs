use vstd::prelude::*;
use vstd::string::StringExecFns;

verus! {

/// The kinds of token that carry a name: one for each sigil, and one for a
/// bare word.
#[derive(Clone, Copy, Debug, PartialEq, Eq, Structural)]
pub enum Tag {
    Type,
    Declaration,
    Property,
    Builtin,
    Pre,
    Interface,
    Words,
}

/// One lexical unit.
#[derive(Debug, PartialEq)]
pub enum TOKEN {
    Type(String),
    Declaration(String),
    Property(String),
    Builtin(String),
    Pre(String),
    Interface(String),
    CParen,
    OParen,
    /// A `;` comment, or a run of whitespace.
    Comment,
    /// The decoded text of a quoted string.
    Quoted(String),
    /// A decimal fraction: the digits read as one number, and how many of
    /// them stood after the point. `Float(m, k)` is `m / 10^k`.
    Float(u64, usize),
    Array(Vec<TOKEN>),
    Number(u64),
    Words(String),
}

/// What a token is, as mathematics: text as a sequence of characters, numbers
/// unbounded, an array as a sequence of tokens.
pub enum Lexeme {
    Type(Seq<char>),
    Declaration(Seq<char>),
    Property(Seq<char>),
    Builtin(Seq<char>),
    Pre(Seq<char>),
    Interface(Seq<char>),
    CParen,
    OParen,
    Comment,
    Quoted(Seq<char>),
    Float(nat, nat),
    Array(Seq<Lexeme>),
    Number(nat),
    Words(Seq<char>),
}

impl View for TOKEN {
    type V = Lexeme;

    open spec fn view(&self) -> Lexeme
        decreases self,
    {
        match self {
            TOKEN::Type(name) => Lexeme::Type(name@),
            TOKEN::Declaration(name) => Lexeme::Declaration(name@),
            TOKEN::Property(name) => Lexeme::Property(name@),
            TOKEN::Builtin(name) => Lexeme::Builtin(name@),
            TOKEN::Pre(name) => Lexeme::Pre(name@),
            TOKEN::Interface(name) => Lexeme::Interface(name@),
            TOKEN::CParen => Lexeme::CParen,
            TOKEN::OParen => Lexeme::OParen,
            TOKEN::Comment => Lexeme::Comment,
            TOKEN::Quoted(text) => Lexeme::Quoted(text@),
            TOKEN::Float(digits, scale) => Lexeme::Float(*digits as nat, *scale as nat),
            TOKEN::Array(elements) => Lexeme::Array(
                Seq::new(
                    elements@.len(),
                    |i: int|
                        if 0 <= i < elements@.len() {
                            elements@[i]@
                        } else {
                            Lexeme::Comment
                        },
                ),
            ),
            TOKEN::Number(value) => Lexeme::Number(*value as nat),
            TOKEN::Words(name) => Lexeme::Words(name@),
        }
    }
}

impl Tag {
    /// The named token of this kind.
    pub open spec fn lexeme(self, name: Seq<char>) -> Lexeme {
        match self {
            Tag::Type => Lexeme::Type(name),
            Tag::Declaration => Lexeme::Declaration(name),
            Tag::Property => Lexeme::Property(name),
            Tag::Builtin => Lexeme::Builtin(name),
            Tag::Pre => Lexeme::Pre(name),
            Tag::Interface => Lexeme::Interface(name),
            Tag::Words => Lexeme::Words(name),
        }
    }
}

impl TOKEN {
    /// The named token of kind `tag`, with a copy of `data` as its name.
    pub fn from_tag(tag: Tag, data: &str) -> (token: TOKEN)
        ensures
            token@ == tag.lexeme(data@),
    {
        let name = String::from_str(data);
        match tag {
            Tag::Type => TOKEN::Type(name),
            Tag::Declaration => TOKEN::Declaration(name),
            Tag::Property => TOKEN::Property(name),
            Tag::Builtin => TOKEN::Builtin(name),
            Tag::Pre => TOKEN::Pre(name),
            Tag::Interface => TOKEN::Interface(name),
            Tag::Words => TOKEN::Words(name),
        }
    }
}

/// The view of an array is the sequence of its elements' views.
pub proof fn lemma_array_view(elements: Vec<TOKEN>, lexemes: Seq<Lexeme>)
    requires
        elements@.len() == lexemes.len(),
        forall|i: int| 0 <= i < lexemes.len() ==> (#[trigger] elements@[i])@ == lexemes[i],
    ensures
        TOKEN::Array(elements)@ == Lexeme::Array(lexemes),
{
    assert(TOKEN::Array(elements)@->Array_0 =~= lexemes);
}

} // verus!
