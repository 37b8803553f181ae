use vstd::prelude::*;
use vstd::std_specs::iter::IteratorSpec;
use vstd::string::StringSliceAdditionalSpecFns;
use vstd::utf8::encode_scalar;
use vstd::utf8::encode_utf8;
use vstd::utf8::encode_utf8_decode_utf8;
use vstd::utf8::encode_utf8_first_scalar;
use vstd::utf8::encode_utf8_valid_utf8;
use vstd::utf8::is_char_boundary;
use vstd::utf8::pop_first_scalar;

verus! {

/// `String::push` appends the character to the end of the string: what the
/// string held stays, and the character follows it.
pub assume_specification[ String::push ](s: &mut String, c: char)
    ensures
        final(s)@ == old(s)@.push(c),
;

/// The number of bytes that the first `k` characters of `s` take in UTF-8.
pub open spec fn byte_offset(s: Seq<char>, k: int) -> nat {
    encode_utf8(s.take(k)).len()
}

/// Every character takes at least one byte in UTF-8.
proof fn lemma_encoding_not_shorter(s: Seq<char>)
    ensures
        s.len() <= encode_utf8(s).len(),
    decreases s.len(),
{
    if s.len() > 0 {
        lemma_encoding_not_shorter(s.drop_first());
        lemma_encoding_of_one(s[0]);
    }
}

/// A single character encodes as its scalar value does.
proof fn lemma_encoding_of_one(c: char)
    ensures
        encode_utf8(seq![c]) == encode_scalar(c as u32),
        encode_scalar(c as u32).len() >= 1,
{
    let rest = seq![c].drop_first();
    assert(rest =~= Seq::<char>::empty());
    assert(encode_utf8(rest) =~= Seq::<u8>::empty());
    assert(encode_utf8(seq![c]) =~= encode_scalar(c as u32));
}

/// The encoding of a text is the encoding of its parts, one after the other.
proof fn lemma_encoding_of_parts(a: Seq<char>, b: Seq<char>)
    ensures
        encode_utf8(a + b) == encode_utf8(a) + encode_utf8(b),
    decreases a.len(),
{
    if a.len() == 0 {
        assert(a + b =~= b);
        assert(encode_utf8(a) + encode_utf8(b) =~= encode_utf8(b));
    } else {
        lemma_encoding_of_parts(a.drop_first(), b);
        assert((a + b).drop_first() =~= a.drop_first() + b);
        assert((a + b)[0] == a[0]);
        assert(encode_utf8(a + b) =~= encode_utf8(a) + encode_utf8(b));
    }
}

/// The encoding of `s` splits behind its first `k` characters: a character
/// begins there, and what follows encodes the rest of `s`.
proof fn lemma_split_behind(s: Seq<char>, k: int)
    requires
        0 <= k <= s.len(),
    ensures
        byte_offset(s, k) <= encode_utf8(s).len(),
        is_char_boundary(encode_utf8(s), byte_offset(s, k) as int),
        encode_utf8(s).subrange(byte_offset(s, k) as int, encode_utf8(s).len() as int)
            == encode_utf8(s.skip(k)),
    decreases k,
{
    let bytes = encode_utf8(s);
    assert(s.take(k) + s.skip(k) =~= s);
    lemma_encoding_of_parts(s.take(k), s.skip(k));
    assert(bytes.subrange(byte_offset(s, k) as int, bytes.len() as int) =~= encode_utf8(
        s.skip(k),
    ));
    encode_utf8_valid_utf8(s);
    if k > 0 {
        let tail = s.drop_first();
        encode_utf8_first_scalar(s);
        assert(pop_first_scalar(bytes) =~= encode_utf8(tail));
        assert(s.take(k) =~= seq![s[0]] + tail.take(k - 1));
        lemma_encoding_of_parts(seq![s[0]], tail.take(k - 1));
        lemma_encoding_of_one(s[0]);
        lemma_split_behind(tail, k - 1);
    }
}

/// A counter of type `usize` can count the characters of any string slice:
/// its bytes are counted by one, and it has no more characters than bytes.
pub fn count_fits(data: &str)
    ensures
        data@.len() <= usize::MAX,
{
    let bytes = data.as_bytes();
    let _ = bytes.len();
    proof {
        lemma_encoding_not_shorter(data@);
    }
}

/// The number of bytes that `c` takes in UTF-8.
fn utf8_width(c: char) -> (width: usize)
    ensures
        width == encode_scalar(c as u32).len(),
        1 <= width <= 4,
{
    if c <= '\u{7f}' {
        1
    } else if c <= '\u{7ff}' {
        2
    } else if c <= '\u{ffff}' {
        3
    } else {
        4
    }
}

/// The text behind the first `n` characters of `data`. Only those `n`
/// characters are walked.
pub fn after_chars(data: &str, n: usize) -> (rest: &str)
    requires
        n <= data@.len(),
    ensures
        rest@ == data@.skip(n as int),
{
    let total = data.as_bytes().len();
    let mut it = data.chars();
    let mut walked: usize = 0;
    let mut offset: usize = 0;
    proof {
        assert(data@.take(0) =~= Seq::<char>::empty());
    }
    while walked < n
        invariant
            walked <= n <= data@.len(),
            total == encode_utf8(data@).len(),
            it.remaining() == data@.skip(walked as int),
            offset == byte_offset(data@, walked as int),
        decreases n - walked,
    {
        proof {
            lemma_split_behind(data@, walked + 1);
            assert(data@.take(walked + 1) =~= data@.take(walked as int) + seq![
                data@[walked as int],
            ]);
            lemma_encoding_of_parts(data@.take(walked as int), seq![data@[walked as int]]);
            lemma_encoding_of_one(data@[walked as int]);
        }
        match it.next() {
            None => {
                assert(false);
            },
            Some(c) => {
                assert(data@.skip(walked as int).drop_first() =~= data@.skip(walked + 1));
                offset += utf8_width(c);
            },
        }
        walked += 1;
    }
    proof {
        lemma_split_behind(data@, n as int);
    }
    let (_, rest) = data.split_at(offset);
    proof {
        encode_utf8_decode_utf8(rest@);
        encode_utf8_decode_utf8(data@.skip(n as int));
    }
    rest
}

} // verus!
