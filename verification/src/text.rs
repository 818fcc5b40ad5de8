//! Strings as sequences of characters, and their UTF-8 bytes.

use vstd::prelude::*;
use vstd::string::*;
use vstd::utf8::*;

verus! {

/// The encoding of a concatenation is the concatenation of the encodings.
pub proof fn lemma_encode_utf8_concat(a: Seq<char>, b: Seq<char>)
    ensures
        encode_utf8(a + b) == encode_utf8(a) + encode_utf8(b),
    decreases a.len(),
{
    if a.len() == 0 {
        assert(a + b =~= b);
        assert(encode_utf8(a) + encode_utf8(b) =~= encode_utf8(b));
    } else {
        lemma_encode_utf8_concat(a.drop_first(), b);
        assert((a + b).drop_first() =~= a.drop_first() + b);
        assert(encode_utf8(a + b) =~= encode_utf8(a) + encode_utf8(b));
    }
}

/// A string ends with another exactly when its bytes end with the other's bytes.
pub proof fn lemma_suffix_of_bytes(s: Seq<char>, t: Seq<char>)
    ensures
        t.is_suffix_of(s) <==> encode_utf8(t).is_suffix_of(encode_utf8(s)),
{
    let bs = encode_utf8(s);
    let bt = encode_utf8(t);
    encode_utf8_valid_utf8(s);
    encode_utf8_valid_utf8(t);
    encode_utf8_decode_utf8(s);
    encode_utf8_decode_utf8(t);
    if t.is_suffix_of(s) {
        let head = s.subrange(0, s.len() - t.len());
        assert(s =~= head + t);
        lemma_encode_utf8_concat(head, t);
        assert(bt =~= bs.subrange(bs.len() - bt.len(), bs.len() as int));
    }
    if bt.is_suffix_of(bs) {
        let cut = bs.len() - bt.len();
        if bt.len() == 0 {
            assert(t =~= s.subrange(s.len() as int, s.len() as int));
        } else {
            is_char_boundary_iff_is_leading_byte(bt, 0);
            assert(bs[cut] == bt[0]);
            is_char_boundary_iff_is_leading_byte(bs, cut);
            decode_utf8_split(bs, cut);
            let head = decode_utf8(bs.subrange(0, cut));
            assert(bs.subrange(cut, bs.len() as int) =~= bt);
            assert(s =~= head + t);
            assert(t =~= s.subrange(s.len() - t.len(), s.len() as int));
        }
    }
}

/// Whether `s` ends with `suffix`, character for character.
pub fn ends_with(s: &str, suffix: &str) -> (r: bool)
    ensures
        r == suffix@.is_suffix_of(s@),
{
    let whole = s.as_bytes();
    let tail = suffix.as_bytes();
    proof {
        lemma_suffix_of_bytes(s@, suffix@);
    }
    if tail.len() > whole.len() {
        return false;
    }
    let start: usize = whole.len() - tail.len();
    let mut i: usize = 0;
    while i < tail.len()
        invariant
            start + tail.len() == whole.len(),
            i <= tail.len(),
            suffix@.is_suffix_of(s@) <==> tail@.is_suffix_of(whole@),
            forall|j: int| 0 <= j < i ==> whole@[start + j] == tail@[j],
        decreases tail.len() - i,
    {
        if whole[start + i] != tail[i] {
            assert(tail@[i as int] != whole@.subrange(start as int, whole@.len() as int)[i as int]);
            return false;
        }
        i += 1;
    }
    assert(tail@ =~= whole@.subrange(start as int, whole@.len() as int));
    true
}

/// Whether two texts are the same, character for character.
pub fn same_text(a: &str, b: &str) -> (r: bool)
    ensures
        r == (a@ == b@),
{
    let r = ends_with(a, b) && ends_with(b, a);
    proof {
        if r {
            assert(a@ =~= b@);
        }
        if a@ == b@ {
            assert(a@ =~= b@.subrange(0, b@.len() as int));
        }
    }
    r
}

/// `text` without the white space at its two ends, as `str::trim` gives it.
pub uninterp spec fn trimmed(text: Seq<char>) -> Seq<char>;

/// `str::trim`: the text without its leading and trailing white space. Which
/// characters are white space is Unicode's to say, so the result is named,
/// not spelled out.
#[verifier::external_body]
pub(crate) fn trim(text: &str) -> (r: &str)
    ensures
        r@ == trimmed(text@),
{
    text.trim()
}

/// `core::str::from_utf8`: the text that `bytes` encode, where they are valid
/// UTF-8, and nothing where they are not. The text borrows the bytes, so its
/// own bytes are the ones given.
#[verifier::external_body]
fn utf8_text(bytes: &[u8]) -> (r: Option<&str>)
    ensures
        r is Some <==> valid_utf8(bytes@),
        r matches Some(text) ==> text.spec_bytes() == bytes@,
{
    match core::str::from_utf8(bytes) {
        Ok(text) => Some(text),
        Err(_) => None,
    }
}

/// The text that `bytes` encode, where they are valid UTF-8.
pub fn decode(bytes: &[u8]) -> (r: Option<&str>)
    ensures
        r is Some <==> valid_utf8(bytes@),
        r matches Some(text) ==> text@ == decode_utf8(bytes@),
{
    let r = utf8_text(bytes);
    proof {
        if let Some(text) = r {
            encode_utf8_decode_utf8(text@);
        }
    }
    r
}

} // verus!
