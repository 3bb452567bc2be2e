//! Text as characters and as UTF-8 bytes.

use vstd::prelude::*;
use vstd::utf8::{char_is_scalar, encode_scalar, encode_utf8};

verus! {

/// The number of bytes that UTF-8 takes for `s`.
pub open spec fn utf8_len(s: Seq<char>) -> nat {
    encode_utf8(s).len()
}

/// The UTF-8 of two texts one after the other is the UTF-8 of each, one
/// after the other.
pub proof fn lemma_encode_append(a: Seq<char>, b: Seq<char>)
    ensures
        encode_utf8(a + b) == encode_utf8(a) + encode_utf8(b),
    decreases a.len(),
{
    if a.len() == 0 {
        assert(a + b =~= b);
        assert(encode_utf8(a) =~= Seq::<u8>::empty());
        assert(encode_utf8(a) + encode_utf8(b) =~= encode_utf8(b));
    } else {
        lemma_encode_append(a.drop_first(), b);
        assert((a + b).drop_first() =~= a.drop_first() + b);
        assert((a + b)[0] == a[0]);
        assert(encode_utf8(a + b) =~= encode_scalar(a[0] as u32) + encode_utf8(a.drop_first() + b));
        assert(encode_utf8(a + b) =~= encode_utf8(a) + encode_utf8(b));
    }
}

/// The bytes of one more character add that character's bytes.
pub proof fn lemma_utf8_len_step(s: Seq<char>, k: int)
    requires
        0 <= k < s.len(),
    ensures
        utf8_len(s.take(k + 1)) == utf8_len(s.take(k)) + encode_scalar(s[k] as u32).len(),
{
    assert(s.take(k + 1) =~= s.take(k) + seq![s[k]]);
    lemma_encode_append(s.take(k), seq![s[k]]);
    assert(seq![s[k]].drop_first() =~= Seq::<char>::empty());
    assert(encode_utf8(seq![s[k]]) =~= encode_scalar(s[k] as u32) + encode_utf8(Seq::<char>::empty()));
}

/// The bytes of a prefix are at most those of the whole text.
pub proof fn lemma_utf8_len_prefix(s: Seq<char>, k: int)
    requires
        0 <= k <= s.len(),
    ensures
        utf8_len(s.take(k)) <= utf8_len(s),
{
    assert(s =~= s.take(k) + s.skip(k));
    lemma_encode_append(s.take(k), s.skip(k));
}

/// The number of bytes that UTF-8 takes for `c` (what `char::len_utf8` returns).
pub fn utf8_width(c: char) -> (w: usize)
    ensures
        w == encode_scalar(c as u32).len(),
{
    proof {
        char_is_scalar(c);
    }
    let v = c as u32;
    if v < 0x80 {
        1
    } else if v < 0x800 {
        2
    } else if v < 0x10000 {
        3
    } else {
        4
    }
}

/// A copy of each text of `v`, in the same order.
pub fn clone_texts(v: &Vec<String>) -> (r: Vec<String>)
    ensures
        r.deep_view() == v.deep_view(),
{
    let mut r: Vec<String> = Vec::new();
    let n = v.len();
    let mut i: usize = 0;
    while i < n
        invariant
            n == v.len(),
            0 <= i <= n,
            r.len() == i,
            forall|j: int| 0 <= j < i ==> r@[j]@ == v@[j]@,
        decreases n - i,
    {
        r.push(v[i].clone());
        i = i + 1;
    }
    assert(r.deep_view() =~= v.deep_view());
    r
}

/// Whether `t` is one of the texts of `v`.
pub fn contains_text(v: &Vec<String>, t: &String) -> (found: bool)
    ensures
        found == v.deep_view().contains(t@),
{
    let n = v.len();
    let mut i: usize = 0;
    while i < n
        invariant
            n == v.len(),
            0 <= i <= n,
            forall|j: int| 0 <= j < i ==> v@[j]@ != t@,
        decreases n - i,
    {
        if v[i] == *t {
            assert(v.deep_view()[i as int] == t@);
            return true;
        }
        i = i + 1;
    }
    assert forall|j: int| 0 <= j < v.deep_view().len() implies v.deep_view()[j] != t@ by {
        assert(v.deep_view()[j] == v@[j]@);
    }
    false
}

/// Calls `String::insert`, which puts `ch` at the byte position `idx`;
/// `idx` must be where the UTF-8 of some prefix of the text ends, and the
/// character then stands right after that prefix.
#[verifier::external_body]
pub(crate) fn string_insert(s: &mut String, idx: usize, ch: char)
    requires
        exists|k: int| 0 <= k <= old(s)@.len() && idx == utf8_len(#[trigger] old(s)@.take(k)),
    ensures
        forall|k: int|
            0 <= k <= old(s)@.len() && idx == utf8_len(#[trigger] old(s)@.take(k)) ==> final(s)@
                == old(s)@.take(k).push(ch) + old(s)@.skip(k),
{
    s.insert(idx, ch)
}

} // verus!
