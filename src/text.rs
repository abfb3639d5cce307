//! Text helpers: character-wise comparison of strings, conversion of a
//! string to its characters, and UTF-8 byte offsets of character positions.
use vstd::prelude::*;
use vstd::std_specs::iter::IteratorSpec;
use vstd::utf8::{encode_scalar, encode_utf8, has_width_1_encoding, has_width_2_encoding, has_width_3_encoding, char_is_scalar};

verus! {

/// Whether two strings hold the same characters.
pub fn str_eq(a: &str, b: &str) -> (r: bool)
    ensures
        r == (a@ == b@),
{
    let n = a.unicode_len();
    if n != b.unicode_len() {
        return false;
    }
    let mut i: usize = 0;
    while i < n
        invariant
            n == a@.len(),
            n == b@.len(),
            i <= n,
            forall|j: int| 0 <= j < i ==> a@[j] == b@[j],
        decreases n - i,
    {
        if a.get_char(i) != b.get_char(i) {
            return false;
        }
        i = i + 1;
    }
    assert(a@ =~= b@);
    true
}

/// The characters of a string, in order.
pub fn chars_of(s: &str) -> (r: Vec<char>)
    ensures
        r@ == s@,
{
    broadcast use vstd::string::group_string_axioms;

    let mut r: Vec<char> = Vec::new();
    for c in it: s.chars()
        invariant
            r@ == it.seq().subrange(0, it.index() as int),
            it.seq() == s@,
    {
        r.push(c);
    }
    assert(r@ =~= s@);
    r
}

/// The number of bytes that UTF-8 spends on the characters of `s`.
pub open spec fn utf8_len(s: Seq<char>) -> nat {
    encode_utf8(s).len()
}

/// The UTF-8 encoding of a concatenation is the concatenation of the encodings.
pub proof fn lemma_utf8_len_concat(a: Seq<char>, b: Seq<char>)
    ensures
        utf8_len(a + b) == utf8_len(a) + utf8_len(b),
    decreases a.len(),
{
    if a.len() == 0 {
        assert(a + b =~= b);
    } else {
        assert((a + b).drop_first() =~= a.drop_first() + b);
        lemma_utf8_len_concat(a.drop_first(), b);
    }
}

/// Every character takes at least one byte, so a prefix takes no more bytes than the whole.
pub proof fn lemma_utf8_len_prefix(s: Seq<char>, i: int)
    requires
        0 <= i <= s.len(),
    ensures
        i <= utf8_len(s.subrange(0, i)) <= utf8_len(s),
        utf8_len(s.subrange(0, i)) + (s.len() - i) <= utf8_len(s),
    decreases s.len(),
{
    lemma_utf8_len_at_least(s.subrange(i, s.len() as int));
    lemma_utf8_len_at_least(s.subrange(0, i));
    assert(s =~= s.subrange(0, i) + s.subrange(i, s.len() as int));
    lemma_utf8_len_concat(s.subrange(0, i), s.subrange(i, s.len() as int));
}

/// A piece of a string takes no more bytes than the whole.
pub proof fn lemma_utf8_len_subrange(s: Seq<char>, a: int, b: int)
    requires
        0 <= a <= b <= s.len(),
    ensures
        utf8_len(s.subrange(a, b)) <= utf8_len(s),
{
    let x = s.subrange(0, a);
    let y = s.subrange(a, b);
    let z = s.subrange(b, s.len() as int);
    assert(s =~= x + (y + z));
    lemma_utf8_len_concat(x, y + z);
    lemma_utf8_len_concat(y, z);
}

/// A string takes at least one byte per character.
pub proof fn lemma_utf8_len_at_least(s: Seq<char>)
    ensures
        s.len() <= utf8_len(s),
    decreases s.len(),
{
    if s.len() > 0 {
        lemma_utf8_len_at_least(s.drop_first());
    }
}

/// The number of bytes UTF-8 spends on one character.
pub fn utf8_width(c: char) -> (r: usize)
    ensures
        r == encode_scalar(c as u32).len(),
        1 <= r <= 4,
{
    proof {
        char_is_scalar(c);
    }
    let v = c as u32;
    if v <= 0x7F {
        1
    } else if v <= 0x7FF {
        2
    } else if v <= 0xFFFF {
        3
    } else {
        4
    }
}

/// The byte offset of the character at index `i` of `s`.
pub fn byte_offset(s: &Vec<char>, i: usize, limit: usize) -> (r: usize)
    requires
        i <= s@.len(),
        utf8_len(s@) <= limit,
    ensures
        r == utf8_len(s@.subrange(0, i as int)),
{
    let mut k: usize = 0;
    let mut total: usize = 0;
    while k < i
        invariant
            k <= i <= s@.len(),
            utf8_len(s@) <= limit,
            total == utf8_len(s@.subrange(0, k as int)),
        decreases i - k,
    {
        proof {
            let a = s@.subrange(0, k as int);
            let c = seq![s@[k as int]];
            assert(s@.subrange(0, k + 1) =~= a + c);
            lemma_utf8_len_concat(a, c);
            assert(c.drop_first() =~= Seq::<char>::empty());
            assert(encode_utf8(Seq::<char>::empty()).len() == 0);
            assert(utf8_len(c) == encode_scalar(s@[k as int] as u32).len());
            lemma_utf8_len_prefix(s@, k + 1);
        }
        total = total + utf8_width(s[k]);
        k = k + 1;
    }
    total
}

} // verus!
