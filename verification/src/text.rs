//! Comparison of texts in the order that `str` and `String` use: the
//! lexicographic order of their UTF-8 bytes.

use vstd::prelude::*;
use vstd::utf8::encode_utf8;
use vstd::utf8::encode_utf8_decode_utf8;

verus! {

/// Strict lexicographic order on byte strings.
pub open spec fn bytes_lt(a: Seq<u8>, b: Seq<u8>) -> bool
    decreases a.len(),
{
    if a.len() == 0 {
        b.len() > 0
    } else if b.len() == 0 {
        false
    } else if a[0] < b[0] {
        true
    } else if a[0] > b[0] {
        false
    } else {
        bytes_lt(a.drop_first(), b.drop_first())
    }
}

/// Strict order on texts: the order of their UTF-8 encodings.
pub open spec fn text_lt(a: Seq<char>, b: Seq<char>) -> bool {
    bytes_lt(encode_utf8(a), encode_utf8(b))
}

/// Three-way outcome of comparing two texts.
#[derive(Clone, Copy, Debug, PartialEq, Eq, Structural)]
pub enum TextOrder {
    Less,
    Equal,
    Greater,
}

pub proof fn lemma_bytes_lt_irreflexive(a: Seq<u8>)
    ensures
        !bytes_lt(a, a),
    decreases a.len(),
{
    if a.len() > 0 {
        lemma_bytes_lt_irreflexive(a.drop_first());
    }
}

pub proof fn lemma_bytes_lt_asymmetric(a: Seq<u8>, b: Seq<u8>)
    ensures
        !(bytes_lt(a, b) && bytes_lt(b, a)),
    decreases a.len(),
{
    if a.len() > 0 && b.len() > 0 && a[0] == b[0] {
        lemma_bytes_lt_asymmetric(a.drop_first(), b.drop_first());
    }
}

pub proof fn lemma_bytes_lt_transitive(a: Seq<u8>, b: Seq<u8>, c: Seq<u8>)
    requires
        bytes_lt(a, b),
        bytes_lt(b, c),
    ensures
        bytes_lt(a, c),
    decreases a.len(),
{
    if a.len() > 0 && b.len() > 0 && c.len() > 0 && a[0] == b[0] && b[0] == c[0] {
        lemma_bytes_lt_transitive(a.drop_first(), b.drop_first(), c.drop_first());
    }
}

pub proof fn lemma_text_lt_transitive(a: Seq<char>, b: Seq<char>, c: Seq<char>)
    requires
        text_lt(a, b),
        text_lt(b, c),
    ensures
        text_lt(a, c),
{
    lemma_bytes_lt_transitive(encode_utf8(a), encode_utf8(b), encode_utf8(c));
}

pub proof fn lemma_text_lt_irreflexive(a: Seq<char>)
    ensures
        !text_lt(a, a),
{
    lemma_bytes_lt_irreflexive(encode_utf8(a));
}

/// Two texts are equal exactly when their encodings are.
pub proof fn lemma_encoding_injective(a: Seq<char>, b: Seq<char>)
    ensures
        (encode_utf8(a) == encode_utf8(b)) <==> (a == b),
{
    encode_utf8_decode_utf8(a);
    encode_utf8_decode_utf8(b);
}

proof fn lemma_bytes_lt_skip(a: Seq<u8>, b: Seq<u8>, i: int)
    requires
        0 <= i < a.len(),
        i < b.len(),
        a[i] == b[i],
    ensures
        bytes_lt(a.skip(i), b.skip(i)) == bytes_lt(a.skip(i + 1), b.skip(i + 1)),
{
    assert(a.skip(i).drop_first() =~= a.skip(i + 1));
    assert(b.skip(i).drop_first() =~= b.skip(i + 1));
}

/// Compares two texts in the order of `str`.
pub fn compare_text(a: &str, b: &str) -> (r: TextOrder)
    ensures
        (r == TextOrder::Less) <==> text_lt(a@, b@),
        (r == TextOrder::Equal) <==> a@ == b@,
        (r == TextOrder::Greater) <==> text_lt(b@, a@),
{
    let x = a.as_bytes();
    let y = b.as_bytes();
    let ghost ea = encode_utf8(a@);
    let ghost eb = encode_utf8(b@);
    proof {
        lemma_encoding_injective(a@, b@);
        lemma_bytes_lt_asymmetric(ea, eb);
        lemma_bytes_lt_irreflexive(ea);
        assert(ea.skip(0) =~= ea);
        assert(eb.skip(0) =~= eb);
    }
    let n = x.len();
    let m = y.len();
    let mut i: usize = 0;
    while i < n && i < m
        invariant
            ea == encode_utf8(a@),
            eb == encode_utf8(b@),
            (ea == eb) <==> (a@ == b@),
            x@ == ea,
            y@ == eb,
            n == x@.len(),
            m == y@.len(),
            i <= n,
            i <= m,
            forall|k: int| 0 <= k < i ==> x@[k] == y@[k],
            bytes_lt(ea, eb) == bytes_lt(ea.skip(i as int), eb.skip(i as int)),
            bytes_lt(eb, ea) == bytes_lt(eb.skip(i as int), ea.skip(i as int)),
        decreases n - i,
    {
        if x[i] < y[i] {
            proof {
                assert(ea.skip(i as int)[0] == x@[i as int]);
                assert(eb.skip(i as int)[0] == y@[i as int]);
                assert(ea[i as int] != eb[i as int]);
                lemma_bytes_lt_asymmetric(ea, eb);
            }
            return TextOrder::Less;
        }
        if x[i] > y[i] {
            proof {
                assert(ea.skip(i as int)[0] == x@[i as int]);
                assert(eb.skip(i as int)[0] == y@[i as int]);
                assert(ea[i as int] != eb[i as int]);
                lemma_bytes_lt_asymmetric(ea, eb);
            }
            return TextOrder::Greater;
        }
        proof {
            lemma_bytes_lt_skip(ea, eb, i as int);
            lemma_bytes_lt_skip(eb, ea, i as int);
        }
        i = i + 1;
    }
    if n == m {
        proof {
            assert(ea =~= eb);
        }
        TextOrder::Equal
    } else if n < m {
        proof {
            assert(ea != eb);
        }
        TextOrder::Less
    } else {
        proof {
            assert(ea != eb);
        }
        TextOrder::Greater
    }
}

/// Whether two texts are equal.
pub fn same_text(a: &str, b: &str) -> (r: bool)
    ensures
        r == (a@ == b@),
{
    match compare_text(a, b) {
        TextOrder::Equal => true,
        _ => false,
    }
}

} // verus!
