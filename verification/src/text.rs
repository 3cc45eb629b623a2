//! Byte-level view of text: the UTF-8 encoding of a string, the order that
//! sorting uses on it, and the link back to the string's characters.

use vstd::prelude::*;
use vstd::string::StringSliceAdditionalSpecFns;
use vstd::utf8::{decode_utf8, encode_utf8, encode_utf8_decode_utf8};

verus! {

/// The UTF-8 bytes of a string given by its characters.
pub open spec fn utf8(chars: Seq<char>) -> Seq<u8> {
    encode_utf8(chars)
}

/// `a` and `b` agree on their first `k` bytes, and `a` is the smaller one at
/// position `k`: either `a` ends there and `b` goes on, or `a` holds the
/// smaller byte.
pub open spec fn decided_at(a: Seq<u8>, b: Seq<u8>, k: int) -> bool {
    &&& 0 <= k <= a.len()
    &&& k < b.len()
    &&& forall|j: int| 0 <= j < k ==> a[j] == b[j]
    &&& k < a.len() ==> a[k] < b[k]
}

/// Lexicographic order on byte strings, the order in which identifiers are
/// sorted.
pub open spec fn lex_lt(a: Seq<u8>, b: Seq<u8>) -> bool {
    exists|k: int| decided_at(a, b, k)
}

/// How two byte strings compare.
#[derive(Clone, Copy, PartialEq, Eq, Structural, Debug)]
pub enum Order {
    Before,
    Same,
    After,
}

/// No byte string is smaller than itself.
pub proof fn lemma_lex_irreflexive(a: Seq<u8>)
    ensures
        !lex_lt(a, a),
{
}

/// The order is transitive.
pub proof fn lemma_lex_transitive(a: Seq<u8>, b: Seq<u8>, c: Seq<u8>)
    requires
        lex_lt(a, b),
        lex_lt(b, c),
    ensures
        lex_lt(a, c),
{
    let k1 = choose|k: int| decided_at(a, b, k);
    let k2 = choose|k: int| decided_at(b, c, k);
    let k = if k1 <= k2 { k1 } else { k2 };
    assert(decided_at(a, c, k));
}

/// Two strings never precede each other both ways.
pub proof fn lemma_lex_asymmetric(a: Seq<u8>, b: Seq<u8>)
    requires
        lex_lt(a, b),
    ensures
        !lex_lt(b, a),
{
    if lex_lt(b, a) {
        lemma_lex_transitive(a, b, a);
        lemma_lex_irreflexive(a);
    }
}

/// Strings with the same bytes have the same characters.
pub proof fn lemma_same_bytes_same_chars(a: Seq<char>, b: Seq<char>)
    requires
        utf8(a) == utf8(b),
    ensures
        a == b,
{
    encode_utf8_decode_utf8(a);
    encode_utf8_decode_utf8(b);
}

/// Strings whose bytes are decided at some position: the first is the
/// smaller, the second is not, and they are not the same string.
pub proof fn lemma_decided(a: Seq<char>, b: Seq<char>, k: int)
    requires
        decided_at(utf8(a), utf8(b), k),
    ensures
        lex_lt(utf8(a), utf8(b)),
        !lex_lt(utf8(b), utf8(a)),
        a != b,
{
    lemma_lex_asymmetric(utf8(a), utf8(b));
    lemma_lex_irreflexive(utf8(a));
}

/// Compares two strings byte by byte.
pub fn compare(a: &str, b: &str) -> (order: Order)
    ensures
        order == Order::Before <==> lex_lt(a.spec_bytes(), b.spec_bytes()),
        order == Order::Same <==> a@ == b@,
        order == Order::After <==> lex_lt(b.spec_bytes(), a.spec_bytes()),
{
    let x = a.as_bytes();
    let y = b.as_bytes();
    let mut i: usize = 0;
    while i < x.len() && i < y.len()
        invariant
            x@ == a.spec_bytes(),
            y@ == b.spec_bytes(),
            i <= x@.len(),
            i <= y@.len(),
            forall|j: int| 0 <= j < i ==> x@[j] == y@[j],
        decreases x@.len() - i,
    {
        if x[i] < y[i] {
            proof {
                lemma_decided(a@, b@, i as int);
            }
            return Order::Before;
        }
        if y[i] < x[i] {
            proof {
                lemma_decided(b@, a@, i as int);
            }
            return Order::After;
        }
        i += 1;
    }
    if i < y.len() {
        proof {
            lemma_decided(a@, b@, i as int);
        }
        Order::Before
    } else if i < x.len() {
        proof {
            lemma_decided(b@, a@, i as int);
        }
        Order::After
    } else {
        proof {
            assert(x@ =~= y@);
            lemma_same_bytes_same_chars(a@, b@);
            lemma_lex_irreflexive(x@);
        }
        Order::Same
    }
}

} // verus!
