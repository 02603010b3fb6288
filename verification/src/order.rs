//! Byte-wise comparison of strings.
//!
//! The canonical encoding orders map keys by byte-wise comparison of their
//! UTF-8 bytes. The comparison here is verified against a lexicographic
//! order on byte sequences.

use vstd::prelude::*;
use vstd::string::StringSliceAdditionalSpecFns;
use vstd::utf8::encode_utf8_decode_utf8;

verus! {

/// Strict lexicographic (byte-wise) order on byte sequences: `a` is a
/// proper prefix of `b`, or the byte at the first differing position is
/// smaller in `a`.
pub open spec fn bytes_lt(a: Seq<u8>, b: Seq<u8>) -> bool {
    (a.len() < b.len() && a == b.take(a.len() as int)) || (exists|i: int|
        0 <= i < a.len() && i < b.len() && a.take(i) == b.take(i) && a[i] < b[i])
}

/// The outcome of a byte-wise comparison.
pub enum KeyOrder {
    Less,
    Equal,
    Greater,
}

proof fn lemma_first_diff(a: Seq<u8>, b: Seq<u8>, i: int)
    requires
        0 <= i < a.len(),
        i < b.len(),
        a.take(i) == b.take(i),
        a[i] < b[i],
    ensures
        bytes_lt(a, b),
        !bytes_lt(b, a),
        a != b,
{
    assert(bytes_lt(a, b));
    assert(a[i] != b[i]);
    if b.len() < a.len() && b == a.take(b.len() as int) {
        assert(a.take(b.len() as int)[i] == a[i]);
        assert(false);
    }
    if exists|j: int| 0 <= j < b.len() && j < a.len() && b.take(j) == a.take(j) && b[j] < a[j] {
        let j = choose|j: int|
            0 <= j < b.len() && j < a.len() && b.take(j) == a.take(j) && b[j] < a[j];
        if j < i {
            assert(a.take(i)[j] == a[j]);
            assert(b.take(i)[j] == b[j]);
            assert(false);
        } else if j == i {
            assert(false);
        } else {
            assert(b.take(j)[i] == b[i]);
            assert(a.take(j)[i] == a[i]);
            assert(false);
        }
    }
}

/// Compares two byte slices lexicographically.
pub fn bytes_cmp(a: &[u8], b: &[u8]) -> (r: KeyOrder)
    ensures
        (r is Less) == bytes_lt(a@, b@),
        (r is Equal) == (a@ == b@),
        (r is Greater) == bytes_lt(b@, a@),
{
    let alen = a.len();
    let blen = b.len();
    let n = if alen < blen {
        alen
    } else {
        blen
    };
    let mut i: usize = 0;
    while i < n
        invariant
            n <= a@.len(),
            n <= b@.len(),
            n == if a@.len() < b@.len() {
                a@.len()
            } else {
                b@.len()
            },
            i <= n,
            a@.take(i as int) == b@.take(i as int),
        decreases n - i,
    {
        let x = a[i];
        let y = b[i];
        if x < y {
            proof {
                lemma_first_diff(a@, b@, i as int);
            }
            return KeyOrder::Less;
        }
        if y < x {
            proof {
                lemma_first_diff(b@, a@, i as int);
            }
            return KeyOrder::Greater;
        }
        proof {
            assert(a@.take(i + 1) =~= b@.take(i + 1));
        }
        i = i + 1;
    }
    if alen == blen {
        proof {
            assert(a@.take(n as int) =~= a@);
            assert(b@.take(n as int) =~= b@);
            assert(a@ == b@);
        }
        KeyOrder::Equal
    } else if alen < blen {
        proof {
            assert(a@.take(a@.len() as int) =~= a@);
            assert(a@ == b@.take(a@.len() as int));
            assert(bytes_lt(a@, b@));
            assert(a@.len() != b@.len());
            if exists|j: int|
                0 <= j < b@.len() && j < a@.len() && b@.take(j) == a@.take(j) && b@[j] < a@[j] {
                let j = choose|j: int|
                    0 <= j < b@.len() && j < a@.len() && b@.take(j) == a@.take(j) && b@[j] < a@[j];
                assert(b@.take(a@.len() as int)[j] == b@[j]);
                assert(false);
            }
        }
        KeyOrder::Less
    } else {
        proof {
            assert(b@.take(b@.len() as int) =~= b@);
            assert(b@ == a@.take(b@.len() as int));
            assert(bytes_lt(b@, a@));
            if exists|j: int|
                0 <= j < a@.len() && j < b@.len() && a@.take(j) == b@.take(j) && a@[j] < b@[j] {
                let j = choose|j: int|
                    0 <= j < a@.len() && j < b@.len() && a@.take(j) == b@.take(j) && a@[j] < b@[j];
                assert(a@.take(b@.len() as int)[j] == a@[j]);
                assert(false);
            }
        }
        KeyOrder::Greater
    }
}

/// Compares the UTF-8 bytes of two string slices; `Equal` means the strings
/// are equal as character sequences.
pub fn str_cmp(a: &str, b: &str) -> (r: KeyOrder)
    ensures
        (r is Less) == bytes_lt(a.spec_bytes(), b.spec_bytes()),
        (r is Equal) == (a@ == b@),
        (r is Greater) == bytes_lt(b.spec_bytes(), a.spec_bytes()),
{
    let r = bytes_cmp(a.as_bytes(), b.as_bytes());
    proof {
        if a.spec_bytes() == b.spec_bytes() {
            encode_utf8_decode_utf8(a@);
            encode_utf8_decode_utf8(b@);
            assert(a@ == b@);
        }
    }
    r
}

} // verus!
