//! The canonical binary map format used on the wire and in the state store.
//!
//! Both directions of the format live here. The encoder produces the
//! canonical form: every length is written in its shortest header form, and
//! map entries are written in the order given by the caller (the field map
//! keeps its keys sorted byte-wise, so two logically identical maps always
//! encode to byte-identical output). The decoder is structural and lenient:
//! it accepts any definite-length item of the format, including headers that
//! are not in shortest form, and ignores entries it does not need.
//!
//! Layout of an item: a first byte holding a major kind (the top three bits)
//! and additional info (the low five bits); the additional info either is the
//! argument itself (below 24) or says how many big-endian bytes of argument
//! follow (24 to 27 for 1, 2, 4 or 8 bytes). The argument is the value for
//! integer kinds, the payload length for strings, and the entry count for
//! arrays and maps. Indefinite-length items are not part of the canonical
//! format and are rejected.

use vstd::prelude::*;
use vstd::string::StringSliceAdditionalSpecFns;
use vstd::utf8::encode_utf8;

verus! {

/// The big-endian value of the `k` bytes of `b` starting at `pos`.
pub open spec fn be_val(b: Seq<u8>, pos: int, k: int) -> nat
    decreases k,
{
    if k <= 0 {
        0
    } else {
        (be_val(b, pos, k - 1) * 256 + b[pos + k - 1]) as nat
    }
}

/// 256 to the power `k`.
pub open spec fn pow256(k: int) -> nat
    decreases k,
{
    if k <= 0 {
        1
    } else {
        256 * pow256(k - 1)
    }
}

/// The major kind of the item starting at `pos`: the top three bits.
pub open spec fn major_of(b: Seq<u8>, pos: int) -> u8 {
    b[pos] / 32
}

/// The argument of the item starting at `pos`, with the position just past
/// the item's header, or `None` if the header is malformed or truncated.
pub open spec fn spec_arg(b: Seq<u8>, pos: int) -> Option<(nat, int)> {
    if pos < 0 || pos >= b.len() {
        None
    } else {
        let ai = b[pos] % 32;
        if ai < 24 {
            Some((ai as nat, pos + 1))
        } else if ai == 24 && pos + 2 <= b.len() {
            Some((be_val(b, pos + 1, 1), pos + 2))
        } else if ai == 25 && pos + 3 <= b.len() {
            Some((be_val(b, pos + 1, 2), pos + 3))
        } else if ai == 26 && pos + 5 <= b.len() {
            Some((be_val(b, pos + 1, 4), pos + 5))
        } else if ai == 27 && pos + 9 <= b.len() {
            Some((be_val(b, pos + 1, 8), pos + 9))
        } else {
            None
        }
    }
}

/// The position just past the item starting at `pos`, or `None` if the
/// bytes there do not form a well-formed item.
pub open spec fn item_end(b: Seq<u8>, pos: int) -> Option<int>
    decreases b.len() - pos, 0int,
{
    match spec_arg(b, pos) {
        None => None,
        Some((arg, he)) => {
            if !(pos < he <= b.len()) {
                None
            } else {
                let major = major_of(b, pos);
                if major == 0 || major == 1 || major == 7 {
                    Some(he)
                } else if major == 2 || major == 3 {
                    if he + arg <= b.len() {
                        Some(he + arg)
                    } else {
                        None
                    }
                } else if major == 4 {
                    items_end(b, he, arg)
                } else if major == 5 {
                    entries_end(b, he, arg)
                } else {
                    // major 6: a tag wrapping one item
                    items_end(b, he, 1)
                }
            }
        },
    }
}

/// The position just past `n` consecutive items starting at `pos`.
pub open spec fn items_end(b: Seq<u8>, pos: int, n: nat) -> Option<int>
    decreases b.len() - pos, n + 1,
{
    if n == 0 {
        Some(pos)
    } else {
        match item_end(b, pos) {
            None => None,
            Some(e) => {
                if pos < e <= b.len() {
                    items_end(b, e, (n - 1) as nat)
                } else {
                    None
                }
            },
        }
    }
}

/// The position just past `n` consecutive key/value entry pairs starting
/// at `pos`.
pub open spec fn entries_end(b: Seq<u8>, pos: int, n: nat) -> Option<int>
    decreases b.len() - pos, n + 1,
{
    if n == 0 {
        Some(pos)
    } else {
        match item_end(b, pos) {
            None => None,
            Some(ke) => {
                if !(pos < ke <= b.len()) {
                    None
                } else {
                    match item_end(b, ke) {
                        None => None,
                        Some(ve) => {
                            if ke < ve <= b.len() {
                                entries_end(b, ve, (n - 1) as nat)
                            } else {
                                None
                            }
                        },
                    }
                }
            },
        }
    }
}

/// A byte buffer holds exactly one well-formed item (trailing bytes after
/// the first item are tolerated, as the stream decoder reads one item).
pub open spec fn wf_item(b: Seq<u8>) -> bool {
    item_end(b, 0) is Some
}

/// Whether the item starting at `pos` is a text item whose payload bytes
/// are exactly `key`.
pub open spec fn is_text_item_with(b: Seq<u8>, pos: int, key: Seq<u8>) -> bool {
    match spec_arg(b, pos) {
        None => false,
        Some((arg, he)) => major_of(b, pos) == 3 && he + arg <= b.len() && b.subrange(
            he,
            he + arg,
        ) == key,
    }
}

/// The payload bytes of the text item starting at `pos` (meaningful only
/// when the item there is a well-formed text item).
pub open spec fn text_payload(b: Seq<u8>, pos: int) -> Seq<u8> {
    match spec_arg(b, pos) {
        None => Seq::empty(),
        Some((arg, he)) => b.subrange(he, he + arg),
    }
}

/// Walks `n` map entries starting at `pos` and returns the payload of the
/// text value of the last entry whose key is a text item with payload
/// `key`, or `None` if no such entry has a text value. `acc` carries the
/// result of the entries already walked; the entry seen last wins, as a
/// stream decoder that fills a map in encounter order keeps the last value
/// written under a key.
pub open spec fn lookup_entries(
    b: Seq<u8>,
    pos: int,
    n: nat,
    key: Seq<u8>,
    acc: Option<Seq<u8>>,
) -> Option<Seq<u8>>
    decreases b.len() - pos, n,
{
    if n == 0 {
        acc
    } else {
        match item_end(b, pos) {
            None => acc,
            Some(ke) => {
                if !(pos < ke <= b.len()) {
                    acc
                } else {
                    match item_end(b, ke) {
                        None => acc,
                        Some(ve) => {
                            if !(ke < ve <= b.len()) {
                                acc
                            } else {
                                let acc2 = if is_text_item_with(b, pos, key) {
                                    if major_of(b, ke) == 3 {
                                        Some(text_payload(b, ke))
                                    } else {
                                        None
                                    }
                                } else {
                                    acc
                                };
                                lookup_entries(b, ve, (n - 1) as nat, key, acc2)
                            }
                        },
                    }
                }
            },
        }
    }
}

/// The payload bytes of the text value stored under the text key `key` in
/// the top-level map of `b`, or `None` if `b` is not a well-formed map or
/// holds no text value under that key.
pub open spec fn top_text_field(b: Seq<u8>, key: Seq<u8>) -> Option<Seq<u8>> {
    if !wf_item(b) {
        None
    } else {
        match spec_arg(b, 0) {
            None => None,
            Some((n, he)) => {
                if major_of(b, 0) == 5 {
                    lookup_entries(b, he, n, key, None)
                } else {
                    None
                }
            },
        }
    }
}

proof fn lemma_pow256_le(i: int, j: int)
    requires
        0 <= i <= j,
    ensures
        pow256(i) <= pow256(j),
    decreases j - i,
{
    if i < j {
        lemma_pow256_le(i, j - 1);
        assert(pow256(j) == 256 * pow256(j - 1));
        assert(pow256(j - 1) <= 256 * pow256(j - 1)) by (nonlinear_arith);
    }
}

proof fn lemma_pow256_8()
    ensures
        pow256(8) == 0x1_0000_0000_0000_0000,
{
    assert(pow256(0) == 1);
    assert(pow256(1) == 256);
    assert(pow256(2) == 0x1_0000);
    assert(pow256(3) == 0x100_0000);
    assert(pow256(4) == 0x1_0000_0000);
    assert(pow256(5) == 0x100_0000_0000);
    assert(pow256(6) == 0x1_0000_0000_0000);
    assert(pow256(7) == 0x100_0000_0000_0000);
    assert(pow256(8) == 0x1_0000_0000_0000_0000);
}

/// Reads the `k`-byte big-endian value at `pos`.
fn read_be(b: &[u8], pos: usize, k: usize) -> (r: u64)
    requires
        1 <= k <= 8,
        pos + k <= b@.len(),
    ensures
        r as nat == be_val(b@, pos as int, k as int),
{
    let mut val: u64 = 0;
    let mut i: usize = 0;
    let blen = b.len();
    while i < k
        invariant
            i <= k <= 8,
            blen == b@.len(),
            pos + k <= blen,
            val as nat == be_val(b@, pos as int, i as int),
            (val as nat) < pow256(i as int),
        decreases k - i,
    {
        proof {
            lemma_pow256_le(i as int + 1, 8);
            lemma_pow256_8();
            assert(pow256(i as int + 1) == 256 * pow256(i as int));
            assert((val as nat) * 256 + 256 <= pow256(i as int + 1)) by (nonlinear_arith)
                requires
                    (val as nat) < pow256(i as int),
                    pow256(i as int + 1) == 256 * pow256(i as int),
            ;
        }
        val = val * 256 + (b[pos + i] as u64);
        i = i + 1;
    }
    val
}

/// Parses the header of the item at `pos`: its argument and the position
/// just past the header.
fn parse_head(b: &[u8], pos: usize) -> (r: Option<(u64, usize)>)
    requires
        pos <= b@.len(),
    ensures
        match r {
            Some(p) => spec_arg(b@, pos as int) == Some(((p.0 as nat), p.1 as int)) && pos < p.1
                <= b@.len(),
            None => spec_arg(b@, pos as int) is None,
        },
{
    if pos >= b.len() {
        return None;
    }
    let ai = b[pos] % 32;
    if ai < 24 {
        Some((ai as u64, pos + 1))
    } else if ai == 24 {
        if b.len() - pos >= 2 {
            Some((read_be(b, pos + 1, 1), pos + 2))
        } else {
            None
        }
    } else if ai == 25 {
        if b.len() - pos >= 3 {
            Some((read_be(b, pos + 1, 2), pos + 3))
        } else {
            None
        }
    } else if ai == 26 {
        if b.len() - pos >= 5 {
            Some((read_be(b, pos + 1, 4), pos + 5))
        } else {
            None
        }
    } else if ai == 27 {
        if b.len() - pos >= 9 {
            Some((read_be(b, pos + 1, 8), pos + 9))
        } else {
            None
        }
    } else {
        None
    }
}

/// Validates the item starting at `pos` and returns the position just past
/// it, or `None` if the bytes there are not a well-formed item.
pub fn skip_item(b: &[u8], pos: usize) -> (r: Option<usize>)
    requires
        pos <= b@.len(),
    ensures
        match r {
            Some(e) => item_end(b@, pos as int) == Some(e as int) && pos < e <= b@.len(),
            None => item_end(b@, pos as int) is None,
        },
    decreases b@.len() - pos, 0int,
{
    let ph = parse_head(b, pos);
    let (arg, he) = match ph {
        None => {
            return None;
        },
        Some(p) => p,
    };
    let major = b[pos] / 32;
    if major == 0 || major == 1 || major == 7 {
        Some(he)
    } else if major == 2 || major == 3 {
        if arg <= (b.len() - he) as u64 {
            Some(he + (arg as usize))
        } else {
            None
        }
    } else if major == 4 {
        skip_items(b, he, arg)
    } else if major == 5 {
        skip_entries(b, he, arg)
    } else {
        skip_items(b, he, 1)
    }
}

/// Validates `n` consecutive items starting at `pos`.
fn skip_items(b: &[u8], pos: usize, n: u64) -> (r: Option<usize>)
    requires
        pos <= b@.len(),
    ensures
        match r {
            Some(e) => items_end(b@, pos as int, n as nat) == Some(e as int) && pos <= e
                <= b@.len(),
            None => items_end(b@, pos as int, n as nat) is None,
        },
    decreases b@.len() - pos, n + 1,
{
    let mut cur: usize = pos;
    let mut i: u64 = 0;
    while i < n
        invariant
            pos <= cur <= b@.len(),
            i <= n,
            items_end(b@, pos as int, n as nat) == items_end(b@, cur as int, (n - i) as nat),
        decreases n - i,
    {
        match skip_item(b, cur) {
            None => {
                return None;
            },
            Some(e) => {
                cur = e;
            },
        }
        i = i + 1;
    }
    Some(cur)
}

/// Validates `n` consecutive key/value entry pairs starting at `pos`.
fn skip_entries(b: &[u8], pos: usize, n: u64) -> (r: Option<usize>)
    requires
        pos <= b@.len(),
    ensures
        match r {
            Some(e) => entries_end(b@, pos as int, n as nat) == Some(e as int) && pos <= e
                <= b@.len(),
            None => entries_end(b@, pos as int, n as nat) is None,
        },
    decreases b@.len() - pos, n + 1,
{
    let mut cur: usize = pos;
    let mut i: u64 = 0;
    while i < n
        invariant
            pos <= cur <= b@.len(),
            i <= n,
            entries_end(b@, pos as int, n as nat) == entries_end(b@, cur as int, (n - i) as nat),
        decreases n - i,
    {
        let ke = match skip_item(b, cur) {
            None => {
                return None;
            },
            Some(e) => e,
        };
        match skip_item(b, ke) {
            None => {
                return None;
            },
            Some(e) => {
                cur = e;
            },
        }
        i = i + 1;
    }
    Some(cur)
}

/// Whether the bytes of `b` between `s` and `e` are exactly `key`.
fn range_matches(b: &[u8], s: usize, e: usize, key: &[u8]) -> (r: bool)
    requires
        s <= e <= b@.len(),
    ensures
        r == (b@.subrange(s as int, e as int) == key@),
{
    if e - s != key.len() {
        proof {
            assert(b@.subrange(s as int, e as int).len() != key@.len());
        }
        return false;
    }
    let mut j: usize = 0;
    while j < key.len()
        invariant
            s <= e <= b@.len(),
            e - s == key@.len(),
            j <= key@.len(),
            forall|l: int| 0 <= l < j ==> b@.subrange(s as int, e as int)[l] == key@[l],
        decreases key@.len() - j,
    {
        if b[s + j] != key[j] {
            proof {
                assert(b@.subrange(s as int, e as int)[j as int] != key@[j as int]);
            }
            return false;
        }
        j = j + 1;
    }
    proof {
        assert(b@.subrange(s as int, e as int) =~= key@);
    }
    true
}

/// The payload bytes referred to by a found field: `None` means no match.
spec fn range_view(o: Option<(usize, usize)>, b: Seq<u8>) -> Option<Seq<u8>> {
    match o {
        Some(se) => Some(b.subrange(se.0 as int, se.1 as int)),
        None => None,
    }
}

/// Looks up the text value stored under the text key `key` in the top-level
/// map of `b`, returning the byte range of the value's payload.
pub fn find_text_field(b: &[u8], key: &[u8]) -> (r: Option<(usize, usize)>)
    requires
        wf_item(b@),
    ensures
        match r {
            Some(se) => se.0 <= se.1 <= b@.len() && top_text_field(b@, key@) == Some(
                b@.subrange(se.0 as int, se.1 as int),
            ),
            None => top_text_field(b@, key@) is None,
        },
{
    let ph = parse_head(b, 0);
    let (n, he) = match ph {
        None => {
            proof {
                assert(false);
            }
            return None;
        },
        Some(p) => p,
    };
    if b[0] / 32 != 5 {
        return None;
    }
    let mut cur: usize = he;
    let mut i: u64 = 0;
    let mut best: Option<(usize, usize)> = None;
    while i < n
        invariant
            wf_item(b@),
            spec_arg(b@, 0) == Some(((n as nat), he as int)),
            major_of(b@, 0) == 5,
            he <= cur <= b@.len(),
            i <= n,
            entries_end(b@, cur as int, (n - i) as nat) is Some,
            lookup_entries(b@, he as int, n as nat, key@, None) == lookup_entries(
                b@,
                cur as int,
                (n - i) as nat,
                key@,
                range_view(best, b@),
            ),
            best matches Some(se) ==> se.0 <= se.1 <= b@.len(),
        decreases n - i,
    {
        let ke = match skip_item(b, cur) {
            None => {
                proof {
                    assert(false);
                }
                return None;
            },
            Some(e) => e,
        };
        let ve = match skip_item(b, ke) {
            None => {
                proof {
                    assert(false);
                }
                return None;
            },
            Some(e) => e,
        };
        let kh = parse_head(b, cur);
        let (karg, khe) = match kh {
            None => {
                proof {
                    assert(false);
                }
                return None;
            },
            Some(p) => p,
        };
        let matches_key = if b[cur] / 32 == 3 {
            range_matches(b, khe, ke, key)
        } else {
            false
        };
        proof {
            if b@[cur as int] / 32 == 3 {
                assert(ke as int == khe + karg);
                assert(is_text_item_with(b@, cur as int, key@) == (b@.subrange(
                    khe as int,
                    ke as int,
                ) == key@));
            } else {
                assert(!is_text_item_with(b@, cur as int, key@));
            }
        }
        if matches_key {
            if b[ke] / 32 == 3 {
                let vh = parse_head(b, ke);
                let (varg, vhe) = match vh {
                    None => {
                        proof {
                            assert(false);
                        }
                        return None;
                    },
                    Some(p) => p,
                };
                proof {
                    assert(ve as int == vhe + varg);
                    assert(text_payload(b@, ke as int) == b@.subrange(vhe as int, ve as int));
                }
                best = Some((vhe, ve));
            } else {
                best = None;
            }
        }
        cur = ve;
        i = i + 1;
    }
    proof {
        assert(lookup_entries(b@, cur as int, 0, key@, range_view(best, b@)) == range_view(
            best,
            b@,
        ));
    }
    best
}

/// The canonical (shortest-form) header bytes for major kind `major` with
/// argument `n`.
pub open spec fn head_bytes(major: nat, n: nat) -> Seq<u8> {
    let t = major * 32;
    if n < 24 {
        seq![(t + n) as u8]
    } else if n < 0x100 {
        seq![(t + 24) as u8, n as u8]
    } else if n < 0x10000 {
        seq![(t + 25) as u8, (n / 0x100) as u8, (n % 0x100) as u8]
    } else if n < 0x1_0000_0000 {
        seq![
            (t + 26) as u8,
            (n / 0x100_0000 % 0x100) as u8,
            (n / 0x1_0000 % 0x100) as u8,
            (n / 0x100 % 0x100) as u8,
            (n % 0x100) as u8,
        ]
    } else {
        seq![
            (t + 27) as u8,
            (n / 0x100_0000_0000_0000 % 0x100) as u8,
            (n / 0x1_0000_0000_0000 % 0x100) as u8,
            (n / 0x100_0000_0000 % 0x100) as u8,
            (n / 0x1_0000_0000 % 0x100) as u8,
            (n / 0x100_0000 % 0x100) as u8,
            (n / 0x1_0000 % 0x100) as u8,
            (n / 0x100 % 0x100) as u8,
            (n % 0x100) as u8,
        ]
    }
}

/// The canonical encoding of one text item.
pub open spec fn text_item_bytes(s: Seq<char>) -> Seq<u8> {
    head_bytes(3, encode_utf8(s).len()) + encode_utf8(s)
}

/// The canonical encoding of the entries of a text-to-text map, in the
/// order given.
pub open spec fn entries_bytes(pairs: Seq<(Seq<char>, Seq<char>)>) -> Seq<u8>
    decreases pairs.len(),
{
    if pairs.len() == 0 {
        Seq::empty()
    } else {
        text_item_bytes(pairs[0].0) + text_item_bytes(pairs[0].1) + entries_bytes(
            pairs.drop_first(),
        )
    }
}

/// The canonical encoding of a text-to-text map whose entries stand in the
/// order given.
pub open spec fn map_bytes(pairs: Seq<(Seq<char>, Seq<char>)>) -> Seq<u8> {
    head_bytes(5, pairs.len()) + entries_bytes(pairs)
}

/// Appends the canonical header for `major` with argument `n`.
fn push_head(out: &mut Vec<u8>, major: u8, n: u64)
    requires
        major < 8,
    ensures
        final(out)@ == old(out)@ + head_bytes(major as nat, n as nat),
{
    let t: u8 = major * 32;
    if n < 24 {
        out.push(t + n as u8);
        assert(out@ =~= old(out)@ + head_bytes(major as nat, n as nat));
    } else if n < 0x100 {
        out.push(t + 24);
        out.push(n as u8);
        assert(out@ =~= old(out)@ + head_bytes(major as nat, n as nat));
    } else if n < 0x1_0000 {
        out.push(t + 25);
        out.push((n / 0x100) as u8);
        out.push((n % 0x100) as u8);
        assert(out@ =~= old(out)@ + head_bytes(major as nat, n as nat));
    } else if n < 0x1_0000_0000 {
        out.push(t + 26);
        out.push((n / 0x100_0000 % 0x100) as u8);
        out.push((n / 0x1_0000 % 0x100) as u8);
        out.push((n / 0x100 % 0x100) as u8);
        out.push((n % 0x100) as u8);
        assert(out@ =~= old(out)@ + head_bytes(major as nat, n as nat));
    } else {
        out.push(t + 27);
        out.push((n / 0x100_0000_0000_0000 % 0x100) as u8);
        out.push((n / 0x1_0000_0000_0000 % 0x100) as u8);
        out.push((n / 0x100_0000_0000 % 0x100) as u8);
        out.push((n / 0x1_0000_0000 % 0x100) as u8);
        out.push((n / 0x100_0000 % 0x100) as u8);
        out.push((n / 0x1_0000 % 0x100) as u8);
        out.push((n / 0x100 % 0x100) as u8);
        out.push((n % 0x100) as u8);
        assert(out@ =~= old(out)@ + head_bytes(major as nat, n as nat));
    }
}

/// Appends the canonical encoding of one text item.
fn push_text(out: &mut Vec<u8>, s: &str)
    ensures
        final(out)@ == old(out)@ + text_item_bytes(s@),
{
    let bs = s.as_bytes();
    push_head(out, 3, bs.len() as u64);
    let ghost mid = out@;
    let mut j: usize = 0;
    while j < bs.len()
        invariant
            j <= bs@.len(),
            bs@ == s.spec_bytes(),
            out@ == mid + bs@.take(j as int),
            mid == old(out)@ + head_bytes(3, s.spec_bytes().len()),
        decreases bs@.len() - j,
    {
        out.push(bs[j]);
        assert(out@ =~= mid + bs@.take(j as int + 1));
        j = j + 1;
    }
    assert(bs@.take(bs@.len() as int) =~= bs@);
    assert(out@ =~= old(out)@ + text_item_bytes(s@));
}

/// The views of a sequence of owned string pairs.
pub open spec fn pairs_view(s: Seq<(String, String)>) -> Seq<(Seq<char>, Seq<char>)> {
    s.map_values(|p: (String, String)| (p.0@, p.1@))
}

proof fn lemma_entries_bytes_snoc(pv: Seq<(Seq<char>, Seq<char>)>, i: int)
    requires
        0 <= i < pv.len(),
    ensures
        entries_bytes(pv.take(i + 1)) == entries_bytes(pv.take(i)) + text_item_bytes(pv[i].0)
            + text_item_bytes(pv[i].1),
    decreases i,
{
    if i == 0 {
        assert(pv.take(1).drop_first() =~= pv.take(0));
        assert(entries_bytes(pv.take(0)) == Seq::<u8>::empty());
        assert(entries_bytes(pv.take(1)) =~= text_item_bytes(pv[0].0) + text_item_bytes(pv[0].1));
    } else {
        let a = pv.take(i + 1);
        let b = pv.take(i);
        assert(a.drop_first() =~= pv.drop_first().take(i));
        assert(b.drop_first() =~= pv.drop_first().take(i - 1));
        lemma_entries_bytes_snoc(pv.drop_first(), i - 1);
        assert(pv.drop_first()[i - 1] == pv[i]);
        assert(entries_bytes(a) == text_item_bytes(a[0].0) + text_item_bytes(a[0].1)
            + entries_bytes(pv.drop_first().take(i)));
        assert(entries_bytes(b) == text_item_bytes(b[0].0) + text_item_bytes(b[0].1)
            + entries_bytes(pv.drop_first().take(i - 1)));
        assert(entries_bytes(pv.take(i + 1)) =~= entries_bytes(pv.take(i)) + text_item_bytes(
            pv[i].0,
        ) + text_item_bytes(pv[i].1));
    }
}

/// Encodes a text-to-text map canonically: shortest-form headers, entries
/// in the order given. The caller is responsible for ordering the entries;
/// the field map hands them over sorted byte-wise by key.
pub fn encode_text_map(pairs: &Vec<(String, String)>) -> (r: Vec<u8>)
    ensures
        r@ == map_bytes(pairs_view(pairs@)),
{
    let ghost pv = pairs_view(pairs@);
    let mut out: Vec<u8> = Vec::new();
    push_head(&mut out, 5, pairs.len() as u64);
    let ghost hdr = out@;
    let mut i: usize = 0;
    while i < pairs.len()
        invariant
            i <= pairs@.len(),
            pv == pairs_view(pairs@),
            pv.len() == pairs@.len(),
            hdr == head_bytes(5, pv.len()),
            out@ == hdr + entries_bytes(pv.take(i as int)),
        decreases pairs@.len() - i,
    {
        let ghost before = out@;
        push_text(&mut out, pairs[i].0.as_str());
        push_text(&mut out, pairs[i].1.as_str());
        proof {
            assert(pv[i as int] == (pairs@[i as int].0@, pairs@[i as int].1@));
            lemma_entries_bytes_snoc(pv, i as int);
            assert(out@ =~= hdr + entries_bytes(pv.take(i as int + 1)));
        }
        i = i + 1;
    }
    proof {
        assert(pv.take(pv.len() as int) =~= pv);
    }
    out
}

} // verus!
