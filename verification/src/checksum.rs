//! A short digest that lets cooperating parties detect that they were handed
//! different inputs.
//!
//! The digest covers a primary byte string and a set of items. The items are
//! put into a canonical order and stripped of duplicates before they are
//! hashed, so neither the order nor the multiplicity in which a caller lists
//! them matters. The digest is not a cryptographic commitment.

use crate::bytes::append;
use crate::bytes::concat;
use crate::bytes::views;
use vstd::prelude::*;

verus! {

/// The number of bytes of a serialized [`Checksum`].
pub const CHECKSUM_LEN: usize = 8;

/// A 64-bit digest of protocol inputs. It is compared for equality only.
pub type Checksum = u64;

/// The protocol step at which two parties were found to disagree on their
/// inputs.
#[derive(Clone, Copy, Debug, PartialEq, Eq, Structural)]
pub enum ChecksumError {
    /// A signing commitment was made for another transaction or signer set.
    SigningCommitmentError,
    /// A key-generation package was made from other inputs.
    DkgPublicPackageError,
}

/// The digest of a byte string under SipHash-2-4 with the all-zero key.
pub uninterp spec fn spec_siphash24(data: Seq<u8>) -> u64;

/// Feeds `data` to `siphasher::sip::SipHasher24` under its default, all-zero
/// key and returns the digest. The digest is a function of the bytes alone.
#[verifier::external_body]
fn siphash24(data: &[u8]) -> (digest: u64)
    ensures
        digest == spec_siphash24(data@),
{
    let mut hasher = siphasher::sip::SipHasher24::new();
    std::hash::Hasher::write(&mut hasher, data);
    std::hash::Hasher::finish(&hasher)
}

/// The unsigned integer that a byte string spells, most significant byte
/// first.
pub open spec fn be_value(s: Seq<u8>) -> nat
    decreases s.len(),
{
    if s.len() == 0 {
        0
    } else {
        be_value(s.drop_last()) * 256 + s.last() as nat
    }
}

/// The canonical order on byte strings: a shorter string comes first, and of
/// two strings of one length the lexicographically smaller.
pub open spec fn precedes(a: Seq<u8>, b: Seq<u8>) -> bool {
    a.len() < b.len() || (a.len() == b.len() && be_value(a) < be_value(b))
}

/// Each string comes before all later ones; in particular none occurs twice.
pub open spec fn strictly_sorted(c: Seq<Seq<u8>>) -> bool {
    forall|i: int, j: int| 0 <= i < j < c.len() ==> precedes(#[trigger] c[i], #[trigger] c[j])
}

/// `c` lists exactly the members of `items`, each once, in canonical order.
pub open spec fn is_canonical_order(c: Seq<Seq<u8>>, items: Set<Seq<u8>>) -> bool {
    strictly_sorted(c) && c.to_set() == items
}

/// The members of `items` in canonical order.
pub open spec fn canonical_order(items: Set<Seq<u8>>) -> Seq<Seq<u8>> {
    choose|c: Seq<Seq<u8>>| is_canonical_order(c, items)
}

/// The checksum of `primary` together with the set of `items`.
pub open spec fn checksum_spec(primary: Seq<u8>, items: Seq<Seq<u8>>) -> u64 {
    spec_siphash24(primary + concat(canonical_order(items.to_set())))
}

/// The strings that `order` selects from `items`.
pub open spec fn pick(items: Seq<Seq<u8>>, order: Seq<usize>) -> Seq<Seq<u8>> {
    Seq::new(order.len(), |k: int| items[order[k] as int])
}

/// Byte strings of one length that spell the same integer are equal.
pub proof fn lemma_be_value_injective(a: Seq<u8>, b: Seq<u8>)
    requires
        a.len() == b.len(),
        be_value(a) == be_value(b),
    ensures
        a == b,
    decreases a.len(),
{
    if a.len() > 0 {
        lemma_be_value_injective(a.drop_last(), b.drop_last());
        assert(a =~= a.drop_last().push(a.last()));
        assert(b =~= b.drop_last().push(b.last()));
    } else {
        assert(a =~= b);
    }
}

/// The canonical order is total: of two different strings one comes first.
pub proof fn lemma_precedes_total(a: Seq<u8>, b: Seq<u8>)
    ensures
        a == b || precedes(a, b) || precedes(b, a),
        !(precedes(a, b) && precedes(b, a)),
        !precedes(a, a),
{
    if a.len() == b.len() && be_value(a) == be_value(b) {
        lemma_be_value_injective(a, b);
    }
}

/// The canonical order is transitive.
pub proof fn lemma_precedes_transitive(a: Seq<u8>, b: Seq<u8>, c: Seq<u8>)
    requires
        precedes(a, b),
        precedes(b, c),
    ensures
        precedes(a, c),
{
}

/// A set of strings has at most one canonical order.
pub proof fn lemma_strictly_sorted_unique(c1: Seq<Seq<u8>>, c2: Seq<Seq<u8>>)
    requires
        strictly_sorted(c1),
        strictly_sorted(c2),
        c1.to_set() == c2.to_set(),
    ensures
        c1 == c2,
    decreases c1.len(),
{
    if c1.len() == 0 {
        if c2.len() > 0 {
            assert(c2.contains(c2[0]));
            assert(c2.to_set().contains(c2[0]));
            assert(c1.contains(c2[0]));
        }
        assert(c1 =~= c2);
    } else if c2.len() == 0 {
        assert(c1.contains(c1[0]));
        assert(c1.to_set().contains(c1[0]));
        assert(c2.contains(c1[0]));
    } else {
        let m1 = c1.last();
        let m2 = c2.last();
        let d1 = c1.drop_last();
        let d2 = c2.drop_last();
        assert(c1.contains(m1));
        assert(c1.to_set().contains(m1));
        assert(c2.contains(m1));
        let j = choose|j: int| 0 <= j < c2.len() && c2[j] == m1;
        assert(c2.contains(m2));
        assert(c2.to_set().contains(m2));
        assert(c1.contains(m2));
        let i = choose|i: int| 0 <= i < c1.len() && c1[i] == m2;
        lemma_precedes_total(m1, m2);
        if j < c2.len() - 1 {
            assert(precedes(c2[j], c2[c2.len() - 1]));
            if i < c1.len() - 1 {
                assert(precedes(c1[i], c1[c1.len() - 1]));
            }
        }
        assert(m1 == m2);
        assert forall|x: Seq<u8>| d1.contains(x) <==> d2.contains(x) by {
            lemma_precedes_total(x, x);
            if d1.contains(x) {
                let k = choose|k: int| 0 <= k < d1.len() && d1[k] == x;
                assert(c1[k] == x);
                assert(precedes(c1[k], c1[c1.len() - 1]));
                assert(c1.contains(x));
                assert(c1.to_set().contains(x));
                assert(c2.contains(x));
                let k2 = choose|k2: int| 0 <= k2 < c2.len() && c2[k2] == x;
                assert(k2 < c2.len() - 1);
                assert(d2[k2] == x);
            }
            if d2.contains(x) {
                let k = choose|k: int| 0 <= k < d2.len() && d2[k] == x;
                assert(c2[k] == x);
                assert(precedes(c2[k], c2[c2.len() - 1]));
                assert(c2.contains(x));
                assert(c2.to_set().contains(x));
                assert(c1.contains(x));
                let k1 = choose|k1: int| 0 <= k1 < c1.len() && c1[k1] == x;
                assert(k1 < c1.len() - 1);
                assert(d1[k1] == x);
            }
        }
        assert(d1.to_set() =~= d2.to_set());
        assert(strictly_sorted(d1)) by {
            assert forall|p: int, q: int| 0 <= p < q < d1.len() implies precedes(
                #[trigger] d1[p],
                #[trigger] d1[q],
            ) by {
                assert(precedes(c1[p], c1[q]));
            }
        }
        assert(strictly_sorted(d2)) by {
            assert forall|p: int, q: int| 0 <= p < q < d2.len() implies precedes(
                #[trigger] d2[p],
                #[trigger] d2[q],
            ) by {
                assert(precedes(c2[p], c2[q]));
            }
        }
        lemma_strictly_sorted_unique(d1, d2);
        assert(c1 =~= d1.push(m1));
        assert(c2 =~= d2.push(m2));
    }
}

/// What lists a set in canonical order is the canonical order of that set.
pub proof fn lemma_canonical_order_is(c: Seq<Seq<u8>>, items: Set<Seq<u8>>)
    requires
        is_canonical_order(c, items),
    ensures
        canonical_order(items) == c,
{
    lemma_strictly_sorted_unique(canonical_order(items), c);
}

/// The checksum looks at the items as a set: two lists that name the same
/// items, in whatever order and however often, have the same checksum.
pub proof fn lemma_checksum_ignores_order_and_duplicates(
    primary: Seq<u8>,
    a: Seq<Seq<u8>>,
    b: Seq<Seq<u8>>,
)
    requires
        forall|x: Seq<u8>| a.contains(x) <==> b.contains(x),
    ensures
        checksum_spec(primary, a) == checksum_spec(primary, b),
{
    assert(a.to_set() =~= b.to_set());
}

/// Putting a string at its place keeps a list canonical.
proof fn lemma_sorted_insert(c: Seq<Seq<u8>>, pos: int, x: Seq<u8>)
    requires
        strictly_sorted(c),
        0 <= pos <= c.len(),
        forall|k: int| 0 <= k < pos ==> precedes(#[trigger] c[k], x),
        pos < c.len() ==> precedes(x, c[pos]),
    ensures
        strictly_sorted(c.insert(pos, x)),
        c.insert(pos, x).to_set() == c.to_set().insert(x),
{
    let n = c.insert(pos, x);
    c.insert_ensures(pos, x);
    assert forall|p: int, q: int| 0 <= p < q < n.len() implies precedes(
        #[trigger] n[p],
        #[trigger] n[q],
    ) by {
        if q < pos {
            assert(precedes(c[p], c[q]));
        } else if q == pos {
            assert(precedes(c[p], x));
        } else {
            assert(n[q] == c[q - 1]);
            if pos < q - 1 {
                assert(precedes(c[pos], c[q - 1]));
            }
            if p < pos {
                assert(precedes(c[p], c[q - 1]));
            } else if p > pos {
                assert(n[p] == c[p - 1]);
                assert(precedes(c[p - 1], c[q - 1]));
            }
        }
    }
    assert forall|y: Seq<u8>| n.contains(y) <==> (c.contains(y) || y == x) by {
        if n.contains(y) {
            let k = choose|k: int| 0 <= k < n.len() && n[k] == y;
            if k < pos {
                assert(c[k] == y);
            } else if k > pos {
                assert(n[k] == c[k - 1]);
            }
        }
        if c.contains(y) {
            let k = choose|k: int| 0 <= k < c.len() && c[k] == y;
            if k < pos {
                assert(n[k] == y);
            } else {
                assert(n[k + 1] == y);
            }
        }
        if y == x {
            assert(n[pos] == y);
        }
    }
    assert(n.to_set() =~= c.to_set().insert(x));
}

/// The first `i + 1` members of a list are the first `i` and the next one.
proof fn lemma_take_next_to_set(s: Seq<Seq<u8>>, i: int)
    requires
        0 <= i < s.len(),
    ensures
        s.take(i + 1).to_set() == s.take(i).to_set().insert(s[i]),
{
    let a = s.take(i + 1);
    let b = s.take(i);
    assert forall|x: Seq<u8>| a.contains(x) <==> (b.contains(x) || x == s[i]) by {
        if a.contains(x) {
            let k = choose|k: int| 0 <= k < a.len() && a[k] == x;
            if k < i {
                assert(b[k] == x);
            }
        }
        if b.contains(x) {
            let k = choose|k: int| 0 <= k < b.len() && b[k] == x;
            assert(a[k] == x);
        }
        if x == s[i] {
            assert(a[i] == x);
        }
    }
    assert(a.to_set() =~= b.to_set().insert(s[i]));
}

/// Whether `a` comes before `b` in the canonical order.
pub fn bytes_precede(a: &[u8], b: &[u8]) -> (first: bool)
    ensures
        first == precedes(a@, b@),
{
    if a.len() != b.len() {
        return a.len() < b.len();
    }
    let n = a.len();
    let mut less = false;
    let mut same = true;
    let mut i: usize = 0;
    while i < n
        invariant
            i <= n,
            n == a@.len(),
            n == b@.len(),
            less == (be_value(a@.take(i as int)) < be_value(b@.take(i as int))),
            same == (be_value(a@.take(i as int)) == be_value(b@.take(i as int))),
        decreases n - i,
    {
        assert(a@.take(i + 1).drop_last() == a@.take(i as int));
        assert(b@.take(i + 1).drop_last() == b@.take(i as int));
        if same {
            less = a[i] < b[i];
            same = a[i] == b[i];
        }
        i += 1;
    }
    assert(a@.take(n as int) == a@);
    assert(b@.take(n as int) == b@);
    less
}

/// For each distinct item the index of one occurrence, in canonical order of
/// the items.
pub fn canonical_indices(items: &Vec<Vec<u8>>) -> (order: Vec<usize>)
    ensures
        forall|k: int| 0 <= k < order.len() ==> (#[trigger] order[k]) < items.len(),
        is_canonical_order(pick(views(items@), order@), views(items@).to_set()),
{
    let ghost all = views(items@);
    let mut order: Vec<usize> = Vec::new();
    let mut i: usize = 0;
    proof {
        assert(pick(all, order@).to_set() =~= all.take(0).to_set());
    }
    while i < items.len()
        invariant
            i <= items.len(),
            all == views(items@),
            forall|k: int| 0 <= k < order.len() ==> (#[trigger] order[k]) < i,
            strictly_sorted(pick(all, order@)),
            pick(all, order@).to_set() == all.take(i as int).to_set(),
        decreases items.len() - i,
    {
        let ghost sorted = pick(all, order@);
        let ghost x = all[i as int];
        let mut pos: usize = 0;
        let mut found = false;
        while !found && pos < order.len()
            invariant
                pos <= order.len(),
                i < items.len(),
                all == views(items@),
                sorted == pick(all, order@),
                x == all[i as int],
                forall|k: int| 0 <= k < order.len() ==> (#[trigger] order[k]) < i,
                forall|k: int| 0 <= k < pos ==> precedes(#[trigger] sorted[k], x),
                found ==> pos < order.len() && !precedes(sorted[pos as int], x),
            decreases (order.len() - pos) + (if found { 0int } else { 1int }),
        {
            if bytes_precede(items[order[pos]].as_slice(), items[i].as_slice()) {
                pos += 1;
            } else {
                found = true;
            }
        }
        let duplicate = found && !bytes_precede(
            items[i].as_slice(),
            items[order[pos]].as_slice(),
        );
        proof {
            lemma_take_next_to_set(all, i as int);
        }
        if duplicate {
            proof {
                lemma_precedes_total(x, sorted[pos as int]);
                assert(sorted.contains(x));
                assert(sorted.to_set().insert(x) =~= sorted.to_set());
            }
        } else {
            proof {
                lemma_sorted_insert(sorted, pos as int, x);
                sorted.insert_ensures(pos as int, x);
                order@.insert_ensures(pos as int, i);
                assert(pick(all, order@.insert(pos as int, i)) =~= sorted.insert(pos as int, x));
            }
            order.insert(pos, i);
        }
        i += 1;
    }
    proof {
        assert(all.take(items.len() as int) == all);
    }
    order
}

/// The distinct items, one after the other in canonical order.
pub fn canonical_concat(items: &Vec<Vec<u8>>) -> (data: Vec<u8>)
    ensures
        data@ == concat(canonical_order(views(items@).to_set())),
{
    let order = canonical_indices(items);
    let ghost sorted = pick(views(items@), order@);
    let mut data: Vec<u8> = Vec::new();
    let mut k: usize = 0;
    proof {
        assert(concat(sorted.take(0)) =~= Seq::<u8>::empty());
    }
    while k < order.len()
        invariant
            k <= order.len(),
            sorted == pick(views(items@), order@),
            forall|j: int| 0 <= j < order.len() ==> (#[trigger] order[j]) < items.len(),
            data@ == concat(sorted.take(k as int)),
        decreases order.len() - k,
    {
        append(&mut data, items[order[k]].as_slice());
        proof {
            assert(sorted.take(k + 1).drop_last() == sorted.take(k as int));
        }
        k += 1;
    }
    proof {
        assert(sorted.take(order.len() as int) == sorted);
        lemma_canonical_order_is(sorted, views(items@).to_set());
    }
    data
}

/// The checksum of `primary` and the set of `items`: the SipHash-2-4 digest
/// of `primary` followed by the distinct items in canonical order.
pub fn checksum(primary: &[u8], items: &Vec<Vec<u8>>) -> (digest: Checksum)
    ensures
        digest == checksum_spec(primary@, views(items@)),
{
    let mut data: Vec<u8> = Vec::new();
    append(&mut data, primary);
    let tail = canonical_concat(items);
    append(&mut data, tail.as_slice());
    siphash24(data.as_slice())
}

} // verus!
