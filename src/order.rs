//! Ordering stock lines by herb name, byte by byte as `str` orders.
use crate::stock::HerbStock;
use vstd::prelude::*;
use vstd::seq_lib::group_to_multiset_ensures;
use vstd::utf8::encode_utf8;

verus! {

/// Lexicographic order on byte strings: a prefix comes first.
pub open spec fn bytes_le(a: Seq<u8>, b: Seq<u8>) -> bool
    decreases a.len(),
{
    if a.len() == 0 {
        true
    } else if b.len() == 0 {
        false
    } else if a[0] != b[0] {
        a[0] < b[0]
    } else {
        bytes_le(a.drop_first(), b.drop_first())
    }
}

/// The bytes that a stock line is ordered by: its herb's name in UTF-8.
pub open spec fn name_key(e: HerbStock) -> Seq<u8> {
    encode_utf8(e.herb.name@)
}

/// Every line's name comes no later than the names of the lines after it.
pub open spec fn sorted_by_name(s: Seq<HerbStock>) -> bool {
    forall|i: int, j: int| 0 <= i < j < s.len() ==> bytes_le(name_key(s[i]), name_key(s[j]))
}

proof fn lemma_bytes_le_total(a: Seq<u8>, b: Seq<u8>)
    ensures
        bytes_le(a, b) || bytes_le(b, a),
    decreases a.len(),
{
    if a.len() > 0 && b.len() > 0 && a[0] == b[0] {
        lemma_bytes_le_total(a.drop_first(), b.drop_first());
    }
}

proof fn lemma_bytes_le_trans(a: Seq<u8>, b: Seq<u8>, c: Seq<u8>)
    requires
        bytes_le(a, b),
        bytes_le(b, c),
    ensures
        bytes_le(a, c),
    decreases a.len(),
{
    if a.len() > 0 && b.len() > 0 && c.len() > 0 && a[0] == b[0] && b[0] == c[0] {
        lemma_bytes_le_trans(a.drop_first(), b.drop_first(), c.drop_first());
    }
}

proof fn lemma_insert_multiset<A>(s: Seq<A>, p: int, x: A)
    requires
        0 <= p <= s.len(),
    ensures
        s.insert(p, x).to_multiset() =~= s.to_multiset().insert(x),
{
    broadcast use group_to_multiset_ensures;

    let t = s.insert(p, x);
    assert(t.remove(p) =~= s);
    assert(t[p] == x);
    assert(t.contains(x));
}

/// Whether `a` comes no later than `b` in lexicographic byte order.
pub fn bytes_le_exec(a: &[u8], b: &[u8]) -> (r: bool)
    ensures
        r == bytes_le(a@, b@),
{
    let mut i: usize = 0;
    assert(a@.skip(0) =~= a@ && b@.skip(0) =~= b@);
    while i < a.len() && i < b.len()
        invariant
            i <= a@.len(),
            i <= b@.len(),
            bytes_le(a@, b@) == bytes_le(a@.skip(i as int), b@.skip(i as int)),
        decreases a.len() - i,
    {
        if a[i] != b[i] {
            return a[i] < b[i];
        }
        assert(a@.skip(i as int).drop_first() =~= a@.skip(i + 1));
        assert(b@.skip(i as int).drop_first() =~= b@.skip(i + 1));
        i = i + 1;
    }
    i == a.len()
}

/// Whether line `a`'s herb name comes no later than line `b`'s.
fn name_le(a: &HerbStock, b: &HerbStock) -> (r: bool)
    ensures
        r == bytes_le(name_key(*a), name_key(*b)),
{
    bytes_le_exec(a.herb.name.as_str().as_bytes(), b.herb.name.as_str().as_bytes())
}

/// Orders stock lines by herb name, ascending.
pub fn sort_by_name(stock: Vec<HerbStock>) -> (r: Vec<HerbStock>)
    ensures
        r@.to_multiset() == stock@.to_multiset(),
        sorted_by_name(r@),
{
    broadcast use group_to_multiset_ensures;

    let mut input = stock;
    let mut out: Vec<HerbStock> = Vec::new();
    while input.len() > 0
        invariant
            out@.to_multiset().add(input@.to_multiset()) == stock@.to_multiset(),
            sorted_by_name(out@),
        decreases input.len(),
    {
        let ghost before = input@;
        let x = input.remove(0);
        proof {
            assert(before =~= input@.insert(0, x));
            lemma_insert_multiset(input@, 0, x);
        }
        let mut p: usize = 0;
        while p < out.len() && name_le(&out[p], &x)
            invariant
                p <= out@.len(),
                forall|k: int| 0 <= k < p ==> bytes_le(name_key(out@[k]), name_key(x)),
            decreases out.len() - p,
        {
            p = p + 1;
        }
        let ghost old_out = out@;
        proof {
            lemma_insert_multiset(old_out, p as int, x);
            if p < old_out.len() {
                lemma_bytes_le_total(name_key(old_out[p as int]), name_key(x));
            }
        }
        out.insert(p, x);
        assert(sorted_by_name(out@)) by {
            assert forall|i: int, j: int| 0 <= i < j < out@.len() implies bytes_le(
                name_key(out@[i]),
                name_key(out@[j]),
            ) by {
                if j == p {
                    assert(out@[i] == old_out[i]);
                } else if i == p {
                    assert(out@[j] == old_out[j - 1]);
                    if j - 1 > p {
                        lemma_bytes_le_trans(
                            name_key(x),
                            name_key(old_out[p as int]),
                            name_key(old_out[j - 1]),
                        );
                    }
                } else {
                    let oi = if i < p { i } else { i - 1 };
                    let oj = if j < p { j } else { j - 1 };
                    assert(out@[i] == old_out[oi]);
                    assert(out@[j] == old_out[oj]);
                }
            }
        }
        assert(out@.to_multiset().add(input@.to_multiset()) =~= stock@.to_multiset());
    }
    assert(input@ =~= Seq::<HerbStock>::empty());
    out
}

} // verus!
