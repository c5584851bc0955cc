use vstd::prelude::*;

verus! {

// The ledger and the record store are association lists from a 32-byte
// address to a value, scanned front to back. `lookup` returns the first
// match, which under `keys_unique` is the only one.

/// First value stored under address `a`, scanning left to right.
pub open spec fn lookup<V>(s: Seq<([u8; 32], V)>, a: Seq<u8>) -> Option<V>
    decreases s.len(),
{
    if s.len() == 0 {
        None
    } else if s[0].0@ == a {
        Some(s[0].1)
    } else {
        lookup(s.drop_first(), a)
    }
}

/// No two entries share an address.
pub open spec fn keys_unique<V>(s: Seq<([u8; 32], V)>) -> bool {
    forall|i: int, j: int| 0 <= i < j < s.len() ==> s[i].0@ != s[j].0@
}

/// If the first match for `a` sits at index `i`, `lookup` returns it.
pub proof fn lemma_lookup_at_first<V>(s: Seq<([u8; 32], V)>, a: Seq<u8>, i: int)
    requires
        0 <= i < s.len(),
        s[i].0@ == a,
        forall|j: int| 0 <= j < i ==> s[j].0@ != a,
    ensures
        lookup(s, a) == Some(s[i].1),
    decreases s.len(),
{
    if i == 0 {
    } else {
        assert(forall|j: int| 0 <= j < i - 1 ==> s.drop_first()[j].0@ != a);
        lemma_lookup_at_first(s.drop_first(), a, i - 1);
    }
}

/// If no entry carries `a`, `lookup` finds nothing.
pub proof fn lemma_lookup_absent<V>(s: Seq<([u8; 32], V)>, a: Seq<u8>)
    requires
        forall|j: int| 0 <= j < s.len() ==> s[j].0@ != a,
    ensures
        lookup(s, a) is None,
    decreases s.len(),
{
    if s.len() > 0 {
        assert(forall|j: int| 0 <= j < s.len() - 1 ==> s.drop_first()[j].0@ != a);
        lemma_lookup_absent(s.drop_first(), a);
    }
}

/// If `lookup` finds nothing, no entry carries `a`.
pub proof fn lemma_lookup_none_no_match<V>(s: Seq<([u8; 32], V)>, a: Seq<u8>)
    requires
        lookup(s, a) is None,
    ensures
        forall|j: int| 0 <= j < s.len() ==> s[j].0@ != a,
    decreases s.len(),
{
    if s.len() > 0 {
        lemma_lookup_none_no_match(s.drop_first(), a);
        assert forall|j: int| 0 <= j < s.len() implies s[j].0@ != a by {
            if j > 0 {
                assert(s.drop_first()[j - 1].0@ != a);
            }
        }
    }
}

/// Whatever `lookup` finds sits in some entry carrying `a`.
pub proof fn lemma_lookup_some_at<V>(s: Seq<([u8; 32], V)>, a: Seq<u8>)
    requires
        lookup(s, a) is Some,
    ensures
        exists|i: int|
            0 <= i < s.len() && (#[trigger] s[i]).0@ == a && s[i].1 == lookup(s, a)->Some_0,
    decreases s.len(),
{
    if s[0].0@ == a {
        assert(s[0].0@ == a && s[0].1 == lookup(s, a)->Some_0);
    } else {
        lemma_lookup_some_at(s.drop_first(), a);
        let i = choose|i: int|
            0 <= i < s.drop_first().len() && (#[trigger] s.drop_first()[i]).0@ == a
                && s.drop_first()[i].1 == lookup(s.drop_first(), a)->Some_0;
        assert(s[i + 1].0@ == a && s[i + 1].1 == lookup(s, a)->Some_0);
    }
}

/// Appending an entry changes `lookup` only for addresses that were absent.
pub proof fn lemma_lookup_push<V>(s: Seq<([u8; 32], V)>, a: Seq<u8>, e: ([u8; 32], V))
    ensures
        lookup(s, a) is Some ==> lookup(s.push(e), a) == lookup(s, a),
        lookup(s, a) is None && e.0@ == a ==> lookup(s.push(e), a) == Some(e.1),
        lookup(s, a) is None && e.0@ != a ==> lookup(s.push(e), a) is None,
    decreases s.len(),
{
    if s.len() == 0 {
        assert(s.push(e)[0] == e);
        assert(s.push(e).drop_first() =~= Seq::<([u8; 32], V)>::empty());
        assert(lookup(Seq::<([u8; 32], V)>::empty(), a) is None);
    } else {
        assert(s.push(e)[0] == s[0]);
        assert(s.push(e).drop_first() =~= s.drop_first().push(e));
        lemma_lookup_push(s.drop_first(), a, e);
    }
}

/// Overwriting the value at index `i`, keeping its address, moves `lookup`
/// for that address to the new value and for no other.
pub proof fn lemma_lookup_update<V>(s: Seq<([u8; 32], V)>, a: Seq<u8>, i: int, e: ([u8; 32], V))
    requires
        0 <= i < s.len(),
        e.0@ == s[i].0@,
        forall|j: int| 0 <= j < i ==> s[j].0@ != s[i].0@,
    ensures
        lookup(s.update(i, e), a) == (if s[i].0@ == a {
            Some(e.1)
        } else {
            lookup(s, a)
        }),
    decreases s.len(),
{
    if i == 0 {
        assert(s.update(0, e)[0] == e);
        assert(s.update(0, e).drop_first() =~= s.drop_first());
    } else {
        assert(s.update(i, e)[0] == s[0]);
        assert(s.update(i, e).drop_first() =~= s.drop_first().update(i - 1, e));
        assert(forall|j: int| 0 <= j < i - 1 ==> (#[trigger] s.drop_first()[j]).0@ != s.drop_first()[
            i - 1
        ].0@);
        lemma_lookup_update(s.drop_first(), a, i - 1, e);
    }
}

/// Removing the entry at index `i` erases `lookup` for its address and keeps
/// every other address, provided no earlier entry shares that address.
pub proof fn lemma_lookup_remove<V>(s: Seq<([u8; 32], V)>, a: Seq<u8>, i: int)
    requires
        0 <= i < s.len(),
        forall|j: int| 0 <= j < s.len() && j != i ==> s[j].0@ != s[i].0@,
    ensures
        lookup(s.remove(i), a) == (if s[i].0@ == a {
            None::<V>
        } else {
            lookup(s, a)
        }),
    decreases s.len(),
{
    if i == 0 {
        assert(s.remove(0) =~= s.drop_first());
        if s[0].0@ == a {
            assert(forall|j: int| 0 <= j < s.drop_first().len() ==> s.drop_first()[j].0@ != a);
            lemma_lookup_absent(s.drop_first(), a);
        }
    } else {
        assert(s.remove(i)[0] == s[0]);
        assert(s.remove(i).drop_first() =~= s.drop_first().remove(i - 1));
        assert(forall|j: int| 0 <= j < s.drop_first().len() && j != i - 1 ==> (
        #[trigger] s.drop_first()[j]).0@ != s.drop_first()[i - 1].0@);
        lemma_lookup_remove(s.drop_first(), a, i - 1);
    }
}

/// Removing an entry keeps the remaining addresses distinct.
pub proof fn lemma_keys_unique_remove<V>(s: Seq<([u8; 32], V)>, i: int)
    requires
        keys_unique(s),
        0 <= i < s.len(),
    ensures
        keys_unique(s.remove(i)),
{
    assert forall|p: int, q: int| 0 <= p < q < s.remove(i).len() implies s.remove(i)[p].0@
        != s.remove(i)[q].0@ by {
        let p0: int = if p < i { p } else { p + 1 };
        let q0: int = if q < i { q } else { q + 1 };
        assert(s.remove(i)[p] == s[p0]);
        assert(s.remove(i)[q] == s[q0]);
    }
}

/// Compare two addresses byte for byte.
pub fn addr_eq(a: &[u8; 32], b: &[u8; 32]) -> (r: bool)
    ensures
        r == (a@ == b@),
{
    let mut k: usize = 0;
    while k < 32
        invariant
            0 <= k <= 32,
            forall|j: int| 0 <= j < k ==> a@[j] == b@[j],
        decreases 32 - k,
    {
        if a[k] != b[k] {
            return false;
        }
        k = k + 1;
    }
    assert(a@ =~= b@);
    true
}

/// Index of the first entry carrying address `a`, if any.
pub fn find_index<V>(v: &Vec<([u8; 32], V)>, a: &[u8; 32]) -> (r: Option<usize>)
    ensures
        match r {
            Some(i) => 0 <= i < v@.len() && v@[i as int].0@ == a@ && lookup(v@, a@) == Some(
                v@[i as int].1,
            ) && (forall|j: int| 0 <= j < i ==> v@[j].0@ != a@),
            None => lookup(v@, a@) is None,
        },
{
    let mut k: usize = 0;
    while k < v.len()
        invariant
            0 <= k <= v@.len(),
            forall|j: int| 0 <= j < k ==> v@[j].0@ != a@,
        decreases v@.len() - k,
    {
        if addr_eq(&v[k].0, a) {
            proof {
                lemma_lookup_at_first(v@, a@, k as int);
            }
            return Some(k);
        }
        k = k + 1;
    }
    proof {
        lemma_lookup_absent(v@, a@);
    }
    None
}

} // verus!
