use linked_hash_map::LinkedHashMap;
use vstd::prelude::*;

verus! {

#[verifier::external_type_specification]
#[verifier::external_body]
#[verifier::reject_recursive_types(K)]
#[verifier::reject_recursive_types(V)]
#[verifier::reject_recursive_types(S)]
pub struct ExLinkedHashMap<K, V, S>(LinkedHashMap<K, V, S>);

/// What an insertion-ordered map from text to index holds, in iteration order.
pub uninterp spec fn entries_of(m: LinkedHashMap<String, usize>) -> Seq<(Seq<char>, usize)>;

/// The value of the first entry with key `k`.
pub open spec fn find(s: Seq<(Seq<char>, usize)>, k: Seq<char>) -> Option<usize>
    decreases s.len(),
{
    if s.len() == 0 {
        None
    } else if s[0].0 == k {
        Some(s[0].1)
    } else {
        find(s.drop_first(), k)
    }
}

/// The entries without those whose key is `k`, order kept.
pub open spec fn without(s: Seq<(Seq<char>, usize)>, k: Seq<char>) -> Seq<(Seq<char>, usize)>
    decreases s.len(),
{
    if s.len() == 0 {
        s
    } else if s[0].0 == k {
        without(s.drop_first(), k)
    } else {
        seq![s[0]] + without(s.drop_first(), k)
    }
}

/// The entries after `k` is bound to `v`: an existing entry for `k` leaves its
/// place and the new binding comes last.
pub open spec fn inserted(s: Seq<(Seq<char>, usize)>, k: Seq<char>, v: usize) -> Seq<(Seq<char>, usize)> {
    without(s, k).push((k, v))
}

/// The keys of the entries, in order.
pub open spec fn keys(s: Seq<(Seq<char>, usize)>) -> Seq<Seq<char>> {
    s.map_values(|e: (Seq<char>, usize)| e.0)
}

/// Relies on `LinkedHashMap::new`: the map starts empty.
#[verifier::external_body]
pub(crate) fn label_map_new() -> (r: LinkedHashMap<String, usize>)
    ensures
        entries_of(r) == Seq::<(Seq<char>, usize)>::empty(),
{
    LinkedHashMap::new()
}

/// Relies on `LinkedHashMap::insert`: a new key is appended; an existing key
/// takes the new value and is moved to the back.
#[verifier::external_body]
pub(crate) fn label_map_insert(m: &mut LinkedHashMap<String, usize>, k: String, v: usize)
    ensures
        entries_of(*final(m)) == inserted(entries_of(*old(m)), k@, v),
{
    m.insert(k, v);
}

/// Relies on `LinkedHashMap::get`: the value bound to the key, if any.
#[verifier::external_body]
pub(crate) fn label_map_get(m: &LinkedHashMap<String, usize>, k: &str) -> (r: Option<usize>)
    ensures
        r == find(entries_of(*m), k@),
{
    m.get(k).copied()
}

/// Relies on `LinkedHashMap::len`: the number of entries.
#[verifier::external_body]
pub(crate) fn label_map_len(m: &LinkedHashMap<String, usize>) -> (r: usize)
    ensures
        r == entries_of(*m).len(),
{
    m.len()
}

/// Relies on `LinkedHashMap::keys`: the keys in iteration order.
#[verifier::external_body]
pub(crate) fn label_map_keys(m: &LinkedHashMap<String, usize>) -> (r: Vec<String>)
    ensures
        r@.len() == entries_of(*m).len(),
        forall|i: int| 0 <= i < r@.len() ==> #[trigger] r@[i]@ == entries_of(*m)[i].0,
{
    m.keys().cloned().collect()
}

proof fn lemma_find_without(s: Seq<(Seq<char>, usize)>, k: Seq<char>, t: Seq<char>)
    ensures
        find(without(s, k), t) == (if t == k { None } else { find(s, t) }),
    decreases s.len(),
{
    if s.len() > 0 {
        lemma_find_without(s.drop_first(), k, t);
        if s[0].0 != k {
            assert((seq![s[0]] + without(s.drop_first(), k)).drop_first() =~= without(s.drop_first(), k));
        }
    }
}

proof fn lemma_find_push(s: Seq<(Seq<char>, usize)>, x: (Seq<char>, usize), t: Seq<char>)
    ensures
        find(s.push(x), t) == (match find(s, t) {
            Some(i) => Some(i),
            None => if x.0 == t { Some(x.1) } else { None },
        }),
    decreases s.len(),
{
    if s.len() > 0 {
        lemma_find_push(s.drop_first(), x, t);
        assert(s.push(x).drop_first() =~= s.drop_first().push(x));
    } else {
        assert(s.push(x).drop_first() =~= s);
    }
}

/// After `k` is bound to `v`, `k` finds `v` and every other key what it found before.
pub proof fn lemma_find_inserted(s: Seq<(Seq<char>, usize)>, k: Seq<char>, v: usize, t: Seq<char>)
    ensures
        find(inserted(s, k, v), t) == (if t == k { Some(v) } else { find(s, t) }),
{
    lemma_find_without(s, k, t);
    lemma_find_push(without(s, k), (k, v), t);
}

/// A value that a key finds is the value of one of the entries.
pub proof fn lemma_find_in(s: Seq<(Seq<char>, usize)>, k: Seq<char>)
    ensures
        find(s, k) matches Some(i) ==> exists|j: int| 0 <= j < s.len() && #[trigger] s[j].1 == i,
    decreases s.len(),
{
    if s.len() > 0 {
        lemma_find_in(s.drop_first(), k);
        if s[0].0 != k && find(s, k) is Some {
            let j = choose|j: int| 0 <= j < s.drop_first().len() && #[trigger] s.drop_first()[j].1 == find(s, k)->Some_0;
            assert(s[j + 1].1 == find(s, k)->Some_0);
        } else if s[0].0 == k {
            assert(s[0].1 == find(s, k)->Some_0);
        }
    }
}

/// Every entry left after binding `k` to a value below `n` has a value below `n`, if
/// every entry had before.
pub proof fn lemma_inserted_bounded(s: Seq<(Seq<char>, usize)>, k: Seq<char>, v: usize, n: int)
    requires
        forall|i: int| 0 <= i < s.len() ==> #[trigger] s[i].1 < n,
        v < n,
    ensures
        forall|i: int| 0 <= i < inserted(s, k, v).len() ==> #[trigger] inserted(s, k, v)[i].1 < n,
{
    lemma_without_bounded(s, k, n);
}

/// Removing a key keeps every value below a bound they were all below.
pub proof fn lemma_without_bounded(s: Seq<(Seq<char>, usize)>, k: Seq<char>, n: int)
    requires
        forall|i: int| 0 <= i < s.len() ==> #[trigger] s[i].1 < n,
    ensures
        forall|i: int| 0 <= i < without(s, k).len() ==> #[trigger] without(s, k)[i].1 < n,
    decreases s.len(),
{
    if s.len() > 0 {
        assert(forall|i: int| 0 <= i < s.drop_first().len() ==> s.drop_first()[i] == s[i + 1]);
        lemma_without_bounded(s.drop_first(), k, n);
        assert forall|i: int| 0 <= i < without(s, k).len() implies #[trigger] without(s, k)[i].1 < n by {
            if s[0].0 != k {
                let w = without(s.drop_first(), k);
                assert(without(s, k) == seq![s[0]] + w);
                if i > 0 {
                    assert(without(s, k)[i] == w[i - 1]);
                } else {
                    assert(without(s, k)[i] == s[0]);
                }
            } else {
                assert(without(s, k) == without(s.drop_first(), k));
            }
        }
    }
}

} // verus!
