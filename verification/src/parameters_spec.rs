//! The validated key-value parameter container: a `ParametersSpec` declares
//! the set of legal parameter keys and optional validation and serialization
//! hooks; `fill` checks a proposed key-value map against the key set and
//! produces an immutable `Parameters` value, an ordered-by-key map that can
//! serialize itself through the attached hook.
//!
//! Entries are held sorted strictly by key (lexicographic over the keys'
//! characters), so a map of values has exactly one representation and
//! filling the same values twice yields the same container.

use vstd::prelude::*;
use vstd::string::*;

verus! {

/// A failure reported by an installed validator hook: the underlying cause
/// and the full offending value map, for diagnostics.
#[derive(Debug, Clone, PartialEq, Eq)]
pub enum ValidationError {
    Custom { message: String, values: Vec<(String, String)> },
}

/// A failure of `Parameters::serialize`: either no serializer hook was
/// attached, or the attached hook itself failed.
#[derive(Debug, Clone, PartialEq, Eq)]
pub enum SerializationError {
    MissingSerializer,
    Custom { message: String },
}

/// A failure of `ParametersSpec::fill`.
#[derive(Debug, Clone, PartialEq, Eq)]
pub enum SpecError {
    /// The named key is not part of the spec's declared key set.
    InvalidKey(String),
    /// The installed validator rejected the proposed values.
    ValidationFailed { error: ValidationError },
}

/// Strict lexicographic order on strings, by character code point. This is
/// the order in which `Parameters` keeps its keys.
pub open spec fn str_lt(a: Seq<char>, b: Seq<char>) -> bool
    decreases a.len(),
{
    if b.len() == 0 {
        false
    } else if a.len() == 0 {
        true
    } else if (a[0] as int) < (b[0] as int) {
        true
    } else if (b[0] as int) < (a[0] as int) {
        false
    } else {
        str_lt(a.drop_first(), b.drop_first())
    }
}

/// The views of a sequence of key-value string pairs.
pub open spec fn views_of_pairs(es: Seq<(String, String)>) -> Seq<(Seq<char>, Seq<char>)> {
    es.map_values(|kv: (String, String)| (kv.0@, kv.1@))
}

/// Keys strictly ascending: the canonical entry order of `Parameters`.
pub open spec fn sorted_by_key(es: Seq<(Seq<char>, Seq<char>)>) -> bool {
    forall|i: int, j: int| 0 <= i < j < es.len() ==> str_lt(#[trigger] es[i].0, #[trigger] es[j].0)
}

/// No two entries share a key.
pub open spec fn distinct_keys(es: Seq<(Seq<char>, Seq<char>)>) -> bool {
    forall|i: int, j: int| 0 <= i < j < es.len() ==> (#[trigger] es[i].0) != (#[trigger] es[j].0)
}

/// The map an entry sequence denotes; a later entry for a key overrides an
/// earlier one, as in sequential insertion.
pub open spec fn map_of(es: Seq<(Seq<char>, Seq<char>)>) -> Map<Seq<char>, Seq<char>>
    decreases es.len(),
{
    if es.len() == 0 {
        Map::empty()
    } else {
        map_of(es.drop_last()).insert(es.last().0, es.last().1)
    }
}

/// `str_lt` is a strict total order: of two strings exactly one of
/// `a < b`, `b < a`, `a == b` holds.
pub proof fn lemma_str_lt_trichotomy(a: Seq<char>, b: Seq<char>)
    ensures
        str_lt(a, b) || str_lt(b, a) || a == b,
        str_lt(a, b) ==> !str_lt(b, a) && a != b,
        a == b ==> !str_lt(a, b),
    decreases a.len(),
{
    if a.len() == 0 && b.len() == 0 {
        assert(a =~= b);
    } else if a.len() > 0 && b.len() > 0 {
        if (a[0] as int) < (b[0] as int) || (b[0] as int) < (a[0] as int) {
            assert(a[0] != b[0]);
            assert(a != b);
        } else {
            assert(a[0] == b[0]);
            lemma_str_lt_trichotomy(a.drop_first(), b.drop_first());
            if a.drop_first() == b.drop_first() {
                assert(a =~= b) by {
                    assert(forall|i: int|
                        1 <= i < a.len() ==> a[i] == a.drop_first()[i - 1] && b[i]
                            == b.drop_first()[i - 1]);
                }
            }
            if a == b {
                assert(a.drop_first() =~= b.drop_first());
            }
        }
    }
}

/// `str_lt` is transitive.
pub proof fn lemma_str_lt_transitive(a: Seq<char>, b: Seq<char>, c: Seq<char>)
    requires
        str_lt(a, b),
        str_lt(b, c),
    ensures
        str_lt(a, c),
    decreases a.len(),
{
    if a.len() > 0 {
        assert(b.len() > 0 && c.len() > 0);
        if (a[0] as int) == (b[0] as int) && (b[0] as int) == (c[0] as int) {
            lemma_str_lt_transitive(a.drop_first(), b.drop_first(), c.drop_first());
        }
    }
}

/// Strictly sorted entries have pairwise distinct keys.
pub proof fn lemma_sorted_distinct(es: Seq<(Seq<char>, Seq<char>)>)
    requires
        sorted_by_key(es),
    ensures
        distinct_keys(es),
{
    assert forall|i: int, j: int| 0 <= i < j < es.len() implies (#[trigger] es[i].0)
        != (#[trigger] es[j].0) by {
        lemma_str_lt_trichotomy(es[i].0, es[j].0);
    }
}

/// A key is in the denoted map exactly when some entry carries it.
pub proof fn lemma_map_of_contains(es: Seq<(Seq<char>, Seq<char>)>, k: Seq<char>)
    ensures
        map_of(es).contains_key(k) <==> (exists|i: int|
            0 <= i < es.len() && (#[trigger] es[i]).0 == k),
    decreases es.len(),
{
    if es.len() > 0 {
        lemma_map_of_contains(es.drop_last(), k);
        if map_of(es).contains_key(k) {
            if k == es.last().0 {
                assert(es[es.len() - 1].0 == k);
            } else {
                let i = choose|i: int| 0 <= i < es.drop_last().len() && (#[trigger] es.drop_last()[i]).0 == k;
                assert(es[i].0 == k);
            }
        }
        if exists|i: int| 0 <= i < es.len() && (#[trigger] es[i]).0 == k {
            let i = choose|i: int| 0 <= i < es.len() && (#[trigger] es[i]).0 == k;
            if i < es.len() - 1 {
                assert(es.drop_last()[i].0 == k);
            }
        }
    }
}

/// With distinct keys, the denoted map sends each entry's key to its value.
pub proof fn lemma_map_of_index(es: Seq<(Seq<char>, Seq<char>)>, i: int)
    requires
        distinct_keys(es),
        0 <= i < es.len(),
    ensures
        map_of(es).contains_key(es[i].0),
        map_of(es)[es[i].0] == es[i].1,
    decreases es.len(),
{
    if i < es.len() - 1 {
        assert(es[i].0 != es.last().0);
        assert(es.drop_last()[i] == es[i]);
        lemma_map_of_index(es.drop_last(), i);
    }
}

/// Inserting an entry whose key no existing entry carries adds exactly that
/// binding to the denoted map, at whatever position it is placed.
pub proof fn lemma_map_of_insert_at(
    es: Seq<(Seq<char>, Seq<char>)>,
    p: int,
    k: Seq<char>,
    v: Seq<char>,
)
    requires
        0 <= p <= es.len(),
        forall|i: int| 0 <= i < es.len() ==> (#[trigger] es[i]).0 != k,
    ensures
        map_of(es.insert(p, (k, v))) == map_of(es).insert(k, v),
    decreases es.len(),
{
    let s2 = es.insert(p, (k, v));
    if p == es.len() {
        assert(s2.drop_last() =~= es);
        assert(s2.last() == (k, v));
    } else {
        assert(s2.last() == es.last());
        assert(s2.drop_last() =~= es.drop_last().insert(p, (k, v)));
        assert(forall|i: int|
            0 <= i < es.drop_last().len() ==> (#[trigger] es.drop_last()[i]).0 != k);
        lemma_map_of_insert_at(es.drop_last(), p, k, v);
        assert(es.last().0 != k);
        assert(map_of(es.drop_last()).insert(k, v).insert(es.last().0, es.last().1) =~= map_of(
            es.drop_last(),
        ).insert(es.last().0, es.last().1).insert(k, v));
    }
}

/// Removing the entry at a position removes exactly its key's binding from
/// the denoted map, provided keys are distinct.
pub proof fn lemma_map_of_remove_at(es: Seq<(Seq<char>, Seq<char>)>, p: int)
    requires
        distinct_keys(es),
        0 <= p < es.len(),
    ensures
        map_of(es.remove(p)) == map_of(es).remove(es[p].0),
    decreases es.len(),
{
    let s2 = es.remove(p);
    if p == es.len() - 1 {
        assert(s2 =~= es.drop_last());
        lemma_map_of_contains(es.drop_last(), es[p].0);
        assert(forall|i: int|
            0 <= i < es.drop_last().len() ==> (#[trigger] es.drop_last()[i]).0 != es[p].0);
        assert(!map_of(es.drop_last()).contains_key(es[p].0));
        assert(map_of(es.drop_last()).insert(es.last().0, es.last().1).remove(es[p].0) =~= map_of(
            es.drop_last(),
        ));
    } else {
        assert(s2.last() == es.last());
        assert(s2.drop_last() =~= es.drop_last().remove(p));
        lemma_map_of_remove_at(es.drop_last(), p);
        assert(es.drop_last()[p] == es[p]);
        assert(es.last().0 != es[p].0);
        assert(map_of(es.drop_last()).remove(es[p].0).insert(es.last().0, es.last().1) =~= map_of(
            es.drop_last(),
        ).insert(es.last().0, es.last().1).remove(es[p].0));
    }
}

/// Sorted entry sequences are a canonical form: two sorted sequences that
/// denote the same map are equal.
pub proof fn lemma_sorted_canonical(e1: Seq<(Seq<char>, Seq<char>)>, e2: Seq<(Seq<char>, Seq<char>)>)
    requires
        sorted_by_key(e1),
        sorted_by_key(e2),
        map_of(e1) == map_of(e2),
    ensures
        e1 == e2,
    decreases e1.len(),
{
    lemma_sorted_distinct(e1);
    lemma_sorted_distinct(e2);
    if e1.len() == 0 {
        if e2.len() > 0 {
            lemma_map_of_index(e2, e2.len() - 1);
            lemma_map_of_contains(e1, e2.last().0);
            assert(false);
        }
        assert(e1 =~= e2);
    } else if e2.len() == 0 {
        lemma_map_of_index(e1, e1.len() - 1);
        lemma_map_of_contains(e2, e1.last().0);
        assert(false);
    } else {
        // The last entries carry the maximum keys of the (equal) domains,
        // so they agree; peel them off and recurse.
        if e1.last().0 != e2.last().0 {
            lemma_map_of_index(e1, e1.len() - 1);
            lemma_map_of_index(e2, e2.len() - 1);
            lemma_map_of_contains(e1, e2.last().0);
            lemma_map_of_contains(e2, e1.last().0);
            let i1 = choose|i: int| 0 <= i < e1.len() && (#[trigger] e1[i]).0 == e2.last().0;
            let i2 = choose|i: int| 0 <= i < e2.len() && (#[trigger] e2[i]).0 == e1.last().0;
            assert(i1 < e1.len() - 1);
            assert(i2 < e2.len() - 1);
            assert(str_lt(e1[i1].0, e1.last().0));
            assert(str_lt(e2[i2].0, e2.last().0));
            lemma_str_lt_trichotomy(e1.last().0, e2.last().0);
            assert(false);
        }
        lemma_map_of_index(e1, e1.len() - 1);
        lemma_map_of_index(e2, e2.len() - 1);
        assert(e1.last().1 == e2.last().1);
        lemma_map_of_remove_at(e1, e1.len() - 1);
        lemma_map_of_remove_at(e2, e2.len() - 1);
        assert(e1.remove(e1.len() - 1) =~= e1.drop_last());
        assert(e2.remove(e2.len() - 1) =~= e2.drop_last());
        assert(map_of(e1.drop_last()) == map_of(e2.drop_last()));
        lemma_sorted_canonical(e1.drop_last(), e2.drop_last());
        assert(e1.len() == e2.len());
        assert forall|i: int| 0 <= i < e1.len() implies e1[i] == e2[i] by {
            if i < e1.len() - 1 {
                assert(e1[i] == e1.drop_last()[i]);
                assert(e2[i] == e2.drop_last()[i]);
            } else {
                assert(e1[i].0 == e2[i].0 && e1[i].1 == e2[i].1);
            }
        }
        assert(e1 =~= e2);
    }
}

/// Mapping views over an insertion commutes with the insertion.
proof fn lemma_views_insert(es: Seq<(String, String)>, p: int, kv: (String, String))
    requires
        0 <= p <= es.len(),
    ensures
        views_of_pairs(es.insert(p, kv)) == views_of_pairs(es).insert(p, (kv.0@, kv.1@)),
{
    es.insert_ensures(p, kv);
    views_of_pairs(es).insert_ensures(p, (kv.0@, kv.1@));
    assert(views_of_pairs(es.insert(p, kv)) =~= views_of_pairs(es).insert(p, (kv.0@, kv.1@)));
}

/// Mapping views over a removal commutes with the removal.
proof fn lemma_views_remove(es: Seq<(String, String)>, p: int)
    requires
        0 <= p < es.len(),
    ensures
        views_of_pairs(es.remove(p)) == views_of_pairs(es).remove(p),
{
    es.remove_ensures(p);
    views_of_pairs(es).remove_ensures(p);
    assert(views_of_pairs(es.remove(p)) =~= views_of_pairs(es).remove(p));
}

/// Decides `str_lt`, comparing characters left to right.
fn str_lt_exec(a: &str, b: &str) -> (r: bool)
    ensures
        r == str_lt(a@, b@),
{
    let alen = a.unicode_len();
    let blen = b.unicode_len();
    let mut i: usize = 0;
    proof {
        assert(a@.skip(0) =~= a@);
        assert(b@.skip(0) =~= b@);
    }
    while i < alen && i < blen
        invariant
            alen == a@.len(),
            blen == b@.len(),
            i <= alen,
            i <= blen,
            str_lt(a@, b@) == str_lt(a@.skip(i as int), b@.skip(i as int)),
        decreases alen - i,
    {
        let ca = a.get_char(i);
        let cb = b.get_char(i);
        proof {
            assert(a@.skip(i as int)[0] == a@[i as int]);
            assert(b@.skip(i as int)[0] == b@[i as int]);
        }
        if (ca as u32) < (cb as u32) {
            return true;
        }
        if (cb as u32) < (ca as u32) {
            return false;
        }
        proof {
            assert(a@.skip(i as int).drop_first() =~= a@.skip(i as int + 1));
            assert(b@.skip(i as int).drop_first() =~= b@.skip(i as int + 1));
        }
        i = i + 1;
    }
    proof {
        assert(a@.skip(i as int).len() == alen - i);
        assert(b@.skip(i as int).len() == blen - i);
    }
    alen < blen
}

/// Position of `key` among sorted entries: either the index that holds it,
/// or the index where it belongs.
fn find_key(entries: &Vec<(String, String)>, key: &str) -> (r: (bool, usize))
    requires
        sorted_by_key(views_of_pairs(entries@)),
    ensures
        ({
            let ev = views_of_pairs(entries@);
            &&& r.1 <= ev.len()
            &&& forall|i: int| 0 <= i < r.1 ==> str_lt(#[trigger] ev[i].0, key@)
            &&& r.0 ==> r.1 < ev.len() && ev[r.1 as int].0 == key@
            &&& !r.0 ==> forall|j: int| r.1 <= j < ev.len() ==> str_lt(key@, #[trigger] ev[j].0)
        }),
{
    let ghost ev = views_of_pairs(entries@);
    let mut p: usize = 0;
    while p < entries.len()
        invariant
            ev == views_of_pairs(entries@),
            ev.len() == entries@.len(),
            p <= entries@.len(),
            sorted_by_key(ev),
            forall|i: int| 0 <= i < p ==> str_lt(#[trigger] ev[i].0, key@),
        decreases entries@.len() - p,
    {
        let lt_before = str_lt_exec(entries[p].0.as_str(), key);
        if !lt_before {
            let lt_after = str_lt_exec(key, entries[p].0.as_str());
            if lt_after {
                proof {
                    assert forall|j: int| p <= j < ev.len() implies str_lt(
                        key@,
                        #[trigger] ev[j].0,
                    ) by {
                        if j > p {
                            lemma_str_lt_transitive(key@, ev[p as int].0, ev[j].0);
                        }
                    }
                }
                return (false, p);
            } else {
                proof {
                    lemma_str_lt_trichotomy(ev[p as int].0, key@);
                }
                return (true, p);
            }
        }
        p = p + 1;
    }
    (false, p)
}

/// Binds `key` to `value` among sorted entries, returning the value the key
/// was bound to before, if any.
fn map_insert(entries: &mut Vec<(String, String)>, key: String, value: String) -> (r: Option<
    String,
>)
    requires
        sorted_by_key(views_of_pairs(old(entries)@)),
    ensures
        ({
            let ev0 = views_of_pairs(old(entries)@);
            let ev1 = views_of_pairs(final(entries)@);
            &&& sorted_by_key(ev1)
            &&& map_of(ev1) == map_of(ev0).insert(key@, value@)
            &&& (r matches Some(v) ==> map_of(ev0).contains_key(key@) && v@ == map_of(ev0)[key@])
            &&& ((r is None) <==> !map_of(ev0).contains_key(key@))
        }),
{
    let ghost ev0 = views_of_pairs(entries@);
    proof {
        lemma_sorted_distinct(ev0);
        lemma_map_of_contains(ev0, key@);
    }
    let (found, p) = find_key(entries, key.as_str());
    if found {
        let old_pair = entries.remove(p);
        proof {
            lemma_map_of_index(ev0, p as int);
            lemma_map_of_remove_at(ev0, p as int);
            lemma_views_remove(old(entries)@, p as int);
        }
        let ghost ev_mid = views_of_pairs(entries@);
        proof {
            ev0.remove_ensures(p as int);
            assert forall|i: int| 0 <= i < ev_mid.len() implies (#[trigger] ev_mid[i]).0
                != key@ by {
                if i < p {
                    lemma_str_lt_trichotomy(ev0[i].0, key@);
                } else {
                    assert(ev_mid[i] == ev0[i + 1]);
                }
            }
            assert forall|i: int, j: int| 0 <= i < j < ev_mid.len() implies str_lt(
                #[trigger] ev_mid[i].0,
                #[trigger] ev_mid[j].0,
            ) by {
                assert(ev_mid[i] == if i < p { ev0[i] } else { ev0[i + 1] });
                assert(ev_mid[j] == if j < p { ev0[j] } else { ev0[j + 1] });
            }
            lemma_map_of_insert_at(ev_mid, p as int, key@, value@);
        }
        entries.insert(p, (old_pair.0, value));
        proof {
            lemma_views_insert(old(entries)@.remove(p as int), p as int, (old_pair.0, value));
            assert(old_pair.0@ == key@);
            assert(map_of(views_of_pairs(final(entries)@)) =~= map_of(ev0).insert(key@, value@));
            // Keys are unchanged position for position, so order is kept.
            let ev1 = views_of_pairs(final(entries)@);
            ev_mid.insert_ensures(p as int, (key@, value@));
            assert forall|i: int, j: int| 0 <= i < j < ev1.len() implies str_lt(
                #[trigger] ev1[i].0,
                #[trigger] ev1[j].0,
            ) by {
                assert(ev1[i].0 == ev0[i].0);
                assert(ev1[j].0 == ev0[j].0);
            }
        }
        Some(old_pair.1)
    } else {
        proof {
            assert forall|i: int| 0 <= i < ev0.len() implies (#[trigger] ev0[i]).0 != key@ by {
                lemma_str_lt_trichotomy(ev0[i].0, key@);
            }
            lemma_map_of_insert_at(ev0, p as int, key@, value@);
        }
        let ghost key_view = key@;
        let ghost value_view = value@;
        entries.insert(p, (key, value));
        proof {
            lemma_views_insert(old(entries)@, p as int, (key, value));
            let ev1 = views_of_pairs(final(entries)@);
            assert(ev1 == ev0.insert(p as int, (key_view, value_view)));
            ev0.insert_ensures(p as int, (key_view, value_view));
            assert forall|i: int, j: int| 0 <= i < j < ev1.len() implies str_lt(
                #[trigger] ev1[i].0,
                #[trigger] ev1[j].0,
            ) by {
                assert(ev1[i] == if i < p { ev0[i] } else if i == p { (key_view, value_view) } else { ev0[i - 1] });
                assert(ev1[j] == if j < p { ev0[j] } else if j == p { (key_view, value_view) } else { ev0[j - 1] });
            }
        }
        None
    }
}

/// Removes the binding of `key` from sorted entries, returning the value it
/// was bound to, if any.
fn map_remove(entries: &mut Vec<(String, String)>, key: &str) -> (r: Option<String>)
    requires
        sorted_by_key(views_of_pairs(old(entries)@)),
    ensures
        ({
            let ev0 = views_of_pairs(old(entries)@);
            let ev1 = views_of_pairs(final(entries)@);
            &&& sorted_by_key(ev1)
            &&& map_of(ev1) == map_of(ev0).remove(key@)
            &&& (r matches Some(v) ==> map_of(ev0).contains_key(key@) && v@ == map_of(ev0)[key@])
            &&& ((r is None) <==> !map_of(ev0).contains_key(key@))
        }),
{
    let ghost ev0 = views_of_pairs(entries@);
    proof {
        lemma_sorted_distinct(ev0);
        lemma_map_of_contains(ev0, key@);
    }
    let (found, p) = find_key(entries, key);
    if found {
        let old_pair = entries.remove(p);
        proof {
            lemma_map_of_index(ev0, p as int);
            lemma_map_of_remove_at(ev0, p as int);
            lemma_views_remove(old(entries)@, p as int);
            let ev1 = views_of_pairs(final(entries)@);
            ev0.remove_ensures(p as int);
            assert forall|i: int, j: int| 0 <= i < j < ev1.len() implies str_lt(
                #[trigger] ev1[i].0,
                #[trigger] ev1[j].0,
            ) by {
                assert(ev1[i] == if i < p { ev0[i] } else { ev0[i + 1] });
                assert(ev1[j] == if j < p { ev0[j] } else { ev0[j + 1] });
            }
        }
        Some(old_pair.1)
    } else {
        proof {
            assert forall|i: int| 0 <= i < ev0.len() implies (#[trigger] ev0[i]).0 != key@ by {
                lemma_str_lt_trichotomy(ev0[i].0, key@);
            }
            assert(map_of(views_of_pairs(final(entries)@)) =~= map_of(ev0).remove(key@));
        }
        None
    }
}

/// The set of key views a sequence of key strings declares.
pub open spec fn key_set(keys: Seq<String>) -> Set<Seq<char>> {
    Set::new(|k: Seq<char>| exists|i: int| 0 <= i < keys.len() && (#[trigger] keys[i])@ == k)
}

/// Whether some key string in `keys` reads as `key`.
fn keys_contain(keys: &Vec<String>, key: &String) -> (r: bool)
    ensures
        r == key_set(keys@).contains(key@),
{
    let mut i: usize = 0;
    while i < keys.len()
        invariant
            i <= keys@.len(),
            forall|j: int| 0 <= j < i ==> (#[trigger] keys@[j])@ != key@,
        decreases keys@.len() - i,
    {
        if keys[i] == *key {
            return true;
        }
        i = i + 1;
    }
    false
}

/// A pluggable validation hook for `ParametersSpec::fill`: receives the
/// spec's declared keys and the proposed values, and returns the validated
/// (possibly transformed) values, or a rejection carrying the cause.
pub trait ParamValidator {
    fn validate(&self, keys: &Vec<String>, values: Vec<(String, String)>) -> Result<
        Vec<(String, String)>,
        ValidationError,
    >;
}

/// A pluggable serialization hook for `Parameters::serialize`: receives the
/// entries in ascending key order and renders them as one string.
pub trait ParamSerializer {
    fn serialize_params(&self, entries: &Vec<(String, String)>) -> Result<
        String,
        SerializationError,
    >;
}

/// The validated, ready-to-use output of filling a `ParametersSpec`: an
/// ordered-by-key map from parameter name to value, with an optional
/// attached serializer hook.
#[derive(Debug)]
pub struct Parameters<S> {
    entries: Vec<(String, String)>,
    serializer: Option<S>,
}

impl<S> Parameters<S> {
    /// The entries, as character sequences, in ascending key order.
    pub closed spec fn entries_view(self) -> Seq<(Seq<char>, Seq<char>)> {
        views_of_pairs(self.entries@)
    }

    /// The key-value map this container denotes.
    pub open spec fn map_view(self) -> Map<Seq<char>, Seq<char>> {
        map_of(self.entries_view())
    }

    pub closed spec fn spec_serializer(self) -> Option<S> {
        self.serializer
    }

    pub open spec fn has_serializer(self) -> bool {
        self.spec_serializer() is Some
    }

    /// Entries are held sorted strictly by key.
    pub open spec fn wf(self) -> bool {
        sorted_by_key(self.entries_view())
    }

    /// Canonicalizes `map` into entries sorted by key (a later entry for a
    /// key overrides an earlier one) and attaches `serializer`.
    pub fn new(map: Vec<(String, String)>, serializer: Option<S>) -> (r: Self)
        ensures
            r.wf(),
            r.map_view() == map_of(views_of_pairs(map@)),
            r.spec_serializer() == serializer,
    {
        let mut entries: Vec<(String, String)> = Vec::new();
        let mut i: usize = 0;
        proof {
            assert(views_of_pairs(map@.take(0)) =~= Seq::<(Seq<char>, Seq<char>)>::empty());
            assert(views_of_pairs(entries@) =~= Seq::<(Seq<char>, Seq<char>)>::empty());
        }
        while i < map.len()
            invariant
                i <= map@.len(),
                sorted_by_key(views_of_pairs(entries@)),
                map_of(views_of_pairs(entries@)) == map_of(views_of_pairs(map@.take(i as int))),
            decreases map@.len() - i,
        {
            let k = map[i].0.clone();
            let v = map[i].1.clone();
            proof {
                let t1 = views_of_pairs(map@.take(i as int + 1));
                assert(t1.drop_last() =~= views_of_pairs(map@.take(i as int)));
                assert(t1.last() == (map@[i as int].0@, map@[i as int].1@));
            }
            map_insert(&mut entries, k, v);
            i = i + 1;
        }
        proof {
            assert(map@.take(map@.len() as int) =~= map@);
        }
        Self { entries, serializer }
    }

    /// Replaces the attached serializer hook; the entries are untouched.
    pub fn set_serializer(&mut self, serialize: Option<S>)
        ensures
            final(self).entries_view() == old(self).entries_view(),
            final(self).spec_serializer() == serialize,
    {
        self.serializer = serialize;
    }

    /// The entries in ascending key order.
    pub fn inner(&self) -> (r: &Vec<(String, String)>)
        ensures
            views_of_pairs(r@) == self.entries_view(),
    {
        &self.entries
    }

    /// The entries in ascending key order, surrendering the container.
    pub fn into_inner(self) -> (r: Vec<(String, String)>)
        ensures
            views_of_pairs(r@) == self.entries_view(),
    {
        self.entries
    }

    /// A snapshot of the entries in ascending key order.
    pub fn iter(&self) -> (r: Vec<(String, String)>)
        ensures
            views_of_pairs(r@) == self.entries_view(),
    {
        let mut out: Vec<(String, String)> = Vec::new();
        let mut i: usize = 0;
        while i < self.entries.len()
            invariant
                i <= self.entries@.len(),
                out@.len() == i,
                forall|j: int| 0 <= j < i ==> out@[j] == self.entries@[j],
            decreases self.entries@.len() - i,
        {
            out.push((self.entries[i].0.clone(), self.entries[i].1.clone()));
            i = i + 1;
        }
        proof {
            assert(out@ =~= self.entries@);
        }
        out
    }

    /// A snapshot of the entries in ascending key order.
    pub fn as_vec(&self) -> (r: Vec<(String, String)>)
        ensures
            views_of_pairs(r@) == self.entries_view(),
    {
        self.iter()
    }

    /// The entries in ascending key order, surrendering the container.
    pub fn into_vec(self) -> (r: Vec<(String, String)>)
        ensures
            views_of_pairs(r@) == self.entries_view(),
    {
        self.entries
    }

    /// Binds `key` to `value`, keeping key order; returns the value `key`
    /// was bound to before, if any.
    pub fn insert(&mut self, key: String, value: String) -> (r: Option<String>)
        requires
            old(self).wf(),
        ensures
            final(self).wf(),
            final(self).map_view() == old(self).map_view().insert(key@, value@),
            final(self).spec_serializer() == old(self).spec_serializer(),
            r matches Some(v) ==> old(self).map_view().contains_key(key@) && v@ == old(
                self,
            ).map_view()[key@],
            (r is None) <==> !old(self).map_view().contains_key(key@),
    {
        map_insert(&mut self.entries, key, value)
    }

    /// Removes the binding of `key`; returns the value it was bound to, if
    /// any.
    pub fn remove(&mut self, key: &str) -> (r: Option<String>)
        requires
            old(self).wf(),
        ensures
            final(self).wf(),
            final(self).map_view() == old(self).map_view().remove(key@),
            final(self).spec_serializer() == old(self).spec_serializer(),
            r matches Some(v) ==> old(self).map_view().contains_key(key@) && v@ == old(
                self,
            ).map_view()[key@],
            (r is None) <==> !old(self).map_view().contains_key(key@),
    {
        map_remove(&mut self.entries, key)
    }
}

impl<S: ParamSerializer> Parameters<S> {
    /// Renders the container through the attached serializer hook. With no
    /// hook attached the call fails with `MissingSerializer`, every time;
    /// otherwise the hook's own result, success or failure, is returned
    /// unchanged.
    pub fn serialize(&self) -> (r: Result<String, SerializationError>)
        ensures
            !self.has_serializer() ==> r == Err::<String, SerializationError>(
                SerializationError::MissingSerializer,
            ),
    {
        match &self.serializer {
            None => Err(SerializationError::MissingSerializer),
            Some(s) => s.serialize_params(&self.entries),
        }
    }
}

/// Sorted entries are a canonical form: two well-formed containers that
/// denote the same key-value map hold exactly the same entry sequence, so
/// filling a spec with equal values twice hands an attached serializer
/// identical input both times.
pub proof fn lemma_parameters_canonical<S>(p1: Parameters<S>, p2: Parameters<S>)
    requires
        p1.wf(),
        p2.wf(),
        p1.map_view() == p2.map_view(),
    ensures
        p1.entries_view() == p2.entries_view(),
{
    lemma_sorted_canonical(p1.entries_view(), p2.entries_view());
}

/// Declares the set of legal parameter keys, with an optional validator
/// hook and an optional serializer hook copied onto every `Parameters`
/// this spec fills.
pub struct ParametersSpec<V, S> {
    keys: Vec<String>,
    validate: Option<V>,
    serialize: Option<S>,
}

impl<V, S> ParametersSpec<V, S> {
    /// The declared key set.
    pub closed spec fn spec_keys(self) -> Set<Seq<char>> {
        key_set(self.keys@)
    }

    pub closed spec fn spec_validator(self) -> Option<V> {
        self.validate
    }

    pub closed spec fn spec_serializer(self) -> Option<S> {
        self.serialize
    }

    /// Builds the legal key set from `keys`; duplicate keys collapse.
    pub fn new(keys: Vec<String>) -> (r: Self)
        ensures
            r.spec_keys() == key_set(keys@),
            r.spec_validator() is None,
            r.spec_serializer() is None,
    {
        let mut uniq: Vec<String> = Vec::new();
        let mut i: usize = 0;
        proof {
            assert(key_set(uniq@) =~= key_set(keys@.take(0)));
        }
        while i < keys.len()
            invariant
                i <= keys@.len(),
                key_set(uniq@) == key_set(keys@.take(i as int)),
            decreases keys@.len() - i,
        {
            let ghost uniq0 = uniq@;
            let present = keys_contain(&uniq, &keys[i]);
            if !present {
                uniq.push(keys[i].clone());
            }
            proof {
                assert forall|x: Seq<char>| #[trigger] key_set(uniq@).contains(x) implies key_set(
                    keys@.take(i as int + 1),
                ).contains(x) by {
                    let j = choose|j: int| 0 <= j < uniq@.len() && (#[trigger] uniq@[j])@ == x;
                    if j < uniq0.len() {
                        assert(key_set(uniq0).contains(x));
                        let l = choose|l: int|
                            0 <= l < keys@.take(i as int).len() && (#[trigger] keys@.take(
                                i as int,
                            )[l])@ == x;
                        assert((keys@.take(i as int + 1)[l])@ == x);
                    } else {
                        assert(uniq@[j] == keys@[i as int]);
                        assert((keys@.take(i as int + 1)[i as int])@ == x);
                    }
                }
                assert forall|x: Seq<char>| #[trigger] key_set(keys@.take(i as int + 1)).contains(
                    x,
                ) implies key_set(uniq@).contains(x) by {
                    let j = choose|j: int|
                        0 <= j < keys@.take(i as int + 1).len() && (#[trigger] keys@.take(
                            i as int + 1,
                        )[j])@ == x;
                    if j < i {
                        assert((keys@.take(i as int)[j])@ == x);
                        assert(key_set(uniq0).contains(x));
                        let l = choose|l: int| 0 <= l < uniq0.len() && (#[trigger] uniq0[l])@ == x;
                        assert((uniq@[l])@ == x);
                    } else {
                        assert(keys@[i as int]@ == x);
                        if present {
                            assert(key_set(uniq0).contains(x));
                            let l = choose|l: int|
                                0 <= l < uniq0.len() && (#[trigger] uniq0[l])@ == x;
                            assert((uniq@[l])@ == x);
                        } else {
                            assert((uniq@[uniq@.len() - 1])@ == x);
                        }
                    }
                }
                assert(key_set(uniq@) =~= key_set(keys@.take(i as int + 1)));
            }
            i = i + 1;
        }
        proof {
            assert(keys@.take(keys@.len() as int) =~= keys@);
        }
        Self { keys: uniq, validate: None, serialize: None }
    }

    /// Installs the validation hook.
    pub fn set_validator(&mut self, f: V)
        ensures
            final(self).spec_validator() == Some(f),
            final(self).spec_keys() == old(self).spec_keys(),
            final(self).spec_serializer() == old(self).spec_serializer(),
    {
        self.validate = Some(f);
    }

    /// Installs the serialization hook.
    pub fn set_serializer(&mut self, f: S)
        ensures
            final(self).spec_serializer() == Some(f),
            final(self).spec_keys() == old(self).spec_keys(),
            final(self).spec_validator() == old(self).spec_validator(),
    {
        self.serialize = Some(f);
    }
}

impl<V: ParamValidator, S: Copy> ParametersSpec<V, S> {
    /// Checks every offered key against the declared key set, passes the
    /// values through the installed validator if one is present, and wraps
    /// the outcome together with the spec's serializer into a new
    /// `Parameters`. Any offered key outside the key set fails the call
    /// with `InvalidKey` naming that key, whatever the other keys hold.
    pub fn fill(&self, values: Vec<(String, String)>) -> (r: Result<Parameters<S>, SpecError>)
        ensures
            r matches Err(SpecError::InvalidKey(k)) ==> !self.spec_keys().contains(k@) && (
            exists|i: int| 0 <= i < values@.len() && (#[trigger] values@[i]).0@ == k@),
            (exists|i: int|
                0 <= i < values@.len() && !self.spec_keys().contains(
                    (#[trigger] values@[i]).0@,
                )) ==> (r matches Err(SpecError::InvalidKey(_))),
            r matches Ok(p) ==> p.wf() && p.spec_serializer() == self.spec_serializer(),
            ((forall|i: int|
                0 <= i < values@.len() ==> self.spec_keys().contains((#[trigger] values@[i]).0@))
                && self.spec_validator() is None) ==> (r matches Ok(p) && p.map_view() == map_of(
                views_of_pairs(values@),
            )),
            r matches Err(SpecError::ValidationFailed { error }) ==> self.spec_validator() is Some
                && (forall|i: int|
                0 <= i < values@.len() ==> self.spec_keys().contains((#[trigger] values@[i]).0@)),
    {
        let mut idx: usize = 0;
        while idx < values.len()
            invariant
                idx <= values@.len(),
                forall|i: int|
                    0 <= i < idx ==> self.spec_keys().contains((#[trigger] values@[i]).0@),
            decreases values@.len() - idx,
        {
            let ok = keys_contain(&self.keys, &values[idx].0);
            if !ok {
                return Err(SpecError::InvalidKey(values[idx].0.clone()));
            }
            idx = idx + 1;
        }
        let checked = if let Some(f) = &self.validate {
            match f.validate(&self.keys, values) {
                Ok(m) => m,
                Err(e) => {
                    return Err(SpecError::ValidationFailed { error: e });
                },
            }
        } else {
            values
        };
        Ok(Parameters::new(checked, self.serialize))
    }
}

} // verus!
