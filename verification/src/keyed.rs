//! Lists kept sorted by a text key, each key at most once: the ordered
//! maps of the usage reports (by day, by request source). Keys compare as
//! Rust compares `String`s.

use crate::text::{
    chars_lt, chars_of, lemma_seq_lt_asym, lemma_seq_lt_total, lemma_seq_lt_trans, seq_lt,
};
use vstd::prelude::*;

verus! {

/// Keys in strictly ascending order (so each key occurs once).
pub open spec fn strictly_sorted(ks: Seq<Seq<char>>) -> bool {
    forall|i: int, j: int| 0 <= i < j < ks.len() ==> seq_lt(#[trigger] ks[i], #[trigger] ks[j])
}

pub open spec fn keys<V>(l: Seq<(Seq<char>, V)>) -> Seq<Seq<char>> {
    l.map_values(|e: (Seq<char>, V)| e.0)
}

pub open spec fn string_keys<V>(l: Seq<(String, V)>) -> Seq<Seq<char>> {
    l.map_values(|e: (String, V)| e.0@)
}

/// The list with the entry under `k` replaced by `f` of it (`f(None)` for a
/// new key, placed where the order puts it): `BTreeMap::entry` and a write.
pub open spec fn upsert<V>(l: Seq<(Seq<char>, V)>, k: Seq<char>, f: spec_fn(Option<V>) -> V) -> Seq<
    (Seq<char>, V),
>
    decreases l.len(),
{
    if l.len() == 0 {
        seq![(k, f(None))]
    } else if l[0].0 == k {
        l.update(0, (k, f(Some(l[0].1))))
    } else if seq_lt(k, l[0].0) {
        seq![(k, f(None))] + l
    } else {
        seq![l[0]] + upsert(l.drop_first(), k, f)
    }
}

/// Where `k` stands or would stand in a sorted list: the first position
/// whose key is not below `k`, and whether that key is `k`.
pub fn find_slot<V>(l: &Vec<(String, V)>, k: &String) -> (r: (usize, bool))
    requires
        strictly_sorted(string_keys(l@)),
    ensures
        r.0 <= l.len(),
        forall|j: int| 0 <= j < r.0 ==> seq_lt(#[trigger] l@[j].0@, k@),
        r.1 ==> r.0 < l.len() && l@[r.0 as int].0@ == k@,
        !r.1 ==> r.0 == l.len() || seq_lt(k@, l@[r.0 as int].0@),
{
    let kc = chars_of(k.as_str());
    let mut i: usize = 0;
    while i < l.len()
        invariant
            i <= l.len(),
            kc@ == k@,
            forall|j: int| 0 <= j < i ==> seq_lt(#[trigger] l@[j].0@, k@),
        decreases l.len() - i,
    {
        let c = chars_of(l[i].0.as_str());
        if chars_lt(c.as_slice(), kc.as_slice()) {
            i += 1;
        } else {
            let above = chars_lt(kc.as_slice(), c.as_slice());
            proof {
                lemma_seq_lt_total(c@, kc@);
            }
            return (i, !above);
        }
    }
    (i, false)
}

/// Inserting a key at its slot keeps the keys strictly sorted.
pub proof fn lemma_insert_sorted(ks: Seq<Seq<char>>, i: int, k: Seq<char>)
    requires
        strictly_sorted(ks),
        0 <= i <= ks.len(),
        forall|j: int| 0 <= j < i ==> seq_lt(#[trigger] ks[j], k),
        i == ks.len() || seq_lt(k, ks[i]),
    ensures
        strictly_sorted(ks.insert(i, k)),
{
    let n = ks.insert(i, k);
    assert forall|p: int, q: int| 0 <= p < q < n.len() implies seq_lt(#[trigger] n[p], #[trigger] n[q]) by {
        if q < i {
        } else if q == i {
        } else if p == i {
            if q - 1 > i {
                lemma_seq_lt_trans(k, ks[i], ks[q - 1]);
            }
        } else if p < i {
            assert(seq_lt(ks[p], ks[q - 1]));
        } else {
            assert(seq_lt(ks[p - 1], ks[q - 1]));
        }
    }
}

/// `upsert` at a slot found by `find_slot` is an update in place or an
/// insertion there.
pub proof fn lemma_upsert_slot<V>(
    l: Seq<(Seq<char>, V)>,
    k: Seq<char>,
    f: spec_fn(Option<V>) -> V,
    i: int,
    found: bool,
)
    requires
        0 <= i <= l.len(),
        forall|j: int| 0 <= j < i ==> seq_lt(#[trigger] l[j].0, k),
        found ==> i < l.len() && l[i].0 == k,
        !found ==> i == l.len() || seq_lt(k, l[i].0),
    ensures
        upsert(l, k, f) == if found {
            l.update(i, (k, f(Some(l[i].1))))
        } else {
            l.insert(i, (k, f(None)))
        },
    decreases i,
{
    if i == 0 {
        if found {
        } else if l.len() == 0 {
            assert(l.insert(0, (k, f(None))) =~= seq![(k, f(None))]);
        } else {
            lemma_seq_lt_asym(k, l[0].0);
            assert(l.insert(0, (k, f(None))) =~= seq![(k, f(None))] + l);
        }
    } else {
        lemma_seq_lt_asym(l[0].0, k);
        let rest = l.drop_first();
        assert forall|j: int| 0 <= j < i - 1 implies seq_lt(#[trigger] rest[j].0, k) by {
            assert(rest[j] == l[j + 1]);
        }
        lemma_upsert_slot(rest, k, f, i - 1, found);
        if found {
            assert(seq![l[0]] + rest.update(i - 1, (k, f(Some(rest[i - 1].1)))) =~= l.update(
                i,
                (k, f(Some(l[i].1))),
            ));
        } else {
            assert(seq![l[0]] + rest.insert(i - 1, (k, f(None))) =~= l.insert(i, (k, f(None))));
        }
    }
}

proof fn lemma_upsert_above<V>(l: Seq<(Seq<char>, V)>, k: Seq<char>, f: spec_fn(Option<V>) -> V, b: Seq<char>)
    requires
        forall|j: int| 0 <= j < l.len() ==> seq_lt(b, #[trigger] l[j].0),
        seq_lt(b, k),
    ensures
        forall|j: int| 0 <= j < upsert(l, k, f).len() ==> seq_lt(b, #[trigger] upsert(l, k, f)[j].0),
    decreases l.len(),
{
    if l.len() > 0 && l[0].0 != k && !seq_lt(k, l[0].0) {
        let rest = l.drop_first();
        assert forall|j: int| 0 <= j < rest.len() implies seq_lt(b, #[trigger] rest[j].0) by {
            assert(rest[j] == l[j + 1]);
        }
        lemma_upsert_above(rest, k, f, b);
        let u = upsert(l, k, f);
        assert forall|j: int| 0 <= j < u.len() implies seq_lt(b, #[trigger] u[j].0) by {
            if j > 0 {
                assert(u[j] == upsert(rest, k, f)[j - 1]);
            }
        }
    }
}

/// `upsert` keeps the keys strictly sorted and puts `k` among them.
pub proof fn lemma_upsert_sorted<V>(l: Seq<(Seq<char>, V)>, k: Seq<char>, f: spec_fn(Option<V>) -> V)
    requires
        strictly_sorted(keys(l)),
    ensures
        strictly_sorted(keys(upsert(l, k, f))),
        keys(upsert(l, k, f)).contains(k),
    decreases l.len(),
{
    let u = upsert(l, k, f);
    if l.len() == 0 {
        assert(keys(u)[0] == k);
    } else if l[0].0 == k {
        assert(keys(u) =~= keys(l));
        assert(keys(u)[0] == k);
    } else if seq_lt(k, l[0].0) {
        assert(keys(u) =~= seq![k] + keys(l));
        assert forall|p: int, q: int| 0 <= p < q < keys(u).len() implies seq_lt(
            #[trigger] keys(u)[p],
            #[trigger] keys(u)[q],
        ) by {
            if p == 0 {
                if q > 1 {
                    assert(seq_lt(keys(l)[0], keys(l)[q - 1]));
                    lemma_seq_lt_trans(k, l[0].0, l[q - 1].0);
                }
            } else {
                assert(seq_lt(keys(l)[p - 1], keys(l)[q - 1]));
            }
        }
        assert(keys(u)[0] == k);
    } else {
        let rest = l.drop_first();
        assert(keys(rest) =~= keys(l).drop_first());
        lemma_upsert_sorted(rest, k, f);
        lemma_seq_lt_total(l[0].0, k);
        assert forall|j: int| 0 <= j < rest.len() implies seq_lt(l[0].0, #[trigger] rest[j].0) by {
            assert(seq_lt(keys(l)[0], keys(l)[j + 1]));
        }
        lemma_upsert_above(rest, k, f, l[0].0);
        let ur = upsert(rest, k, f);
        assert(keys(u) =~= seq![l[0].0] + keys(ur));
        assert forall|p: int, q: int| 0 <= p < q < keys(u).len() implies seq_lt(
            #[trigger] keys(u)[p],
            #[trigger] keys(u)[q],
        ) by {
            if p == 0 {
                assert(keys(u)[q] == ur[q - 1].0);
            } else {
                assert(seq_lt(keys(ur)[p - 1], keys(ur)[q - 1]));
            }
        }
        let w = choose|w: int| 0 <= w < keys(ur).len() && keys(ur)[w] == k;
        assert(keys(u)[w + 1] == k);
    }
}

pub open spec fn key_view<V>(l: Seq<(String, V)>) -> Seq<(Seq<char>, V)> {
    l.map_values(|e: (String, V)| (e.0@, e.1))
}

pub open spec fn text_view(l: Seq<(String, String)>) -> Seq<(Seq<char>, Seq<char>)> {
    l.map_values(|e: (String, String)| (e.0@, e.1@))
}

/// The update that replaces whatever was under a key by `v`.
pub open spec fn replace_with<V>(v: V) -> spec_fn(Option<V>) -> V {
    |o: Option<V>| v
}

/// `map.insert(k, v)` on a sorted list.
pub fn put<V>(l: &mut Vec<(String, V)>, k: String, v: V)
    requires
        strictly_sorted(string_keys(old(l)@)),
    ensures
        strictly_sorted(string_keys(final(l)@)),
        key_view(final(l)@) == upsert(key_view(old(l)@), k@, replace_with(v)),
{
    let ghost before = l@;
    let ghost kv = k@;
    let ghost f = replace_with(v);
    let (slot, found) = find_slot(l, &k);
    proof {
        assert forall|j: int| 0 <= j < slot implies seq_lt(#[trigger] key_view(before)[j].0, kv) by {
            assert(key_view(before)[j].0 == before[j].0@);
        }
        lemma_upsert_slot(key_view(before), kv, f, slot as int, found);
        assert forall|j: int| 0 <= j < slot implies seq_lt(#[trigger] string_keys(before)[j], kv) by {
            assert(string_keys(before)[j] == before[j].0@);
        }
    }
    if found {
        l.set(slot, (k, v));
        proof {
            assert(string_keys(l@) =~= string_keys(before));
            assert(key_view(l@) =~= key_view(before).update(slot as int, (kv, f(Some(key_view(before)[slot as int].1)))));
        }
    } else {
        l.insert(slot, (k, v));
        proof {
            lemma_insert_sorted(string_keys(before), slot as int, kv);
            assert(string_keys(l@) =~= string_keys(before).insert(slot as int, kv));
            assert(key_view(l@) =~= key_view(before).insert(slot as int, (kv, f(None))));
        }
    }
}

/// `map.insert(k, v)` on a sorted list of texts.
pub fn put_text(l: &mut Vec<(String, String)>, k: String, v: String)
    requires
        strictly_sorted(string_keys(old(l)@)),
    ensures
        strictly_sorted(string_keys(final(l)@)),
        text_view(final(l)@) == upsert(text_view(old(l)@), k@, replace_with(v@)),
{
    let ghost before = l@;
    let ghost kv = k@;
    let ghost f = replace_with(v@);
    let (slot, found) = find_slot(l, &k);
    proof {
        assert forall|j: int| 0 <= j < slot implies seq_lt(#[trigger] text_view(before)[j].0, kv) by {
            assert(text_view(before)[j].0 == before[j].0@);
        }
        lemma_upsert_slot(text_view(before), kv, f, slot as int, found);
        assert forall|j: int| 0 <= j < slot implies seq_lt(#[trigger] string_keys(before)[j], kv) by {
            assert(string_keys(before)[j] == before[j].0@);
        }
    }
    if found {
        l.set(slot, (k, v));
        proof {
            assert(string_keys(l@) =~= string_keys(before));
            assert(text_view(l@) =~= text_view(before).update(slot as int, (kv, f(Some(text_view(before)[slot as int].1)))));
        }
    } else {
        l.insert(slot, (k, v));
        proof {
            lemma_insert_sorted(string_keys(before), slot as int, kv);
            assert(string_keys(l@) =~= string_keys(before).insert(slot as int, kv));
            assert(text_view(l@) =~= text_view(before).insert(slot as int, (kv, f(None))));
        }
    }
}

} // verus!
