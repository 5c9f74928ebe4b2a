//! Laws of the ordered document model, stated over the spec functions that
//! the executable contracts use.

use vstd::prelude::*;
use crate::doc::{
    doc_get, doc_has_key, doc_set, plain_doc, plain_entry, wf_doc, DocView, JsonValView,
};

verus! {

/// Round trip at the document level: reading a key right after storing a
/// value under it yields that value, whatever the document held before.
pub proof fn lemma_set_then_get(d: DocView, k: Seq<char>, v: JsonValView)
    ensures
        doc_get(doc_set(d, k, v), k) == Some(v),
    decreases d.len(),
{
    if d.len() > 0 && d[0].0 != k {
        lemma_set_then_get(d.drop_first(), k, v);
        assert(doc_set(d, k, v)[0] == d[0]);
        assert(doc_set(d, k, v).drop_first() =~= doc_set(d.drop_first(), k, v));
    }
}

/// Independence: storing under one key leaves the value under every other
/// key exactly as it was.
pub proof fn lemma_set_other_key(d: DocView, k: Seq<char>, v: JsonValView, k2: Seq<char>)
    requires
        k2 != k,
    ensures
        doc_get(doc_set(d, k, v), k2) == doc_get(d, k2),
    decreases d.len(),
{
    let r = doc_set(d, k, v);
    if d.len() == 0 {
        assert(r.len() == 1);
        assert(r[0] == (k, v));
        assert(r.drop_first() =~= Seq::<(Seq<char>, JsonValView)>::empty());
        assert(doc_get(r.drop_first(), k2) is None);
        assert(doc_get(r, k2) == doc_get(d, k2));
    } else if d[0].0 == k {
        assert(r.len() == d.len());
        assert(r[0] == (k, v));
        assert(r.drop_first() =~= d.drop_first());
        assert(doc_get(r, k2) == doc_get(d.drop_first(), k2));
        assert(doc_get(r, k2) == doc_get(d, k2));
    } else {
        lemma_set_other_key(d.drop_first(), k, v, k2);
        assert(r.len() > 0);
        assert(r[0] == d[0]);
        assert(r.drop_first() =~= doc_set(d.drop_first(), k, v));
        assert(doc_get(r, k2) == doc_get(d, k2));
    }
}

/// The keys present after a store: the stored key, and the keys that were
/// present before.
pub proof fn lemma_set_key_membership(d: DocView, k: Seq<char>, v: JsonValView, k2: Seq<char>)
    ensures
        doc_has_key(doc_set(d, k, v), k2) <==> (k2 == k || doc_has_key(d, k2)),
{
    if k2 == k {
        lemma_set_then_get(d, k, v);
    } else {
        lemma_set_other_key(d, k, v, k2);
    }
}

/// Storing never creates a duplicate: a well-formed document stays
/// well-formed, so it never holds two entries for the same key.
pub proof fn lemma_set_preserves_wf(d: DocView, k: Seq<char>, v: JsonValView)
    requires
        wf_doc(d),
    ensures
        wf_doc(doc_set(d, k, v)),
    decreases d.len(),
{
    let r = doc_set(d, k, v);
    if d.len() == 0 {
        assert(r.len() == 1);
        assert(r[0] == (k, v));
        assert(r.drop_first() =~= Seq::<(Seq<char>, JsonValView)>::empty());
        assert(doc_get(r.drop_first(), k) is None);
        assert(wf_doc(r.drop_first()));
        assert(wf_doc(r));
    } else if d[0].0 == k {
        assert(r.len() == d.len());
        assert(r[0] == (k, v));
        assert(r.drop_first() =~= d.drop_first());
        assert(!doc_has_key(d.drop_first(), k));
        assert(wf_doc(r));
    } else {
        lemma_set_preserves_wf(d.drop_first(), k, v);
        lemma_set_key_membership(d.drop_first(), k, v, d[0].0);
        assert(r.len() == doc_set(d.drop_first(), k, v).len() + 1);
        assert(r[0] == d[0]);
        assert(r.drop_first() =~= doc_set(d.drop_first(), k, v));
        assert(!doc_has_key(r.drop_first(), d[0].0));
        assert(wf_doc(r));
    }
}

/// Every entry's key is present, and every present key is carried by some
/// entry.
pub proof fn lemma_has_key_at_index(d: DocView)
    ensures
        forall|j: int| 0 <= j < d.len() ==> doc_has_key(d, #[trigger] d[j].0),
        forall|k: Seq<char>| #[trigger] doc_has_key(d, k) ==> exists|j: int|
            0 <= j < d.len() && #[trigger] d[j].0 == k,
    decreases d.len(),
{
    if d.len() > 0 {
        let dt = d.drop_first();
        lemma_has_key_at_index(dt);
        assert forall|j: int| 0 <= j < d.len() implies doc_has_key(d, #[trigger] d[j].0) by {
            if j > 0 && d[0].0 != d[j].0 {
                assert(dt[j - 1] == d[j]);
                assert(doc_has_key(dt, d[j].0));
                assert(doc_get(d, d[j].0) == doc_get(dt, d[j].0));
            }
        }
        assert forall|k: Seq<char>| #[trigger] doc_has_key(d, k) implies exists|j: int|
            0 <= j < d.len() && #[trigger] d[j].0 == k by {
            if d[0].0 == k {
                assert(d[0].0 == k);
            } else {
                assert(doc_get(d, k) == doc_get(dt, k));
                assert(doc_has_key(dt, k));
                let j = choose|j: int| 0 <= j < dt.len() && #[trigger] dt[j].0 == k;
                assert(dt[j] == d[j + 1]);
                assert(d[j + 1].0 == k);
            }
        }
    }
}

/// In a well-formed document no two entries share a key.
pub proof fn lemma_wf_unique_keys(d: DocView)
    requires
        wf_doc(d),
    ensures
        forall|i: int, j: int| 0 <= i < j < d.len() ==> d[i].0 != d[j].0,
    decreases d.len(),
{
    if d.len() > 0 {
        let dt = d.drop_first();
        lemma_wf_unique_keys(dt);
        lemma_has_key_at_index(dt);
        assert forall|i: int, j: int| 0 <= i < j < d.len() implies d[i].0 != d[j].0 by {
            if i == 0 {
                assert(dt[j - 1] == d[j]);
                assert(doc_has_key(dt, dt[j - 1].0));
            } else {
                assert(dt[i - 1] == d[i]);
                assert(dt[j - 1] == d[j]);
            }
        }
    }
}

/// Round trip, chained through serialization: storing a quote-free string
/// under a quote-free key leaves the document well-formed and plain — so
/// its serialized text parses back to exactly this document — and the key
/// then reads back exactly the stored value.
pub proof fn lemma_round_trip(d: DocView, k: Seq<char>, s: Seq<char>)
    requires
        wf_doc(d),
        plain_doc(d),
        !k.contains('"'),
        !s.contains('"'),
    ensures
        wf_doc(doc_set(d, k, JsonValView::Str(s))),
        plain_doc(doc_set(d, k, JsonValView::Str(s))),
        doc_get(doc_set(d, k, JsonValView::Str(s)), k) == Some(JsonValView::Str(s)),
{
    lemma_set_preserves_wf(d, k, JsonValView::Str(s));
    lemma_set_preserves_plain(d, k, s);
    lemma_set_then_get(d, k, JsonValView::Str(s));
}

/// Storing a quote-free string under a quote-free key keeps the document
/// plain, so its serialized text reads back verbatim.
pub proof fn lemma_set_preserves_plain(d: DocView, k: Seq<char>, s: Seq<char>)
    requires
        plain_doc(d),
        !k.contains('"'),
        !s.contains('"'),
    ensures
        plain_doc(doc_set(d, k, JsonValView::Str(s))),
    decreases d.len(),
{
    let v = JsonValView::Str(s);
    let r = doc_set(d, k, v);
    assert(plain_entry((k, v)));
    if d.len() == 0 {
        assert(r.len() == 1);
        assert(r[0] == (k, v));
        assert(r.drop_first() =~= Seq::<(Seq<char>, JsonValView)>::empty());
        assert(plain_doc(r.drop_first()));
        assert(plain_doc(r));
    } else if d[0].0 == k {
        assert(r.len() == d.len());
        assert(r[0] == (k, v));
        assert(r.drop_first() =~= d.drop_first());
        assert(plain_doc(r));
    } else {
        lemma_set_preserves_plain(d.drop_first(), k, s);
        assert(r.len() == doc_set(d.drop_first(), k, v).len() + 1);
        assert(r[0] == d[0]);
        assert(r.drop_first() =~= doc_set(d.drop_first(), k, v));
        assert(plain_doc(r));
    }
}

} // verus!
