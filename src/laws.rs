//! Properties of resolving and snapshotting, over the index's entries.

use vstd::prelude::*;
use crate::content::{sha256_of, valid_identifier};
use crate::index::{entries_wf, loaded_entries, resolved_entries, resolved_id, snapshot_accepted};
use crate::table::{
    all_ascii, lemma_slots_entries_distinct, lemma_slots_entries_domain, slot_count_of, slot_key,
    slot_occupied, slot_value, slot_values_ascii, slots_entries, snapshot_wellformed,
};

verus! {

/// The entries after resolving digests `ds` in order, with fresh identifiers `cs`.
pub open spec fn resolve_all(
    m: Map<Seq<u8>, Seq<u8>>,
    ds: Seq<Seq<u8>>,
    cs: Seq<Seq<u8>>,
) -> Map<Seq<u8>, Seq<u8>>
    decreases ds.len(),
{
    if ds.len() == 0 || cs.len() == 0 {
        m
    } else {
        resolved_entries(resolve_all(m, ds.drop_last(), cs.drop_last()), ds.last(), cs.last())
    }
}

/// The identifier that the `i`-th of the resolves in `resolve_all` returns.
pub open spec fn resolve_all_id(
    m: Map<Seq<u8>, Seq<u8>>,
    ds: Seq<Seq<u8>>,
    cs: Seq<Seq<u8>>,
    i: int,
) -> Seq<u8> {
    resolved_id(resolve_all(m, ds.take(i), cs.take(i)), ds[i], cs[i])
}

/// Equal payloads have equal digests: the digest is a function of the bytes.
pub proof fn lemma_equal_payloads_equal_digests(p1: Seq<u8>, p2: Seq<u8>)
    requires
        p1 == p2,
    ensures
        sha256_of(p1) == sha256_of(p2),
{
}

/// Resolving the same digest twice returns the same identifier both times,
/// and the digest then has one entry, holding that identifier.
pub proof fn lemma_resolve_twice(m: Map<Seq<u8>, Seq<u8>>, d: Seq<u8>, c1: Seq<u8>, c2: Seq<u8>)
    ensures
        resolved_id(resolved_entries(m, d, c1), d, c2) == resolved_id(m, d, c1),
        resolved_entries(resolved_entries(m, d, c1), d, c2) == resolved_entries(m, d, c1),
        resolved_entries(m, d, c1).contains_key(d),
        resolved_entries(m, d, c1)[d] == resolved_id(m, d, c1),
{
}

/// Resolves of one digest, one after another as the exclusive borrow orders
/// them, all return the identifier of the first, and leave the entries as the
/// first one did: one entry for the digest, none lost.
pub proof fn lemma_resolve_same_digest(
    m: Map<Seq<u8>, Seq<u8>>,
    d: Seq<u8>,
    ds: Seq<Seq<u8>>,
    cs: Seq<Seq<u8>>,
)
    requires
        ds.len() == cs.len(),
        ds.len() > 0,
        forall|i: int| 0 <= i < ds.len() ==> #[trigger] ds[i] == d,
    ensures
        resolve_all(m, ds, cs) == resolved_entries(m, d, cs[0]),
        forall|i: int|
            0 <= i < ds.len() ==> #[trigger] resolve_all_id(m, ds, cs, i) == resolved_id(m, d, cs[0]),
    decreases ds.len(),
{
    if ds.len() == 1 {
        assert(resolve_all(m, ds.drop_last(), cs.drop_last()) == m);
        assert(ds[0] == d);
        assert(ds.take(0).len() == 0);
    } else {
        let ds2 = ds.drop_last();
        let cs2 = cs.drop_last();
        assert forall|i: int| 0 <= i < ds2.len() implies #[trigger] ds2[i] == d by {
            assert(ds2[i] == ds[i]);
        }
        lemma_resolve_same_digest(m, d, ds2, cs2);
        assert(cs2[0] == cs[0]);
        assert(ds[ds.len() - 1] == d);
        assert(ds2[0] == d);
        assert forall|i: int| 0 <= i < ds.len() implies #[trigger] resolve_all_id(m, ds, cs, i)
            == resolved_id(m, d, cs[0]) by {
            if i < ds.len() - 1 {
                assert(ds.take(i) =~= ds2.take(i));
                assert(cs.take(i) =~= cs2.take(i));
                assert(resolve_all_id(m, ds2, cs2, i) == resolved_id(m, d, cs[0]));
            } else {
                assert(ds.take(i) =~= ds2);
                assert(cs.take(i) =~= cs2);
                if i > 0 {
                    assert(ds2[0] == d);
                }
            }
        }
    }
}

/// The digests that `resolve_all` leaves present: those of `m` and those resolved.
proof fn lemma_resolve_all_domain(m: Map<Seq<u8>, Seq<u8>>, ds: Seq<Seq<u8>>, cs: Seq<Seq<u8>>)
    requires
        ds.len() == cs.len(),
        m.dom().finite(),
    ensures
        resolve_all(m, ds, cs).dom().finite(),
        forall|k: Seq<u8>|
            #[trigger] resolve_all(m, ds, cs).contains_key(k) <==> m.contains_key(k) || ds.contains(k),
    decreases ds.len(),
{
    if ds.len() > 0 {
        let ds2 = ds.drop_last();
        lemma_resolve_all_domain(m, ds2, cs.drop_last());
        assert forall|k: Seq<u8>| ds.contains(k) <==> ds2.contains(k) || ds.last() == k by {
            if ds.contains(k) {
                let i = choose|i: int| 0 <= i < ds.len() && ds[i] == k;
                if i < ds.len() - 1 {
                    assert(ds2[i] == k);
                }
            }
            if ds2.contains(k) {
                let i = choose|i: int| 0 <= i < ds2.len() && ds2[i] == k;
                assert(ds[i] == k);
            }
            if ds.last() == k {
                assert(ds[ds.len() - 1] == k);
            }
        }
    }
}

/// Resolving pairwise distinct digests, none present before, adds one entry each.
pub proof fn lemma_resolve_distinct_grows(
    m: Map<Seq<u8>, Seq<u8>>,
    ds: Seq<Seq<u8>>,
    cs: Seq<Seq<u8>>,
)
    requires
        ds.len() == cs.len(),
        m.dom().finite(),
        forall|i: int, j: int| 0 <= i < j < ds.len() ==> ds[i] != ds[j],
        forall|i: int| 0 <= i < ds.len() ==> !m.contains_key(#[trigger] ds[i]),
    ensures
        resolve_all(m, ds, cs).len() == m.len() + ds.len(),
    decreases ds.len(),
{
    if ds.len() > 0 {
        let ds2 = ds.drop_last();
        let cs2 = cs.drop_last();
        assert forall|i: int| 0 <= i < ds2.len() implies !m.contains_key(#[trigger] ds2[i]) by {
            assert(ds2[i] == ds[i]);
        }
        lemma_resolve_distinct_grows(m, ds2, cs2);
        lemma_resolve_all_domain(m, ds2, cs2);
        if ds2.contains(ds.last()) {
            let i = choose|i: int| 0 <= i < ds2.len() && ds2[i] == ds.last();
            assert(ds[i] == ds[ds.len() - 1]);
        }
        assert(!m.contains_key(ds[ds.len() - 1]));
    }
}

/// Uploading N payloads with pairwise distinct digests into an empty index
/// yields an index of N entries.
pub proof fn lemma_distinct_uploads_size(ds: Seq<Seq<u8>>, cs: Seq<Seq<u8>>)
    requires
        ds.len() == cs.len(),
        forall|i: int, j: int| 0 <= i < j < ds.len() ==> ds[i] != ds[j],
    ensures
        resolve_all(Map::empty(), ds, cs).len() == ds.len(),
{
    lemma_resolve_distinct_grows(Map::empty(), ds, cs);
}

/// A snapshot of a well-formed index loads back to the same entries, so every
/// lookup answers as before.
pub proof fn lemma_snapshot_round_trip(m: Map<Seq<u8>, Seq<u8>>, snapshot: Seq<u8>)
    requires
        entries_wf(m),
        snapshot_wellformed(snapshot),
        slots_entries(snapshot, slot_count_of(snapshot)) == m,
    ensures
        loaded_entries(snapshot) == Some(m),
        forall|d: Seq<u8>|
            #[trigger] loaded_entries(snapshot)->Some_0.contains_key(d) <==> m.contains_key(d),
        forall|d: Seq<u8>|
            m.contains_key(d) ==> #[trigger] loaded_entries(snapshot)->Some_0[d] == m[d],
{
    let s = slot_count_of(snapshot);
    lemma_slots_entries_domain(snapshot, s);
    lemma_slots_entries_distinct(snapshot, s);
    assert(snapshot_accepted(snapshot));
    assert forall|i: int| 0 <= i < s implies all_ascii(#[trigger] slot_value(snapshot, i)) by {
        if slot_occupied(snapshot, i) {
            assert(m.contains_key(slot_key(snapshot, i)));
            assert(valid_identifier(m[slot_key(snapshot, i)]));
        }
    }
    assert(slot_values_ascii(snapshot));
}

} // verus!
