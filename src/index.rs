//! The deduplication index: content digest to identifier, only ever growing.

use vstd::prelude::*;
use crate::content::{
    content_digest, generate_identifier, is_alphanumeric, sha256_of, valid_identifier,
    IDENTIFIER_LEN,
};
use crate::table::{
    all_ascii, all_zero, check_header, item_count_of, lemma_occupied_count_mono,
    lemma_slots_entries_distinct, lemma_slots_entries_domain, new_table, occupied_count,
    range_all_ascii, range_all_zero, read_digest, read_identifier, slot_count_of, slot_key,
    slot_occupied, slot_value, slot_values_ascii, slots_consistent, slots_entries,
    snapshot_wellformed, table_bytes, table_entries, table_get, table_insert, table_len,
    DigestTable,
};

verus! {

/// The most entries an index holds.
pub const MAX_ENTRIES: usize = 0x4000_0000;

/// Load factor, in percent, of a fresh index's table.
pub const LOAD_FACTOR_PERCENT: u8 = 95;

/// Entries of a well-formed index: at most `MAX_ENTRIES` of them, each a
/// 32-byte digest mapped to a valid identifier.
pub open spec fn entries_wf(m: Map<Seq<u8>, Seq<u8>>) -> bool {
    &&& m.dom().finite()
    &&& m.len() <= MAX_ENTRIES
    &&& forall|k: Seq<u8>| #[trigger] m.contains_key(k) ==> k.len() == 32 && valid_identifier(m[k])
}

/// The identifier that resolving digest `d` with fresh identifier `c` returns.
pub open spec fn resolved_id(m: Map<Seq<u8>, Seq<u8>>, d: Seq<u8>, c: Seq<u8>) -> Seq<u8> {
    if m.contains_key(d) { m[d] } else { c }
}

/// The entries after resolving digest `d` with fresh identifier `c`.
pub open spec fn resolved_entries(m: Map<Seq<u8>, Seq<u8>>, d: Seq<u8>, c: Seq<u8>) -> Map<Seq<u8>, Seq<u8>> {
    if m.contains_key(d) { m } else { m.insert(d, c) }
}

/// A snapshot that is well-formed and holds at most `MAX_ENTRIES` entries.
pub open spec fn snapshot_accepted(b: Seq<u8>) -> bool {
    snapshot_wellformed(b) && item_count_of(b) <= MAX_ENTRIES
}

/// What loading a snapshot yields: the entries of its occupied slots, when it
/// is accepted and every slot holds ASCII identifier bytes.
pub open spec fn loaded_entries(b: Seq<u8>) -> Option<Map<Seq<u8>, Seq<u8>>> {
    if snapshot_accepted(b) && slot_values_ascii(b) {
        Some(slots_entries(b, slot_count_of(b)))
    } else {
        None
    }
}

/// Why an insert was refused.
#[derive(Debug, Clone, Copy, PartialEq, Eq, Structural)]
pub enum IndexError {
    /// The identifier is not `IDENTIFIER_LEN` ASCII bytes.
    InvalidIdentifier,
    /// The digest already has an identifier, which never changes.
    DigestPresent,
}

/// Why a snapshot could not be loaded.
#[derive(Debug, Clone, Copy, PartialEq, Eq, Structural)]
pub enum SnapshotError {
    /// The header or the table layout is not one this index writes.
    Malformed,
    /// A stored identifier is not ASCII.
    InvalidIdentifier,
}

/// The answer to "what is the name of this content".
#[derive(Debug, Clone, Copy, PartialEq, Eq)]
pub struct Resolution {
    /// The identifier of the content.
    pub identifier: [u8; 10],
    /// Whether this call added the entry; the index then wants saving.
    pub inserted: bool,
}

/// Maps content digests to identifiers.
pub struct DedupIndex {
    table: DigestTable,
}

impl View for DedupIndex {
    type V = Map<Seq<u8>, Seq<u8>>;

    closed spec fn view(&self) -> Map<Seq<u8>, Seq<u8>> {
        table_entries(self.table)
    }
}

impl DedupIndex {
    pub open spec fn wf(&self) -> bool {
        entries_wf(self@)
    }

    /// An empty index with room for `capacity` entries before it grows.
    pub fn new(capacity: usize) -> (r: DedupIndex)
        requires
            capacity <= MAX_ENTRIES,
        ensures
            r.wf(),
            r@ =~= Map::empty(),
    {
        DedupIndex { table: new_table(capacity, LOAD_FACTOR_PERCENT) }
    }

    /// The number of entries.
    pub fn len(&self) -> (r: usize)
        ensures
            r == self@.len(),
    {
        table_len(&self.table)
    }

    /// The identifier stored for `digest`, if any.
    pub fn lookup(&self, digest: &[u8; 32]) -> (r: Option<[u8; 10]>)
        ensures
            r is Some <==> self@.contains_key(digest@),
            r is Some ==> self@[digest@] == r->Some_0@,
    {
        table_get(&self.table, digest)
    }

    /// Records `digest -> identifier` for a digest not yet present.
    pub fn insert(&mut self, digest: &[u8; 32], identifier: &[u8]) -> (r: Result<(), IndexError>)
        requires
            old(self).wf(),
            old(self)@.len() < MAX_ENTRIES,
        ensures
            final(self).wf(),
            r is Ok <==> valid_identifier(identifier@) && !old(self)@.contains_key(digest@),
            r is Ok ==> final(self)@ == old(self)@.insert(digest@, identifier@),
            r is Err ==> final(self)@ == old(self)@,
            (r is Err && r->Err_0 == IndexError::InvalidIdentifier) <==> !valid_identifier(identifier@),
            (r is Err && r->Err_0 == IndexError::DigestPresent) <==> valid_identifier(identifier@)
                && old(self)@.contains_key(digest@),
    {
        if identifier.len() != IDENTIFIER_LEN {
            return Err(IndexError::InvalidIdentifier);
        }
        let mut encoded: [u8; 10] = [0u8; 10];
        let mut i: usize = 0;
        while i < IDENTIFIER_LEN
            invariant
                i <= IDENTIFIER_LEN,
                identifier@.len() == IDENTIFIER_LEN,
                self@ == old(self)@,
                old(self).wf(),
                forall|j: int| 0 <= j < i ==> identifier@[j] < 128 && encoded@[j] == identifier@[j],
            decreases IDENTIFIER_LEN - i,
        {
            if identifier[i] >= 128 {
                return Err(IndexError::InvalidIdentifier);
            }
            encoded[i] = identifier[i];
            i = i + 1;
        }
        assert(encoded@ =~= identifier@);
        if table_get(&self.table, digest).is_some() {
            return Err(IndexError::DigestPresent);
        }
        table_insert(&mut self.table, digest, &encoded);
        Ok(())
    }

    /// Looks `digest` up and, where it is absent, stores `candidate` for it:
    /// one step, under the caller's exclusive borrow.
    pub fn resolve_digest(&mut self, digest: &[u8; 32], candidate: &[u8; 10]) -> (r: Resolution)
        requires
            old(self).wf(),
            old(self)@.len() < MAX_ENTRIES,
            valid_identifier(candidate@),
        ensures
            final(self).wf(),
            r.identifier@ == resolved_id(old(self)@, digest@, candidate@),
            final(self)@ == resolved_entries(old(self)@, digest@, candidate@),
            r.inserted == !old(self)@.contains_key(digest@),
    {
        match table_get(&self.table, digest) {
            Some(existing) => Resolution { identifier: existing, inserted: false },
            None => {
                table_insert(&mut self.table, digest, candidate);
                Resolution { identifier: *candidate, inserted: true }
            },
        }
    }

    /// The canonical identifier of a payload: the one it already has, or a
    /// fresh random one recorded now.
    pub fn resolve_name(&mut self, bytes: &[u8]) -> (r: Resolution)
        requires
            old(self).wf(),
            old(self)@.len() < MAX_ENTRIES,
        ensures
            final(self).wf(),
            r.inserted == !old(self)@.contains_key(sha256_of(bytes@)),
            final(self)@ == resolved_entries(old(self)@, sha256_of(bytes@), r.identifier@),
            r.identifier@ == resolved_id(old(self)@, sha256_of(bytes@), r.identifier@),
            !r.inserted ==> final(self)@ == old(self)@
                && r.identifier@ == old(self)@[sha256_of(bytes@)],
            r.inserted ==> final(self)@ == old(self)@.insert(sha256_of(bytes@), r.identifier@)
                && forall|i: int| 0 <= i < IDENTIFIER_LEN ==> is_alphanumeric(#[trigger] r.identifier@[i]),
    {
        let digest = content_digest(bytes);
        let candidate = generate_identifier();
        self.resolve_digest(&digest, &candidate)
    }

    /// The whole index as one snapshot.
    pub fn snapshot(&self) -> (r: Vec<u8>)
        ensures
            snapshot_wellformed(r@),
            slots_entries(r@, slot_count_of(r@)) == self@,
    {
        table_bytes(&self.table)
    }

    /// Loads an index from a snapshot: reads each occupied slot and stores its
    /// pair in a fresh table. Refuses a snapshot that is malformed or that
    /// holds a non-ASCII identifier.
    pub fn from_snapshot(bytes: &[u8]) -> (r: Result<DedupIndex, SnapshotError>)
        ensures
            r is Ok <==> loaded_entries(bytes@) is Some,
            r is Ok ==> r->Ok_0.wf() && Some(r->Ok_0@) == loaded_entries(bytes@),
            (r is Err && r->Err_0 == SnapshotError::Malformed) <==> !snapshot_accepted(bytes@),
            (r is Err && r->Err_0 == SnapshotError::InvalidIdentifier) <==> snapshot_accepted(bytes@)
                && !slot_values_ascii(bytes@),
    {
        if !check_header(bytes) {
            return Err(SnapshotError::Malformed);
        }
        let ghost b = bytes@;
        let n: usize = bytes.len();
        let slots: usize = n / 43 - 1;
        assert(slots == slot_count_of(b));
        let count64: u64 = bytes[8] as u64 + 256 * (bytes[9] as u64 + 256 * (bytes[10] as u64 + 256
            * (bytes[11] as u64)));
        assert(count64 == item_count_of(b));
        if count64 > MAX_ENTRIES as u64 {
            return Err(SnapshotError::Malformed);
        }
        let count: usize = count64 as usize;
        let meta_base: usize = 32 + 42 * slots;
        let mut table = new_table(count, LOAD_FACTOR_PERCENT);
        let mut occupied: usize = 0;
        let mut ascii: bool = true;
        let mut i: usize = 0;
        while i < slots
            invariant
                b == bytes@,
                crate::table::header_valid(b),
                n == b.len(),
                slots == slot_count_of(b),
                meta_base == 32 + 42 * slots,
                count == item_count_of(b),
                count <= MAX_ENTRIES,
                i <= slots,
                occupied == occupied_count(b, i as nat),
                occupied <= count,
                slots_consistent(b, i as nat),
                table_entries(table) == slots_entries(b, i as nat),
                table_entries(table).dom().finite(),
                table_entries(table).len() == occupied,
                ascii == (forall|k: int| 0 <= k < i ==> all_ascii(#[trigger] slot_value(b, k))),
            decreases slots - i,
        {
            let base: usize = 32 + 42 * i;
            let ghost ii = i as int;
            assert(slot_occupied(b, ii) == (bytes[meta_base + i] < 128));
            if bytes[meta_base + i] >= 128 {
                let zk = range_all_zero(bytes, base, 32);
                let zv = range_all_zero(bytes, base + 32, 10);
                if !(zk && zv) {
                    assert(!slots_consistent(b, slots as nat));
                    return Err(SnapshotError::Malformed);
                }
                assert(all_ascii(slot_value(b, ii)));
            } else {
                if occupied == count {
                    proof {
                        lemma_occupied_count_mono(b, (i + 1) as nat, slots as nat);
                    }
                    return Err(SnapshotError::Malformed);
                }
                let key = read_digest(bytes, base);
                let value = read_identifier(bytes, base + 32);
                proof {
                    lemma_slots_entries_domain(b, i as nat);
                }
                if table_get(&table, &key).is_some() {
                    proof {
                        let j = choose|j: int|
                            0 <= j < i && slot_occupied(b, j) && slot_key(b, j) == key@;
                        assert(slot_occupied(b, j) && slot_occupied(b, ii));
                        assert(!slots_consistent(b, slots as nat));
                    }
                    return Err(SnapshotError::Malformed);
                }
                if !range_all_ascii(bytes, base + 32, 10) {
                    ascii = false;
                }
                table_insert(&mut table, &key, &value);
                occupied = occupied + 1;
            }
            assert(slots_entries(b, (i + 1) as nat) == table_entries(table));
            i = i + 1;
        }
        if occupied != count {
            return Err(SnapshotError::Malformed);
        }
        if !ascii {
            return Err(SnapshotError::InvalidIdentifier);
        }
        let index = DedupIndex { table };
        proof {
            lemma_slots_entries_domain(b, slots as nat);
            lemma_slots_entries_distinct(b, slots as nat);
            assert forall|k: Seq<u8>| #[trigger] index@.contains_key(k) implies k.len() == 32
                && valid_identifier(index@[k]) by {
                let j = choose|j: int| 0 <= j < slots && slot_occupied(b, j) && slot_key(b, j) == k;
                assert(all_ascii(slot_value(b, j)));
            }
        }
        Ok(index)
    }
}

} // verus!
