//! The on-disk hash table that maps content digests to identifiers.

use vstd::prelude::*;

verus! {

/// Table layout: 32-byte digest keys, 10-byte identifier values.
pub struct HashIds;

impl odht::Config for HashIds {
    type Key = [u8; 32];
    type Value = [u8; 10];
    type EncodedKey = [u8; 32];
    type EncodedValue = [u8; 10];
    type H = odht::FxHashFn;

    fn encode_key(key: &[u8; 32]) -> (r: [u8; 32])
        ensures
            r@ == key@,
    {
        *key
    }

    fn encode_value(value: &[u8; 10]) -> (r: [u8; 10])
        ensures
            r@ == value@,
    {
        *value
    }

    fn decode_key(key: &[u8; 32]) -> (r: [u8; 32])
        ensures
            r@ == key@,
    {
        *key
    }

    fn decode_value(value: &[u8; 10]) -> (r: [u8; 10])
        ensures
            r@ == value@,
    {
        *value
    }
}

#[verifier::external_type_specification]
#[verifier::external_body]
pub struct ExFxHashFn(odht::FxHashFn);

/// An odht hash table of `HashIds`; Verus sees it only through `table_entries`.
#[verifier::external_body]
pub struct DigestTable {
    inner: odht::HashTableOwned<HashIds>,
}

/// What a table holds: digest bytes to identifier bytes.
pub uninterp spec fn table_entries(t: DigestTable) -> Map<Seq<u8>, Seq<u8>>;

/// Bytes in a serialized table header.
pub const HEADER_BYTES: usize = 32;

/// Bytes in one slot of the entry area: a digest, then an identifier.
pub const SLOT_BYTES: usize = 42;

/// The little-endian slot count in header bytes 16 to 22.
pub open spec fn slot_count_of(b: Seq<u8>) -> nat {
    b[16] as nat + 256 * (b[17] as nat + 256 * (b[18] as nat + 256 * (b[19] as nat + 256 * (
    b[20] as nat + 256 * (b[21] as nat)))))
}

pub open spec fn is_pow2(n: nat) -> bool
    decreases n,
{
    if n <= 1 {
        n == 1
    } else {
        n % 2 == 0 && is_pow2(n / 2)
    }
}

/// The little-endian item count in header bytes 8 to 12.
pub open spec fn item_count_of(b: Seq<u8>) -> nat {
    b[8] as nat + 256 * (b[9] as nat + 256 * (b[10] as nat + 256 * (b[11] as nat)))
}

/// A header that this table layout accepts: tag `ODHT`, one metadata byte,
/// 32-byte keys, 10-byte values, a 32-byte header, an item count below 2^32,
/// a power-of-two slot count below 2^48, format version 2, a nonzero load
/// factor, and a total length of the header, the slots, and one metadata byte
/// per slot plus 16.
pub open spec fn header_valid(b: Seq<u8>) -> bool {
    &&& b.len() >= HEADER_BYTES
    &&& b[12] == 0 && b[13] == 0 && b[14] == 0 && b[15] == 0
    &&& (b[28] != 0 || b[29] != 0)
    &&& b[0] == 79 && b[1] == 68 && b[2] == 72 && b[3] == 84
    &&& b[4] == 1 && b[5] == 32 && b[6] == 10 && b[7] == 32
    &&& b[22] == 0 && b[23] == 0
    &&& b[24] == 0 && b[25] == 0 && b[26] == 0 && b[27] == 2
    &&& is_pow2(slot_count_of(b))
    &&& b.len() == 48 + 43 * slot_count_of(b)
}

/// The identifier bytes of slot `i`.
pub open spec fn slot_value(b: Seq<u8>, i: int) -> Seq<u8> {
    b.subrange(64 + 42 * i, 74 + 42 * i)
}

/// The digest bytes of slot `i`.
pub open spec fn slot_key(b: Seq<u8>, i: int) -> Seq<u8> {
    b.subrange(32 + 42 * i, 64 + 42 * i)
}

/// The control byte of slot `i`, in the metadata area after the slots.
pub open spec fn metadata_at(b: Seq<u8>, i: int) -> u8 {
    b[32 + 42 * slot_count_of(b) + i]
}

/// Slot `i` holds an entry: its control byte has the high bit clear.
pub open spec fn slot_occupied(b: Seq<u8>, i: int) -> bool {
    metadata_at(b, i) < 128
}

/// The entries held in the first `n` slots.
pub open spec fn slots_entries(b: Seq<u8>, n: nat) -> Map<Seq<u8>, Seq<u8>>
    decreases n,
{
    if n == 0 {
        Map::empty()
    } else if slot_occupied(b, n - 1) {
        slots_entries(b, (n - 1) as nat).insert(slot_key(b, n - 1), slot_value(b, n - 1))
    } else {
        slots_entries(b, (n - 1) as nat)
    }
}

/// How many of the first `n` slots hold an entry.
pub open spec fn occupied_count(b: Seq<u8>, n: nat) -> nat
    decreases n,
{
    if n == 0 {
        0
    } else if slot_occupied(b, n - 1) {
        occupied_count(b, (n - 1) as nat) + 1
    } else {
        occupied_count(b, (n - 1) as nat)
    }
}

/// In the first `n` slots, empty slots are zero-filled and no digest is held twice.
pub open spec fn slots_consistent(b: Seq<u8>, n: nat) -> bool {
    &&& forall|i: int|
        0 <= i < n && !#[trigger] slot_occupied(b, i) ==> all_zero(slot_key(b, i)) && all_zero(
            slot_value(b, i),
        )
    &&& forall|i: int, j: int|
        0 <= i < j < n && #[trigger] slot_occupied(b, i) && #[trigger] slot_occupied(b, j)
            ==> slot_key(b, i) != slot_key(b, j)
}

/// A serialized table: a valid header, consistent slots, and an item count
/// equal to the number of occupied slots.
pub open spec fn snapshot_wellformed(b: Seq<u8>) -> bool {
    &&& header_valid(b)
    &&& slots_consistent(b, slot_count_of(b))
    &&& item_count_of(b) == occupied_count(b, slot_count_of(b))
}

pub open spec fn all_ascii(v: Seq<u8>) -> bool {
    forall|j: int| 0 <= j < v.len() ==> #[trigger] v[j] < 128
}

pub open spec fn all_zero(v: Seq<u8>) -> bool {
    forall|j: int| 0 <= j < v.len() ==> #[trigger] v[j] == 0
}

/// Every slot of the table holds ASCII identifier bytes.
pub open spec fn slot_values_ascii(b: Seq<u8>) -> bool {
    forall|i: int| 0 <= i < slot_count_of(b) ==> all_ascii(#[trigger] slot_value(b, i))
}

/// Whether `n` is a power of two.
pub fn check_pow2(n: u64) -> (r: bool)
    ensures
        r == is_pow2(n as nat),
{
    let mut m: u64 = n;
    while m > 1 && m % 2 == 0
        invariant
            is_pow2(n as nat) == is_pow2(m as nat),
        decreases m,
    {
        m = m / 2;
    }
    m == 1
}

/// Whether `b` starts with a header that `header_valid` accepts.
pub fn check_header(b: &[u8]) -> (r: bool)
    ensures
        r == header_valid(b@),
{
    if b.len() < HEADER_BYTES {
        return false;
    }
    if !(b[0] == 79 && b[1] == 68 && b[2] == 72 && b[3] == 84) {
        return false;
    }
    if !(b[4] == 1 && b[5] == 32 && b[6] == 10 && b[7] == 32) {
        return false;
    }
    if !(b[22] == 0 && b[23] == 0 && b[24] == 0 && b[25] == 0 && b[26] == 0 && b[27] == 2) {
        return false;
    }
    if !(b[12] == 0 && b[13] == 0 && b[14] == 0 && b[15] == 0 && (b[28] != 0 || b[29] != 0)) {
        return false;
    }
    let s5 = b[21] as u64;
    let s4 = b[20] as u64 + 256 * s5;
    let s3 = b[19] as u64 + 256 * s4;
    let s2 = b[18] as u64 + 256 * s3;
    let s1 = b[17] as u64 + 256 * s2;
    let s0 = b[16] as u64 + 256 * s1;
    assert(s0 == slot_count_of(b@));
    if !check_pow2(s0) {
        return false;
    }
    b.len() as u64 == 48 + 43 * s0
}

/// The bytes `b[off..off + 32]`.
pub fn read_digest(b: &[u8], off: usize) -> (r: [u8; 32])
    requires
        off + 32 <= b@.len(),
    ensures
        r@ == b@.subrange(off as int, off + 32),
{
    let mut r: [u8; 32] = [0u8; 32];
    let n: usize = b.len();
    let mut j: usize = 0;
    while j < 32
        invariant
            n == b@.len(),
            j <= 32,
            off + 32 <= b@.len(),
            forall|q: int| 0 <= q < j ==> r@[q] == b@[off + q],
        decreases 32 - j,
    {
        r[j] = b[off + j];
        j = j + 1;
    }
    assert(r@ =~= b@.subrange(off as int, off + 32));
    r
}

/// The bytes `b[off..off + 10]`.
pub fn read_identifier(b: &[u8], off: usize) -> (r: [u8; 10])
    requires
        off + 10 <= b@.len(),
    ensures
        r@ == b@.subrange(off as int, off + 10),
{
    let mut r: [u8; 10] = [0u8; 10];
    let n: usize = b.len();
    let mut j: usize = 0;
    while j < 10
        invariant
            n == b@.len(),
            j <= 10,
            off + 10 <= b@.len(),
            forall|q: int| 0 <= q < j ==> r@[q] == b@[off + q],
        decreases 10 - j,
    {
        r[j] = b[off + j];
        j = j + 1;
    }
    assert(r@ =~= b@.subrange(off as int, off + 10));
    r
}

/// Whether the bytes `b[off..off + len]` are all zero.
pub fn range_all_zero(b: &[u8], off: usize, len: usize) -> (r: bool)
    requires
        off + len <= b@.len(),
    ensures
        r == all_zero(b@.subrange(off as int, off + len)),
{
    let n: usize = b.len();
    let mut j: usize = 0;
    while j < len
        invariant
            n == b@.len(),
            j <= len,
            off + len <= b@.len(),
            forall|q: int| 0 <= q < j ==> #[trigger] b@.subrange(off as int, off + len)[q] == 0,
        decreases len - j,
    {
        if b[off + j] != 0 {
            assert(b@.subrange(off as int, off + len)[j as int] != 0);
            return false;
        }
        j = j + 1;
    }
    true
}

/// Whether the bytes `b[off..off + len]` are all ASCII.
pub fn range_all_ascii(b: &[u8], off: usize, len: usize) -> (r: bool)
    requires
        off + len <= b@.len(),
    ensures
        r == all_ascii(b@.subrange(off as int, off + len)),
{
    let n: usize = b.len();
    let mut j: usize = 0;
    while j < len
        invariant
            n == b@.len(),
            j <= len,
            off + len <= b@.len(),
            forall|q: int| 0 <= q < j ==> #[trigger] b@.subrange(off as int, off + len)[q] < 128,
        decreases len - j,
    {
        if b[off + j] >= 128 {
            assert(b@.subrange(off as int, off + len)[j as int] >= 128);
            return false;
        }
        j = j + 1;
    }
    true
}

/// The digests held in the first `n` slots are those of its occupied slots.
pub proof fn lemma_slots_entries_domain(b: Seq<u8>, n: nat)
    ensures
        slots_entries(b, n).dom().finite(),
        forall|k: Seq<u8>|
            #[trigger] slots_entries(b, n).contains_key(k) ==> exists|j: int|
                0 <= j < n && slot_occupied(b, j) && slot_key(b, j) == k,
        forall|j: int|
            0 <= j < n && #[trigger] slot_occupied(b, j) ==> slots_entries(b, n).contains_key(
                slot_key(b, j),
            ),
    decreases n,
{
    if n > 0 {
        lemma_slots_entries_domain(b, (n - 1) as nat);
    }
}

/// Occupied slots only ever add to the count.
pub proof fn lemma_occupied_count_mono(b: Seq<u8>, n: nat, m: nat)
    requires
        n <= m,
    ensures
        occupied_count(b, n) <= occupied_count(b, m),
    decreases m - n,
{
    if n < m {
        lemma_occupied_count_mono(b, n, (m - 1) as nat);
    }
}

/// With no digest held twice, each occupied slot is one entry, holding its value.
pub proof fn lemma_slots_entries_distinct(b: Seq<u8>, n: nat)
    requires
        slots_consistent(b, n),
    ensures
        slots_entries(b, n).len() == occupied_count(b, n),
        forall|j: int|
            0 <= j < n && #[trigger] slot_occupied(b, j) ==> slots_entries(b, n)[slot_key(b, j)]
                == slot_value(b, j),
    decreases n,
{
    if n > 0 {
        let m = (n - 1) as nat;
        assert(slots_consistent(b, m));
        lemma_slots_entries_distinct(b, m);
        lemma_slots_entries_domain(b, m);
        if slot_occupied(b, n - 1) {
            if slots_entries(b, m).contains_key(slot_key(b, n - 1)) {
                let j = choose|j: int| 0 <= j < m && slot_occupied(b, j) && slot_key(b, j) == slot_key(b, n - 1);
                assert(slot_occupied(b, j) && slot_occupied(b, n - 1));
            }
            assert forall|j: int| 0 <= j < n && #[trigger] slot_occupied(b, j) implies slots_entries(b, n)[slot_key(b, j)]
                == slot_value(b, j) by {
                if j < n - 1 {
                    assert(slot_occupied(b, n - 1));
                    assert(slot_key(b, j) != slot_key(b, n - 1));
                }
            }
        }
    }
}

/// Relies on odht's `HashTableOwned::with_capacity`: a fresh table is empty.
/// It asserts a load factor in 1..=100; from 7 on, the item limit of the
/// smallest table is at least one, so that `insert` can grow it.
#[verifier::external_body]
pub(crate) fn new_table(max_item_count: usize, load_factor_percent: u8) -> (r: DigestTable)
    requires
        7 <= load_factor_percent <= 100,
        max_item_count <= 0x4000_0000,
    ensures
        table_entries(r) =~= Map::empty(),
{
    DigestTable { inner: odht::HashTableOwned::with_capacity(max_item_count, load_factor_percent) }
}

/// Relies on odht's `HashTableOwned::get`: the value stored under the key, if any.
#[verifier::external_body]
pub(crate) fn table_get(t: &DigestTable, key: &[u8; 32]) -> (r: Option<[u8; 10]>)
    ensures
        r is Some <==> table_entries(*t).contains_key(key@),
        r is Some ==> table_entries(*t)[key@] == r->Some_0@,
{
    t.inner.get(key)
}

/// Relies on odht's `HashTableOwned::insert`: stores the pair, replacing any
/// value under the same key; the table grows by doubling when full.
#[verifier::external_body]
pub(crate) fn table_insert(t: &mut DigestTable, key: &[u8; 32], value: &[u8; 10])
    requires
        table_entries(*old(t)).len() < 0x4000_0000,
    ensures
        table_entries(*final(t)) == table_entries(*old(t)).insert(key@, value@),
{
    t.inner.insert(key, value);
}

/// Relies on odht's `HashTableOwned::len`: the item count in the header,
/// raised only when a new key is stored.
#[verifier::external_body]
pub(crate) fn table_len(t: &DigestTable) -> (r: usize)
    ensures
        r == table_entries(*t).len(),
{
    t.inner.len()
}

/// Relies on odht's `HashTableOwned::raw_bytes`: the table's whole
/// allocation. `Header::initialize` wrote the header; every stored pair sits
/// in one slot whose control byte is its 7-bit hash tag; the other slots keep
/// the 0xFF control byte and zero-filled data from `init_in_place`; the item
/// count is raised once per new key.
#[verifier::external_body]
pub(crate) fn table_bytes(t: &DigestTable) -> (r: Vec<u8>)
    ensures
        snapshot_wellformed(r@),
        slots_entries(r@, slot_count_of(r@)) == table_entries(*t),
{
    t.inner.raw_bytes().to_vec()
}

} // verus!
