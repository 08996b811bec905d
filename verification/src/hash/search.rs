//! This module implements the structs and methods used to implement a transposition table to reduce search times.
//!
//! The transposition table stores previously searched positions at a given depth.
//! Positions are spread over buckets of four entries by their hash. A new
//! entry replaces the stored entry of the same position if it is deeper, or as
//! deep and of a PV node (otherwise the stored entry stays); a new position
//! takes the first free slot of its bucket, or else the slot of the shallowest
//! entry.
use vstd::prelude::*;

use crate::logic::actions::{action_end, action_mid, action_of, action_start, Action, ActionTrait};
use crate::logic::index::CellIndex;
use crate::search::eval::SCORE_BOUND;
use crate::search::{NodeType, Score};

verus! {

/// Number of bits of the hash that select a bucket in the default table
pub const KEY_BIT_WIDTH: usize = 24;

/// Number of buckets of the default table
pub const SEARCH_TABLE_SIZE: usize = 2 << KEY_BIT_WIDTH;

/// Number of entries in a bucket
pub const BUCKET_SIZE: usize = 4;

/// An entry as plain values: depth, hash, start, middle and end indices of the
/// action, score and node type.
pub type EntryView = (u8, usize, u8, u8, u8, Score, NodeType);

/// The entry of an empty slot.
pub open spec fn empty_entry() -> EntryView {
    (0u8, 0usize, 0u8, 0u8, 0u8, 0i16, NodeType::PV)
}

/// The entry stored for a search result: the depth and the indices are kept on 8 bits.
pub open spec fn entry_of(
    depth: u64,
    hash: usize,
    action: Action,
    score: Score,
    node_type: NodeType,
) -> EntryView {
    (
        depth as u8,
        hash,
        action_start(action) as u8,
        action_mid(action) as u8,
        action_end(action) as u8,
        score,
        node_type,
    )
}

/// The search result that an entry gives back: depth, action, score and node type.
pub open spec fn unpack_entry(e: EntryView) -> (u64, Action, Score, NodeType) {
    (e.0 as u64, action_of(e.2 as int, e.3 as int, e.4 as int), e.5, e.6)
}

/// An empty bucket.
pub open spec fn empty_bucket() -> Seq<EntryView> {
    Seq::new(BUCKET_SIZE as nat, |k: int| empty_entry())
}

/// The first free slot (of depth 0) from `i` on, or -1 if there is none.
pub open spec fn free_slot(b: Seq<EntryView>, i: int) -> int
    decreases b.len() - i,
{
    if i >= b.len() {
        -1
    } else if b[i].0 == 0 {
        i
    } else {
        free_slot(b, i + 1)
    }
}

/// The first slot of least depth among the first `n` slots.
pub open spec fn shallowest_slot(b: Seq<EntryView>, n: int) -> int
    decreases n,
{
    if n <= 1 {
        0
    } else {
        let k = shallowest_slot(b, n - 1);
        if b[n - 1].0 < b[k].0 {
            n - 1
        } else {
            k
        }
    }
}

/// The slot that a new entry takes: the first free slot, or else the shallowest one.
pub open spec fn insert_slot(b: Seq<EntryView>) -> int {
    if free_slot(b, 0) >= 0 {
        free_slot(b, 0)
    } else {
        shallowest_slot(b, b.len() as int)
    }
}

/// The first slot from `i` on that holds an entry (of nonzero depth) of
/// `hash`, or -1 if there is none.
pub open spec fn same_slot(b: Seq<EntryView>, hash: usize, i: int) -> int
    decreases b.len() - i,
{
    if i >= b.len() || i < 0 {
        -1
    } else if b[i].0 != 0 && b[i].1 == hash {
        i
    } else {
        same_slot(b, hash, i + 1)
    }
}

/// A new entry replaces the stored entry of the same position when it is
/// deeper, or as deep and of a PV node.
pub open spec fn replaces(stored: EntryView, e: EntryView) -> bool {
    e.0 > stored.0 || (e.0 == stored.0 && e.6 == NodeType::PV)
}

/// The bucket after storing an entry: an entry of the same position is
/// replaced or kept (see [`replaces`]); a new position takes the slot that
/// [`insert_slot`] gives.
pub open spec fn bucket_insert(b: Seq<EntryView>, e: EntryView) -> Seq<EntryView> {
    let k = same_slot(b, e.1, 0);
    if k >= 0 {
        if replaces(b[k], e) {
            b.update(k, e)
        } else {
            b
        }
    } else {
        b.update(insert_slot(b), e)
    }
}

/// The result stored in the first entry (of nonzero depth) of `hash` from
/// slot `i` on; empty slots hold no entry.
pub open spec fn read_from(b: Seq<EntryView>, hash: usize, i: int) -> Option<
    (u64, Action, Score, NodeType),
>
    decreases b.len() - i,
{
    if i >= b.len() {
        None
    } else if b[i].0 != 0 && b[i].1 == hash {
        Some(unpack_entry(b[i]))
    } else {
        read_from(b, hash, i + 1)
    }
}

/// The result stored in a bucket for `hash`: that of its first entry of `hash`.
pub open spec fn bucket_read(b: Seq<EntryView>, hash: usize) -> Option<(u64, Action, Score, NodeType)> {
    read_from(b, hash, 0)
}

/// The bucket of a hash in a table of `len` buckets.
pub open spec fn bucket_index(hash: usize, len: nat) -> int {
    hash as int % len as int
}

/// Every stored score is between the lowest and the highest score.
pub open spec fn scores_bounded(t: Seq<Seq<EntryView>>) -> bool {
    forall|i: int, k: int|
        0 <= i < t.len() && 0 <= k < t[i].len() ==> -SCORE_BOUND <= #[trigger] t[i][k].5 <= SCORE_BOUND
}

/// The slot chosen for a new entry is a slot of the bucket.
pub proof fn lemma_insert_slot(b: Seq<EntryView>)
    requires
        b.len() > 0,
    ensures
        0 <= insert_slot(b) < b.len(),
{
    lemma_free_slot(b, 0);
    lemma_shallowest_slot(b, b.len() as int);
}

proof fn lemma_free_slot(b: Seq<EntryView>, i: int)
    requires
        0 <= i,
    ensures
        free_slot(b, i) == -1 || i <= free_slot(b, i) < b.len(),
    decreases b.len() - i,
{
    if i < b.len() && b[i].0 != 0 {
        lemma_free_slot(b, i + 1);
    }
}

proof fn lemma_shallowest_slot(b: Seq<EntryView>, n: int)
    requires
        1 <= n,
    ensures
        0 <= shallowest_slot(b, n) < n,
    decreases n,
{
    if n > 1 {
        lemma_shallowest_slot(b, n - 1);
    }
}

/// The result read for `hash` is that of the slot [`same_slot`] gives.
proof fn lemma_read_same_slot(b: Seq<EntryView>, hash: usize, i: int)
    requires
        0 <= i,
    ensures
        same_slot(b, hash, i) == -1 || i <= same_slot(b, hash, i) < b.len(),
        read_from(b, hash, i) == if same_slot(b, hash, i) >= 0 {
            Some(unpack_entry(b[same_slot(b, hash, i)]))
        } else {
            None
        },
    decreases b.len() - i,
{
    if i < b.len() && !(b[i].0 != 0 && b[i].1 == hash) {
        lemma_read_same_slot(b, hash, i + 1);
    }
}

/// Writing an entry of `hash` into slot `k`, when no earlier slot holds an
/// entry of `hash`, makes `k` the first entry of `hash`.
proof fn lemma_same_slot_put(b: Seq<EntryView>, hash: usize, i: int, k: int, e: EntryView)
    requires
        0 <= i <= k < b.len(),
        e.0 != 0,
        e.1 == hash,
        same_slot(b, hash, i) == -1 || same_slot(b, hash, i) >= k,
    ensures
        same_slot(b.update(k, e), hash, i) == k,
    decreases k - i,
{
    if i < k {
        lemma_same_slot_put(b, hash, i + 1, k, e);
    }
}

/// Law: reading a position after storing a deeper entry for it (or one as
/// deep of a PV node, or one of a new position) gives back the stored result
/// (its depth and indices kept on 8 bits); after a shallower entry, the
/// previous result stays.
pub proof fn lemma_read_after_insert(
    b: Seq<EntryView>,
    hash: usize,
    depth: u64,
    action: Action,
    score: Score,
    node_type: NodeType,
)
    requires
        b.len() > 0,
        depth as u8 != 0,
    ensures
        bucket_read(bucket_insert(b, entry_of(depth, hash, action, score, node_type)), hash)
            == if kept(bucket_read(b, hash), depth, node_type) {
            bucket_read(b, hash)
        } else {
            Some(unpack_entry(entry_of(depth, hash, action, score, node_type)))
        },
{
    let e = entry_of(depth, hash, action, score, node_type);
    lemma_read_same_slot(b, hash, 0);
    lemma_insert_slot(b);
    let k = same_slot(b, hash, 0);
    if k >= 0 {
        if replaces(b[k], e) {
            lemma_same_slot_put(b, hash, 0, k, e);
        }
    } else {
        lemma_same_slot_put(b, hash, 0, insert_slot(b), e);
    }
    lemma_read_same_slot(bucket_insert(b, e), hash, 0);
}

/// A stored result for a position stays when a new search result for it is
/// shallower, or as deep and not of a PV node.
pub open spec fn kept(stored: Option<(u64, Action, Score, NodeType)>, depth: u64, node_type: NodeType) -> bool {
    stored matches Some(o) && !((depth as u8) as u64 > o.0 || ((depth as u8) as u64 == o.0
        && node_type == NodeType::PV))
}

/// Law: an empty bucket holds no entry, so reading any hash gives nothing.
pub proof fn lemma_read_empty(hash: usize)
    ensures
        bucket_read(empty_bucket(), hash) is None,
{
    lemma_read_same_slot(empty_bucket(), hash, 0);
    reveal_with_fuel(same_slot, 5);
}

proof fn lemma_read_from_in(b: Seq<EntryView>, hash: usize, i: int)
    requires
        0 <= i,
    ensures
        read_from(b, hash, i) matches Some(r) ==> exists|k: int|
            i <= k < b.len() && r == unpack_entry(#[trigger] b[k]),
    decreases b.len() - i,
{
    if i < b.len() && !(b[i].0 != 0 && b[i].1 == hash) {
        lemma_read_from_in(b, hash, i + 1);
    }
}

/// Storing an entry changes no slot but to that entry, and keeps the bucket's size.
pub proof fn lemma_bucket_insert_entries(b: Seq<EntryView>, e: EntryView)
    requires
        b.len() > 0,
    ensures
        bucket_insert(b, e).len() == b.len(),
        forall|k: int|
            0 <= k < b.len() ==> #[trigger] bucket_insert(b, e)[k] == b[k] || bucket_insert(b, e)[k]
                == e,
{
    lemma_insert_slot(b);
    lemma_read_same_slot(b, e.1, 0);
}

/// Law: storing entries of bounded scores keeps every stored score bounded, and
/// a read then gives back a bounded score.
pub proof fn lemma_scores_bounded(t: Seq<Seq<EntryView>>, i: int, e: EntryView, hash: usize)
    requires
        scores_bounded(t),
        0 <= i < t.len(),
        t[i].len() > 0,
        -SCORE_BOUND <= e.5 <= SCORE_BOUND,
    ensures
        scores_bounded(t.update(i, bucket_insert(t[i], e))),
        bucket_read(t[i], hash) matches Some(r) ==> -SCORE_BOUND <= r.2 <= SCORE_BOUND,
{
    let t2 = t.update(i, bucket_insert(t[i], e));
    lemma_bucket_insert_entries(t[i], e);
    assert forall|a: int, k: int| 0 <= a < t2.len() && 0 <= k < t2[a].len() implies -SCORE_BOUND
        <= #[trigger] t2[a][k].5 <= SCORE_BOUND by {
        if a == i {
            assert(t2[a][k] == t[i][k] || t2[a][k] == e);
        }
    }
    lemma_read_from_in(t[i], hash, 0);
}

/// The slot `i` of a bucket holds an entry (of nonzero depth) of `hash`.
pub open spec fn holds(b: Seq<EntryView>, hash: usize, i: int) -> bool {
    b[i].0 != 0 && b[i].1 == hash
}

/// No two entries of a bucket are of the same position.
pub open spec fn bucket_unique(b: Seq<EntryView>) -> bool {
    forall|i: int, j: int|
        0 <= i < j < b.len() && b[i].0 != 0 && b[j].0 != 0 ==> #[trigger] b[i].1 != #[trigger] b[j].1
}

/// No two entries of a bucket of the table are of the same position.
pub open spec fn table_unique(t: Seq<Seq<EntryView>>) -> bool {
    forall|i: int| 0 <= i < t.len() ==> #[trigger] bucket_unique(t[i])
}

/// [`same_slot`] gives the first slot from `i` on that holds an entry of
/// `hash`, or -1 when none does.
proof fn lemma_same_slot_first(b: Seq<EntryView>, hash: usize, i: int)
    requires
        0 <= i,
    ensures
        same_slot(b, hash, i) == -1 ==> forall|m: int| i <= m < b.len() ==> !#[trigger] holds(b, hash, m),
        same_slot(b, hash, i) != -1 ==> i <= same_slot(b, hash, i) < b.len() && holds(
            b,
            hash,
            same_slot(b, hash, i),
        ) && forall|m: int| i <= m < same_slot(b, hash, i) ==> !#[trigger] holds(b, hash, m),
    decreases b.len() - i,
{
    if i < b.len() && !holds(b, hash, i) {
        lemma_same_slot_first(b, hash, i + 1);
        assert forall|m: int| i <= m < b.len() && same_slot(b, hash, i + 1) == -1 implies !#[trigger] holds(
            b,
            hash,
            m,
        ) by {
            if m > i {
            }
        }
    }
}

/// The first slot that holds an entry of `hash` is the one after which, and
/// only after which, no earlier slot holds one.
proof fn lemma_same_slot_is(b: Seq<EntryView>, hash: usize, j: int)
    requires
        -1 <= j < b.len(),
        j == -1 ==> forall|m: int| 0 <= m < b.len() ==> !#[trigger] holds(b, hash, m),
        j >= 0 ==> holds(b, hash, j) && forall|m: int| 0 <= m < j ==> !#[trigger] holds(b, hash, m),
    ensures
        same_slot(b, hash, 0) == j,
{
    lemma_same_slot_first(b, hash, 0);
    let k = same_slot(b, hash, 0);
    if k != j {
        if k == -1 {
            assert(!holds(b, hash, j));
        } else if j == -1 {
            assert(!holds(b, hash, k));
        } else if k < j {
            assert(!holds(b, hash, k));
        } else {
            assert(!holds(b, hash, j));
        }
    }
}

/// Storing an entry keeps the entries of a bucket of distinct positions.
pub proof fn lemma_insert_unique(b: Seq<EntryView>, e: EntryView)
    requires
        b.len() > 0,
        bucket_unique(b),
    ensures
        bucket_unique(bucket_insert(b, e)),
{
    let k = same_slot(b, e.1, 0);
    lemma_same_slot_first(b, e.1, 0);
    lemma_insert_slot(b);
    let b2 = bucket_insert(b, e);
    let s = if k >= 0 { k } else { insert_slot(b) };
    assert forall|i: int, j: int| 0 <= i < j < b2.len() && b2[i].0 != 0 && b2[j].0 != 0 implies #[trigger] b2[i].1
        != #[trigger] b2[j].1 by {
        if i != s && j != s {
            assert(b2[i] == b[i] && b2[j] == b[j]);
        } else if b2 != b {
            if i == s {
                assert(b2[j] == b[j]);
                assert(!holds(b, e.1, j));
            } else {
                assert(b2[i] == b[i]);
                assert(!holds(b, e.1, i));
            }
        }
    }
}

/// Storing an entry of another position leaves the result read for `hash`,
/// or removes it when the entry takes its slot.
pub proof fn lemma_insert_other(b: Seq<EntryView>, e: EntryView, hash: usize)
    requires
        b.len() > 0,
        bucket_unique(b),
        hash != e.1,
    ensures
        bucket_read(bucket_insert(b, e), hash) == bucket_read(b, hash) || bucket_read(
            bucket_insert(b, e),
            hash,
        ) is None,
{
    let b2 = bucket_insert(b, e);
    let j = same_slot(b, hash, 0);
    lemma_same_slot_first(b, hash, 0);
    lemma_insert_slot(b);
    lemma_read_same_slot(b, hash, 0);
    lemma_read_same_slot(b2, hash, 0);
    let k = same_slot(b, e.1, 0);
    lemma_same_slot_first(b, e.1, 0);
    let s = if k >= 0 { k } else { insert_slot(b) };
    assert(b2 == b || b2 == b.update(s, e));
    assert(0 <= s < b.len());
    assert forall|m: int| 0 <= m < b.len() && m != s implies b2[m] == b[m] by {
        if b2 != b {
            assert(b2[m] == b.update(s, e)[m]);
        }
    }
    assert(b2.len() == b.len());
    if b2 != b {
        assert(!holds(b2, hash, s));
        if j == -1 || j == s {
            assert forall|m: int| 0 <= m < b2.len() implies !#[trigger] holds(b2, hash, m) by {
                if m != s {
                    assert(b2[m] == b[m]);
                    if j == -1 {
                        assert(!holds(b, hash, m));
                    } else if m < j {
                        assert(!holds(b, hash, m));
                    } else if holds(b, hash, m) {
                        assert(b[j].1 == hash && b[m].1 == hash);
                        assert(b[j].0 != 0 && b[m].0 != 0);
                    }
                }
            }
            lemma_same_slot_is(b2, hash, -1);
        } else {
            assert forall|m: int| 0 <= m < j implies !#[trigger] holds(b2, hash, m) by {
                if m != s {
                    assert(!holds(b, hash, m));
                }
            }
            lemma_same_slot_is(b2, hash, j);
        }
    }
}

#[derive(Clone, Copy, Debug)]
struct SearchEntry {
    depth: u8,
    hash: usize,
    index_start: u8,
    index_mid: u8,
    index_end: u8,
    score: Score,
    node_type: NodeType,
}

impl SearchEntry {
    spec fn view_of(self) -> EntryView {
        (
            self.depth,
            self.hash,
            self.index_start,
            self.index_mid,
            self.index_end,
            self.score,
            self.node_type,
        )
    }

    fn empty() -> (r: SearchEntry)
        ensures
            r.view_of() == empty_entry(),
    {
        SearchEntry {
            depth: 0,
            hash: 0,
            index_start: 0,
            index_mid: 0,
            index_end: 0,
            score: 0,
            node_type: NodeType::PV,
        }
    }

    #[inline]
    fn new(depth: u64, hash: usize, action: Action, score: Score, node_type: NodeType) -> (r: Self)
        ensures
            r.view_of() == entry_of(depth, hash, action, score, node_type),
    {
        let (index_start, index_mid, index_end) = action.to_indices();
        SearchEntry {
            depth: depth as u8,
            hash,
            index_start: index_start as u8,
            index_mid: index_mid as u8,
            index_end: index_end as u8,
            score,
            node_type,
        }
    }

    #[inline]
    fn unpack(self) -> (r: (u64, Action, Score, NodeType))
        ensures
            r == unpack_entry(self.view_of()),
    {
        (
            self.depth as u64,
            Action::from_indices(
                self.index_start as CellIndex,
                self.index_mid as CellIndex,
                self.index_end as CellIndex,
            ),
            self.score,
            self.node_type,
        )
    }
}

#[derive(Clone, Copy, Debug)]
struct Bucket {
    entries: [SearchEntry; BUCKET_SIZE],
}

impl Bucket {
    spec fn view_of(self) -> Seq<EntryView> {
        self.entries@.map_values(|e: SearchEntry| e.view_of())
    }

    fn empty() -> (r: Bucket)
        ensures
            r.view_of() == empty_bucket(),
    {
        let e = SearchEntry::empty();
        let r = Bucket { entries: [e, e, e, e] };
        assert(r.view_of() =~= empty_bucket());
        r
    }

    fn insert(&mut self, hash: usize, depth: u64, action: Action, score: Score, node_type: NodeType)
        ensures
            final(self).view_of() == bucket_insert(
                old(self).view_of(),
                entry_of(depth, hash, action, score, node_type),
            ),
    {
        let ghost b = self.view_of();
        let new_depth = #[verifier::truncate] (depth as u8);
        let mut j: usize = 0;
        while j < BUCKET_SIZE
            invariant
                j <= BUCKET_SIZE,
                b == self.view_of(),
                b == old(self).view_of(),
                b.len() == BUCKET_SIZE,
                new_depth == entry_of(depth, hash, action, score, node_type).0,
                same_slot(b, hash, 0) == same_slot(b, hash, j as int),
            decreases BUCKET_SIZE - j,
        {
            let entry = self.entries[j];
            assert(entry.view_of() == b[j as int]);
            if entry.depth != 0 && entry.hash == hash {
                if new_depth > entry.depth || (new_depth == entry.depth && node_type == NodeType::PV) {
                    self.entries[j] = SearchEntry::new(depth, hash, action, score, node_type);
                }
                assert(self.view_of() =~= bucket_insert(b, entry_of(depth, hash, action, score, node_type)));
                return;
            }
            j += 1;
        }
        assert(same_slot(b, hash, 0) == -1);
        let mut min_depth = u8::MAX;
        let mut min_index: usize = 0;
        let mut i: usize = 0;
        while i < BUCKET_SIZE
            invariant
                i <= BUCKET_SIZE,
                b == self.view_of(),
                b == old(self).view_of(),
                b.len() == BUCKET_SIZE,
                free_slot(b, 0) == free_slot(b, i as int),
                same_slot(b, hash, 0) == -1,
                i == 0 ==> min_index == 0 && min_depth == u8::MAX,
                i > 0 ==> min_index == shallowest_slot(b, i as int) && min_depth == b[min_index as int].0,
                min_index < BUCKET_SIZE,
            decreases BUCKET_SIZE - i,
        {
            let entry = self.entries[i];
            assert(entry.view_of() == b[i as int]);
            if entry.depth == 0 {
                self.entries[i] = SearchEntry::new(depth, hash, action, score, node_type);
                assert(self.view_of() =~= bucket_insert(b, entry_of(depth, hash, action, score, node_type)));
                return;
            }
            if entry.depth < min_depth {
                min_depth = entry.depth;
                min_index = i;
            }
            i += 1;
        }
        self.entries[min_index] = SearchEntry::new(depth, hash, action, score, node_type);
        assert(self.view_of() =~= bucket_insert(b, entry_of(depth, hash, action, score, node_type)));
    }

    fn read(&self, hash: usize) -> (r: Option<(u64, Action, Score, NodeType)>)
        ensures
            r == bucket_read(self.view_of(), hash),
    {
        let ghost b = self.view_of();
        let mut i: usize = 0;
        while i < BUCKET_SIZE
            invariant
                i <= BUCKET_SIZE,
                b == self.view_of(),
                b.len() == BUCKET_SIZE,
                bucket_read(b, hash) == read_from(b, hash, i as int),
            decreases BUCKET_SIZE - i,
        {
            let entry = self.entries[i];
            assert(entry.view_of() == b[i as int]);
            if entry.depth != 0 && entry.hash == hash {
                return Some(entry.unpack());
            }
            i += 1;
        }
        None
    }
}

/// Search transposition table
pub struct SearchTable {
    data: Vec<Bucket>,
}

impl View for SearchTable {
    type V = Seq<Seq<EntryView>>;

    /// The entries of each bucket.
    closed spec fn view(&self) -> Seq<Seq<EntryView>> {
        self.data@.map_values(|b: Bucket| b.view_of())
    }
}

impl Default for SearchTable {
    /// A table of `SEARCH_TABLE_SIZE` empty buckets.
    fn default() -> (r: SearchTable)
        ensures
            r@ == Seq::new(SEARCH_TABLE_SIZE as nat, |i: int| empty_bucket()),
    {
        SearchTable::with_buckets(SEARCH_TABLE_SIZE)
    }
}

impl SearchTable {
    /// Creates a table of `n_buckets` empty buckets.
    pub fn with_buckets(n_buckets: usize) -> (r: SearchTable)
        ensures
            r@ == Seq::new(n_buckets as nat, |i: int| empty_bucket()),
    {
        let mut data: Vec<Bucket> = Vec::with_capacity(n_buckets);
        let mut i: usize = 0;
        while i < n_buckets
            invariant
                i <= n_buckets,
                data@.len() == i,
                forall|k: int| 0 <= k < i ==> #[trigger] data@[k].view_of() == empty_bucket(),
            decreases n_buckets - i,
        {
            data.push(Bucket::empty());
            i += 1;
        }
        let r = SearchTable { data };
        assert(r@ =~= Seq::new(n_buckets as nat, |i: int| empty_bucket()));
        r
    }

    #[inline]
    /// Inserts an entry corresponding to its position hash in the transposition table.
    pub fn insert(
        &mut self,
        hash: usize,
        depth: u64,
        action: Action,
        score: Score,
        node_type: NodeType,
    )
        requires
            old(self)@.len() > 0,
        ensures
            final(self)@ == old(self)@.update(
                bucket_index(hash, old(self)@.len()),
                bucket_insert(
                    old(self)@[bucket_index(hash, old(self)@.len())],
                    entry_of(depth, hash, action, score, node_type),
                ),
            ),
    {
        let k = hash % self.data.len();
        let mut bucket = self.data[k];
        bucket.insert(hash, depth, action, score, node_type);
        self.data.set(k, bucket);
        assert(self@ =~= old(self)@.update(
            bucket_index(hash, old(self)@.len()),
            bucket_insert(
                old(self)@[bucket_index(hash, old(self)@.len())],
                entry_of(depth, hash, action, score, node_type),
            ),
        ));
    }

    #[inline]
    /// Reads the transposition table and returns the entry corresponding to the position hash if there is one.
    pub fn read(&self, hash: usize) -> (r: Option<(u64, Action, Score, NodeType)>)
        requires
            self@.len() > 0,
        ensures
            r == bucket_read(self@[bucket_index(hash, self@.len())], hash),
    {
        let bucket = self.data[hash % self.data.len()];
        bucket.read(hash)
    }

    #[inline]
    /// Empties the transposition table
    pub fn empty(&mut self)
        ensures
            final(self)@ == Seq::new(old(self)@.len(), |i: int| empty_bucket()),
    {
        let n = self.data.len();
        let mut i: usize = 0;
        while i < n
            invariant
                i <= n,
                self.data@.len() == n,
                n == old(self)@.len(),
                forall|k: int| 0 <= k < i ==> #[trigger] self.data@[k].view_of() == empty_bucket(),
            decreases n - i,
        {
            self.data.set(i, Bucket::empty());
            i += 1;
        }
        assert(self@ =~= Seq::new(old(self)@.len(), |i: int| empty_bucket()));
    }
}

} // verus!
