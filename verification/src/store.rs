//! The durable store, modelled exactly.
//!
//! The store holds transfer rows, keyed by `(tx_hash, log_index)`, and a
//! single synchronization cursor.  Insertion is idempotent: a row whose
//! key is already present is silently dropped, so the same event observed
//! any number of times leaves exactly one row.  The cursor only ever
//! moves forward: a non-increasing update is silently ignored.

use vstd::prelude::*;

verus! {

/// One stored transfer row.  Amounts are token micro-units; times are
/// UTC unix seconds.
pub struct UsdcTransfer {
    pub id: i64,
    pub tx_hash: String,
    pub log_index: u64,
    pub block_number: u64,
    pub from_address: String,
    pub to_address: String,
    pub amount: u128,
    pub block_time: u64,
}

impl UsdcTransfer {
    /// An exact copy of the row.
    pub fn duplicate(&self) -> (r: Self)
        ensures
            r == *self,
    {
        UsdcTransfer {
            id: self.id,
            tx_hash: self.tx_hash.clone(),
            log_index: self.log_index,
            block_number: self.block_number,
            from_address: self.from_address.clone(),
            to_address: self.to_address.clone(),
            amount: self.amount,
            block_time: self.block_time,
        }
    }
}

/// Two rows carry the same `(tx_hash, log_index)` key.
pub open spec fn same_key(a: UsdcTransfer, b: UsdcTransfer) -> bool {
    a.tx_hash@ == b.tx_hash@ && a.log_index == b.log_index
}

/// Some row in `s` carries the key `(tx, li)`.
pub open spec fn spec_contains_key(s: Seq<UsdcTransfer>, tx: Seq<char>, li: u64) -> bool {
    exists|i: int| 0 <= i < s.len() && s[i].tx_hash@ == tx && s[i].log_index == li
}

/// How many rows in `s` carry the key `(tx, li)`.
pub open spec fn spec_count_key(s: Seq<UsdcTransfer>, tx: Seq<char>, li: u64) -> nat
    decreases s.len(),
{
    if s.len() == 0 {
        0
    } else {
        spec_count_key(s.drop_last(), tx, li) + if s.last().tx_hash@ == tx && s.last().log_index
            == li {
            1nat
        } else {
            0nat
        }
    }
}

/// No two rows share a key.
pub open spec fn keys_unique(s: Seq<UsdcTransfer>) -> bool {
    forall|i: int, j: int| 0 <= i < j < s.len() ==> !#[trigger] same_key(s[i], s[j])
}

/// A row as the given arguments describe it.
pub open spec fn row_matches(
    t: UsdcTransfer,
    tx: Seq<char>,
    li: u64,
    bn: u64,
    from: Seq<char>,
    to: Seq<char>,
    amount: u128,
    bt: u64,
) -> bool {
    &&& t.tx_hash@ == tx
    &&& t.log_index == li
    &&& t.block_number == bn
    &&& t.from_address@ == from
    &&& t.to_address@ == to
    &&& t.amount == amount
    &&& t.block_time == bt
}

/// The store: transfer rows plus the synchronization cursor.  The cursor
/// is absent until first written; an absent cursor reads as zero.
pub struct Store {
    pub transfers: Vec<UsdcTransfer>,
    pub last_block: u64,
    pub has_cursor: bool,
}

impl Store {
    /// Well-formedness: keys are unique, identifiers are assigned in
    /// insertion order starting at one, and an absent cursor reads as
    /// zero.
    pub open spec fn wf(&self) -> bool {
        &&& keys_unique(self.transfers@)
        &&& forall|i: int|
            0 <= i < self.transfers@.len() ==> (#[trigger] self.transfers@[i].id) == i + 1
        &&& (!self.has_cursor ==> self.last_block == 0)
    }

    /// An empty store with no cursor row.
    pub fn new() -> (r: Store)
        ensures
            r.wf(),
            r.transfers@.len() == 0,
            r.last_block == 0,
            !r.has_cursor,
    {
        Store { transfers: Vec::new(), last_block: 0, has_cursor: false }
    }

    /// Insert one transfer row, idempotently on `(tx_hash, log_index)`:
    /// a duplicate key leaves the store unchanged, any other key appends
    /// exactly one row built from the arguments.  The cursor is never
    /// touched.
    pub fn insert_transfer_if_not_exists(
        &mut self,
        tx_hash: &str,
        log_index: u64,
        block_number: u64,
        from: &str,
        to: &str,
        amount: u128,
        block_time: u64,
    )
        requires
            old(self).wf(),
            old(self).transfers@.len() < 0x7fff_ffff_ffff_ffff,
        ensures
            final(self).wf(),
            final(self).last_block == old(self).last_block,
            final(self).has_cursor == old(self).has_cursor,
            spec_contains_key(old(self).transfers@, tx_hash@, log_index) ==> final(self).transfers@
                == old(self).transfers@,
            !spec_contains_key(old(self).transfers@, tx_hash@, log_index) ==> {
                &&& final(self).transfers@.len() == old(self).transfers@.len() + 1
                &&& final(self).transfers@.drop_last() == old(self).transfers@
                &&& row_matches(
                    final(self).transfers@.last(),
                    tx_hash@,
                    log_index,
                    block_number,
                    from@,
                    to@,
                    amount,
                    block_time,
                )
            },
            spec_contains_key(final(self).transfers@, tx_hash@, log_index),
    {
        let key: String = tx_hash.to_owned();
        let n = self.transfers.len();
        let mut i: usize = 0;
        while i < n
            invariant
                *self == *old(self),
                old(self).wf(),
                old(self).transfers@.len() < 0x7fff_ffff_ffff_ffff,
                n == self.transfers@.len(),
                i <= n,
                key@ == tx_hash@,
                forall|k: int|
                    0 <= k < i ==> !(self.transfers@[k].tx_hash@ == tx_hash@
                        && self.transfers@[k].log_index == log_index),
            decreases n - i,
        {
            let t = &self.transfers[i];
            if t.log_index == log_index && t.tx_hash == key {
                assert(spec_contains_key(self.transfers@, tx_hash@, log_index));
                return ;
            }
            i = i + 1;
        }
        let id = self.transfers.len() as i64 + 1;
        let row = UsdcTransfer {
            id,
            tx_hash: key,
            log_index,
            block_number,
            from_address: from.to_owned(),
            to_address: to.to_owned(),
            amount,
            block_time,
        };
        self.transfers.push(row);
        proof {
            let s = self.transfers@;
            assert(s.drop_last() =~= old(self).transfers@);
            assert(s[s.len() - 1].tx_hash@ == tx_hash@);
            assert(forall|k: int|
                0 <= k < s.len() - 1 ==> !same_key(#[trigger] s[k], s[s.len() - 1]));
            assert(keys_unique(s)) by {
                assert(forall|i2: int, j2: int|
                    0 <= i2 < j2 < s.len() - 1 ==> !#[trigger] same_key(s[i2], s[j2]));
            }
        }
    }

    /// Read the cursor; an absent cursor reads as zero.
    pub fn get_last_block(&self) -> (r: u64)
        ensures
            r == self.last_block,
    {
        self.last_block
    }

    /// Read the cursor, or fall back to the configured start block while
    /// no cursor row exists yet.
    pub fn get_last_block_or_default(&self, start_block: u64) -> (r: u64)
        ensures
            r == if self.has_cursor {
                self.last_block
            } else {
                start_block
            },
    {
        if self.has_cursor {
            self.last_block
        } else {
            start_block
        }
    }

    /// Upsert the cursor.  The cursor only moves forward: a value not
    /// above the stored one leaves the cursor unchanged, so the cursor
    /// is monotonically non-decreasing over the whole process lifetime.
    pub fn update_sync_state(&mut self, last_block: u64)
        requires
            old(self).wf(),
        ensures
            final(self).wf(),
            final(self).transfers@ == old(self).transfers@,
            final(self).has_cursor,
            final(self).last_block == if old(self).has_cursor && last_block <= old(
                self,
            ).last_block {
                old(self).last_block
            } else {
                last_block
            },
            final(self).last_block >= old(self).last_block,
            final(self).last_block >= last_block,
    {
        if !self.has_cursor {
            self.has_cursor = true;
            self.last_block = last_block;
        } else if last_block > self.last_block {
            self.last_block = last_block;
        }
    }

    /// Raise the cursor to the configured start block if it is behind
    /// it; otherwise leave the store untouched.  Run once at startup.
    pub fn update_sync_state_if_needs(&mut self, start_block: u64)
        requires
            old(self).wf(),
        ensures
            final(self).wf(),
            final(self).transfers@ == old(self).transfers@,
            final(self).last_block == if start_block > old(self).last_block {
                start_block
            } else {
                old(self).last_block
            },
            final(self).has_cursor == (old(self).has_cursor || start_block > old(
                self,
            ).last_block),
            final(self).last_block >= old(self).last_block,
    {
        let last = self.get_last_block();
        if start_block > last {
            self.update_sync_state(start_block);
        }
    }

    /// Look one row up by its identifier.  Returns the row whose `id`
    /// equals the argument, and `None` when no row carries it.
    pub fn get_transfer_by_id(&self, id: i64) -> (r: Option<UsdcTransfer>)
        requires
            self.wf(),
        ensures
            1 <= id <= self.transfers@.len() ==> r == Some(self.transfers@[id - 1]),
            !(1 <= id <= self.transfers@.len()) ==> r is None,
    {
        if id < 1 {
            return None;
        }
        if (id as u64) <= self.transfers.len() as u64 {
            let idx = (id - 1) as usize;
            Some(self.transfers[idx].duplicate())
        } else {
            None
        }
    }
}

/// A key that occurs at all occurs in exactly one row of a store with
/// unique keys.
pub proof fn lemma_unique_key_count(s: Seq<UsdcTransfer>, tx: Seq<char>, li: u64)
    requires
        keys_unique(s),
    ensures
        spec_count_key(s, tx, li) <= 1,
        spec_contains_key(s, tx, li) ==> spec_count_key(s, tx, li) == 1,
    decreases s.len(),
{
    if s.len() > 0 {
        let d = s.drop_last();
        assert(forall|i: int, j: int| 0 <= i < j < d.len() ==> !#[trigger] same_key(d[i], d[j]))
            by {
            assert(forall|i: int, j: int|
                0 <= i < j < d.len() ==> d[i] == s[i] && d[j] == s[j] && !#[trigger] same_key(
                    s[i],
                    s[j],
                ));
        }
        lemma_unique_key_count(d, tx, li);
        lemma_count_zero_iff_absent(d, tx, li);
        if s.last().tx_hash@ == tx && s.last().log_index == li {
            assert(!spec_contains_key(d, tx, li)) by {
                if spec_contains_key(d, tx, li) {
                    let k = choose|k: int|
                        0 <= k < d.len() && d[k].tx_hash@ == tx && d[k].log_index == li;
                    assert(d[k] == s[k]);
                    assert(same_key(s[k], s[s.len() - 1]));
                }
            }
            assert(spec_count_key(s, tx, li) == 1);
        } else {
            if spec_contains_key(s, tx, li) {
                let k = choose|k: int|
                    0 <= k < s.len() && s[k].tx_hash@ == tx && s[k].log_index == li;
                assert(k < s.len() - 1);
                assert(d[k] == s[k]);
                assert(d[k].tx_hash@ == tx && d[k].log_index == li);
                assert(spec_contains_key(d, tx, li));
            }
        }
    }
}

/// A count of zero is the same as absence of the key.
pub proof fn lemma_count_zero_iff_absent(s: Seq<UsdcTransfer>, tx: Seq<char>, li: u64)
    ensures
        (spec_count_key(s, tx, li) == 0) <==> !spec_contains_key(s, tx, li),
    decreases s.len(),
{
    if s.len() > 0 {
        let d = s.drop_last();
        lemma_count_zero_iff_absent(d, tx, li);
        if s.last().tx_hash@ == tx && s.last().log_index == li {
            assert(s[s.len() - 1].tx_hash@ == tx && s[s.len() - 1].log_index == li);
            assert(spec_contains_key(s, tx, li));
        } else {
            if spec_contains_key(s, tx, li) {
                let k = choose|k: int|
                    0 <= k < s.len() && s[k].tx_hash@ == tx && s[k].log_index == li;
                assert(k < s.len() - 1);
                assert(d[k] == s[k]);
                assert(d[k].tx_hash@ == tx && d[k].log_index == li);
                assert(spec_contains_key(d, tx, li));
            }
            if spec_contains_key(d, tx, li) {
                let k = choose|k: int|
                    0 <= k < d.len() && d[k].tx_hash@ == tx && d[k].log_index == li;
                assert(s[k] == d[k]);
                assert(s[k].tx_hash@ == tx && s[k].log_index == li);
                assert(spec_contains_key(s, tx, li));
            }
        }
    }
}

/// The listing order of the read API: by block time, newest first, ties
/// by identifier, oldest first.  `comes_before(a, b)` says `a` is listed
/// no later than `b`; the relation is total and reflexive.
pub open spec fn comes_before(a: UsdcTransfer, b: UsdcTransfer) -> bool {
    a.block_time > b.block_time || (a.block_time == b.block_time && a.id <= b.id)
}

/// A sequence listed in order: every element comes before all later ones.
pub open spec fn sorted_desc(s: Seq<UsdcTransfer>) -> bool {
    forall|i: int, j: int| 0 <= i <= j < s.len() ==> #[trigger] comes_before(s[i], s[j])
}

/// The view of an optional filter argument.
pub open spec fn opt_str_view(o: Option<String>) -> Option<Seq<char>> {
    match o {
        Some(s) => Some(s@),
        None => None,
    }
}

/// Whether one row passes the listing filter.
pub open spec fn spec_matches(
    t: UsdcTransfer,
    from: Option<Seq<char>>,
    to: Option<Seq<char>>,
    created_before: Option<u64>,
    created_after: Option<u64>,
) -> bool {
    &&& (from matches Some(f) ==> t.from_address@ == f)
    &&& (to matches Some(x) ==> t.to_address@ == x)
    &&& (created_before matches Some(b) ==> t.block_time < b)
    &&& (created_after matches Some(a) ==> t.block_time > a)
}

/// The rows that pass the filter, in table order.
pub open spec fn spec_filter(
    s: Seq<UsdcTransfer>,
    from: Option<Seq<char>>,
    to: Option<Seq<char>>,
    created_before: Option<u64>,
    created_after: Option<u64>,
) -> Seq<UsdcTransfer>
    decreases s.len(),
{
    if s.len() == 0 {
        Seq::<UsdcTransfer>::empty()
    } else {
        (if spec_matches(s[0], from, to, created_before, created_after) {
            seq![s[0]]
        } else {
            Seq::<UsdcTransfer>::empty()
        }) + spec_filter(s.drop_first(), from, to, created_before, created_after)
    }
}

/// Insertion into a listed sequence: `x` goes in front of the first row
/// it comes before.
pub open spec fn spec_insert_sorted(x: UsdcTransfer, s: Seq<UsdcTransfer>) -> Seq<UsdcTransfer>
    decreases s.len(),
{
    if s.len() == 0 {
        seq![x]
    } else if comes_before(x, s[0]) {
        seq![x] + s
    } else {
        seq![s[0]] + spec_insert_sorted(x, s.drop_first())
    }
}

/// The listing of a sequence of rows: insertion sort under
/// `comes_before`.
pub open spec fn spec_sort(s: Seq<UsdcTransfer>) -> Seq<UsdcTransfer>
    decreases s.len(),
{
    if s.len() == 0 {
        Seq::<UsdcTransfer>::empty()
    } else {
        spec_insert_sorted(s[0], spec_sort(s.drop_first()))
    }
}

/// The effective page size: the given limit clamped to one through one
/// hundred, twenty when absent.
pub open spec fn spec_limit(limit: Option<u32>) -> int {
    let l: int = match limit {
        Some(l) => l as int,
        None => 20,
    };
    if l < 1 {
        1
    } else if l > 100 {
        100
    } else {
        l
    }
}

/// The number of rows skipped: pages count from one, and page zero reads
/// as the first page.
pub open spec fn spec_offset(page: Option<u32>, limit: Option<u32>) -> int {
    let p: int = match page {
        Some(p) => p as int,
        None => 1,
    };
    (if p == 0 {
        0
    } else {
        p - 1
    }) * spec_limit(limit)
}

/// One page of a listing: the rows from `off` on, at most `lim` of them.
pub open spec fn spec_page(s: Seq<UsdcTransfer>, off: int, lim: int) -> Seq<UsdcTransfer> {
    let start = if off < s.len() {
        off
    } else {
        s.len() as int
    };
    let end = if off + lim < s.len() {
        off + lim
    } else {
        s.len() as int
    };
    s.subrange(start, end)
}

/// Taking a sequence apart at the front takes its multiset apart.
proof fn lemma_to_multiset_uncons(s: Seq<UsdcTransfer>)
    requires
        s.len() > 0,
    ensures
        s.to_multiset() == s.drop_first().to_multiset().insert(s[0]),
{
    broadcast use vstd::seq_lib::group_to_multiset_ensures;

    assert(s.remove(0) =~= s.drop_first());
    assert(s.remove(0).to_multiset() =~= s.to_multiset().remove(s[0]));
    assert(s.contains(s[0]));
    assert(s.to_multiset().count(s[0]) > 0);
    assert(s.to_multiset().remove(s[0]).insert(s[0]) =~= s.to_multiset());
}

/// Inserting into a listed sequence keeps it listed, grows it by exactly
/// the inserted row, and invents no rows.
proof fn lemma_insert_sorted_props(x: UsdcTransfer, s: Seq<UsdcTransfer>)
    requires
        sorted_desc(s),
    ensures
        sorted_desc(spec_insert_sorted(x, s)),
        spec_insert_sorted(x, s).to_multiset() == s.to_multiset().insert(x),
        spec_insert_sorted(x, s).len() == s.len() + 1,
        forall|k: int|
            0 <= k < spec_insert_sorted(x, s).len() ==> spec_insert_sorted(x, s)[k] == x
                || s.contains(#[trigger] spec_insert_sorted(x, s)[k]),
    decreases s.len(),
{
    broadcast use vstd::seq_lib::group_to_multiset_ensures;

    let r = spec_insert_sorted(x, s);
    if s.len() == 0 {
        assert(r =~= seq![x]);
        assert(r =~= s.push(x));
        assert(s.push(x).to_multiset() =~= s.to_multiset().insert(x));
    } else if comes_before(x, s[0]) {
        assert(r == seq![x] + s);
        assert(forall|j: int| 0 <= j < s.len() ==> comes_before(s[0], #[trigger] s[j]));
        assert(forall|j: int| 1 <= j < r.len() ==> r[j] == s[j - 1]);
        assert(sorted_desc(r)) by {
            assert(forall|i: int, j: int|
                0 <= i <= j < r.len() && i >= 1 ==> #[trigger] comes_before(r[i], r[j]));
            assert(forall|j: int| 0 <= j < r.len() ==> comes_before(r[0], #[trigger] r[j]));
        }
        assert(r.to_multiset() == s.to_multiset().insert(x)) by {
            assert(r.drop_first() =~= s);
            assert(r[0] == x);
            lemma_to_multiset_uncons(r);
        }
    } else {
        let d = s.drop_first();
        assert(sorted_desc(d)) by {
            assert(forall|i: int, j: int|
                0 <= i <= j < d.len() ==> d[i] == s[i + 1] && d[j] == s[j + 1]
                    && #[trigger] comes_before(s[i + 1], s[j + 1]));
        }
        lemma_insert_sorted_props(x, d);
        let t = spec_insert_sorted(x, d);
        assert(r == seq![s[0]] + t);
        assert(forall|j: int| 1 <= j < r.len() ==> r[j] == t[j - 1]);
        // the head comes before the inserted row and before every old row
        assert(comes_before(s[0], x));
        assert(forall|j: int| 0 <= j < t.len() ==> comes_before(s[0], #[trigger] t[j])) by {
            assert(forall|j: int| 0 <= j < t.len() ==> t[j] == x || d.contains(#[trigger] t[j]));
            assert(forall|e: UsdcTransfer| d.contains(e) ==> #[trigger] comes_before(s[0], e)) by {
                assert(forall|k: int|
                    0 <= k < d.len() ==> d[k] == s[k + 1] && #[trigger] comes_before(
                        s[0],
                        s[k + 1],
                    ));
            }
        }
        assert(sorted_desc(r)) by {
            assert(forall|i: int, j: int|
                0 <= i <= j < r.len() && i >= 1 ==> #[trigger] comes_before(r[i], r[j]));
            assert(forall|j: int| 0 <= j < r.len() ==> comes_before(r[0], #[trigger] r[j]));
        }
        assert(r.to_multiset() == s.to_multiset().insert(x)) by {
            assert(r.drop_first() =~= t);
            assert(r[0] == s[0]);
            lemma_to_multiset_uncons(r);
            lemma_to_multiset_uncons(s);
            assert(t.to_multiset() == d.to_multiset().insert(x));
            assert(d.to_multiset().insert(x).insert(s[0]) =~= d.to_multiset().insert(
                s[0],
            ).insert(x));
        }
        assert(forall|k: int| 1 <= k < r.len() && r[k] != x ==> d.contains(r[k]) && s.contains(
            #[trigger] r[k],
        )) by {
            assert(forall|k: int| 0 <= k < d.len() ==> d[k] == #[trigger] s[k + 1]);
        }
        assert(s.contains(s[0]));
    }
}

/// The listing of any sequence of rows is listed in order and is a
/// permutation of it: sorting loses nothing, invents nothing, and
/// orders by block time, newest first.
pub proof fn lemma_sort_props(s: Seq<UsdcTransfer>)
    ensures
        sorted_desc(spec_sort(s)),
        spec_sort(s).to_multiset() == s.to_multiset(),
        spec_sort(s).len() == s.len(),
    decreases s.len(),
{
    broadcast use vstd::seq_lib::group_to_multiset_ensures;

    if s.len() > 0 {
        lemma_sort_props(s.drop_first());
        lemma_insert_sorted_props(s[0], spec_sort(s.drop_first()));
        lemma_to_multiset_uncons(s);
    }
}

/// Where an inserted row lands: in front of the first row it comes
/// before, with everything else kept in place.
proof fn lemma_insert_sorted_at(x: UsdcTransfer, s: Seq<UsdcTransfer>, j: int)
    requires
        0 <= j <= s.len(),
        forall|k: int| 0 <= k < j ==> !comes_before(x, #[trigger] s[k]),
        j < s.len() ==> comes_before(x, s[j]),
    ensures
        spec_insert_sorted(x, s) == s.subrange(0, j).push(x) + s.subrange(j, s.len() as int),
    decreases s.len(),
{
    if s.len() == 0 {
        assert(spec_insert_sorted(x, s) =~= s.subrange(0, j).push(x) + s.subrange(
            j,
            s.len() as int,
        ));
    } else if j == 0 {
        assert(spec_insert_sorted(x, s) == seq![x] + s);
        assert(seq![x] + s =~= s.subrange(0, 0).push(x) + s.subrange(0, s.len() as int));
    } else {
        let d = s.drop_first();
        assert(forall|k: int| 0 <= k < j - 1 ==> !comes_before(x, #[trigger] d[k])) by {
            assert(forall|k: int|
                0 <= k < j - 1 ==> #[trigger] d[k] == s[k + 1] && !comes_before(x, s[k + 1]));
        }
        if j - 1 < d.len() {
            assert(d[j - 1] == s[j]);
        }
        lemma_insert_sorted_at(x, d, j - 1);
        assert(spec_insert_sorted(x, s) == seq![s[0]] + (d.subrange(0, j - 1).push(x) + d.subrange(
            j - 1,
            d.len() as int,
        )));
        assert(seq![s[0]] + (d.subrange(0, j - 1).push(x) + d.subrange(j - 1, d.len() as int)) =~= s
            .subrange(0, j).push(x) + s.subrange(j, s.len() as int));
    }
}

/// Does `a` come no later than `b` in listing order?
fn comes_before_exec(a: &UsdcTransfer, b: &UsdcTransfer) -> (r: bool)
    ensures
        r == comes_before(*a, *b),
{
    a.block_time > b.block_time || (a.block_time == b.block_time && a.id <= b.id)
}

/// Insert one row into an already listed vector, keeping it listed.
fn insert_listed(out: &mut Vec<UsdcTransfer>, x: UsdcTransfer)
    ensures
        final(out)@ == spec_insert_sorted(x, old(out)@),
{
    let n = out.len();
    let mut j: usize = 0;
    let mut found = false;
    while j < n && !found
        invariant
            j <= n,
            n == out@.len(),
            *out == *old(out),
            forall|k: int| 0 <= k < j ==> !comes_before(x, #[trigger] out@[k]),
            found ==> j < n && comes_before(x, out@[j as int]),
        decreases n - j, (if found { 0int } else { 1int }),
    {
        if comes_before_exec(&x, &out[j]) {
            found = true;
        } else {
            j = j + 1;
        }
    }
    proof {
        lemma_insert_sorted_at(x, out@, j as int);
    }
    out.insert(j, x);
    proof {
        assert(final(out)@ =~= old(out)@.subrange(0, j as int).push(x) + old(out)@.subrange(
            j as int,
            old(out)@.len() as int,
        ));
    }
}

/// Does one row pass the listing filter?
fn matches_filter(
    t: &UsdcTransfer,
    from: &Option<String>,
    to: &Option<String>,
    created_before: Option<u64>,
    created_after: Option<u64>,
) -> (r: bool)
    ensures
        r == spec_matches(*t, opt_str_view(*from), opt_str_view(*to), created_before,
        created_after),
{
    let from_ok = match from {
        Some(f) => t.from_address == *f,
        None => true,
    };
    let to_ok = match to {
        Some(x) => t.to_address == *x,
        None => true,
    };
    let before_ok = match created_before {
        Some(b) => t.block_time < b,
        None => true,
    };
    let after_ok = match created_after {
        Some(a) => t.block_time > a,
        None => true,
    };
    from_ok && to_ok && before_ok && after_ok
}

impl Store {
    /// One page of the stored transfers, filtered by the optional
    /// sender, recipient and block-time bounds, listed newest block
    /// first, paginated by page and limit with the limit clamped to one
    /// through one hundred (twenty when absent) and pages counted from
    /// one.
    pub fn list_transfers(
        &self,
        from: Option<String>,
        to: Option<String>,
        created_before: Option<u64>,
        created_after: Option<u64>,
        page: Option<u32>,
        limit: Option<u32>,
    ) -> (r: Vec<UsdcTransfer>)
        ensures
            r@ == spec_page(
                spec_sort(
                    spec_filter(
                        self.transfers@,
                        opt_str_view(from),
                        opt_str_view(to),
                        created_before,
                        created_after,
                    ),
                ),
                spec_offset(page, limit),
                spec_limit(limit),
            ),
    {
        let ghost fv = opt_str_view(from);
        let ghost tv = opt_str_view(to);
        let n = self.transfers.len();
        let mut listed: Vec<UsdcTransfer> = Vec::new();
        let mut i: usize = n;
        proof {
            assert(self.transfers@.skip(n as int) =~= Seq::<UsdcTransfer>::empty());
        }
        while i > 0
            invariant
                i <= n,
                n == self.transfers@.len(),
                fv == opt_str_view(from),
                tv == opt_str_view(to),
                listed@ == spec_sort(
                    spec_filter(
                        self.transfers@.skip(i as int),
                        fv,
                        tv,
                        created_before,
                        created_after,
                    ),
                ),
            decreases i,
        {
            i = i - 1;
            let t = &self.transfers[i];
            let keep = matches_filter(t, &from, &to, created_before, created_after);
            proof {
                assert(self.transfers@.skip(i as int)[0] == self.transfers@[i as int]);
                assert(self.transfers@.skip(i as int).drop_first() =~= self.transfers@.skip(
                    i + 1,
                ));
            }
            if keep {
                proof {
                    let fs = spec_filter(
                        self.transfers@.skip(i as int),
                        fv,
                        tv,
                        created_before,
                        created_after,
                    );
                    assert(fs == seq![self.transfers@[i as int]] + spec_filter(
                        self.transfers@.skip(i + 1),
                        fv,
                        tv,
                        created_before,
                        created_after,
                    ));
                    assert(fs[0] == self.transfers@[i as int]);
                    assert(fs.drop_first() =~= spec_filter(
                        self.transfers@.skip(i + 1),
                        fv,
                        tv,
                        created_before,
                        created_after,
                    ));
                }
                insert_listed(&mut listed, t.duplicate());
            } else {
                proof {
                    assert(spec_filter(
                        self.transfers@.skip(i as int),
                        fv,
                        tv,
                        created_before,
                        created_after,
                    ) =~= spec_filter(
                        self.transfers@.skip(i + 1),
                        fv,
                        tv,
                        created_before,
                        created_after,
                    ));
                }
            }
        }
        proof {
            assert(self.transfers@.skip(0) =~= self.transfers@);
        }
        // pagination
        let lim: u32 = match limit {
            Some(l) => if l < 1 {
                1
            } else if l > 100 {
                100
            } else {
                l
            },
            None => 20,
        };
        let page_no: u32 = match page {
            Some(p) => p,
            None => 1,
        };
        let skipped_pages: u64 = if page_no == 0 {
            0
        } else {
            (page_no - 1) as u64
        };
        proof {
            assert(skipped_pages * (lim as u64) <= 0xffff_ffff * 100) by (nonlinear_arith)
                requires
                    skipped_pages <= 0xffff_ffff,
                    lim <= 100,
            ;
        }
        let off: u64 = skipped_pages * (lim as u64);
        let m = listed.len();
        let start: usize = if off < m as u64 {
            off as usize
        } else {
            m
        };
        let end: usize = if off + (lim as u64) < m as u64 {
            (off + (lim as u64)) as usize
        } else {
            m
        };
        let mut r: Vec<UsdcTransfer> = Vec::new();
        let mut k: usize = start;
        proof {
            assert(listed@.subrange(start as int, start as int) =~= Seq::<UsdcTransfer>::empty());
        }
        while k < end
            invariant
                start <= k <= end <= m,
                m == listed@.len(),
                r@ =~= listed@.subrange(start as int, k as int),
            decreases end - k,
        {
            r.push(listed[k].duplicate());
            proof {
                assert(r@ =~= listed@.subrange(start as int, k + 1));
            }
            k = k + 1;
        }
        proof {
            assert(spec_offset(page, limit) == off);
            assert(spec_limit(limit) == lim);
            assert(r@ =~= spec_page(listed@, off as int, lim as int));
        }
        r
    }
}

} // verus!
