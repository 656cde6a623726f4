//! The ingestion engine: the retry policy and the verified step
//! functions of the historical backfill and the live subscription
//! workers.
//!
//! The workers' outside work (fetching logs over HTTP, consuming the
//! WebSocket stream, resolving block timestamps) is performed by the
//! unverified shell; every decision — which window to fetch, what a
//! response contributes to the store, how a failure changes the worker's
//! state — is taken here, with a contract.

use vstd::prelude::*;
use crate::batch::{BatchSizer, spec_halve};
use crate::classify::RpcErrorKind;
use crate::decode::{RawLog, decode_transfer, spec_decodable, be_bytes_nat};
use crate::hex::{hex_0x, spec_hex_0x};
use crate::store::{Store, spec_contains_key, UsdcTransfer};

verus! {

/// How many times one window is retried before it is given up.
pub const RETRY_TIMES: u64 = 3;

/// Pause after a rate-limit response.
pub const RATE_LIMIT_WAIT_MS: u64 = 10000;

/// Shorter pause after a rate-limit response that directly follows a
/// batch reduction, to avoid penalizing the same window twice.
pub const RATE_LIMIT_SHORT_WAIT_MS: u64 = 2000;

/// Pause after the provider reported too many matching logs.
pub const TOO_MANY_LOGS_WAIT_MS: u64 = 300;

/// Pause after a transient network failure.
pub const TEMPORARY_WAIT_MS: u64 = 500;

/// Pacing pause after every successfully ingested window.
pub const HISTORICAL_SLEEP_MS: u64 = 200;

/// A raw log paired with the timestamp of its block, when the shell
/// could resolve one.
pub struct TimedLog {
    pub log: RawLog,
    pub block_time: Option<u64>,
}

/// What one stored row holds, as plain mathematical values.
pub ghost struct RowView {
    pub id: int,
    pub tx_hash: Seq<char>,
    pub log_index: u64,
    pub block_number: u64,
    pub from: Seq<char>,
    pub to: Seq<char>,
    pub amount: u128,
    pub block_time: u64,
}

/// One transfer as the ingestion engine hands it to the store.
pub ghost struct TransferEvent {
    pub tx_hash: Seq<char>,
    pub log_index: u64,
    pub block_number: u64,
    pub from: Seq<char>,
    pub to: Seq<char>,
    pub amount: u128,
    pub block_time: u64,
}

/// The mathematical content of a stored row.
pub open spec fn row_view(t: UsdcTransfer) -> RowView {
    RowView {
        id: t.id as int,
        tx_hash: t.tx_hash@,
        log_index: t.log_index,
        block_number: t.block_number,
        from: t.from_address@,
        to: t.to_address@,
        amount: t.amount,
        block_time: t.block_time,
    }
}

/// The mathematical content of the whole transfer table.
pub open spec fn store_view(s: Seq<UsdcTransfer>) -> Seq<RowView> {
    s.map_values(|t: UsdcTransfer| row_view(t))
}

/// Some row of the view carries the key `(tx, li)`.
pub open spec fn view_contains_key(v: Seq<RowView>, tx: Seq<char>, li: u64) -> bool {
    exists|i: int| 0 <= i < v.len() && v[i].tx_hash == tx && v[i].log_index == li
}

/// The row an event becomes when it is appended under identifier `id`.
pub open spec fn view_row_of(ev: TransferEvent, id: int) -> RowView {
    RowView {
        id,
        tx_hash: ev.tx_hash,
        log_index: ev.log_index,
        block_number: ev.block_number,
        from: ev.from,
        to: ev.to,
        amount: ev.amount,
        block_time: ev.block_time,
    }
}

/// Idempotent insertion, on the mathematical view: a duplicate key
/// leaves the table as it is, any other key appends one row.
pub open spec fn view_insert(v: Seq<RowView>, ev: TransferEvent) -> Seq<RowView> {
    if view_contains_key(v, ev.tx_hash, ev.log_index) {
        v
    } else {
        v.push(view_row_of(ev, v.len() + 1 as int))
    }
}

/// Idempotent insertion of a batch of events, first to last.
pub open spec fn view_insert_all(v: Seq<RowView>, evs: Seq<TransferEvent>) -> Seq<RowView>
    decreases evs.len(),
{
    if evs.len() == 0 {
        v
    } else {
        view_insert_all(view_insert(v, evs[0]), evs.drop_first())
    }
}

/// A log is ingested exactly when it decodes under the Transfer schema,
/// names its block, transaction and log index, and its block timestamp
/// could be resolved.
pub open spec fn spec_eligible(log: RawLog, block_time: Option<u64>) -> bool {
    &&& spec_decodable(log)
    &&& log.block_number is Some
    &&& log.transaction_hash is Some
    &&& log.log_index is Some
    &&& block_time is Some
}

/// What an eligible log contributes to the store: hashes and addresses
/// in canonical hex, the amount in token micro-units.
pub open spec fn spec_event_of(log: RawLog, block_time: Option<u64>) -> TransferEvent {
    TransferEvent {
        tx_hash: spec_hex_0x((log.transaction_hash->0)@),
        log_index: log.log_index->0,
        block_number: log.block_number->0,
        from: spec_hex_0x(log.topics@[1]@.subrange(12, 32)),
        to: spec_hex_0x(log.topics@[2]@.subrange(12, 32)),
        amount: be_bytes_nat(log.data@) as u128,
        block_time: block_time->0,
    }
}

/// The events a response contributes, in order: one per eligible log.
pub open spec fn spec_plan(logs: Seq<TimedLog>) -> Seq<TransferEvent>
    decreases logs.len(),
{
    if logs.len() == 0 {
        Seq::<TransferEvent>::empty()
    } else {
        (if spec_eligible(logs[0].log, logs[0].block_time) {
            seq![spec_event_of(logs[0].log, logs[0].block_time)]
        } else {
            Seq::<TransferEvent>::empty()
        }) + spec_plan(logs.drop_first())
    }
}

/// Extending a response by one log extends its plan by that log's
/// contribution.
proof fn lemma_plan_snoc(s: Seq<TimedLog>, x: TimedLog)
    ensures
        spec_plan(s.push(x)) == spec_plan(s) + (if spec_eligible(x.log, x.block_time) {
            seq![spec_event_of(x.log, x.block_time)]
        } else {
            Seq::<TransferEvent>::empty()
        }),
    decreases s.len(),
{
    reveal_with_fuel(spec_plan, 3);
    let tail = if spec_eligible(x.log, x.block_time) {
        seq![spec_event_of(x.log, x.block_time)]
    } else {
        Seq::<TransferEvent>::empty()
    };
    if s.len() == 0 {
        assert(s.push(x)[0] == x);
        assert(s.push(x).drop_first() =~= Seq::<TimedLog>::empty());
        assert(spec_plan(s.push(x)) =~= tail);
        assert(spec_plan(s) + tail =~= tail);
    } else {
        assert(s.push(x)[0] == s[0]);
        assert(s.push(x).drop_first() =~= s.drop_first().push(x));
        lemma_plan_snoc(s.drop_first(), x);
        let head = if spec_eligible(s[0].log, s[0].block_time) {
            seq![spec_event_of(s[0].log, s[0].block_time)]
        } else {
            Seq::<TransferEvent>::empty()
        };
        assert(spec_plan(s.push(x)) == head + (spec_plan(s.drop_first()) + tail));
        assert(head + (spec_plan(s.drop_first()) + tail) =~= (head + spec_plan(s.drop_first()))
            + tail);
    }
}

/// Inserting a batch extended by one event is inserting the batch, then
/// the event.
proof fn lemma_insert_all_snoc(v: Seq<RowView>, evs: Seq<TransferEvent>, e: TransferEvent)
    ensures
        view_insert_all(v, evs.push(e)) == view_insert(view_insert_all(v, evs), e),
    decreases evs.len(),
{
    reveal_with_fuel(view_insert_all, 3);
    if evs.len() == 0 {
        assert(evs.push(e)[0] == e);
        assert(evs.push(e).drop_first() =~= Seq::<TransferEvent>::empty());
    } else {
        assert(evs.push(e)[0] == evs[0]);
        assert(evs.push(e).drop_first() =~= evs.drop_first().push(e));
        lemma_insert_all_snoc(view_insert(v, evs[0]), evs.drop_first(), e);
    }
}

/// Appending a row appends its view.
proof fn lemma_store_view_push(s: Seq<UsdcTransfer>, t: UsdcTransfer)
    ensures
        store_view(s.push(t)) == store_view(s).push(row_view(t)),
{
    assert(store_view(s.push(t)) =~= store_view(s).push(row_view(t)));
}

/// A key occurs in the view exactly when it occurs in the table.
proof fn lemma_view_contains_iff(s: Seq<UsdcTransfer>, tx: Seq<char>, li: u64)
    ensures
        view_contains_key(store_view(s), tx, li) <==> spec_contains_key(s, tx, li),
{
    let v = store_view(s);
    assert(forall|i: int| 0 <= i < s.len() ==> v[i] == row_view(s[i]));
    if spec_contains_key(s, tx, li) {
        let i = choose|i: int| 0 <= i < s.len() && s[i].tx_hash@ == tx && s[i].log_index == li;
        assert(v[i].tx_hash == tx && v[i].log_index == li);
    }
    if view_contains_key(v, tx, li) {
        let i = choose|i: int| 0 <= i < v.len() && v[i].tx_hash == tx && v[i].log_index == li;
        assert(s[i].tx_hash@ == tx && s[i].log_index == li);
    }
}

/// Inserting the same event any number of times leaves exactly what one
/// insertion leaves: the store is idempotent on `(tx_hash, log_index)`.
pub proof fn lemma_view_insert_idempotent(v: Seq<RowView>, ev: TransferEvent)
    ensures
        view_insert(view_insert(v, ev), ev) == view_insert(v, ev),
{
    if !view_contains_key(v, ev.tx_hash, ev.log_index) {
        let w = view_insert(v, ev);
        assert(w[v.len() as int] == view_row_of(ev, v.len() + 1 as int));
        assert(view_contains_key(w, ev.tx_hash, ev.log_index));
    }
}

/// The retry controller's own memory: whether the last action taken for
/// the current window was a batch reduction.
pub struct RetryController {
    pub last_was_batch_reduction: bool,
}

/// The historical backfill worker's state: the next unscanned block,
/// the head observed at entry, the adaptive window, the per-window
/// attempt counter and the retry controller.
pub struct Backfill {
    pub current: u64,
    pub head: u64,
    pub batch: BatchSizer,
    pub attempt: u64,
    pub retry: RetryController,
}

impl Backfill {
    /// The window is sound and the attempt counter never runs past its
    /// bound.  The head is kept below the largest representable block
    /// so that a window past it can always be expressed.
    pub open spec fn wf(&self) -> bool {
        &&& self.batch.wf()
        &&& self.attempt <= RETRY_TIMES
        &&& self.head < u64::MAX
    }

    /// The backfill is finished: every block up to the head is scanned.
    pub open spec fn spec_done(&self) -> bool {
        self.current > self.head
    }

    /// The last block of the window to fetch next.
    pub open spec fn spec_window_end(&self) -> u64 {
        if self.current + self.batch.current - 1 <= self.head {
            (self.current + self.batch.current - 1) as u64
        } else {
            self.head
        }
    }

    pub fn new(start_block: u64, head: u64, batch_size: u64) -> (r: Self)
        requires
            batch_size >= 1,
            head < u64::MAX,
        ensures
            r.wf(),
            r.current == start_block,
            r.head == head,
            r.batch.current == batch_size,
            r.batch.original == batch_size,
            r.attempt == 0,
            !r.retry.last_was_batch_reduction,
    {
        Backfill {
            current: start_block,
            head,
            batch: BatchSizer::new(batch_size),
            attempt: 0,
            retry: RetryController { last_was_batch_reduction: false },
        }
    }

    pub fn done(&self) -> (r: bool)
        ensures
            r == self.spec_done(),
    {
        self.current > self.head
    }

    /// The inclusive block range to fetch next: from the next unscanned
    /// block to the end of the adaptive window, clipped to the head.
    pub fn window(&self) -> (r: (u64, u64))
        requires
            self.wf(),
            !self.spec_done(),
        ensures
            r.0 == self.current,
            r.1 == self.spec_window_end(),
            self.current <= r.1 <= self.head,
    {
        let span = self.batch.current - 1;
        let end = if self.head - self.current >= span {
            self.current + span
        } else {
            self.head
        };
        (self.current, end)
    }

    /// Ingest a successful response for the current window: store every
    /// eligible log, in order and idempotently, then advance the cursor
    /// to the window's end — also when the response is empty — and move
    /// the worker past the window, resetting the adaptive batch and the
    /// attempt counter.
    pub fn apply_logs(&mut self, store: &mut Store, logs: &Vec<TimedLog>) -> (sleep_ms: u64)
        requires
            old(self).wf(),
            !old(self).spec_done(),
            old(store).wf(),
            old(store).transfers@.len() + logs@.len() < 0x7fff_ffff_ffff_ffff,
        ensures
            final(self).wf(),
            final(store).wf(),
            store_view(final(store).transfers@) == view_insert_all(
                store_view(old(store).transfers@),
                spec_plan(logs@),
            ),
            final(store).has_cursor,
            final(store).last_block == if old(store).has_cursor && old(self).spec_window_end()
                <= old(store).last_block {
                old(store).last_block
            } else {
                old(self).spec_window_end()
            },
            final(store).last_block >= old(self).spec_window_end(),
            final(store).last_block >= old(store).last_block,
            final(self).current == old(self).spec_window_end() + 1,
            final(self).head == old(self).head,
            final(self).batch.original == old(self).batch.original,
            final(self).batch.current == old(self).batch.original,
            final(self).attempt == 0,
            final(self).retry == old(self).retry,
            sleep_ms == HISTORICAL_SLEEP_MS,
    {
        let (_start, end) = self.window();
        let n = logs.len();
        let mut i: usize = 0;
        proof {
            assert(logs@.take(0) =~= Seq::<TimedLog>::empty());
        }
        while i < n
            invariant
                i <= n,
                n == logs@.len(),
                store.wf(),
                old(store).wf(),
                store.transfers@.len() <= old(store).transfers@.len() + i,
                old(store).transfers@.len() + n < 0x7fff_ffff_ffff_ffff,
                store.has_cursor == old(store).has_cursor,
                store.last_block == old(store).last_block,
                store_view(store.transfers@) == view_insert_all(
                    store_view(old(store).transfers@),
                    spec_plan(logs@.take(i as int)),
                ),
            decreases n - i,
        {
            let tl = &logs[i];
            let ghost prev = store.transfers@;
            let ghost plan_prev = spec_plan(logs@.take(i as int));
            proof {
                assert(logs@.take(i as int).push(logs@[i as int]) =~= logs@.take(i + 1));
                lemma_plan_snoc(logs@.take(i as int), logs@[i as int]);
            }
            match decode_transfer(&tl.log) {
                Some(d) => {
                    if tl.log.block_number.is_some() && tl.log.transaction_hash.is_some()
                        && tl.log.log_index.is_some() && tl.block_time.is_some() {
                        let bn = tl.log.block_number.unwrap();
                        let li = tl.log.log_index.unwrap();
                        let bt = tl.block_time.unwrap();
                        let txh = tl.log.transaction_hash.as_ref().unwrap();
                        let tx_hex = hex_0x(txh.as_slice());
                        let from_hex = hex_0x(d.from.as_slice());
                        let to_hex = hex_0x(d.to.as_slice());
                        let ghost ev = spec_event_of(tl.log, tl.block_time);
                        proof {
                            assert(ev.tx_hash == tx_hex@);
                            assert(ev.from == from_hex@);
                            assert(ev.to == to_hex@);
                            assert(ev.amount == d.amount);
                            lemma_view_contains_iff(prev, ev.tx_hash, ev.log_index);
                        }
                        store.insert_transfer_if_not_exists(
                            tx_hex.as_str(),
                            li,
                            bn,
                            from_hex.as_str(),
                            to_hex.as_str(),
                            d.amount,
                            bt,
                        );
                        proof {
                            if spec_contains_key(prev, ev.tx_hash, ev.log_index) {
                                assert(store.transfers@ == prev);
                                assert(view_insert(store_view(prev), ev) == store_view(prev));
                            } else {
                                let row = store.transfers@.last();
                                assert(store.transfers@ =~= prev.push(row));
                                lemma_store_view_push(prev, row);
                                assert(row.id == prev.len() + 1);
                                assert(row_view(row) == view_row_of(ev, prev.len() + 1 as int));
                                assert(store_view(store.transfers@) == view_insert(
                                    store_view(prev),
                                    ev,
                                ));
                            }
                            lemma_insert_all_snoc(
                                store_view(old(store).transfers@),
                                plan_prev,
                                ev,
                            );
                            assert(spec_plan(logs@.take(i + 1)) =~= plan_prev.push(ev));
                        }
                    } else {
                        proof {
                            assert(!spec_eligible(logs@[i as int].log, logs@[i as int].block_time));
                            assert(spec_plan(logs@.take(i + 1)) =~= plan_prev);
                        }
                    }
                },
                None => {
                    proof {
                        assert(!spec_decodable(logs@[i as int].log));
                        assert(!spec_eligible(logs@[i as int].log, logs@[i as int].block_time));
                        assert(spec_plan(logs@.take(i + 1)) =~= plan_prev);
                    }
                },
            }
            i = i + 1;
        }
        proof {
            assert(logs@.take(n as int) =~= logs@);
        }
        store.update_sync_state(end);
        self.current = end + 1;
        self.batch.reset();
        self.attempt = 0;
        HISTORICAL_SLEEP_MS
    }

    /// The retry policy, one failure at a time: pause and retry on rate
    /// limits and transient failures, shrink the window when a range
    /// matched too many logs, skip one block once the window cannot
    /// shrink further, and give the window up on anything else.  Returns
    /// whether the window is still worth retrying, and how long to pause
    /// first.
    pub fn handle_rpc_error(&mut self, kind: RpcErrorKind) -> (r: (bool, u64))
        requires
            old(self).wf(),
            !old(self).spec_done(),
            old(self).attempt < RETRY_TIMES,
        ensures
            final(self).batch.wf(),
            final(self).head == old(self).head,
            final(self).batch.original == old(self).batch.original,
            kind == RpcErrorKind::RateLimited ==> {
                &&& r.0
                &&& r.1 == if old(self).retry.last_was_batch_reduction {
                    RATE_LIMIT_SHORT_WAIT_MS
                } else {
                    RATE_LIMIT_WAIT_MS
                }
                &&& final(self).current == old(self).current
                &&& final(self).batch.current == old(self).batch.current
                &&& final(self).attempt == old(self).attempt + 1
                &&& !final(self).retry.last_was_batch_reduction
            },
            kind == RpcErrorKind::Temporary ==> {
                &&& r.0
                &&& r.1 == TEMPORARY_WAIT_MS
                &&& final(self).current == old(self).current
                &&& final(self).batch.current == old(self).batch.current
                &&& final(self).attempt == old(self).attempt + 1
                &&& !final(self).retry.last_was_batch_reduction
            },
            kind == RpcErrorKind::TooManyLogs && old(self).batch.current > 1 ==> {
                &&& r.0
                &&& r.1 == TOO_MANY_LOGS_WAIT_MS
                &&& final(self).current == old(self).current
                &&& final(self).batch.current == spec_halve(old(self).batch.current)
                &&& final(self).attempt == old(self).attempt
                &&& final(self).retry.last_was_batch_reduction
            },
            kind == RpcErrorKind::TooManyLogs && old(self).batch.current <= 1 ==> {
                &&& !r.0
                &&& r.1 == 0
                &&& final(self).current == old(self).current + 1
                &&& final(self).batch.current == old(self).batch.original
                &&& final(self).attempt == old(self).attempt
                &&& !final(self).retry.last_was_batch_reduction
            },
            kind == RpcErrorKind::Fatal ==> {
                &&& !r.0
                &&& r.1 == 0
                &&& final(self).current == old(self).current
                &&& final(self).batch.current == old(self).batch.current
                &&& final(self).attempt == old(self).attempt
                &&& !final(self).retry.last_was_batch_reduction
            },
    {
        match kind {
            RpcErrorKind::RateLimited => {
                let sleep = if self.retry.last_was_batch_reduction {
                    self.retry.last_was_batch_reduction = false;
                    RATE_LIMIT_SHORT_WAIT_MS
                } else {
                    RATE_LIMIT_WAIT_MS
                };
                self.attempt = self.attempt + 1;
                (true, sleep)
            },
            RpcErrorKind::TooManyLogs => {
                if !self.batch.is_min() {
                    self.batch.halve();
                    self.retry.last_was_batch_reduction = true;
                    (true, TOO_MANY_LOGS_WAIT_MS)
                } else {
                    self.current = self.current + 1;
                    self.batch.reset();
                    self.retry.last_was_batch_reduction = false;
                    (false, 0)
                }
            },
            RpcErrorKind::Temporary => {
                self.attempt = self.attempt + 1;
                self.retry.last_was_batch_reduction = false;
                (true, TEMPORARY_WAIT_MS)
            },
            RpcErrorKind::Fatal => {
                self.retry.last_was_batch_reduction = false;
                (false, 0)
            },
        }
    }

    /// Ingest a failed response for the current window: classify-driven
    /// retry bookkeeping, with the guarantee of forward progress — when
    /// the window is given up (anything fatal, a pathological single
    /// block, or the attempt bound exhausted) the worker skips exactly
    /// one block and resets its window and counter.  Returns whether the
    /// window was given up, and how long to pause before going on.
    pub fn apply_error(&mut self, kind: RpcErrorKind) -> (r: (bool, u64))
        requires
            old(self).wf(),
            !old(self).spec_done(),
            old(self).attempt < RETRY_TIMES,
        ensures
            final(self).wf(),
            final(self).attempt < RETRY_TIMES,
            final(self).head == old(self).head,
            final(self).batch.original == old(self).batch.original,
            old(self).current <= final(self).current <= old(self).current + 1,
            r.0 ==> {
                &&& final(self).current == old(self).current + 1
                &&& final(self).batch.current == old(self).batch.original
                &&& final(self).attempt == 0
            },
            kind == RpcErrorKind::RateLimited ==> {
                &&& r.1 == if old(self).retry.last_was_batch_reduction {
                    RATE_LIMIT_SHORT_WAIT_MS
                } else {
                    RATE_LIMIT_WAIT_MS
                }
                &&& r.0 == (old(self).attempt + 1 >= RETRY_TIMES)
                &&& !final(self).retry.last_was_batch_reduction
                &&& (!r.0 ==> final(self).current == old(self).current && final(self).attempt
                    == old(self).attempt + 1 && final(self).batch.current == old(
                    self,
                ).batch.current)
            },
            kind == RpcErrorKind::Temporary ==> {
                &&& r.1 == TEMPORARY_WAIT_MS
                &&& r.0 == (old(self).attempt + 1 >= RETRY_TIMES)
                &&& !final(self).retry.last_was_batch_reduction
                &&& (!r.0 ==> final(self).current == old(self).current && final(self).attempt
                    == old(self).attempt + 1 && final(self).batch.current == old(
                    self,
                ).batch.current)
            },
            kind == RpcErrorKind::TooManyLogs && old(self).batch.current > 1 ==> {
                &&& !r.0
                &&& r.1 == TOO_MANY_LOGS_WAIT_MS
                &&& final(self).current == old(self).current
                &&& final(self).batch.current == spec_halve(old(self).batch.current)
                &&& final(self).attempt == old(self).attempt
                &&& final(self).retry.last_was_batch_reduction
            },
            kind == RpcErrorKind::TooManyLogs && old(self).batch.current <= 1 ==> {
                &&& r.0
                &&& r.1 == 0
                &&& !final(self).retry.last_was_batch_reduction
            },
            kind == RpcErrorKind::Fatal ==> {
                &&& r.0
                &&& r.1 == 0
                &&& !final(self).retry.last_was_batch_reduction
            },
    {
        let before = self.current;
        let (retrying, sleep_ms) = self.handle_rpc_error(kind);
        if retrying {
            if self.attempt >= RETRY_TIMES {
                self.current = self.current + 1;
                self.batch.reset();
                self.attempt = 0;
                return (true, sleep_ms);
            }
            return (false, sleep_ms);
        }
        if self.current == before {
            self.current = self.current + 1;
        }
        self.batch.reset();
        self.attempt = 0;
        (true, sleep_ms)
    }
}

/// One step of the live subscription worker: store the event carried by
/// one pushed log, idempotently, and advance the cursor to the log's
/// block — but only once the backfill has caught up, so that the cursor
/// never claims blocks the backfill has not scanned.  Returns whether
/// the log was ingested.
pub fn process_live_log(
    store: &mut Store,
    log: &RawLog,
    block_time: Option<u64>,
    caught_up: bool,
) -> (r: bool)
    requires
        old(store).wf(),
        old(store).transfers@.len() < 0x7fff_ffff_ffff_fffe,
    ensures
        final(store).wf(),
        r == spec_eligible(*log, block_time),
        !r ==> *final(store) == *old(store),
        r ==> store_view(final(store).transfers@) == view_insert(
            store_view(old(store).transfers@),
            spec_event_of(*log, block_time),
        ),
        final(store).last_block >= old(store).last_block,
        !(r && caught_up) ==> final(store).last_block == old(store).last_block
            && final(store).has_cursor == old(store).has_cursor,
        r && caught_up ==> final(store).has_cursor && final(store).last_block == if old(
            store,
        ).has_cursor && (log.block_number->0) <= old(store).last_block {
            old(store).last_block
        } else {
            log.block_number->0
        },
{
    match decode_transfer(log) {
        Some(d) => {
            if log.block_number.is_some() && log.transaction_hash.is_some()
                && log.log_index.is_some() && block_time.is_some() {
                let bn = log.block_number.unwrap();
                let li = log.log_index.unwrap();
                let bt = block_time.unwrap();
                let txh = log.transaction_hash.as_ref().unwrap();
                let tx_hex = hex_0x(txh.as_slice());
                let from_hex = hex_0x(d.from.as_slice());
                let to_hex = hex_0x(d.to.as_slice());
                let ghost prev = store.transfers@;
                let ghost ev = spec_event_of(*log, block_time);
                proof {
                    assert(ev.tx_hash == tx_hex@);
                    lemma_view_contains_iff(prev, ev.tx_hash, ev.log_index);
                }
                store.insert_transfer_if_not_exists(
                    tx_hex.as_str(),
                    li,
                    bn,
                    from_hex.as_str(),
                    to_hex.as_str(),
                    d.amount,
                    bt,
                );
                proof {
                    if spec_contains_key(prev, ev.tx_hash, ev.log_index) {
                        assert(store.transfers@ == prev);
                        assert(view_insert(store_view(prev), ev) == store_view(prev));
                    } else {
                        let row = store.transfers@.last();
                        assert(store.transfers@ =~= prev.push(row));
                        lemma_store_view_push(prev, row);
                        assert(row.id == prev.len() + 1);
                        assert(row_view(row) == view_row_of(ev, prev.len() + 1 as int));
                    }
                }
                if caught_up {
                    store.update_sync_state(bn);
                }
                true
            } else {
                false
            }
        },
        None => false,
    }
}

/// The per-worker cache of the last resolved block timestamp, used to
/// avoid refetching the header for consecutive logs of the same block.
pub struct BlockTimeCache {
    pub block: Option<u64>,
    pub time: Option<u64>,
}

impl BlockTimeCache {
    /// An empty cache: nothing resolved yet.
    pub fn new() -> (r: Self)
        ensures
            r.block is None,
            r.time is None,
    {
        BlockTimeCache { block: None, time: None }
    }

    /// A hit returns the cached resolution (which may be a cached
    /// failure); a miss returns nothing and the shell must fetch.
    pub fn lookup(&self, block_number: Option<u64>) -> (r: Option<Option<u64>>)
        ensures
            r == if self.block == block_number {
                Some(self.time)
            } else {
                None::<Option<u64>>
            },
    {
        let hit = match (&self.block, &block_number) {
            (Some(a), Some(b)) => *a == *b,
            (None, None) => true,
            _ => false,
        };
        if hit {
            Some(self.time)
        } else {
            None
        }
    }

    /// Remember what the shell resolved for a block.
    pub fn store(&mut self, block_number: Option<u64>, time: Option<u64>)
        ensures
            final(self).block == block_number,
            final(self).time == time,
    {
        self.block = block_number;
        self.time = time;
    }
}

} // verus!
