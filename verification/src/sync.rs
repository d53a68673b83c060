//! The historical-sync pipeline: a backward walk over one account's chat
//! history, one page at a time.
//!
//! The cursor starts at the most recent message (id 0 stands for "no lower
//! bound yet").  Each round fetches a page of messages older than the
//! cursor; an empty page ends the walk, any other page is processed in page
//! order and moves the cursor to the oldest id seen.  `run_sync` drives the
//! whole walk against a synthetic in-memory backend and carries the walk's
//! guarantees: every message processed exactly once, in order, with exactly
//! `ceil(M / P) + 1` page fetches.

use vstd::prelude::*;

verus! {

/// The cursor of one account's history walk.
#[derive(Debug, Clone, Copy, PartialEq, Eq, Structural)]
pub struct SyncCursor {
    /// The id of the oldest message processed so far; 0 before any page.
    pub from_message_id: i64,
    /// How many messages have been processed.
    pub processed: u64,
}

/// What the pipeline does after one page fetch.
#[derive(Debug, Clone, Copy, PartialEq, Eq, Structural)]
pub enum SyncStep {
    /// The page was empty: the walk is complete.
    Done { total: u64 },
    /// Process the page and fetch the next one behind the new cursor.
    Continue { cursor: SyncCursor },
}

/// The cursor before the first page: from the most recent message.
pub fn initial_cursor() -> (r: SyncCursor)
    ensures
        r == (SyncCursor { from_message_id: 0i64, processed: 0u64 }),
{
    SyncCursor { from_message_id: 0, processed: 0 }
}

/// Advance the walk by one fetched page: an empty page ends the walk
/// successfully; any other page is processed whole and the cursor moves to
/// its oldest (last) id.
pub fn sync_step(cursor: SyncCursor, page: &Vec<i64>) -> (r: SyncStep)
    requires
        cursor.processed + page@.len() <= u64::MAX,
    ensures
        page@.len() == 0 ==> r == (SyncStep::Done { total: cursor.processed }),
        page@.len() > 0 ==> r == (SyncStep::Continue {
            cursor: SyncCursor {
                from_message_id: page@.last(),
                processed: (cursor.processed + page@.len()) as u64,
            },
        }),
{
    if page.len() == 0 {
        SyncStep::Done { total: cursor.processed }
    } else {
        SyncStep::Continue {
            cursor: SyncCursor {
                from_message_id: page[page.len() - 1],
                processed: cursor.processed + page.len() as u64,
            },
        }
    }
}

/// Newest first: message ids strictly decreasing.
pub open spec fn sorted_desc(h: Seq<i64>) -> bool {
    forall|i: int, j: int| 0 <= i < j < h.len() ==> #[trigger] h[i] > #[trigger] h[j]
}

/// The position of the first id strictly older than the cursor; 0 when the
/// cursor is 0 (no lower bound yet).
pub open spec fn first_older(h: Seq<i64>, from: i64) -> int
    decreases h.len(),
{
    if from == 0 {
        0
    } else if h.len() == 0 {
        0
    } else if h[0] < from {
        0
    } else {
        1 + first_older(h.drop_first(), from)
    }
}

/// The page of up to `limit` ids strictly older than the cursor, in history
/// order.
pub open spec fn page_of(h: Seq<i64>, from: i64, limit: int) -> Seq<i64> {
    let s = first_older(h, from);
    let e = if s + limit <= h.len() {
        s + limit
    } else {
        h.len() as int
    };
    h.subrange(s, e)
}

proof fn lemma_first_older_char(h: Seq<i64>, from: i64)
    requires
        from != 0,
    ensures
        0 <= first_older(h, from) <= h.len(),
        forall|j: int| 0 <= j < first_older(h, from) ==> #[trigger] h[j] >= from,
        first_older(h, from) < h.len() ==> h[first_older(h, from)] < from,
    decreases h.len(),
{
    if h.len() > 0 && h[0] >= from {
        lemma_first_older_char(h.drop_first(), from);
        let s = first_older(h, from);
        assert(s == 1 + first_older(h.drop_first(), from));
        assert forall|j: int| 0 <= j < s implies #[trigger] h[j] >= from by {
            if j > 0 {
                assert(h.drop_first()[j - 1] == h[j]);
            }
        }
        if s < h.len() {
            assert(h.drop_first()[s - 1] == h[s]);
        }
    }
}

proof fn lemma_first_older_at(h: Seq<i64>, k: int)
    requires
        sorted_desc(h),
        1 <= k <= h.len(),
        h[k - 1] != 0,
    ensures
        first_older(h, h[k - 1]) == k,
{
    let from = h[k - 1];
    lemma_first_older_char(h, from);
    let s = first_older(h, from);
    if s < k {
        assert(h[s] < from);
        if s < k - 1 {
            assert(h[s] > h[k - 1]);
        }
        assert(false);
    }
    if s > k {
        assert(h[k] >= from);
        assert(h[k - 1] > h[k]);
        assert(false);
    }
}

/// A synthetic history backend: the page of up to `limit` message ids
/// strictly older than `from_message_id` (0 meaning "from the newest"), in
/// the order the history holds them.
pub fn fetch_page(history: &Vec<i64>, from_message_id: i64, limit: usize) -> (r: Vec<i64>)
    ensures
        r@ == page_of(history@, from_message_id, limit as int),
{
    let ghost h = history@;
    let mut s: usize = 0;
    if from_message_id != 0 {
        while s < history.len() && history[s] >= from_message_id
            invariant
                h == history@,
                s <= h.len(),
                forall|j: int| 0 <= j < s ==> #[trigger] h[j] >= from_message_id,
            decreases h.len() - s,
        {
            s = s + 1;
        }
        proof {
            lemma_first_older_char(h, from_message_id);
            let fo = first_older(h, from_message_id);
            if (s as int) < fo {
                assert(h[s as int] >= from_message_id);
                assert(false);
            }
            if fo < s as int {
                assert(h[fo] >= from_message_id);
                assert(false);
            }
        }
    }
    let e: usize = if limit <= history.len() - s {
        s + limit
    } else {
        history.len()
    };
    let mut r: Vec<i64> = Vec::new();
    let mut i: usize = s;
    while i < e
        invariant
            h == history@,
            s <= i <= e <= h.len(),
            r@ == h.subrange(s as int, i as int),
        decreases e - i,
    {
        r.push(history[i]);
        proof {
            assert(h.subrange(s as int, i + 1) =~= h.subrange(s as int, i as int).push(
                h[i as int],
            ));
        }
        i = i + 1;
    }
    proof {
        assert(r@ =~= page_of(h, from_message_id, limit as int));
    }
    r
}

/// Walk a synthetic backend's entire history.
///
/// With `M` messages and a page size of `P`, the walk issues exactly
/// `ceil(M / P) + 1` page fetches — the last one empty — and processes every
/// message exactly once, in history order: the walk terminates, the fetch
/// count is returned, and the processed ids are the history itself.
pub fn run_sync(history: &Vec<i64>, page_size: usize) -> (r: (u64, Vec<i64>))
    requires
        sorted_desc(history@),
        forall|i: int| 0 <= i < history@.len() ==> #[trigger] history@[i] > 0,
        1 <= page_size,
        history@.len() + 2 <= u64::MAX,
    ensures
        r.1@ == history@,
        r.0 as int == (history@.len() + page_size - 1) / (page_size as int) + 1,
{
    let ghost h = history@;
    let ghost m = h.len() as int;
    let ghost p = page_size as int;
    let mut cursor = initial_cursor();
    let mut fetches: u64 = 0;
    let mut outp: Vec<i64> = Vec::new();
    proof {
        assert(h.take(0) =~= Seq::<i64>::empty());
    }
    loop
        invariant
            sorted_desc(h),
            forall|i: int| 0 <= i < h.len() ==> #[trigger] h[i] > 0,
            h == history@,
            m == h.len(),
            p == page_size,
            1 <= p,
            m + 2 <= u64::MAX,
            fetches as int <= m + 1,
            outp@ == h.take(cursor.processed as int),
            cursor.processed <= m,
            cursor.from_message_id == (if cursor.processed == 0 {
                0i64
            } else {
                h[cursor.processed - 1]
            }),
            fetches as int * p < cursor.processed + p,
            cursor.processed as int == (if fetches as int * p <= m {
                fetches as int * p
            } else {
                m
            }),
        decreases m - cursor.processed,
    {
        let ghost k = cursor.processed as int;
        let ghost f0 = fetches as int;
        proof {
            assert(f0 <= m) by (nonlinear_arith)
                requires
                    f0 * p < m + p,
                    p >= 1,
                    f0 >= 0,
                    m >= 0,
            ;
        }
        let page = fetch_page(history, cursor.from_message_id, page_size);
        fetches = fetches + 1;
        proof {
            assert(fetches as int * p == f0 * p + p) by (nonlinear_arith)
                requires
                    fetches as int == f0 + 1,
            ;
        }
        proof {
            if k == 0 {
                assert(first_older(h, cursor.from_message_id) == 0);
            } else {
                lemma_first_older_at(h, k);
            }
        }
        let ghost e = if k + p <= m {
            k + p
        } else {
            m
        };
        proof {
            assert(page@ == h.subrange(k, e));
        }
        match sync_step(cursor, &page) {
            SyncStep::Done { total } => {
                proof {
                    assert(e == k);
                    assert(k == m);
                    let f = fetches as int - 1;
                    assert(m <= f * p);
                    assert(f * p < m + p);
                    vstd::arithmetic::div_mod::lemma_fundamental_div_mod_converse(
                        m + p - 1,
                        p,
                        f,
                        m + p - 1 - f * p,
                    );
                    assert(outp@ =~= h);
                }
                return (fetches, outp);
            },
            SyncStep::Continue { cursor: next } => {
                let mut i: usize = 0;
                while i < page.len()
                    invariant
                        0 <= i <= page@.len(),
                        outp@ == h.take(k) + page@.take(i as int),
                        h == history@,
                        page@ == h.subrange(k, e),
                        0 <= k <= e <= h.len(),
                    decreases page@.len() - i,
                {
                    let ghost before = outp@;
                    outp.push(page[i]);
                    proof {
                        assert(page@.take(i + 1) =~= page@.take(i as int).push(page@[i as int]));
                        assert(outp@ =~= h.take(k) + page@.take(i + 1));
                    }
                    i = i + 1;
                }
                proof {
                    assert(page@.take(page@.len() as int) =~= page@);
                    assert(h.take(k) + h.subrange(k, e) =~= h.take(e));
                    assert(page@.len() > 0);
                    assert(k < m);
                    assert(f0 * p <= m);
                    assert(k == f0 * p);
                    assert(next.processed as int == e);
                    assert(page@.last() == h[e - 1]);
                }
                cursor = next;
            },
        }
    }
}

} // verus!
