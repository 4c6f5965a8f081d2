//! Keyset pagination of a conversation's messages, ordered by the composite
//! cursor `(created_at, id)`: the default page is the latest one, `before`
//! pages towards older messages, `after` fetches what is newer.
//!
//! The store answers a page query with at most `limit + 1` rows: newest
//! first for the default and `before` pages, oldest first for `after`.
//! `finish_page` turns those rows into the page; the laws below state what
//! the page is in terms of the conversation's whole history.

use vstd::prelude::*;

use crate::text::{decimal, push_str, u64_to_decimal};

verus! {

/// A message's position in its conversation: its id and its creation time
/// as stored (RFC 3339, milliseconds, UTC: text order is time order).
#[derive(Debug)]
pub struct MessageRow {
    pub id: String,
    pub created_at: String,
}

pub open spec fn order_word(incremental: bool) -> Seq<char> {
    if incremental {
        "ASC"@
    } else {
        "DESC"@
    }
}

/// The text of a page query: the conversation is `?1`; a `before` cursor
/// binds its `(created_at, id)` to the next two placeholders, an `after`
/// cursor likewise; the row limit is the last placeholder.
pub open spec fn list_query_spec(before: bool, after: bool) -> Seq<char> {
    let base = "SELECT m.id, m.conversation_id, m.sender_id, a.agent_key, m.text, m.created_at FROM messages m JOIN agents a ON a.id = m.sender_id WHERE m.conversation_id = ?1"@;
    let with_before = if before {
        base + " AND (m.created_at < ?2 OR (m.created_at = ?2 AND m.id < ?3))"@
    } else {
        base
    };
    let next: nat = if before {
        4
    } else {
        2
    };
    let with_after = if after {
        with_before + " AND (m.created_at > ?"@ + decimal(next) + " OR (m.created_at = ?"@
            + decimal(next) + " AND m.id > ?"@ + decimal(next + 1) + "))"@
    } else {
        with_before
    };
    let limit_idx: nat = next + if after {
        2nat
    } else {
        0nat
    };
    with_after + " ORDER BY m.created_at "@ + order_word(after) + ", m.id "@ + order_word(after)
        + " LIMIT ?"@ + decimal(limit_idx)
}

/// The page query for the given cursors.
pub fn list_query(before: bool, after: bool) -> (q: String)
    ensures
        q@ == list_query_spec(before, after),
{
    let mut q = String::new();
    push_str(
        &mut q,
        "SELECT m.id, m.conversation_id, m.sender_id, a.agent_key, m.text, m.created_at FROM messages m JOIN agents a ON a.id = m.sender_id WHERE m.conversation_id = ?1",
    );
    if before {
        push_str(&mut q, " AND (m.created_at < ?2 OR (m.created_at = ?2 AND m.id < ?3))");
    }
    let next: u64 = if before {
        4
    } else {
        2
    };
    if after {
        let a = u64_to_decimal(next);
        let b = u64_to_decimal(next + 1);
        push_str(&mut q, " AND (m.created_at > ?");
        push_str(&mut q, a.as_str());
        push_str(&mut q, " OR (m.created_at = ?");
        push_str(&mut q, a.as_str());
        push_str(&mut q, " AND m.id > ?");
        push_str(&mut q, b.as_str());
        push_str(&mut q, "))");
    }
    let limit_idx: u64 = if after {
        next + 2
    } else {
        next
    };
    let order = if after {
        "ASC"
    } else {
        "DESC"
    };
    push_str(&mut q, " ORDER BY m.created_at ");
    push_str(&mut q, order);
    push_str(&mut q, ", m.id ");
    push_str(&mut q, order);
    push_str(&mut q, " LIMIT ?");
    let l = u64_to_decimal(limit_idx);
    push_str(&mut q, l.as_str());
    assert(q@ =~= list_query_spec(before, after));
    q
}

/// Rows asked of the store for a page of `limit` messages: one more, to
/// learn whether more remain.
pub fn fetch_count(limit: u32) -> (n: u32)
    requires
        limit < u32::MAX,
    ensures
        n == limit + 1,
{
    limit + 1
}

/// The page made from the fetched rows, oldest first. `incremental` is an
/// `after` query (rows oldest first); otherwise rows come newest first.
pub open spec fn page_rows<T>(rows: Seq<T>, limit: nat, incremental: bool) -> Seq<T> {
    let r = if incremental {
        rows
    } else {
        rows.reverse()
    };
    if r.len() > limit {
        if incremental {
            r.take(limit as int)
        } else {
            r.skip(r.len() - limit)
        }
    } else {
        r
    }
}

/// Turns the fetched rows into the page, oldest first, and says whether
/// the page's first row is the cursor to older history: it is when older
/// rows remain, and never for an `after` query.
pub fn finish_page<T>(rows: Vec<T>, limit: u32, incremental: bool) -> (r: (Vec<T>, bool))
    ensures
        r.0@ == page_rows(rows@, limit as nat, incremental),
        r.1 == (!incremental && rows@.len() > limit),
{
    let n = rows.len();
    let ghost orig = rows@;
    let mut rows = rows;
    let mut ordered: Vec<T> = Vec::new();
    if incremental {
        ordered = rows;
    } else {
        while rows.len() > 0
            invariant
                ordered@ == orig.reverse().take(ordered@.len() as int),
                rows@ == orig.take(rows@.len() as int),
                ordered@.len() + rows@.len() == orig.len(),
            decreases rows.len(),
        {
            let ghost k = ordered@.len() as int;
            let x = rows.pop().unwrap();
            assert(x == orig.reverse()[k]);
            ordered.push(x);
            assert(ordered@ =~= orig.reverse().take(k + 1));
            assert(rows@ =~= orig.take(rows@.len() as int));
        }
        assert(ordered@ =~= orig.reverse());
    }
    let has_more = n as u64 > limit as u64;
    if !has_more {
        return (ordered, false);
    }
    let mut page: Vec<T> = Vec::new();
    if incremental {
        // keep the first `limit`
        let mut all = ordered;
        let ghost ord = all@;
        while all.len() > limit as usize
            invariant
                all@ == ord.take(all@.len() as int),
                all@.len() <= ord.len(),
                all@.len() >= limit,
            decreases all.len(),
        {
            let ghost l = all@.len() as int;
            let popped = all.pop();
            assert(all@ =~= ord.take(l).drop_last());
            assert(ord.take(l).drop_last() =~= ord.take(l - 1));
        }
        assert(all@ =~= ord.take(limit as int));
        page = all;
    } else {
        // keep the last `limit`
        let mut all = ordered;
        let ghost ord = all@;
        let mut tail_rev: Vec<T> = Vec::new();
        while tail_rev.len() < limit as usize
            invariant
                tail_rev@.len() <= limit,
                limit < ord.len(),
                all@ == ord.take(ord.len() - tail_rev@.len()),
                tail_rev@ == ord.skip(ord.len() - tail_rev@.len()).reverse(),
            decreases limit - tail_rev@.len(),
        {
            let ghost k = tail_rev@.len() as int;
            let x = all.pop().unwrap();
            assert(x == ord[ord.len() - k - 1]);
            tail_rev.push(x);
            assert(all@ =~= ord.take(ord.len() - (k + 1)));
            assert(tail_rev@ =~= ord.skip(ord.len() - (k + 1)).reverse());
        }
        let ghost want = ord.skip(ord.len() - limit);
        while tail_rev.len() > 0
            invariant
                want == ord.skip(ord.len() - limit),
                page@ + tail_rev@.reverse() == want,
            decreases tail_rev.len(),
        {
            let x = tail_rev.pop().unwrap();
            let ghost before = page@;
            page.push(x);
            assert(page@ + tail_rev@.reverse() =~= before + tail_rev@.push(x).reverse());
        }
        assert(tail_rev@.reverse() =~= Seq::<T>::empty());
        assert(page@ =~= want);
    }
    (page, !incremental)
}

// ---------- what a page is ----------

/// The `limit` messages just before position `k` of the history (or all
/// of them, if fewer), oldest first.
pub open spec fn window<T>(all: Seq<T>, k: int, limit: int) -> Seq<T> {
    all.subrange(if k > limit {
        k - limit
    } else {
        0
    }, k)
}

proof fn lemma_reverse_take_reverse<T>(s: Seq<T>, m: int)
    requires
        0 <= m <= s.len(),
    ensures
        s.reverse().take(m).reverse() == s.skip(s.len() - m),
{
    assert(s.reverse().take(m).reverse() =~= s.skip(s.len() - m));
}

/// A default or `before` page: the store returns the newest `limit + 1`
/// messages older than the cursor (for the default page, all messages:
/// `k` is the history's length). The page is then the `limit` newest of
/// them, oldest first, and the cursor to older history is given exactly
/// when older messages remain.
pub proof fn law_backward_page<T>(all: Seq<T>, k: int, limit: nat)
    requires
        0 <= k <= all.len(),
    ensures
        ({
            let older = all.take(k);
            let fetched = older.reverse().take(
                if older.len() > limit + 1 {
                    (limit + 1) as int
                } else {
                    older.len() as int
                },
            );
            &&& page_rows(fetched, limit, false) == window(all, k, limit as int)
            &&& (fetched.len() > limit <==> k > limit)
        }),
{
    let older = all.take(k);
    let m = if older.len() > limit + 1 {
        (limit + 1) as int
    } else {
        older.len() as int
    };
    let fetched = older.reverse().take(m);
    lemma_reverse_take_reverse(older, m);
    let r = fetched.reverse();
    assert(r == older.skip(older.len() - m));
    if r.len() > limit {
        assert(r.skip(r.len() - limit) =~= window(all, k, limit as int));
    } else {
        assert(r =~= window(all, k, limit as int));
    }
}

/// An `after` page: the store returns the oldest `limit + 1` messages
/// newer than the cursor at position `j`. The page is the `limit` oldest of
/// them and carries no cursor.
pub proof fn law_forward_page<T>(all: Seq<T>, j: int, limit: nat)
    requires
        0 <= j < all.len(),
    ensures
        ({
            let newer = all.skip(j + 1);
            let fetched = newer.take(
                if newer.len() > limit + 1 {
                    (limit + 1) as int
                } else {
                    newer.len() as int
                },
            );
            page_rows(fetched, limit, true) == newer.take(
                if newer.len() > limit {
                    limit as int
                } else {
                    newer.len() as int
                },
            )
        }),
{
    let newer = all.skip(j + 1);
    let m = if newer.len() > limit + 1 {
        (limit + 1) as int
    } else {
        newer.len() as int
    };
    let fetched = newer.take(m);
    if fetched.len() > limit {
        assert(fetched.take(limit as int) =~= newer.take(limit as int));
    } else {
        assert(fetched =~= newer.take(newer.len() as int));
    }
}

/// Paging backwards neither skips nor repeats a message: the page before
/// the cursor (the first message of a page) joins that page into one
/// contiguous stretch of history.
pub proof fn law_pages_tile<T>(all: Seq<T>, k: int, limit: int)
    requires
        0 < limit < k <= all.len(),
    ensures
        window(all, k - limit, limit) + window(all, k, limit) == all.subrange(
            if k - limit > limit {
                k - 2 * limit
            } else {
                0
            },
            k,
        ),
{
    assert(window(all, k - limit, limit) + window(all, k, limit) =~= all.subrange(
        if k - limit > limit {
            k - 2 * limit
        } else {
            0
        },
        k,
    ));
}

} // verus!
