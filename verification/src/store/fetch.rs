//! Assembling the answer to a fetch from the reads it was split into.
use vstd::prelude::*;

use super::record_handle::RecordHandle;

verus! {

broadcast use vstd::seq_lib::group_to_multiset_ensures;

/// Why a fetch from the store failed.
#[derive(Debug, Clone, Copy, PartialEq, Eq, Structural)]
pub enum FetchError {
    SubmissionQueue,
    ChannelRecv,
    TranslateIndex,
    NoRecord,
}

/// A read of one record for a fetch.
#[derive(Debug, Clone, Copy, PartialEq, Eq, Structural)]
pub struct ReadTask {
    pub stream_id: i64,
    pub wal_offset: u64,
    pub len: u32,
}

/// The first error among the read results, in order.
pub open spec fn first_error<T>(s: Seq<Result<(i64, T), FetchError>>) -> Option<FetchError>
    decreases s.len(),
{
    if s.len() == 0 {
        None
    } else {
        match first_error(s.drop_last()) {
            Some(e) => Some(e),
            None => match s.last() {
                Err(e) => Some(e),
                Ok(_) => None,
            },
        }
    }
}

/// The successful reads: WAL offset and payload.
pub open spec fn read_pairs<T>(s: Seq<Result<(i64, T), FetchError>>) -> Seq<(i64, T)> {
    s.map_values(|r: Result<(i64, T), FetchError>| r->Ok_0)
}

/// The predicate "at WAL offset `w`".
pub open spec fn at_offset<T>(w: i64) -> spec_fn((i64, T)) -> bool {
    |p: (i64, T)| p.0 == w
}

/// The reads of `s` at WAL offset `w`, in their order.
pub open spec fn with_offset<T>(s: Seq<(i64, T)>, w: i64) -> Seq<(i64, T)> {
    s.filter(at_offset(w))
}

/// `payloads` are those of the reads `pairs`, ordered by WAL offset, through the
/// rearrangement `sorted`; reads at the same offset keep their order.
pub open spec fn in_wal_order<T>(sorted: Seq<(i64, T)>, pairs: Seq<(i64, T)>, payloads: Seq<T>) -> bool {
    &&& sorted.to_multiset() == pairs.to_multiset()
    &&& forall|i: int, j: int| 0 <= i < j < sorted.len() ==> sorted[i].0 <= sorted[j].0
    &&& forall|w: i64| #[trigger] with_offset(sorted, w) == with_offset(pairs, w)
    &&& payloads == sorted.map_values(|p: (i64, T)| p.1)
}

/// Nothing of `s` lies at offset `w`.
proof fn lemma_with_offset_none<T>(s: Seq<(i64, T)>, w: i64)
    requires
        forall|m: int| 0 <= m < s.len() ==> s[m].0 != w,
    ensures
        with_offset(s, w) == Seq::<(i64, T)>::empty(),
    decreases s.len(),
{
    reveal(Seq::filter);
    if s.len() > 0 {
        lemma_with_offset_none(s.drop_last(), w);
    }
}

/// Selecting the reads at one offset commutes with reversing.
proof fn lemma_with_offset_reverse<T>(s: Seq<(i64, T)>, w: i64)
    ensures
        with_offset(s.reverse(), w) == with_offset(s, w).reverse(),
    decreases s.len(),
{
    let p = at_offset::<T>(w);
    if s.len() == 0 {
        assert(s.reverse() == s);
        assert(Seq::<(i64, T)>::empty().filter(p) == Seq::<(i64, T)>::empty()) by {
            reveal(Seq::filter);
        }
        assert(s == Seq::<(i64, T)>::empty());
    } else {
        let init = s.drop_last();
        let x = s.last();
        lemma_with_offset_reverse(init, w);
        assert(s.reverse() =~= seq![x] + init.reverse());
        assert(s == init.push(x));
        Seq::filter_distributes_over_add(seq![x], init.reverse(), p);
        init.lemma_filter_push(x, p);
        Seq::<(i64, T)>::empty().lemma_filter_push(x, p);
        assert(seq![x] == Seq::<(i64, T)>::empty().push(x));
        assert(Seq::<(i64, T)>::empty().filter(p) == Seq::<(i64, T)>::empty()) by {
            reveal(Seq::filter);
        }
        let f = init.filter(p);
        if x.0 == w {
            assert(f.push(x).reverse() =~= seq![x] + f.reverse());
        } else {
            assert(seq![x].filter(p) == Seq::<(i64, T)>::empty());
            assert(Seq::<(i64, T)>::empty() + f.reverse() =~= f.reverse());
        }
    }
}

/// The reads that a fetch of stream `stream_id` issues for the record handles that the
/// index found, one per handle, in order.
pub fn plan_reads(stream_id: i64, handles: &Vec<RecordHandle>) -> (tasks: Vec<ReadTask>)
    ensures
        tasks@.len() == handles@.len(),
        forall|i: int| 0 <= i < handles@.len() ==> #[trigger] tasks@[i] == (ReadTask {
            stream_id,
            wal_offset: handles@[i].wal_offset,
            len: handles@[i].len,
        }),
{
    let mut tasks: Vec<ReadTask> = Vec::new();
    let mut i: usize = 0;
    while i < handles.len()
        invariant
            i <= handles@.len(),
            tasks@.len() == i,
            forall|k: int| 0 <= k < i ==> #[trigger] tasks@[k] == (ReadTask {
                stream_id,
                wal_offset: handles@[k].wal_offset,
                len: handles@[k].len,
            }),
        decreases handles@.len() - i,
    {
        tasks.push(ReadTask { stream_id, wal_offset: handles[i].wal_offset, len: handles[i].len });
        i = i + 1;
    }
    tasks
}

/// The reads a fetch issues for the outcome of its index scan: a failed scan fails the
/// fetch with `TranslateIndex`, a scan that found no record with `NoRecord`; otherwise one
/// read per record handle found, in order.
pub fn plan_fetch<E>(stream_id: i64, scan: Result<Option<Vec<RecordHandle>>, E>) -> (r: Result<
    Vec<ReadTask>,
    FetchError,
>)
    ensures
        scan is Err ==> r == Err::<Vec<ReadTask>, FetchError>(FetchError::TranslateIndex),
        scan matches Ok(None) ==> r == Err::<Vec<ReadTask>, FetchError>(FetchError::NoRecord),
        scan matches Ok(Some(h)) ==> r is Ok && r->Ok_0@.len() == h@.len() && forall|i: int|
            0 <= i < h@.len() ==> #[trigger] r->Ok_0@[i] == (ReadTask {
                stream_id,
                wal_offset: h@[i].wal_offset,
                len: h@[i].len,
            }),
{
    match scan {
        Err(_) => Err(FetchError::TranslateIndex),
        Ok(None) => Err(FetchError::NoRecord),
        Ok(Some(handles)) => {
            let tasks = plan_reads(stream_id, &handles);
            let r: Result<Vec<ReadTask>, FetchError> = Ok(tasks);
            assert(r->Ok_0@ == tasks@);
            r
        },
    }
}

/// The answer to a fetch: the payloads of the records read, in order of WAL offset.
pub struct FetchResult<T> {
    pub stream_id: i64,
    pub offset: i64,
    pub payload: Vec<T>,
}

/// Answers a fetch of stream `stream_id` from `offset` with its reads: the first failed
/// read fails the fetch; otherwise the payloads come in order of WAL offset.
pub fn complete_fetch<T>(stream_id: i64, offset: i64, read_results: Vec<Result<(i64, T), FetchError>>) -> (r:
    Result<FetchResult<T>, FetchError>)
    ensures
        first_error(read_results@) matches Some(e) ==> (r matches Err(x) && x == e),
        first_error(read_results@) is None ==> (r matches Ok(f) && f.stream_id == stream_id && f.offset
            == offset && exists|sorted: Seq<(i64, T)>| #[trigger] in_wal_order(
            sorted,
            read_pairs(read_results@),
            f.payload@,
        )),
{
    let ghost input = read_results@;
    match assemble_fetch(read_results) {
        Ok(payload) => {
            let ghost pv = payload@;
            let f = FetchResult { stream_id, offset, payload };
            assert(f.payload@ == pv);
            Ok(f)
        },
        Err(e) => Err(e),
    }
}

/// Assembles a fetch from its reads: the first failed read fails the fetch; otherwise the
/// payloads come in order of WAL offset.
pub fn assemble_fetch<T>(read_results: Vec<Result<(i64, T), FetchError>>) -> (r: Result<Vec<T>, FetchError>)
    ensures
        first_error(read_results@) matches Some(e) ==> r == Err::<Vec<T>, FetchError>(e),
        first_error(read_results@) is None ==> r is Ok && exists|sorted: Seq<(i64, T)>| #[trigger] in_wal_order(
            sorted,
            read_pairs(read_results@),
            r->Ok_0@,
        ),
{
    let mut all = read_results;
    drain_in_wal_order(&mut all)
}

fn drain_in_wal_order<T>(read_results: &mut Vec<Result<(i64, T), FetchError>>) -> (r: Result<Vec<T>, FetchError>)
    ensures
        first_error(old(read_results)@) matches Some(e) ==> r == Err::<Vec<T>, FetchError>(e),
        first_error(old(read_results)@) is None ==> r is Ok && exists|sorted: Seq<(i64, T)>| #[trigger] in_wal_order(
            sorted,
            read_pairs(old(read_results)@),
            r->Ok_0@,
        ),
{
    let ghost orig = read_results@;
    let n = read_results.len();
    let mut i: usize = 0;
    while i < n
        invariant
            n == orig.len(),
            read_results@ == orig,
            i <= n,
            first_error(orig.subrange(0, i as int)) is None,
            forall|k: int| 0 <= k < i ==> (#[trigger] orig[k]) is Ok,
        decreases n - i,
    {
        assert(orig.subrange(0, i + 1).drop_last() == orig.subrange(0, i as int));
        match &read_results[i] {
            Err(e) => {
                proof {
                    lemma_first_error_prefix(orig, (i + 1) as nat);
                }
                return Err(*e);
            },
            Ok(_) => {},
        }
        i = i + 1;
    }
    assert(orig.subrange(0, n as int) == orig);
    assert(first_error(orig) is None);
    let ghost pairs = read_pairs(orig);
    let mut out: Vec<(i64, T)> = Vec::new();
    while read_results.len() > 0
        invariant
            n == orig.len(),
            read_results@.len() <= n,
            read_results@ == orig.subrange(0, read_results@.len() as int),
            forall|k: int| 0 <= k < n ==> (#[trigger] orig[k]) is Ok,
            pairs == read_pairs(orig),
            first_error(orig) is None,
            forall|a: int, b: int| 0 <= a < b < out@.len() ==> out@[a].0 >= out@[b].0,
            out@.to_multiset() == pairs.subrange(read_results@.len() as int, n as int).to_multiset(),
            forall|w: i64| #[trigger] with_offset(out@, w) == with_offset(
                pairs.subrange(read_results@.len() as int, n as int),
                w,
            ).reverse(),
        decreases read_results@.len(),
    {
        let ghost len0 = read_results@.len() as int;
        assert(read_results@[len0 - 1] == orig[len0 - 1]);
        let x = read_results.pop().unwrap();
        assert(read_results@ =~= orig.subrange(0, read_results@.len() as int));
        assert(x == orig[len0 - 1]);
        let p = match x {
            Ok(p) => p,
            Err(_) => {
                proof {
                    assert(orig[len0 - 1] is Ok);
                }
                return Err(FetchError::NoRecord);
            },
        };
        assert(p == pairs[len0 - 1]);
        let mut k: usize = 0;
        while k < out.len() && out[k].0 >= p.0
            invariant
                k <= out@.len(),
                forall|m: int| 0 <= m < k ==> out@[m].0 >= p.0,
            decreases out@.len() - k,
        {
            k = k + 1;
        }
        let ghost before = out@;
        out.insert(k, p);
        assert(out@ == before.insert(k as int, p));
        assert forall|a: int, b: int| 0 <= a < b < out@.len() implies out@[a].0 >= out@[b].0 by {
            if b < k {
            } else if b == k {
            } else if a < k {
                assert(before[a].0 >= before[b - 1].0);
            } else if a == k {
                assert(p.0 > before[k as int].0);
                assert(before[k as int].0 >= before[b - 1].0);
            } else {
                assert(before[a - 1].0 >= before[b - 1].0);
            }
        }
        assert(pairs.subrange(len0 - 1, n as int) == pairs.subrange(len0, n as int).insert(0, p));
        proof {
            let rest = pairs.subrange(len0, n as int);
            assert(pairs.subrange(len0 - 1, n as int) == seq![p] + rest);
            assert forall|m: int| k <= m < before.len() implies before[m].0 < p.0 by {
                assert(before[k as int].0 < p.0);
                assert(before[k as int].0 >= before[m].0);
            }
            lemma_insert_keeps_offset_order(before, k as int, p, rest);
        }
    }
    assert(pairs.subrange(0, n as int) == pairs);
    let mut payloads: Vec<T> = Vec::new();
    let ghost total = out@;
    let ghost mut emitted: Seq<(i64, T)> = Seq::empty();
    while out.len() > 0
        invariant
            out@.len() <= total.len(),
            out@ == total.subrange(0, out@.len() as int),
            emitted == total.subrange(out@.len() as int, total.len() as int).reverse(),
            forall|a: int, b: int| 0 <= a < b < total.len() ==> total[a].0 >= total[b].0,
            payloads@ == emitted.map_values(|q: (i64, T)| q.1),
            pairs == read_pairs(orig),
            first_error(orig) is None,
            total.to_multiset() == pairs.to_multiset(),
            forall|w: i64| #[trigger] with_offset(total, w) == with_offset(pairs, w).reverse(),
        decreases out@.len(),
    {
        let ghost len0 = out@.len() as int;
        assert(out@[len0 - 1] == total[len0 - 1]);
        let q = out.pop().unwrap();
        assert(out@ =~= total.subrange(0, out@.len() as int));
        proof {
            assert(q == total[len0 - 1]);
            assert(total.subrange(len0 - 1, total.len() as int).reverse() =~= emitted.push(q));
            emitted = emitted.push(q);
        }
        payloads.push(q.1);
        assert(payloads@ =~= emitted.map_values(|q: (i64, T)| q.1));
    }
    proof {
        assert(total.subrange(0, total.len() as int) == total);
        total.lemma_reverse_to_multiset();
        assert(emitted == total.reverse());
        assert forall|w: i64| #[trigger] with_offset(emitted, w) == with_offset(pairs, w) by {
            lemma_with_offset_reverse(total, w);
            assert(with_offset(pairs, w).reverse().reverse() =~= with_offset(pairs, w));
        }
        assert(in_wal_order(emitted, pairs, payloads@)) by {
            assert forall|i: int, j: int| 0 <= i < j < emitted.len() implies emitted[i].0 <= emitted[j].0 by {
                assert(emitted[i] == total[total.len() - 1 - i]);
                assert(emitted[j] == total[total.len() - 1 - j]);
            }
        }
    }
    assert(first_error(orig) is None);
    assert(in_wal_order(emitted, read_pairs(orig), payloads@));
    assert(orig == old(read_results)@);
    let ghost pv = payloads@;
    let r: Result<Vec<T>, FetchError> = Ok(payloads);
    assert(r is Ok);
    assert(r->Ok_0@ == pv);
    assert(in_wal_order(emitted, read_pairs(old(read_results)@), r->Ok_0@));
    r
}

/// Inserting a read after every read at an offset at least its own, and before every
/// read at a smaller one, keeps the reads of each offset in the reverse of their order in
/// the input, the new read being the earliest.
proof fn lemma_insert_keeps_offset_order<T>(before: Seq<(i64, T)>, k: int, p: (i64, T), rest: Seq<(i64, T)>)
    requires
        0 <= k <= before.len(),
        forall|m: int| 0 <= m < k ==> before[m].0 >= p.0,
        forall|m: int| k <= m < before.len() ==> before[m].0 < p.0,
        forall|w: i64| #[trigger] with_offset(before, w) == with_offset(rest, w).reverse(),
    ensures
        forall|w: i64| #[trigger] with_offset(before.insert(k, p), w) == with_offset(seq![p] + rest, w).reverse(),
{
    let pre = before.subrange(0, k);
    let post = before.subrange(k, before.len() as int);
    assert(before == pre + post);
    assert(before.insert(k, p) == pre + seq![p] + post);
    assert forall|w: i64| #[trigger] with_offset(before.insert(k, p), w) == with_offset(seq![p] + rest, w).reverse() by {
        let q = at_offset::<T>(w);
        assert(with_offset(before, w) == with_offset(rest, w).reverse());
        Seq::filter_distributes_over_add(pre, post, q);
        Seq::filter_distributes_over_add(pre, seq![p], q);
        Seq::filter_distributes_over_add(pre + seq![p], post, q);
        Seq::filter_distributes_over_add(seq![p], rest, q);
        Seq::<(i64, T)>::empty().lemma_filter_push(p, q);
        assert(seq![p] == Seq::<(i64, T)>::empty().push(p));
        assert(Seq::<(i64, T)>::empty().filter(q) == Seq::<(i64, T)>::empty()) by {
            reveal(Seq::filter);
        }
        let fr = rest.filter(q);
        if p.0 == w {
            lemma_with_offset_none(post, w);
            assert(seq![p].filter(q) == seq![p]);
            assert(pre.filter(q) + Seq::<(i64, T)>::empty() == pre.filter(q));
            assert((seq![p] + fr).reverse() =~= fr.reverse() + seq![p]);
        } else {
            assert(seq![p].filter(q) == Seq::<(i64, T)>::empty());
            assert(pre.filter(q) + Seq::<(i64, T)>::empty() == pre.filter(q));
            assert(Seq::<(i64, T)>::empty() + fr == fr);
        }
    }
}

/// A prefix that ends with an error has that error, or an earlier one, as its first.
proof fn lemma_first_error_prefix<T>(s: Seq<Result<(i64, T), FetchError>>, k: nat)
    requires
        0 < k <= s.len(),
        first_error(s.subrange(0, k - 1)) is None,
        s[k - 1] is Err,
    ensures
        first_error(s) == Some(s[k - 1]->Err_0),
    decreases s.len(),
{
    if k < s.len() {
        assert(s.drop_last().subrange(0, k - 1) == s.subrange(0, k - 1));
        lemma_first_error_prefix(s.drop_last(), k);
        assert(s.drop_last().subrange(0, k - 1) == s.subrange(0, k - 1));
    } else {
        assert(s.drop_last() == s.subrange(0, k - 1));
    }
}

} // verus!
