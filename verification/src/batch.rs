//! The batch executor's decision logic: splitting oversized requests into
//! backend-accepted chunks, and retrying the backend-reported unprocessed
//! remainder with exponential backoff.
//!
//! The backend accepts at most 25 write requests and 100 read keys per
//! call; both bounds are fixed by the backend, not configurable. A chunk
//! whose response names unprocessed requests is resubmitted with exactly
//! that subset after a delay of `50 * 2^attempt` milliseconds, the attempt
//! counter starting at 1 and bounded by 5; exhausting the retries with
//! requests still unprocessed is a hard failure naming the remaining
//! count. A transport-level failure aborts the whole batch at once. The
//! backend calls themselves are driven by the caller: this module only
//! decides, from state and response, what to do next.

use vstd::prelude::*;

use vstd::arithmetic::power2::pow2;

use crate::codec::enc_err_v;
use crate::codec::encode_entries_v;
use crate::codec::encode_item;
use crate::codec::EncErr;
use crate::errors::classify;
use crate::errors::classify_v;
use crate::errors::ErrV;
use crate::errors::Item;
use crate::errors::PydynoError;
use crate::errors::RawBackendError;
use crate::numtext::dec_of_nat;
use crate::value::attr_entries_view;
use crate::value::native_entries_view;
use crate::value::AttrV;
use crate::value::NativeV;
use crate::value::NativeValue;

verus! {

broadcast use vstd::std_specs::vec::group_vec_axioms, vstd::seq::group_seq_axioms;

/// Largest number of write requests one backend call accepts.
pub const BATCH_WRITE_MAX_ITEMS: usize = 25;

/// Largest number of read keys one backend call accepts.
pub const BATCH_GET_MAX_ITEMS: usize = 100;

/// Largest number of resubmissions of one chunk's unprocessed remainder.
pub const BATCH_MAX_RETRIES: u64 = 5;

/// One write request of a batch: a put of an item, or a delete by key.
#[derive(Debug, PartialEq, Eq)]
pub enum WriteRequest {
    Put(Item),
    Delete(Item),
}

/// The chunks laid end to end.
pub open spec fn concat_chunks<T>(cs: Seq<Vec<T>>) -> Seq<T>
    decreases cs.len(),
{
    if cs.len() == 0 {
        Seq::empty()
    } else {
        concat_chunks(cs.drop_last()) + cs.last()@
    }
}

/// Splits requests into chunks of at most `limit`, in order: laid end to
/// end the chunks give the input back, every chunk but the last is full,
/// and no chunk is empty.
#[verifier::loop_isolation(false)]
pub fn chunk_requests<T>(requests: Vec<T>, limit: usize) -> (r: Vec<Vec<T>>)
    requires
        limit >= 1,
    ensures
        concat_chunks(r@) == requests@,
        forall|ci: int| 0 <= ci < r@.len() ==> 1 <= (#[trigger] r@[ci])@.len() <= limit,
        forall|ci: int| 0 <= ci < r@.len() - 1 ==> (#[trigger] r@[ci])@.len() == limit as int,
{
    let ghost all = requests@;
    let mut rest = requests;
    let mut chunks: Vec<Vec<T>> = Vec::new();
    proof {
        assert(concat_chunks(chunks@) + rest@ =~= all);
    }
    while rest.len() > 0
        invariant
            concat_chunks(chunks@) + rest@ == all,
            forall|ci: int| 0 <= ci < chunks@.len() ==> 1 <= (#[trigger] chunks@[ci])@.len()
                <= limit,
            rest@.len() > 0 ==> forall|ci: int|
                0 <= ci < chunks@.len() ==> (#[trigger] chunks@[ci])@.len() == limit as int,
            rest@.len() == 0 ==> forall|ci: int|
                0 <= ci < chunks@.len() - 1 ==> (#[trigger] chunks@[ci])@.len() == limit as int,
        decreases rest@.len(),
    {
        let ghost done = concat_chunks(chunks@);
        let mut cur: Vec<T> = Vec::new();
        while cur.len() < limit && rest.len() > 0
            invariant
                cur@.len() <= limit,
                done == concat_chunks(chunks@),
                done + cur@ + rest@ == all,
            decreases rest@.len(),
        {
            let ghost rest0 = rest@;
            let ghost cur0 = cur@;
            let e = rest.remove(0);
            proof {
                assert(rest0.remove(0) =~= rest0.subrange(1, rest0.len() as int));
            }
            cur.push(e);
            proof {
                assert(done + cur@ + rest@ =~= done + cur0 + rest0);
            }
        }
        let ghost chunks0 = chunks@;
        let ghost cur_len = cur@.len() as int;
        chunks.push(cur);
        proof {
            assert(chunks@.drop_last() =~= chunks0);
            assert(concat_chunks(chunks@) == done + chunks@.last()@);
            assert(concat_chunks(chunks@) + rest@ =~= (done + chunks@.last()@) + rest@);
        }
    }
    proof {
        assert(concat_chunks(chunks@) =~= all);
    }
    chunks
}

/// The delay before resubmitting, in milliseconds: `50 * 2^attempt`.
#[verifier::loop_isolation(false)]
pub fn backoff_delay_ms(attempt: u64) -> (r: u64)
    requires
        attempt <= BATCH_MAX_RETRIES,
    ensures
        r as nat == 50 * pow2(attempt as nat),
{
    let mut d: u64 = 50;
    let mut k: u64 = 0;
    proof {
        vstd::arithmetic::power2::lemma2_to64();
    }
    while k < attempt
        invariant
            k <= attempt <= 5,
            d as nat == 50 * pow2(k as nat),
            d <= 1600,
        decreases attempt - k,
    {
        proof {
            vstd::arithmetic::power2::lemma_pow2_unfold((k + 1) as nat);
            vstd::arithmetic::power2::lemma2_to64();
            if k as nat + 1 <= 5 {
                vstd::arithmetic::power2::lemma_pow2_strictly_increases(k as nat + 1, 6);
            }
        }
        d = d * 2;
        k += 1;
    }
    d
}

/// Later attempts wait strictly longer.
pub proof fn lemma_backoff_strictly_increases(a: nat, b: nat)
    requires
        a < b,
    ensures
        50 * pow2(a) < 50 * pow2(b),
{
    vstd::arithmetic::power2::lemma_pow2_strictly_increases(a, b);
}


/// The models of a sequence of native items.
pub open spec fn native_items_views(vs: Seq<Vec<(String, NativeValue)>>) -> Seq<
    Seq<(Seq<char>, NativeV)>,
> {
    Seq::new(vs.len(), |i: int| native_entries_view(vs[i]@))
}

/// The models of a sequence of stored items.
pub open spec fn attr_items_views(vs: Seq<Item>) -> Seq<Seq<(Seq<char>, AttrV)>> {
    Seq::new(vs.len(), |i: int| attr_entries_view(vs[i]@))
}

/// Model of encoding several items, item by item; the earliest refusal
/// wins.
pub open spec fn encode_items_v(items: Seq<Seq<(Seq<char>, NativeV)>>) -> Result<
    Seq<Seq<(Seq<char>, AttrV)>>,
    EncErr,
>
    decreases items.len(),
{
    if items.len() == 0 {
        Ok(Seq::empty())
    } else {
        match encode_items_v(items.subrange(0, items.len() - 1)) {
            Err(e) => Err(e),
            Ok(rest) => match encode_entries_v(items[items.len() - 1]) {
                Ok(it) => Ok(rest.push(it)),
                Err(e) => Err(e),
            },
        }
    }
}

/// An item refusal in a prefix settles the whole sequence of items.
pub proof fn lemma_encode_items_err_extends(items: Seq<Seq<(Seq<char>, NativeV)>>, k: int)
    requires
        0 <= k <= items.len(),
        encode_items_v(items.subrange(0, k)) is Err,
    ensures
        encode_items_v(items) == encode_items_v(items.subrange(0, k)),
    decreases items.len() - k,
{
    if k == items.len() {
        assert(items.subrange(0, k) =~= items);
    } else {
        let q = items.subrange(0, k + 1);
        assert(q.subrange(0, q.len() - 1) =~= items.subrange(0, k));
        lemma_encode_items_err_extends(items, k + 1);
    }
}

/// A successful multi-item encoding has one output item per input item.
pub proof fn lemma_encode_items_len(items: Seq<Seq<(Seq<char>, NativeV)>>)
    requires
        encode_items_v(items) is Ok,
    ensures
        encode_items_v(items)->Ok_0.len() == items.len(),
    decreases items.len(),
{
    if items.len() > 0 {
        lemma_encode_items_len(items.subrange(0, items.len() - 1));
    }
}

/// Encodes several items, keeping their order. Fails exactly when encoding
/// one of them fails, with the earliest refusal.
#[verifier::loop_isolation(false)]
pub fn encode_items(items: &Vec<Vec<(String, NativeValue)>>) -> (r: Result<
    Vec<Item>,
    PydynoError,
>)
    ensures
        match r {
            Ok(out) => encode_items_v(native_items_views(items@)) == Ok::<
                Seq<Seq<(Seq<char>, AttrV)>>,
                EncErr,
            >(attr_items_views(out@)),
            Err(e) => encode_items_v(native_items_views(items@)) matches Err(k) && e@
                == enc_err_v(k),
        },
{
    let ghost nv = native_items_views(items@);
    let mut out: Vec<Item> = Vec::new();
    proof {
        assert(nv.subrange(0, 0) =~= Seq::<Seq<(Seq<char>, NativeV)>>::empty());
        assert(attr_items_views(out@) =~= Seq::<Seq<(Seq<char>, AttrV)>>::empty());
    }
    let mut j: usize = 0;
    while j < items.len()
        invariant
            0 <= j <= items@.len(),
            nv == native_items_views(items@),
            encode_items_v(nv.subrange(0, j as int)) == Ok::<
                Seq<Seq<(Seq<char>, AttrV)>>,
                EncErr,
            >(attr_items_views(out@)),
        decreases items@.len() - j,
    {
        match encode_item(&items[j]) {
            Ok(it) => {
                let ghost old_out = out@;
                out.push(it);
                proof {
                    let p = nv.subrange(0, j as int);
                    let q = nv.subrange(0, j as int + 1);
                    assert(q.subrange(0, q.len() - 1) =~= p);
                    assert(q[q.len() - 1] == nv[j as int]);
                    assert(nv[j as int] == native_entries_view(items@[j as int]@));
                    assert(attr_items_views(out@) =~= attr_items_views(old_out).push(
                        attr_entries_view(out@[out@.len() - 1]@),
                    ));
                }
            },
            Err(e) => {
                proof {
                    let q = nv.subrange(0, j as int + 1);
                    assert(q.subrange(0, q.len() - 1) =~= nv.subrange(0, j as int));
                    assert(q[q.len() - 1] == nv[j as int]);
                    assert(nv[j as int] == native_entries_view(items@[j as int]@));
                    assert(encode_items_v(q) is Err);
                    lemma_encode_items_err_extends(nv, j as int + 1);
                }
                return Err(e);
            },
        }
        j += 1;
    }
    proof {
        assert(nv.subrange(0, j as int) =~= nv);
    }
    Ok(out)
}

/// Builds the merged, ordered write-request list of a batch write: every
/// put first, in order, then every delete, each item already encoded.
/// Fails exactly when encoding an item or key fails, puts settled first.
#[verifier::loop_isolation(false)]
pub fn prepare_batch_write(
    put_items: &Vec<Vec<(String, NativeValue)>>,
    delete_keys: &Vec<Vec<(String, NativeValue)>>,
) -> (r: Result<Vec<WriteRequest>, PydynoError>)
    ensures
        match r {
            Ok(reqs) => {
                let ps = encode_items_v(native_items_views(put_items@))->Ok_0;
                let ds = encode_items_v(native_items_views(delete_keys@))->Ok_0;
                &&& encode_items_v(native_items_views(put_items@)) is Ok
                &&& encode_items_v(native_items_views(delete_keys@)) is Ok
                &&& reqs@.len() == ps.len() + ds.len()
                &&& ps.len() == put_items@.len()
                &&& ds.len() == delete_keys@.len()
                &&& (forall|i: int|
                    0 <= i < ps.len() ==> ((#[trigger] reqs@[i]) matches WriteRequest::Put(it)
                        && attr_entries_view(it@) == ps[i]))
                &&& (forall|i: int|
                    0 <= i < ds.len() ==> ((#[trigger] reqs@[ps.len() + i])
                        matches WriteRequest::Delete(kk) && attr_entries_view(kk@) == ds[i]))
            },
            Err(e) => {
                let pe = encode_items_v(native_items_views(put_items@));
                let de = encode_items_v(native_items_views(delete_keys@));
                if pe is Err {
                    e@ == enc_err_v(pe->Err_0)
                } else {
                    de matches Err(k) && e@ == enc_err_v(k)
                }
            },
        },
{
    let puts = match encode_items(put_items) {
        Ok(p) => p,
        Err(e) => {
            return Err(e);
        },
    };
    let dels = match encode_items(delete_keys) {
        Ok(d) => d,
        Err(e) => {
            return Err(e);
        },
    };
    let ghost ps = attr_items_views(puts@);
    let ghost ds = attr_items_views(dels@);
    proof {
        lemma_encode_items_len(native_items_views(put_items@));
        lemma_encode_items_len(native_items_views(delete_keys@));
        assert(ps.len() == put_items@.len());
        assert(ds.len() == delete_keys@.len());
    }
    let mut reqs: Vec<WriteRequest> = Vec::new();
    let mut rest = puts;
    while rest.len() > 0
        invariant
            reqs@.len() + rest@.len() == ps.len(),
            forall|i: int|
                0 <= i < reqs@.len() ==> ((#[trigger] reqs@[i]) matches WriteRequest::Put(it)
                    && attr_entries_view(it@) == ps[i]),
            forall|i: int|
                0 <= i < rest@.len() ==> attr_entries_view((#[trigger] rest@[i])@) == ps[reqs@.len()
                    + i],
        decreases rest@.len(),
    {
        let ghost rest0 = rest@;
        let it = rest.remove(0);
        proof {
            assert(rest0.remove(0) =~= rest0.subrange(1, rest0.len() as int));
        }
        reqs.push(WriteRequest::Put(it));
    }
    let mut rest2 = dels;
    while rest2.len() > 0
        invariant
            reqs@.len() + rest2@.len() == ps.len() + ds.len(),
            reqs@.len() >= ps.len(),
            forall|i: int|
                0 <= i < ps.len() ==> ((#[trigger] reqs@[i]) matches WriteRequest::Put(it)
                    && attr_entries_view(it@) == ps[i]),
            forall|i: int|
                ps.len() <= i < reqs@.len() ==> ((#[trigger] reqs@[i])
                    matches WriteRequest::Delete(kk) && attr_entries_view(kk@) == ds[i - ps.len()]),
            forall|i: int|
                0 <= i < rest2@.len() ==> attr_entries_view((#[trigger] rest2@[i])@)
                    == ds[reqs@.len() - ps.len() + i],
        decreases rest2@.len(),
    {
        let ghost rest0 = rest2@;
        let kk = rest2.remove(0);
        proof {
            assert(rest0.remove(0) =~= rest0.subrange(1, rest0.len() as int));
        }
        reqs.push(WriteRequest::Delete(kk));
    }
    Ok(reqs)
}

/// The failure message when a chunk's requests stay unprocessed after the
/// last retry: it names the exact remaining count.
pub open spec fn batch_exhausted_msg(n: nat) -> Seq<char> {
    "Failed to process "@ + dec_of_nat(n) + " items after "@ + dec_of_nat(
        BATCH_MAX_RETRIES as nat,
    ) + " retries"@
}

/// The running state of a batch: the chunks not yet begun and the retry
/// count of the chunk in flight. Stateless across calls: one value of this
/// type belongs to one batch call.
#[derive(Debug)]
pub struct BatchWriteRun {
    pub remaining: Vec<Vec<WriteRequest>>,
    pub retries: u64,
}

/// What the driver must do next with a batch write.
#[derive(Debug)]
pub enum BatchWriteStep {
    /// Submit these requests to the backend now.
    Call(Vec<WriteRequest>),
    /// Sleep this many milliseconds, then submit these requests; they are
    /// exactly the unprocessed remainder, resubmitted alone.
    Wait(u64, Vec<WriteRequest>),
    /// Every request has been written.
    Finished,
    /// Give up with this error.
    Failed(PydynoError),
}

/// What one backend call of a batch write came back with: the unprocessed
/// remainder of the submitted requests on success, or a raw failure.
#[derive(Debug)]
pub enum BatchWriteResponse {
    Success(Vec<WriteRequest>),
    Failure(RawBackendError),
}

/// Whether a run's remaining chunks are well-formed batch chunks.
pub open spec fn write_chunks_wf(cs: Seq<Vec<WriteRequest>>) -> bool {
    &&& forall|ci: int|
        0 <= ci < cs.len() ==> 1 <= (#[trigger] cs[ci])@.len() <= BATCH_WRITE_MAX_ITEMS
    &&& forall|ci: int|
        0 <= ci < cs.len() - 1 ==> (#[trigger] cs[ci])@.len() == BATCH_WRITE_MAX_ITEMS as int
}

/// Begins a batch write: splits the requests into chunks of at most 25 and
/// hands the first chunk out for submission. An empty request list is a
/// no-op success.
pub fn batch_write_start(requests: Vec<WriteRequest>) -> (r: (BatchWriteRun, BatchWriteStep))
    ensures
        r.0.retries == 0,
        write_chunks_wf(r.0.remaining@),
        requests@.len() == 0 ==> r.1 is Finished && r.0.remaining@.len() == 0,
        requests@.len() > 0 ==> (r.1 matches BatchWriteStep::Call(c) && {
            &&& c@ + concat_chunks(r.0.remaining@) == requests@
            &&& 1 <= c@.len() <= BATCH_WRITE_MAX_ITEMS
            &&& (r.0.remaining@.len() > 0 ==> c@.len() == BATCH_WRITE_MAX_ITEMS as int)
        }),
{
    let ghost req0 = requests@;
    let empty = requests.len() == 0;
    let mut chunks = chunk_requests(requests, BATCH_WRITE_MAX_ITEMS);
    if empty {
        proof {
            if chunks@.len() > 0 {
                assert(chunks@[0]@.len() >= 1);
                lemma_concat_chunks_first(chunks@);
            }
        }
        (BatchWriteRun { remaining: chunks, retries: 0 }, BatchWriteStep::Finished)
    } else {
        proof {
            if chunks@.len() == 0 {
                assert(concat_chunks(chunks@).len() == 0);
            }
        }
        let ghost chunks0 = chunks@;
        let first = chunks.remove(0);
        proof {
            assert(chunks0.remove(0) =~= chunks0.subrange(1, chunks0.len() as int));
            lemma_concat_chunks_first(chunks0);
            assert(first@ + concat_chunks(chunks@) == req0);
        }
        (BatchWriteRun { remaining: chunks, retries: 0 }, BatchWriteStep::Call(first))
    }
}

/// The concatenation of chunks is the first chunk, then the concatenation
/// of the rest.
pub proof fn lemma_concat_chunks_first<T>(cs: Seq<Vec<T>>)
    requires
        cs.len() > 0,
    ensures
        concat_chunks(cs) == cs[0]@ + concat_chunks(cs.subrange(1, cs.len() as int)),
    decreases cs.len(),
{
    if cs.len() == 1 {
        assert(cs.drop_last().len() == 0);
        assert(cs.subrange(1, cs.len() as int).len() == 0);
        assert(concat_chunks(cs) == concat_chunks(cs.drop_last()) + cs.last()@);
        assert(cs[0]@ + concat_chunks(cs.subrange(1, cs.len() as int)) =~= concat_chunks(cs));
    } else {
        let p = cs.drop_last();
        lemma_concat_chunks_first(p);
        let t = cs.subrange(1, cs.len() as int);
        assert(t.drop_last() =~= p.subrange(1, p.len() as int));
        assert(p[0] == cs[0]);
        assert(t.last() == cs.last());
        assert(concat_chunks(t) == concat_chunks(t.drop_last()) + t.last()@);
        assert(concat_chunks(cs) == concat_chunks(p) + cs.last()@);
        assert(cs[0]@ + concat_chunks(t) =~= (cs[0]@ + concat_chunks(p.subrange(
            1,
            p.len() as int,
        ))) + cs.last()@);
    }
}

/// Settles one backend response of a batch write and decides the next
/// step. A success with nothing unprocessed moves to the next chunk, or
/// finishes; a success with an unprocessed remainder resubmits exactly
/// that remainder after an exponentially grown delay, until the retry
/// bound is spent, which is a hard failure naming the remaining count; a
/// transport failure aborts the whole batch at once, classified with the
/// table's name.
pub fn batch_write_on_response(
    run: BatchWriteRun,
    table: &str,
    resp: BatchWriteResponse,
) -> (r: (BatchWriteRun, BatchWriteStep))
    requires
        run.retries < BATCH_MAX_RETRIES,
        write_chunks_wf(run.remaining@),
    ensures
        write_chunks_wf(r.0.remaining@),
        match resp {
            BatchWriteResponse::Failure(raw) => r.1 matches BatchWriteStep::Failed(e) && e@
                == classify_v(raw@, Some(table@)),
            BatchWriteResponse::Success(u) => if u@.len() == 0 {
                if run.remaining@.len() == 0 {
                    r.1 is Finished && r.0.remaining@.len() == 0 && r.0.retries == 0
                } else {
                    r.1 matches BatchWriteStep::Call(c) && c == run.remaining@[0]
                        && r.0.remaining@ == run.remaining@.subrange(
                        1,
                        run.remaining@.len() as int,
                    ) && r.0.retries == 0
                }
            } else {
                if run.retries + 1 < BATCH_MAX_RETRIES {
                    r.1 matches BatchWriteStep::Wait(d, again) && d as nat == 50 * pow2(
                        (run.retries + 1) as nat,
                    ) && again == u && r.0.retries == run.retries + 1 && r.0.remaining
                        == run.remaining
                } else {
                    r.1 matches BatchWriteStep::Failed(e) && e@ == ErrV::Generic(
                        batch_exhausted_msg(u@.len()),
                    )
                }
            },
        },
{
    match resp {
        BatchWriteResponse::Failure(raw) => {
            let e = classify(raw, Some(table));
            (run, BatchWriteStep::Failed(e))
        },
        BatchWriteResponse::Success(u) => {
            if u.len() == 0 {
                let mut remaining = run.remaining;
                if remaining.len() == 0 {
                    (BatchWriteRun { remaining, retries: 0 }, BatchWriteStep::Finished)
                } else {
                    let ghost rem0 = remaining@;
                    let next = remaining.remove(0);
                    proof {
                        assert(rem0.remove(0) =~= rem0.subrange(1, rem0.len() as int));
                    }
                    (BatchWriteRun { remaining, retries: 0 }, BatchWriteStep::Call(next))
                }
            } else {
                let attempt = run.retries + 1;
                if attempt < BATCH_MAX_RETRIES {
                    let d = backoff_delay_ms(attempt);
                    (
                        BatchWriteRun { remaining: run.remaining, retries: attempt },
                        BatchWriteStep::Wait(d, u),
                    )
                } else {
                    let count = crate::numtext::u64_to_decimal(u.len() as u64);
                    let bound = crate::numtext::u64_to_decimal(BATCH_MAX_RETRIES);
                    let m = String::from_str("Failed to process ").concat(count.as_str()).concat(
                        " items after ",
                    ).concat(bound.as_str()).concat(" retries");
                    (run, BatchWriteStep::Failed(PydynoError::Generic(m)))
                }
            }
        },
    }
}


/// Model of decoding several stored items, item by item; the earliest
/// refusal wins.
pub open spec fn decode_items_v(items: Seq<Seq<(Seq<char>, AttrV)>>) -> Result<
    Seq<Seq<(Seq<char>, crate::value::NativeV)>>,
    crate::codec::DecErr,
>
    decreases items.len(),
{
    if items.len() == 0 {
        Ok(Seq::empty())
    } else {
        match decode_items_v(items.subrange(0, items.len() - 1)) {
            Err(e) => Err(e),
            Ok(rest) => match crate::codec::decode_entries_v(items[items.len() - 1]) {
                Ok(it) => Ok(rest.push(it)),
                Err(e) => Err(e),
            },
        }
    }
}

/// An item re-parse refusal in a prefix settles the whole sequence.
pub proof fn lemma_decode_items_err_extends(items: Seq<Seq<(Seq<char>, AttrV)>>, k: int)
    requires
        0 <= k <= items.len(),
        decode_items_v(items.subrange(0, k)) is Err,
    ensures
        decode_items_v(items) == decode_items_v(items.subrange(0, k)),
    decreases items.len() - k,
{
    if k == items.len() {
        assert(items.subrange(0, k) =~= items);
    } else {
        let q = items.subrange(0, k + 1);
        assert(q.subrange(0, q.len() - 1) =~= items.subrange(0, k));
        lemma_decode_items_err_extends(items, k + 1);
    }
}

/// Decodes several stored items, keeping their order. Fails exactly when
/// re-parsing one of them fails, with the earliest refusal.
#[verifier::loop_isolation(false)]
pub fn decode_items(items: &Vec<Item>) -> (r: Result<
    Vec<Vec<(String, NativeValue)>>,
    PydynoError,
>)
    ensures
        match r {
            Ok(out) => decode_items_v(attr_items_views(items@)) == Ok::<
                Seq<Seq<(Seq<char>, crate::value::NativeV)>>,
                crate::codec::DecErr,
            >(native_items_views(out@)),
            Err(e) => decode_items_v(attr_items_views(items@)) matches Err(k) && e@
                == crate::codec::dec_err_v(k),
        },
{
    let ghost av = attr_items_views(items@);
    let mut out: Vec<Vec<(String, NativeValue)>> = Vec::new();
    proof {
        assert(av.subrange(0, 0) =~= Seq::<Seq<(Seq<char>, AttrV)>>::empty());
        assert(native_items_views(out@) =~= Seq::<
            Seq<(Seq<char>, crate::value::NativeV)>,
        >::empty());
    }
    let mut j: usize = 0;
    while j < items.len()
        invariant
            0 <= j <= items@.len(),
            av == attr_items_views(items@),
            decode_items_v(av.subrange(0, j as int)) == Ok::<
                Seq<Seq<(Seq<char>, crate::value::NativeV)>>,
                crate::codec::DecErr,
            >(native_items_views(out@)),
        decreases items@.len() - j,
    {
        match crate::codec::decode_item(&items[j]) {
            Ok(it) => {
                let ghost old_out = out@;
                out.push(it);
                proof {
                    let p = av.subrange(0, j as int);
                    let q = av.subrange(0, j as int + 1);
                    assert(q.subrange(0, q.len() - 1) =~= p);
                    assert(q[q.len() - 1] == av[j as int]);
                    assert(av[j as int] == attr_entries_view(items@[j as int]@));
                    assert(native_items_views(out@) =~= native_items_views(old_out).push(
                        native_entries_view(out@[out@.len() - 1]@),
                    ));
                }
            },
            Err(e) => {
                proof {
                    let q = av.subrange(0, j as int + 1);
                    assert(q.subrange(0, q.len() - 1) =~= av.subrange(0, j as int));
                    assert(q[q.len() - 1] == av[j as int]);
                    assert(av[j as int] == attr_entries_view(items@[j as int]@));
                    assert(decode_items_v(q) is Err);
                    lemma_decode_items_err_extends(av, j as int + 1);
                }
                return Err(e);
            },
        }
        j += 1;
    }
    proof {
        assert(av.subrange(0, j as int) =~= av);
    }
    Ok(out)
}

/// The running state of a batch read: the key chunks not yet begun, the
/// items collected so far, and the retry count of the chunk in flight.
#[derive(Debug)]
pub struct BatchGetRun {
    pub remaining: Vec<Vec<Item>>,
    pub collected: Vec<Item>,
    pub retries: u64,
}

/// What the driver must do next with a batch read.
#[derive(Debug)]
pub enum BatchGetStep {
    /// Ask the backend for these keys now.
    Call(Vec<Item>),
    /// Sleep this many milliseconds, then ask for these keys; they are
    /// exactly the unprocessed remainder, resubmitted alone.
    Wait(u64, Vec<Item>),
    /// Every chunk is read: the found items, in arrival order.
    Finished(Vec<Item>),
    /// Give up with this error.
    Failed(PydynoError),
}

/// What one backend call of a batch read came back with: the found items
/// and the unprocessed keys on success, or a raw failure.
#[derive(Debug)]
pub enum BatchGetResponse {
    Success { items: Vec<Item>, unprocessed: Vec<Item> },
    Failure(RawBackendError),
}

/// Whether a run's remaining key chunks are well-formed batch chunks.
pub open spec fn get_chunks_wf(cs: Seq<Vec<Item>>) -> bool {
    &&& forall|ci: int|
        0 <= ci < cs.len() ==> 1 <= (#[trigger] cs[ci])@.len() <= BATCH_GET_MAX_ITEMS
    &&& forall|ci: int|
        0 <= ci < cs.len() - 1 ==> (#[trigger] cs[ci])@.len() == BATCH_GET_MAX_ITEMS as int
}

/// Begins a batch read: splits the keys into chunks of at most 100 and
/// hands the first chunk out for submission. An empty key list is a no-op
/// success with no items.
pub fn batch_get_start(keys: Vec<Item>) -> (r: (BatchGetRun, BatchGetStep))
    ensures
        r.0.retries == 0,
        r.0.collected@.len() == 0,
        get_chunks_wf(r.0.remaining@),
        keys@.len() == 0 ==> (r.1 matches BatchGetStep::Finished(got) && got@.len() == 0
            && r.0.remaining@.len() == 0),
        keys@.len() > 0 ==> (r.1 matches BatchGetStep::Call(c) && {
            &&& c@ + concat_chunks(r.0.remaining@) == keys@
            &&& 1 <= c@.len() <= BATCH_GET_MAX_ITEMS
            &&& (r.0.remaining@.len() > 0 ==> c@.len() == BATCH_GET_MAX_ITEMS as int)
        }),
{
    let ghost keys0 = keys@;
    let empty = keys.len() == 0;
    let mut chunks = chunk_requests(keys, BATCH_GET_MAX_ITEMS);
    if empty {
        proof {
            if chunks@.len() > 0 {
                assert(chunks@[0]@.len() >= 1);
                lemma_concat_chunks_first(chunks@);
            }
        }
        (
            BatchGetRun { remaining: chunks, collected: Vec::new(), retries: 0 },
            BatchGetStep::Finished(Vec::new()),
        )
    } else {
        proof {
            if chunks@.len() == 0 {
                assert(concat_chunks(chunks@).len() == 0);
            }
        }
        let ghost chunks0 = chunks@;
        let first = chunks.remove(0);
        proof {
            assert(chunks0.remove(0) =~= chunks0.subrange(1, chunks0.len() as int));
            lemma_concat_chunks_first(chunks0);
        }
        (
            BatchGetRun { remaining: chunks, collected: Vec::new(), retries: 0 },
            BatchGetStep::Call(first),
        )
    }
}

/// Settles one backend response of a batch read and decides the next
/// step, exactly as a batch write is settled, additionally appending the
/// found items to what was collected.
pub fn batch_get_on_response(run: BatchGetRun, table: &str, resp: BatchGetResponse) -> (r: (
    BatchGetRun,
    BatchGetStep,
))
    requires
        run.retries < BATCH_MAX_RETRIES,
        get_chunks_wf(run.remaining@),
    ensures
        get_chunks_wf(r.0.remaining@),
        match resp {
            BatchGetResponse::Failure(raw) => r.1 matches BatchGetStep::Failed(e) && e@
                == classify_v(raw@, Some(table@)),
            BatchGetResponse::Success { items, unprocessed } => if unprocessed@.len() == 0 {
                if run.remaining@.len() == 0 {
                    r.1 matches BatchGetStep::Finished(got) && got@ == run.collected@ + items@
                } else {
                    r.1 matches BatchGetStep::Call(c) && c == run.remaining@[0]
                        && r.0.remaining@ == run.remaining@.subrange(
                        1,
                        run.remaining@.len() as int,
                    ) && r.0.retries == 0 && r.0.collected@ == run.collected@ + items@
                }
            } else {
                if run.retries + 1 < BATCH_MAX_RETRIES {
                    r.1 matches BatchGetStep::Wait(d, again) && d as nat == 50 * pow2(
                        (run.retries + 1) as nat,
                    ) && again == unprocessed && r.0.retries == run.retries + 1
                        && r.0.remaining == run.remaining && r.0.collected@ == run.collected@
                        + items@
                } else {
                    r.1 matches BatchGetStep::Failed(e) && e@ == ErrV::Generic(
                        batch_exhausted_msg(unprocessed@.len()),
                    )
                }
            },
        },
{
    match resp {
        BatchGetResponse::Failure(raw) => {
            let e = classify(raw, Some(table));
            (run, BatchGetStep::Failed(e))
        },
        BatchGetResponse::Success { items, unprocessed } => {
            let mut collected = run.collected;
            let mut arrived = items;
            collected.append(&mut arrived);
            if unprocessed.len() == 0 {
                let mut remaining = run.remaining;
                if remaining.len() == 0 {
                    (
                        BatchGetRun { remaining, collected: Vec::new(), retries: 0 },
                        BatchGetStep::Finished(collected),
                    )
                } else {
                    let ghost rem0 = remaining@;
                    let next = remaining.remove(0);
                    proof {
                        assert(rem0.remove(0) =~= rem0.subrange(1, rem0.len() as int));
                    }
                    (
                        BatchGetRun { remaining, collected, retries: 0 },
                        BatchGetStep::Call(next),
                    )
                }
            } else {
                let attempt = run.retries + 1;
                if attempt < BATCH_MAX_RETRIES {
                    let d = backoff_delay_ms(attempt);
                    (
                        BatchGetRun { remaining: run.remaining, collected, retries: attempt },
                        BatchGetStep::Wait(d, unprocessed),
                    )
                } else {
                    let count = crate::numtext::u64_to_decimal(unprocessed.len() as u64);
                    let bound = crate::numtext::u64_to_decimal(BATCH_MAX_RETRIES);
                    let m = String::from_str("Failed to process ").concat(count.as_str()).concat(
                        " items after ",
                    ).concat(bound.as_str()).concat(" retries");
                    (
                        BatchGetRun { remaining: run.remaining, collected, retries: run.retries },
                        BatchGetStep::Failed(PydynoError::Generic(m)),
                    )
                }
            }
        },
    }
}

} // verus!
