use crate::clock::elapsed_ms;
use crate::codec::{canonical_bytes, checksum, checksum_of, encode};
use crate::service::{faithful, faithful_record};
use crate::signature::{CayleyError, Signature};
use crate::store::{
    clamp64, count_among, earliest, latest, payload_bytes, time_total, CayleyTableRecord, RecordView,
    TableStore,
};
use crate::tensor::{compute_cayley_table_for_signature, table_of};
use vstd::prelude::*;

verus! {

/// A registry row: a signature worth caching ahead of demand, its name, its
/// priority (higher first) and whether it is essential (first among equal
/// priorities).
#[derive(Debug)]
pub struct PrecomputedSignatureEntry {
    pub signature: Signature,
    pub name: String,
    pub priority: i32,
    pub essential: bool,
}

/// Scheduling rank of an entry: priority first, the essential flag breaking
/// ties.
pub open spec fn rank(e: PrecomputedSignatureEntry) -> int {
    2 * e.priority + if e.essential {
        1int
    } else {
        0int
    }
}

/// `order` lists each index of a registry of `n` entries exactly once.
pub open spec fn is_index_permutation(order: Seq<usize>, n: nat) -> bool {
    &&& order.len() == n
    &&& order.no_duplicates()
    &&& forall|i: int| 0 <= i < order.len() ==> order[i] < n
}

/// The entries that `order` lists come by priority descending, then
/// essential before non-essential.
pub open spec fn in_schedule_order(reg: Seq<PrecomputedSignatureEntry>, order: Seq<usize>) -> bool {
    forall|i: int, j: int|
        0 <= i < j < order.len() ==> rank(reg[order[i] as int]) >= rank(reg[order[j] as int])
}

fn rank_exec(e: &PrecomputedSignatureEntry) -> (r: i64)
    ensures
        r == rank(*e),
{
    2 * (e.priority as i64) + if e.essential {
        1i64
    } else {
        0i64
    }
}

/// The order in which the scheduler visits a registry: every entry once, by
/// priority descending, then essential first.
pub fn schedule_order(registry: &Vec<PrecomputedSignatureEntry>) -> (order: Vec<usize>)
    ensures
        is_index_permutation(order@, registry@.len()),
        forall|i: usize| i < registry@.len() ==> #[trigger] order@.contains(i),
        in_schedule_order(registry@, order@),
{
    let mut order: Vec<usize> = Vec::new();
    let mut k: usize = 0;
    while k < registry.len()
        invariant
            k <= registry@.len(),
            is_index_permutation(order@, k as nat),
            forall|i: usize| i < k ==> #[trigger] order@.contains(i),
            in_schedule_order(registry@, order@),
        decreases registry@.len() - k,
    {
        let key = rank_exec(&registry[k]);
        let mut pos: usize = order.len();
        while pos > 0 && rank_exec(&registry[order[pos - 1]]) < key
            invariant
                pos <= order@.len(),
                order@.len() == k,
                is_index_permutation(order@, k as nat),
                in_schedule_order(registry@, order@),
                k < registry@.len(),
                key == rank(registry@[k as int]),
                forall|i: int| pos <= i < order@.len() ==> rank(registry@[order@[i] as int]) < key,
            decreases pos,
        {
            pos = pos - 1;
        }
        let ghost old_order = order@;
        order.insert(pos, k);
        proof {
            let o = order@;
            assert(o == old_order.insert(pos as int, k));
            assert(o[pos as int] == k);
            assert forall|x: usize| x < k + 1 implies #[trigger] o.contains(x) by {
                if x < k {
                    assert(old_order.contains(x));
                    let w = choose|w: int| 0 <= w < old_order.len() && old_order[w] == x;
                    if w < pos {
                        assert(o[w] == x);
                    } else {
                        assert(o[w + 1] == x);
                    }
                }
            }
            assert forall|i: int| 0 <= i < o.len() implies o[i] < k + 1 by {
                if i < pos {
                    assert(o[i] == old_order[i]);
                } else if i > pos {
                    assert(o[i] == old_order[i - 1]);
                }
            }
            assert forall|i: int, j: int| 0 <= i < j < o.len() implies o[i] != o[j] by {
                if i < pos && j < pos {
                    assert(o[i] == old_order[i] && o[j] == old_order[j]);
                } else if i < pos && j == pos {
                    assert(o[i] == old_order[i]);
                } else if i < pos && j > pos {
                    assert(o[i] == old_order[i] && o[j] == old_order[j - 1]);
                } else if i == pos {
                    assert(o[j] == old_order[j - 1]);
                } else {
                    assert(o[i] == old_order[i - 1] && o[j] == old_order[j - 1]);
                }
            }
            assert forall|i: int, j: int| 0 <= i < j < o.len() implies rank(
                registry@[o[i] as int],
            ) >= rank(registry@[o[j] as int]) by {
                if i < pos && j < pos {
                    assert(o[i] == old_order[i] && o[j] == old_order[j]);
                } else if i < pos && j == pos {
                    assert(o[i] == old_order[i]);
                    if i < pos - 1 {
                        assert(rank(registry@[old_order[i] as int]) >= rank(
                            registry@[old_order[pos - 1] as int],
                        ));
                    }
                } else if i < pos && j > pos {
                    assert(o[i] == old_order[i] && o[j] == old_order[j - 1]);
                } else if i == pos {
                    assert(o[j] == old_order[j - 1]);
                } else {
                    assert(o[i] == old_order[i - 1] && o[j] == old_order[j - 1]);
                }
            }
        }
        k = k + 1;
    }
    order
}

/// Aggregate outcome of a precomputation run.
#[derive(Debug, Clone, Copy, PartialEq, Eq, Structural)]
pub struct PrecomputeSummary {
    pub total_signatures: u64,
    pub computed: u64,
    pub skipped: u64,
    pub failed: u64,
    pub total_time_ms: u64,
    pub total_bytes: u64,
}

/// Some registry entry within the dimension ceiling names `sig`.
pub open spec fn scheduled(reg: Seq<PrecomputedSignatureEntry>, sig: Signature) -> bool {
    exists|i: int| 0 <= i < reg.len() && (#[trigger] reg[i]).signature == sig && sig.within_cap()
}

/// Positions of the registry entries that a run over `st` fails: their
/// signature exceeds the ceiling and has no stored record.
pub open spec fn failing(reg: Seq<PrecomputedSignatureEntry>, st: TableStore) -> Set<int> {
    Set::new(
        |i: int| 0 <= i < reg.len() && !reg[i].signature.within_cap() && !st.holds(reg[i].signature),
    )
}

/// Failing positions among the first `k` that `order` visits.
pub open spec fn visited_failing(
    reg: Seq<PrecomputedSignatureEntry>,
    order: Seq<usize>,
    k: int,
    st: TableStore,
) -> Set<int> {
    Set::new(
        |x: int|
            exists|j: int|
                0 <= j < k && #[trigger] order[j] as int == x && !reg[x].signature.within_cap()
                    && !st.holds(reg[x].signature),
    )
}

/// The records were written in schedule order: each stands for a registry
/// row naming its signature, and those rows come by rank, highest first.
pub open spec fn in_rank_order(reg: Seq<PrecomputedSignatureEntry>, recs: Seq<RecordView>) -> bool {
    exists|src: Seq<usize>| #[trigger] ranked_sources(reg, recs, src)
}

/// `src` gives, for each record, a registry row naming its signature, with
/// ranks not increasing.
pub open spec fn ranked_sources(
    reg: Seq<PrecomputedSignatureEntry>,
    recs: Seq<RecordView>,
    src: Seq<usize>,
) -> bool {
    &&& src.len() == recs.len()
    &&& forall|t: int|
        0 <= t < src.len() ==> #[trigger] src[t] < reg.len() && reg[src[t] as int].signature
            == recs[t].signature
    &&& forall|t: int, u: int|
        0 <= t < u < src.len() ==> rank(reg[#[trigger] src[t] as int]) >= rank(
            reg[#[trigger] src[u] as int],
        )
}

/// A record the scheduler wrote in a run at time `now_ms`.
pub open spec fn precomputed_record(r: RecordView, now_ms: i64) -> bool {
    &&& faithful_record(r)
    &&& r.precomputed
    &&& r.computed_at_ms == now_ms
}

proof fn lemma_holds_grow(a: Seq<RecordView>, b: Seq<RecordView>, sig: Signature)
    requires
        a.len() <= b.len(),
        b.subrange(0, a.len() as int) == a,
        exists|i: int| 0 <= i < a.len() && (#[trigger] a[i]).signature == sig,
    ensures
        exists|i: int| 0 <= i < b.len() && (#[trigger] b[i]).signature == sig,
{
    let i = choose|i: int| 0 <= i < a.len() && (#[trigger] a[i]).signature == sig;
    assert(b[i] == b.subrange(0, a.len() as int)[i]);
}

/// Builds the record that the scheduler stores for a freshly computed table.
fn make_record(sig: &Signature, coefficients: Vec<i8>, computation_time_ms: u64, now_ms: i64) -> (rec:
    CayleyTableRecord)
    requires
        sig.within_cap(),
        coefficients@ == table_of(*sig),
    ensures
        rec.signature == *sig,
        precomputed_record(rec@, now_ms),
        rec.computation_time_ms == computation_time_ms,
        rec.encoding@ == "f64-le"@,
{
    proof {
        crate::tensor::lemma_table_units(*sig);
        crate::signature::lemma_small_pow2(sig.dims());
        let b = sig.basis();
        assert(b * b * b <= 262144) by (nonlinear_arith)
            requires
                1 <= b <= 64,
        ;
    }
    let payload = encode(&coefficients);
    let c = checksum(&coefficients);
    let encoding = String::from_str("f64-le");
    CayleyTableRecord {
        signature: *sig,
        dimensions: sig.dimensions(),
        basis_count: sig.basis_count(),
        payload,
        checksum: c,
        computed_at_ms: now_ms,
        computation_time_ms,
        encoding,
        precomputed: true,
    }
}

/// Walks the registry by priority and fills in the signatures that the store
/// lacks: a stored one is skipped, one over the dimension ceiling fails, the
/// rest are computed, encoded, checksummed and inserted, stamped with
/// `now_ms`, in schedule order. A failure never stops the run, and a second
/// run over the same registry has nothing left to do.
pub fn precompute_essential_tables(
    store: &mut TableStore,
    registry: &Vec<PrecomputedSignatureEntry>,
    now_ms: i64,
) -> (s: PrecomputeSummary)
    requires
        old(store).wf(),
    ensures
        final(store).wf(),
        faithful(*old(store)) ==> faithful(*final(store)),
        final(store).counters() == old(store).counters(),
        old(store).entries().len() <= final(store).entries().len(),
        final(store).entries().subrange(0, old(store).entries().len() as int) == old(store).entries(),
        forall|i: int|
            old(store).entries().len() <= i < final(store).entries().len() ==> {
                let r = #[trigger] final(store).entries()[i];
                &&& scheduled(registry@, r.signature)
                &&& !old(store).holds(r.signature)
                &&& precomputed_record(r, now_ms)
            },
        in_rank_order(
            registry@,
            final(store).entries().subrange(
                old(store).entries().len() as int,
                final(store).entries().len() as int,
            ),
        ),
        forall|i: int|
            0 <= i < registry@.len() && (#[trigger] registry@[i]).signature.within_cap()
                ==> final(store).holds(registry@[i].signature),
        s.total_signatures == registry@.len(),
        s.computed == final(store).entries().len() - old(store).entries().len(),
        s.computed + s.skipped + s.failed == registry@.len(),
        s.failed == failing(registry@, *old(store)).len(),
        (forall|i: int|
            0 <= i < registry@.len() && (#[trigger] registry@[i]).signature.within_cap()
                ==> old(store).holds(registry@[i].signature)) ==> s.computed == 0,
        s.total_bytes == clamp64(
            payload_bytes(
                final(store).entries().subrange(
                    old(store).entries().len() as int,
                    final(store).entries().len() as int,
                ),
            ),
        ),
{
    let start = std::time::Instant::now();
    let order = schedule_order(registry);
    let ghost old_entries = store.entries();
    let ghost n0 = old_entries.len();
    let mut computed: u64 = 0;
    let mut skipped: u64 = 0;
    let mut failed: u64 = 0;
    let mut total_time_ms: u64 = 0;
    let mut total_bytes: u64 = 0;
    let mut k: usize = 0;
    let ghost mut fails: Set<int> = Set::empty();
    let ghost mut srcs: Seq<usize> = Seq::empty();
    let ghost old_store = *store;
    assert(store.entries().subrange(n0 as int, n0 as int) =~= Seq::<RecordView>::empty());
    while k < order.len()
        invariant
            forall|i: usize| i < registry@.len() ==> #[trigger] order@.contains(i),
            fails.finite(),
            fails.len() == failed,
            fails =~= visited_failing(registry@, order@, k as int, old_store),
            old_store == *old(store),
            is_index_permutation(order@, registry@.len()),
            in_schedule_order(registry@, order@),
            srcs.len() == store.entries().len() - n0,
            ranked_sources(registry@, store.entries().subrange(n0 as int, store.entries().len() as int), srcs),
            forall|t: int, j: int|
                #![trigger srcs[t], order@[j]]
                0 <= t < srcs.len() && k <= j < order@.len() ==> rank(registry@[srcs[t] as int])
                    >= rank(registry@[order@[j] as int]),
            k <= order@.len(),
            store.wf(),
            store.counters() == old(store).counters(),
            old_entries == old(store).entries(),
            n0 == old_entries.len(),
            n0 <= store.entries().len(),
            store.entries().subrange(0, n0 as int) == old_entries,
            forall|i: int|
                n0 <= i < store.entries().len() ==> {
                    let r = #[trigger] store.entries()[i];
                    &&& scheduled(registry@, r.signature)
                    &&& !old(store).holds(r.signature)
                    &&& precomputed_record(r, now_ms)
                },
            forall|j: int|
                0 <= j < k && (#[trigger] registry@[order@[j] as int]).signature.within_cap()
                    ==> store.holds(registry@[order@[j] as int].signature),
            computed == store.entries().len() - n0,
            computed + skipped + failed == k,
            total_bytes == clamp64(payload_bytes(store.entries().subrange(n0 as int, store.entries().len() as int))),
        decreases order@.len() - k,
    {
        let idx = order[k];
        let sig = registry[idx].signature;
        let ghost before = store.entries();
        let ghost before_store = *store;
        let ghost old_fails = fails;
        proof {
            if !sig.within_cap() {
                assert(!fails.contains(idx as int)) by {
                    if fails.contains(idx as int) {
                        let j = choose|j: int|
                            0 <= j < k && #[trigger] order@[j] as int == idx as int && !registry@[idx as int].signature.within_cap()
                                && !old_store.holds(registry@[idx as int].signature);
                        assert(order@[j] == order@[k as int]);
                    }
                }
                assert(store.holds(sig) == old_store.holds(sig)) by {
                    if store.holds(sig) {
                        let w = choose|w: int| 0 <= w < store.entries().len() && (#[trigger] store.entries()[w]).signature == sig;
                        if w < n0 {
                            assert(old_entries[w] == store.entries().subrange(0, n0 as int)[w]);
                        } else {
                            assert(scheduled(registry@, store.entries()[w].signature));
                        }
                    }
                    if old_store.holds(sig) {
                        lemma_holds_grow(old_entries, store.entries(), sig);
                    }
                }
            }
        }
        if store.contains(&sig) {
            skipped = skipped + 1;
        } else {
            let t0 = std::time::Instant::now();
            match compute_cayley_table_for_signature(&sig) {
                Err(_) => {
                    failed = failed + 1;
                    proof {
                        fails = fails.insert(idx as int);
                    }
                },
                Ok(t) => {
                    let ms = elapsed_ms(&t0);
                    total_time_ms = if total_time_ms <= u64::MAX - ms {
                        total_time_ms + ms
                    } else {
                        u64::MAX
                    };
                    let rec = make_record(&sig, t.coefficients, ms, now_ms);
                    let size = rec.payload.len() as u64;
                    let ghost rv = rec@;
                    match store.insert(rec) {
                        Ok(()) => {
                            proof {
                                let e = store.entries();
                                assert(e[before.len() as int] == rv);
                                let old_sub = before.subrange(n0 as int, before.len() as int);
                                let new_sub = e.subrange(n0 as int, e.len() as int);
                                assert(new_sub.drop_last() =~= old_sub);
                                assert(new_sub.last() == rv);
                                assert(payload_bytes(new_sub) == payload_bytes(old_sub) + size);
                                let old_srcs = srcs;
                                srcs = srcs.push(idx);
                                assert(ranked_sources(registry@, new_sub, srcs)) by {
                                    assert forall|t: int| 0 <= t < srcs.len() implies #[trigger] srcs[t] < registry@.len()
                                        && registry@[srcs[t] as int].signature == new_sub[t].signature by {
                                        if t < old_srcs.len() {
                                            assert(srcs[t] == old_srcs[t]);
                                            assert(new_sub[t] == old_sub[t]);
                                        }
                                    }
                                    assert forall|t: int, u: int| 0 <= t < u < srcs.len() implies rank(
                                        registry@[#[trigger] srcs[t] as int],
                                    ) >= rank(registry@[#[trigger] srcs[u] as int]) by {
                                        assert(srcs[t] == old_srcs[t]);
                                        if u == old_srcs.len() {
                                            assert(srcs[u] == order@[k as int]);
                                        } else {
                                            assert(srcs[u] == old_srcs[u]);
                                        }
                                    }
                                }
                            }
                            computed = computed + 1;
                            total_bytes = if total_bytes <= u64::MAX - size {
                                total_bytes + size
                            } else {
                                u64::MAX
                            };
                        },
                        Err(_) => {
                            skipped = skipped + 1;
                        },
                    }
                },
            }
        }
        proof {
            assert(store.entries().subrange(0, before.len() as int) =~= before);
            assert forall|s: Signature| before_store.holds(s) implies store.holds(s) by {
                lemma_holds_grow(before, store.entries(), s);
            }
            if sig.within_cap() || old_store.holds(sig) {
                assert(fails == old_fails);
            } else {
                assert(fails == old_fails.insert(idx as int));
            }
            assert forall|x: int| #[trigger] fails.contains(x) == visited_failing(registry@, order@, k + 1, old_store).contains(x) by {
                if old_fails.contains(x) {
                    let j = choose|j: int|
                        0 <= j < k && #[trigger] order@[j] as int == x && !registry@[x].signature.within_cap()
                            && !old_store.holds(registry@[x].signature);
                    assert(0 <= j < k + 1 && order@[j] as int == x);
                }
                if visited_failing(registry@, order@, k + 1, old_store).contains(x) {
                    let j = choose|j: int| 0 <= j < k + 1 && #[trigger] order@[j] as int == x && !registry@[x].signature.within_cap()
                        && !old_store.holds(registry@[x].signature);
                    if j < k {
                        assert(old_fails.contains(x));
                    } else {
                        assert(x == idx as int);
                    }
                }
            }
            assert(fails =~= visited_failing(registry@, order@, k + 1, old_store));
            assert forall|t: int, j: int|
                #![trigger srcs[t], order@[j]]
                0 <= t < srcs.len() && k + 1 <= j < order@.len() implies rank(registry@[srcs[t] as int])
                    >= rank(registry@[order@[j] as int]) by {
                if t < srcs.len() - 1 || store.entries().len() == before.len() {
                    assert(rank(registry@[srcs[t] as int]) >= rank(registry@[order@[k as int] as int]));
                }
            }
            if sig.within_cap() {
                assert(store.holds(sig));
            }
            assert forall|j: int|
                0 <= j < k + 1 && (#[trigger] registry@[order@[j] as int]).signature.within_cap()
                    implies store.holds(registry@[order@[j] as int].signature) by {
                if j < k {
                    assert(before_store.holds(registry@[order@[j] as int].signature));
                }
            }
        }
        k = k + 1;
    }
    proof {
        assert forall|i: int|
            0 <= i < registry@.len() && (#[trigger] registry@[i]).signature.within_cap()
                implies store.holds(registry@[i].signature) by {
            assert(order@.contains(i as usize));
            let j = choose|j: int| 0 <= j < order@.len() && order@[j] == i as usize;
            assert(registry@[order@[j] as int] == registry@[i]);
        }
        assert(fails =~= failing(registry@, old_store)) by {
            assert forall|x: int| failing(registry@, old_store).contains(x) implies fails.contains(x) by {
                assert(order@.contains(x as usize));
                let j = choose|j: int| 0 <= j < order@.len() && order@[j] == x as usize;
                assert(order@[j] as int == x);
                assert(visited_failing(registry@, order@, k as int, old_store).contains(x));
            }
            assert forall|x: int| fails.contains(x) implies failing(registry@, old_store).contains(x) by {
                let j = choose|j: int| 0 <= j < k && #[trigger] order@[j] as int == x && !registry@[x].signature.within_cap()
                    && !old_store.holds(registry@[x].signature);
            }
        }
        let e = store.entries();
        assert(in_rank_order(registry@, e.subrange(n0 as int, e.len() as int))) by {
            assert(ranked_sources(registry@, e.subrange(n0 as int, e.len() as int), srcs));
        }
        if faithful(*old(store)) {
            assert forall|i: int| 0 <= i < e.len() implies faithful_record(#[trigger] e[i]) by {
                if i < n0 {
                    assert(e[i] == e.subrange(0, n0 as int)[i]);
                    assert(faithful_record(old_entries[i]));
                }
            }
        }
    }
    PrecomputeSummary {
        total_signatures: registry.len() as u64,
        computed,
        skipped,
        failed,
        total_time_ms: elapsed_ms(&start),
        total_bytes,
    }
}

/// Registry positions whose signature the store lacks, in schedule order:
/// priority descending, then essential first.
pub fn list_missing(store: &TableStore, registry: &Vec<PrecomputedSignatureEntry>) -> (missing: Vec<
    usize,
>)
    requires
        store.wf(),
    ensures
        missing@.no_duplicates(),
        forall|t: int| 0 <= t < missing@.len() ==> missing@[t] < registry@.len(),
        forall|i: usize|
            i < registry@.len() ==> (#[trigger] missing@.contains(i) <==> !store.holds(
                registry@[i as int].signature,
            )),
        in_schedule_order(registry@, missing@),
{
    let order = schedule_order(registry);
    let n = order.len();
    let mut out: Vec<usize> = Vec::new();
    let mut k: usize = 0;
    while k < n
        invariant
            n == order@.len(),
            is_index_permutation(order@, registry@.len()),
            forall|i: usize| i < registry@.len() ==> #[trigger] order@.contains(i),
            in_schedule_order(registry@, order@),
            k <= n,
            out@.no_duplicates(),
            forall|t: int|
                0 <= t < out@.len() ==> exists|p: int| 0 <= p < k && order@[p] == #[trigger] out@[t],
            forall|t: int|
                0 <= t < out@.len() ==> !store.holds(registry@[(#[trigger] out@[t]) as int].signature),
            forall|p: int|
                0 <= p < k && !store.holds(registry@[(#[trigger] order@[p]) as int].signature)
                    ==> out@.contains(order@[p]),
            in_schedule_order(registry@, out@),
            forall|t: int, j: int|
                0 <= t < out@.len() && k <= j < n ==> rank(registry@[out@[t] as int]) >= rank(
                    registry@[order@[j] as int],
                ),
        decreases n - k,
    {
        let idx = order[k];
        if !store.contains(&registry[idx].signature) {
            proof {
                assert(!out@.contains(idx)) by {
                    if out@.contains(idx) {
                        let t = choose|t: int| 0 <= t < out@.len() && out@[t] == idx;
                        let p = choose|p: int| 0 <= p < k && order@[p] == #[trigger] out@[t];
                        assert(order@[p] == order@[k as int]);
                    }
                }
            }
            let ghost before = out@;
            out.push(idx);
            proof {
                assert forall|t: int| 0 <= t < out@.len() implies exists|p: int|
                    0 <= p < k + 1 && order@[p] == #[trigger] out@[t] by {
                    if t < before.len() {
                        let p = choose|p: int| 0 <= p < k && order@[p] == #[trigger] before[t];
                        assert(order@[p] == out@[t]);
                    } else {
                        assert(order@[k as int] == out@[t]);
                    }
                }
                assert forall|p: int|
                    0 <= p < k + 1 && !store.holds(registry@[(#[trigger] order@[p]) as int].signature)
                        implies out@.contains(order@[p]) by {
                    if p < k {
                        let t = choose|t: int| 0 <= t < before.len() && before[t] == order@[p];
                        assert(out@[t] == order@[p]);
                    } else {
                        assert(out@[before.len() as int] == order@[p]);
                    }
                }
                assert forall|t: int, j: int|
                    0 <= t < out@.len() && k + 1 <= j < n implies rank(registry@[out@[t] as int]) >= rank(
                        registry@[order@[j] as int],
                    ) by {
                    if t == before.len() {
                        assert(out@[t] == order@[k as int]);
                    } else {
                        assert(out@[t] == before[t]);
                    }
                }
                assert(out@.no_duplicates()) by {
                    assert forall|a: int, b: int| 0 <= a < b < out@.len() implies out@[a] != out@[b] by {
                        if b == before.len() {
                            assert(out@[b] == idx);
                            assert(out@[a] == before[a]);
                            assert(before.contains(before[a]));
                        } else {
                            assert(out@[a] == before[a] && out@[b] == before[b]);
                        }
                    }
                }
                assert forall|a: int, b: int| 0 <= a < b < out@.len() implies rank(
                    registry@[out@[a] as int],
                ) >= rank(registry@[out@[b] as int]) by {
                    if b == before.len() {
                        assert(out@[a] == before[a]);
                        assert(out@[b] == order@[k as int]);
                    } else {
                        assert(out@[a] == before[a] && out@[b] == before[b]);
                    }
                }
            }
        } else {
            proof {
                assert forall|t: int, j: int|
                    0 <= t < out@.len() && k + 1 <= j < n implies rank(registry@[out@[t] as int]) >= rank(
                        registry@[order@[j] as int],
                    ) by {
                }
                assert forall|t: int| 0 <= t < out@.len() implies exists|p: int|
                    0 <= p < k + 1 && order@[p] == #[trigger] out@[t] by {
                    let p = choose|p: int| 0 <= p < k && order@[p] == #[trigger] out@[t];
                }
            }
        }
        k = k + 1;
    }
    proof {
        assert forall|t: int| 0 <= t < out@.len() implies out@[t] < registry@.len() by {
            let p = choose|p: int| 0 <= p < k && order@[p] == #[trigger] out@[t];
        }
        assert forall|i: usize| i < registry@.len() implies (#[trigger] out@.contains(i) <==> !store.holds(
            registry@[i as int].signature,
        )) by {
            if out@.contains(i) {
                let t = choose|t: int| 0 <= t < out@.len() && out@[t] == i;
            }
            if !store.holds(registry@[i as int].signature) {
                assert(order@.contains(i));
                let p = choose|p: int| 0 <= p < order@.len() && order@[p] == i;
                assert(!store.holds(registry@[order@[p] as int].signature));
            }
        }
    }
    out
}

/// Removes every stored table and returns how many there were; the
/// signatures revert to "not computed".
pub fn clear_precomputed_tables(store: &mut TableStore) -> (deleted: u64)
    requires
        old(store).wf(),
    ensures
        final(store).wf(),
        faithful(*final(store)),
        deleted == old(store).entries().len(),
        final(store).entries() == Seq::<RecordView>::empty(),
        final(store).counters() == old(store).counters(),
        forall|sig: Signature| !final(store).holds(sig),
{
    let n = store.delete_all();
    n as u64
}

proof fn lemma_count_among_same(s: Seq<RecordView>, a: Seq<Signature>, b: Seq<Signature>)
    requires
        forall|x: Signature| a.contains(x) <==> b.contains(x),
    ensures
        count_among(s, a) == count_among(s, b),
    decreases s.len(),
{
    if s.len() > 0 {
        lemma_count_among_same(s.drop_last(), a, b);
    }
}

/// Some registry row marks `sig` essential.
pub open spec fn has_essential_row(reg: Seq<PrecomputedSignatureEntry>, sig: Signature) -> bool {
    exists|i: int| 0 <= i < reg.len() && (#[trigger] reg[i]).signature == sig && reg[i].essential
}

/// Signatures that some registry row marks essential.
fn essential_signatures(registry: &Vec<PrecomputedSignatureEntry>) -> (sigs: Vec<Signature>)
    ensures
        forall|s: Signature| sigs@.contains(s) <==> has_essential_row(registry@, s),
{
    let mut sigs: Vec<Signature> = Vec::new();
    let mut i: usize = 0;
    while i < registry.len()
        invariant
            i <= registry@.len(),
            forall|s: Signature|
                sigs@.contains(s) <==> exists|x: int|
                    0 <= x < i && (#[trigger] registry@[x]).signature == s && registry@[x].essential,
        decreases registry@.len() - i,
    {
        if registry[i].essential {
            let ghost before = sigs@;
            sigs.push(registry[i].signature);
            proof {
                assert forall|s: Signature| sigs@.contains(s) <==> exists|x: int|
                    0 <= x < i + 1 && (#[trigger] registry@[x]).signature == s && registry@[x].essential by {
                    if sigs@.contains(s) {
                        let t = choose|t: int| 0 <= t < sigs@.len() && sigs@[t] == s;
                        if t < before.len() {
                            assert(before[t] == s);
                            assert(before.contains(s));
                        } else {
                            assert(registry@[i as int].signature == s);
                        }
                    }
                    if exists|x: int| 0 <= x < i + 1 && (#[trigger] registry@[x]).signature == s && registry@[x].essential {
                        let x = choose|x: int| 0 <= x < i + 1 && (#[trigger] registry@[x]).signature == s && registry@[x].essential;
                        if x < i {
                            assert(exists|x2: int| 0 <= x2 < i && (#[trigger] registry@[x2]).signature == s && registry@[x2].essential);
                            assert(before.contains(s));
                            let t = choose|t: int| 0 <= t < before.len() && before[t] == s;
                            assert(sigs@[t] == s);
                        } else {
                            assert(sigs@[before.len() as int] == s);
                        }
                    }
                }
            }
        }
        i = i + 1;
    }
    sigs
}

/// Maximum number of pending signatures a status report lists.
pub const PENDING_LIMIT: usize = 10;

/// Totals of the store and the registry signatures still to compute.
#[derive(Debug)]
pub struct PrecomputationStatus {
    pub total_precomputed: u64,
    /// Stored records whose signature some registry row marks essential.
    pub essential_precomputed: u64,
    pub total_storage_bytes: u64,
    pub avg_computation_time_ms: Option<u64>,
    /// Earliest and latest computation times of the stored records.
    pub first_computed_ms: Option<i64>,
    pub last_computed_ms: Option<i64>,
    /// Registry positions of the highest-ranked missing signatures.
    pub pending: Vec<usize>,
}

/// Reports how many tables are stored, how many of them are essential, their
/// total payload size, their average computation time (rounded down), when
/// the first and the last were computed, and the highest-ranked registry
/// signatures still missing, at most `PENDING_LIMIT` of them.
pub fn get_precomputation_status(store: &TableStore, registry: &Vec<PrecomputedSignatureEntry>) -> (s:
    PrecomputationStatus)
    requires
        store.wf(),
    ensures
        s.total_precomputed == store.entries().len(),
        forall|sigs: Seq<Signature>|
            (forall|x: Signature| #[trigger] sigs.contains(x) <==> has_essential_row(registry@, x))
                ==> s.essential_precomputed == count_among(store.entries(), sigs),
        s.first_computed_ms is None <==> store.entries().len() == 0,
        s.first_computed_ms matches Some(t) ==> t == earliest(store.entries()),
        s.last_computed_ms matches Some(t) ==> t == latest(store.entries()) && store.entries().len() > 0,
        s.last_computed_ms is None <==> store.entries().len() == 0,
        s.total_storage_bytes == clamp64(payload_bytes(store.entries())),
        s.avg_computation_time_ms is None <==> store.entries().len() == 0,
        s.avg_computation_time_ms matches Some(a) ==> a == time_total(store.entries())
            / store.entries().len(),
        s.pending@.len() <= PENDING_LIMIT,
        s.pending@.no_duplicates(),
        forall|t: int|
            0 <= t < s.pending@.len() ==> s.pending@[t] < registry@.len() && !store.holds(
                registry@[s.pending@[t] as int].signature,
            ),
        in_schedule_order(registry@, s.pending@),
        forall|i: usize|
            i < registry@.len() && !store.holds(registry@[i as int].signature) && !s.pending@.contains(
                i,
            ) ==> s.pending@.len() == PENDING_LIMIT && rank(registry@[i as int]) <= rank(
                registry@[s.pending@[PENDING_LIMIT - 1] as int],
            ),
{
    let (bytes, time) = store.totals();
    let count = store.len();
    let essential = essential_signatures(registry);
    let essential_precomputed = store.count_among(&essential);
    proof {
        assert forall|sigs: Seq<Signature>|
            (forall|x: Signature| #[trigger] sigs.contains(x) <==> has_essential_row(registry@, x))
                implies essential_precomputed == count_among(store.entries(), sigs) by {
            lemma_count_among_same(store.entries(), essential@, sigs);
        }
    }
    let span = store.computed_span();
    let (first_computed_ms, last_computed_ms) = match span {
        Some((a, b)) => (Some(a), Some(b)),
        None => (None, None),
    };
    let avg = if count == 0 {
        None
    } else {
        assert(time / (count as u128) <= u64::MAX) by (nonlinear_arith)
            requires
                time <= count * 0xffff_ffff_ffff_ffffu128,
                count > 0,
        ;
        Some((time / (count as u128)) as u64)
    };
    let mut pending = list_missing(store, registry);
    let ghost all = pending@;
    pending.truncate(PENDING_LIMIT);
    proof {
        let p = pending@;
        assert forall|a: int, b: int| 0 <= a < b < p.len() implies p[a] != p[b] by {
            assert(p[a] == all[a] && p[b] == all[b]);
        }
        assert forall|t: int| 0 <= t < p.len() implies p[t] < registry@.len() && !store.holds(
            registry@[p[t] as int].signature,
        ) by {
            assert(p[t] == all[t]);
            assert(all.contains(p[t]));
        }
        assert forall|i: usize|
            i < registry@.len() && !store.holds(registry@[i as int].signature) && !p.contains(i)
                implies p.len() == PENDING_LIMIT && rank(registry@[i as int]) <= rank(
                registry@[p[PENDING_LIMIT - 1] as int],
            ) by {
            assert(all.contains(i));
            let t = choose|t: int| 0 <= t < all.len() && all[t] == i;
            if t < p.len() {
                assert(p[t] == i);
            }
            assert(p[PENDING_LIMIT - 1] == all[PENDING_LIMIT - 1]);
        }
    }
    PrecomputationStatus {
        total_precomputed: count as u64,
        essential_precomputed,
        total_storage_bytes: bytes,
        avg_computation_time_ms: avg,
        first_computed_ms,
        last_computed_ms,
        pending,
    }
}

} // verus!
