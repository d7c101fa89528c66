use crate::clock::elapsed_ms;
use crate::codec::{
    canonical_bytes, checksum, checksum_of, decode, decoded, lemma_round_trip, unit_coefficients,
};
use crate::signature::{
    components_within_cap, signature_of, validate_signature, well_formed_components, CayleyError,
    Signature,
};
use crate::store::{after_hit, clamp64, CayleyTableRecord, RecordView, TableStore};
use crate::tensor::{compute_cayley_table_for_signature, lemma_table_units, table_of, CoefficientTensor};
use vstd::prelude::*;

verus! {

/// Where a served table came from.
#[derive(Debug, Clone, Copy, PartialEq, Eq, Structural)]
pub enum TableSource {
    /// Decoded from the store after its checksum matched.
    Cached,
    /// Computed for this request.
    Computed,
}

/// The answer to a table request.
#[derive(Debug)]
pub struct TableResponse {
    pub signature: Signature,
    pub dimensions: u64,
    pub basis_count: u64,
    pub table: CoefficientTensor,
    pub source: TableSource,
    pub computation_time_ms: u64,
    pub checksum: Option<String>,
}

impl TableResponse {
    /// Identifier of the table, `cayley_{p}_{q}_{r}`.
    pub fn table_id(&self) -> (id: String)
        ensures
            id@ == self.signature.table_key(),
    {
        self.signature.table_id()
    }

    /// Whether the table came from the store.
    pub fn cached(&self) -> (b: bool)
        ensures
            b == (self.source == TableSource::Cached),
    {
        match self.source {
            TableSource::Cached => true,
            TableSource::Computed => false,
        }
    }

    /// `precomputed` for a table from the store, `computed` otherwise.
    pub fn source_label(&self) -> (s: &'static str)
        ensures
            self.source == TableSource::Cached ==> s@ == "precomputed"@,
            self.source == TableSource::Computed ==> s@ == "computed"@,
    {
        match self.source {
            TableSource::Cached => "precomputed",
            TableSource::Computed => "computed",
        }
    }

    /// Size of the table in its canonical byte form, stopping at the largest
    /// `u64`.
    pub fn table_size_bytes(&self) -> (n: u64)
        ensures
            n == clamp64(8 * self.table.coefficients@.len()),
    {
        let len = self.table.coefficients.len() as u64;
        if len <= u64::MAX / 8 {
            8 * len
        } else {
            u64::MAX
        }
    }
}

/// The tensor a stored record yields for `sig` when it passes the integrity
/// checks: the payload decodes, has `basis_count^3` coefficients, and the
/// checksum of the decoded tensor is the stored one.
pub open spec fn verified_payload(rec: RecordView, sig: Signature) -> Option<Seq<i8>> {
    let b = sig.basis();
    match decoded(rec.payload) {
        Some(t) => if t.len() == b * b * b && checksum_of(t) == rec.checksum {
            Some(t)
        } else {
            None
        },
        None => None,
    }
}

/// The tensor that the store supplies for a request, if it does: only when
/// the request does not force a recomputation, the store is reachable, holds
/// a record for the signature and that record passes the integrity checks.
pub open spec fn cache_hit(store: Option<TableStore>, sig: Signature, force: bool) -> Option<Seq<i8>> {
    if force {
        None
    } else {
        match store {
            Some(st) => if st.holds(sig) {
                verified_payload(st.record(sig), sig)
            } else {
                None
            },
            None => None,
        }
    }
}

/// The table a request is served: the cached one on a hit, else a fresh
/// computation.
pub open spec fn served_table(store: Option<TableStore>, sig: Signature, force: bool) -> Seq<i8> {
    match cache_hit(store, sig, force) {
        Some(t) => t,
        None => table_of(sig),
    }
}

/// A stored record is what the scheduler writes for its signature: the
/// encoded table of a signature within the ceiling, with its size and that
/// table's checksum.
pub open spec fn faithful_record(r: RecordView) -> bool {
    &&& r.signature.within_cap()
    &&& r.dimensions == r.signature.dims()
    &&& r.basis_count == r.signature.basis()
    &&& r.payload == canonical_bytes(table_of(r.signature))
    &&& r.checksum == checksum_of(table_of(r.signature))
}

/// Every record of the store is faithful.
pub open spec fn faithful(st: TableStore) -> bool {
    forall|i: int| 0 <= i < st.entries().len() ==> faithful_record(#[trigger] st.entries()[i])
}

/// Once a signature is stored by the scheduler, a lookup that does not force
/// recomputation is a cache hit, and it serves exactly the table that a
/// forced recomputation would.
pub proof fn lemma_cached_matches_recomputed(st: TableStore, sig: Signature)
    requires
        st.wf(),
        faithful(st),
        st.holds(sig),
    ensures
        cache_hit(Some(st), sig, false) == Some(table_of(sig)),
        served_table(Some(st), sig, false) == served_table(Some(st), sig, true),
{
    let i = choose|i: int| 0 <= i < st.entries().len() && (#[trigger] st.entries()[i]).signature == sig;
    assert(faithful_record(st.entries()[i]));
    lemma_table_units(sig);
    lemma_round_trip(table_of(sig));
    let b = sig.basis();
    assert(table_of(sig).len() == b * b * b);
}

/// A forced recomputation does not depend on the store: with or without one,
/// reachable or not, it serves the computed table.
pub proof fn lemma_forced_ignores_store(store: Option<TableStore>, sig: Signature)
    ensures
        cache_hit(store, sig, true) is None,
        served_table(store, sig, true) == table_of(sig),
        served_table(store, sig, true) == served_table(None, sig, false),
{
}

/// Checks a stored record for `sig` and decodes it: `Some` exactly when it
/// passes the integrity checks.
pub fn verify_record(rec: &CayleyTableRecord, sig: &Signature) -> (res: Option<CoefficientTensor>)
    requires
        sig.within_cap(),
    ensures
        res is Some <==> verified_payload(rec@, *sig) is Some,
        res matches Some(t) ==> Some(t@) == verified_payload(rec@, *sig) && t.basis_count
            == sig.basis() && t.wf() && unit_coefficients(t@),
{
    let b = sig.basis_count();
    let coefficients = match decode(&rec.payload) {
        Ok(c) => c,
        Err(_) => {
            return None;
        },
    };
    assert(b * b <= 4096 && b * b * b <= 262144) by (nonlinear_arith)
        requires
            1 <= b <= 64,
    ;
    if coefficients.len() as u64 != b * b * b {
        return None;
    }
    proof {
        crate::codec::lemma_decoded_units(rec.payload@);
    }
    let c = checksum(&coefficients);
    if c != rec.checksum {
        return None;
    }
    Some(CoefficientTensor { basis_count: b, coefficients })
}

/// Resolves a signature to its Cayley table, preferring the store and falling
/// back to computation. `components` are the request's signature entries
/// (`None` for one that is not a non-negative integer). With
/// `force_recompute` the store is neither read nor written. The store is
/// `None` when it is absent or cannot be reached. A hit counts in the usage
/// counters, at time `now_ms` (milliseconds since the Unix epoch); nothing
/// else is ever written: a computed table is not stored.
pub fn get_cayley_table(
    store: &mut Option<TableStore>,
    components: &Vec<Option<u64>>,
    force_recompute: bool,
    now_ms: i64,
) -> (res: Result<TableResponse, CayleyError>)
    requires
        *old(store) matches Some(st) ==> st.wf(),
    ensures
        !well_formed_components(components@) <==> res == Err::<TableResponse, CayleyError>(
            CayleyError::InvalidSignature,
        ),
        well_formed_components(components@) && !components_within_cap(components@) <==> res
            == Err::<TableResponse, CayleyError>(CayleyError::DimensionTooLarge),
        well_formed_components(components@) && components_within_cap(components@) <==> res is Ok,
        res matches Ok(r) ==> {
            let sig = signature_of(components@);
            &&& well_formed_components(components@)
            &&& sig.within_cap()
            &&& r.signature == sig
            &&& r.dimensions == sig.dims()
            &&& r.basis_count == sig.basis()
            &&& r.table.basis_count == sig.basis()
            &&& r.table.wf()
            &&& r.table@ == served_table(*old(store), sig, force_recompute)
            &&& (r.source == TableSource::Cached) == (cache_hit(*old(store), sig, force_recompute) is Some)
            &&& (r.source == TableSource::Cached) == (r.checksum is Some)
            &&& r.checksum matches Some(c) ==> old(store).unwrap().holds(sig) && c@ == old(store).unwrap().record(sig).checksum
        },
        old(store).is_none() <==> final(store).is_none(),
        *final(store) matches Some(st) ==> st.wf() && st.entries() == old(store).unwrap().entries(),
        res matches Ok(r) ==> (r.source == TableSource::Computed ==> *final(store) == *old(store)),
        res matches Ok(r) ==> (r.source == TableSource::Cached ==> {
            let sig = signature_of(components@);
            let before = old(store).unwrap();
            let after = final(store).unwrap();
            &&& after.usage_of(sig) == Some(
                after_hit(sig, before.usage_of(sig), before.record(sig).computation_time_ms, now_ms),
            )
            &&& forall|s: Signature| s != sig ==> after.usage_of(s) == before.usage_of(s)
        }),
        res is Err ==> *final(store) == *old(store),
{
    let start = std::time::Instant::now();
    let sig = match validate_signature(components) {
        Ok(s) => s,
        Err(e) => {
            return Err(e);
        },
    };
    if !force_recompute {
        let taken = store.take();
        match taken {
            Some(mut st) => {
                let found = match st.lookup(&sig) {
                    Some(rec) => match verify_record(rec, &sig) {
                        Some(t) => Some((t, rec.checksum.clone(), rec.computation_time_ms)),
                        None => None,
                    },
                    None => None,
                };
                match found {
                    Some((t, c, saved)) => {
                        st.record_usage(&sig, saved, now_ms);
                        *store = Some(st);
                        let ms = elapsed_ms(&start);
                        return Ok(
                            TableResponse {
                                signature: sig,
                                dimensions: sig.dimensions(),
                                basis_count: sig.basis_count(),
                                table: t,
                                source: TableSource::Cached,
                                computation_time_ms: ms,
                                checksum: Some(c),
                            },
                        );
                    },
                    None => {
                        *store = Some(st);
                    },
                }
            },
            None => {},
        }
    }
    let t = match compute_cayley_table_for_signature(&sig) {
        Ok(t) => t,
        Err(e) => {
            return Err(e);
        },
    };
    let ms = elapsed_ms(&start);
    Ok(
        TableResponse {
            signature: sig,
            dimensions: sig.dimensions(),
            basis_count: sig.basis_count(),
            table: t,
            source: TableSource::Computed,
            computation_time_ms: ms,
            checksum: None,
        },
    )
}

} // verus!
