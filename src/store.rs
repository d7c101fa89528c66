use crate::signature::{CayleyError, Signature};
use vstd::prelude::*;

verus! {

/// A stored table: the signature it belongs to, its size, the encoded
/// payload, the checksum of the decoded tensor, when and how fast it was
/// computed, and metadata on its encoding and provenance.
#[derive(Debug)]
pub struct CayleyTableRecord {
    pub signature: Signature,
    pub dimensions: u64,
    pub basis_count: u64,
    pub payload: Vec<u8>,
    pub checksum: String,
    pub computed_at_ms: i64,
    pub computation_time_ms: u64,
    pub encoding: String,
    pub precomputed: bool,
}

/// What a record holds, as values.
pub ghost struct RecordView {
    pub signature: Signature,
    pub dimensions: u64,
    pub basis_count: u64,
    pub payload: Seq<u8>,
    pub checksum: Seq<char>,
    pub computed_at_ms: i64,
    pub computation_time_ms: u64,
    pub encoding: Seq<char>,
    pub precomputed: bool,
}

impl View for CayleyTableRecord {
    type V = RecordView;

    open spec fn view(&self) -> RecordView {
        RecordView {
            signature: self.signature,
            dimensions: self.dimensions,
            basis_count: self.basis_count,
            payload: self.payload@,
            checksum: self.checksum@,
            computed_at_ms: self.computed_at_ms,
            computation_time_ms: self.computation_time_ms,
            encoding: self.encoding@,
            precomputed: self.precomputed,
        }
    }
}

/// Per-signature usage counters: cache hits, computation time they saved,
/// and the time of the last hit.
#[derive(Debug, Clone, Copy, PartialEq, Eq, Structural)]
pub struct UsageStat {
    pub signature: Signature,
    pub hit_count: u64,
    pub time_saved_ms: u64,
    pub last_access_ms: i64,
}

/// No two entries share a signature.
pub open spec fn unique_records(s: Seq<RecordView>) -> bool {
    forall|i: int, j: int|
        0 <= i < s.len() && 0 <= j < s.len() && i != j ==> s[i].signature != s[j].signature
}

/// No two counters share a signature.
pub open spec fn unique_usage(s: Seq<UsageStat>) -> bool {
    forall|i: int, j: int|
        0 <= i < s.len() && 0 <= j < s.len() && i != j ==> s[i].signature != s[j].signature
}

/// The counter of `sig` after one more hit at `now_ms` that saved
/// `saved_ms` of computation; counts stop at the largest `u64` rather than
/// wrap.
pub open spec fn after_hit(sig: Signature, u: Option<UsageStat>, saved_ms: u64, now_ms: i64) -> UsageStat {
    match u {
        Some(u) => UsageStat {
            signature: sig,
            hit_count: if u.hit_count < u64::MAX {
                (u.hit_count + 1) as u64
            } else {
                u.hit_count
            },
            time_saved_ms: if u.time_saved_ms <= u64::MAX - saved_ms {
                (u.time_saved_ms + saved_ms) as u64
            } else {
                u64::MAX
            },
            last_access_ms: now_ms,
        },
        None => UsageStat { signature: sig, hit_count: 1, time_saved_ms: saved_ms, last_access_ms: now_ms },
    }
}

/// The counter for `sig` in a sequence of counters, if any.
pub open spec fn usage_in(s: Seq<UsageStat>, sig: Signature) -> Option<UsageStat> {
    if exists|i: int| 0 <= i < s.len() && (#[trigger] s[i]).signature == sig {
        let i = choose|i: int| 0 <= i < s.len() && (#[trigger] s[i]).signature == sig;
        Some(s[i])
    } else {
        None
    }
}

proof fn lemma_usage_at(s: Seq<UsageStat>, k: int)
    requires
        unique_usage(s),
        0 <= k < s.len(),
    ensures
        usage_in(s, s[k].signature) == Some(s[k]),
{
    let sig = s[k].signature;
    let i = choose|i: int| 0 <= i < s.len() && (#[trigger] s[i]).signature == sig;
    assert(i == k);
}

proof fn lemma_usage_absent(s: Seq<UsageStat>, sig: Signature)
    requires
        forall|k: int| 0 <= k < s.len() ==> (#[trigger] s[k]).signature != sig,
    ensures
        usage_in(s, sig) is None,
{
}

/// Total payload size of a run of records.
pub open spec fn payload_bytes(s: Seq<RecordView>) -> nat
    decreases s.len(),
{
    if s.len() == 0 {
        0
    } else {
        payload_bytes(s.drop_last()) + s.last().payload.len()
    }
}

/// Total computation time of a run of records.
pub open spec fn time_total(s: Seq<RecordView>) -> nat
    decreases s.len(),
{
    if s.len() == 0 {
        0
    } else {
        time_total(s.drop_last()) + s.last().computation_time_ms as nat
    }
}

/// Number of records whose signature is among `sigs`.
pub open spec fn count_among(s: Seq<RecordView>, sigs: Seq<Signature>) -> nat
    decreases s.len(),
{
    if s.len() == 0 {
        0
    } else {
        count_among(s.drop_last(), sigs) + if sigs.contains(s.last().signature) {
            1nat
        } else {
            0nat
        }
    }
}

/// Earliest computation time of a non-empty run of records.
pub open spec fn earliest(s: Seq<RecordView>) -> i64
    decreases s.len(),
{
    if s.len() <= 1 {
        s[0].computed_at_ms
    } else if earliest(s.drop_last()) <= s.last().computed_at_ms {
        earliest(s.drop_last())
    } else {
        s.last().computed_at_ms
    }
}

/// Latest computation time of a non-empty run of records.
pub open spec fn latest(s: Seq<RecordView>) -> i64
    decreases s.len(),
{
    if s.len() <= 1 {
        s[0].computed_at_ms
    } else if latest(s.drop_last()) >= s.last().computed_at_ms {
        latest(s.drop_last())
    } else {
        s.last().computed_at_ms
    }
}

/// `x`, or the largest `u64` where `x` exceeds it.
pub open spec fn clamp64(x: nat) -> nat {
    if x <= u64::MAX {
        x
    } else {
        u64::MAX as nat
    }
}

/// Durable storage of computed tables, at most one per signature, and of
/// per-signature usage counters.
pub struct TableStore {
    records: Vec<CayleyTableRecord>,
    usage: Vec<UsageStat>,
}

impl TableStore {
    /// The stored records, in the order they were inserted.
    pub closed spec fn entries(&self) -> Seq<RecordView> {
        self.records@.map_values(|r: CayleyTableRecord| r@)
    }

    /// The usage counters.
    pub closed spec fn counters(&self) -> Seq<UsageStat> {
        self.usage@
    }

    /// At most one record and one counter per signature.
    pub open spec fn wf(&self) -> bool {
        unique_records(self.entries()) && unique_usage(self.counters())
    }

    /// A record for `sig` is stored.
    pub open spec fn holds(&self, sig: Signature) -> bool {
        exists|i: int| 0 <= i < self.entries().len() && (#[trigger] self.entries()[i]).signature == sig
    }

    /// The record stored for `sig`.
    pub open spec fn record(&self, sig: Signature) -> RecordView
        recommends
            self.holds(sig),
    {
        let i = choose|i: int| 0 <= i < self.entries().len() && (#[trigger] self.entries()[i]).signature == sig;
        self.entries()[i]
    }

    /// The usage counter for `sig`, if any hit was recorded.
    pub open spec fn usage_of(&self, sig: Signature) -> Option<UsageStat> {
        usage_in(self.counters(), sig)
    }

    /// An empty store.
    pub fn new() -> (s: TableStore)
        ensures
            s.wf(),
            s.entries() == Seq::<RecordView>::empty(),
            s.counters() == Seq::<UsageStat>::empty(),
    {
        let s = TableStore { records: Vec::new(), usage: Vec::new() };
        assert(s.entries() =~= Seq::<RecordView>::empty());
        s
    }

    /// Number of stored records.
    pub fn len(&self) -> (n: usize)
        ensures
            n == self.entries().len(),
    {
        self.records.len()
    }

    /// Total payload size (stopping at the largest `u64`) and total
    /// computation time of the stored records.
    pub fn totals(&self) -> (r: (u64, u128))
        ensures
            r.0 == clamp64(payload_bytes(self.entries())),
            r.1 == time_total(self.entries()),
            r.1 <= self.entries().len() * 0xffff_ffff_ffff_ffffu128,
    {
        let mut bytes: u64 = 0;
        let mut time: u128 = 0;
        let mut i: usize = 0;
        while i < self.records.len()
            invariant
                i <= self.records@.len(),
                self.entries().len() == self.records@.len(),
                bytes == clamp64(payload_bytes(self.entries().subrange(0, i as int))),
                time == time_total(self.entries().subrange(0, i as int)),
                time <= i * 0xffff_ffff_ffff_ffffu128,
            decreases self.records@.len() - i,
        {
            let ghost pre = self.entries().subrange(0, i as int);
            let ghost next = self.entries().subrange(0, i + 1);
            assert(next.drop_last() =~= pre);
            assert(next.last() == self.records@[i as int]@);
            let size = self.records[i].payload.len() as u64;
            bytes = if bytes <= u64::MAX - size {
                bytes + size
            } else {
                u64::MAX
            };
            time = time + self.records[i].computation_time_ms as u128;
            i = i + 1;
        }
        assert(self.entries().subrange(0, i as int) =~= self.entries());
        (bytes, time)
    }

    /// Number of stored records whose signature is among `sigs`.
    pub fn count_among(&self, sigs: &Vec<Signature>) -> (n: u64)
        ensures
            n == count_among(self.entries(), sigs@),
    {
        let mut n: u64 = 0;
        let mut i: usize = 0;
        while i < self.records.len()
            invariant
                i <= self.records@.len(),
                self.entries().len() == self.records@.len(),
                n <= i,
                n == count_among(self.entries().subrange(0, i as int), sigs@),
            decreases self.records@.len() - i,
        {
            let ghost next = self.entries().subrange(0, i + 1);
            assert(next.drop_last() =~= self.entries().subrange(0, i as int));
            assert(next.last() == self.records@[i as int]@);
            let s = self.records[i].signature;
            let mut found = false;
            let mut j: usize = 0;
            while j < sigs.len()
                invariant
                    j <= sigs@.len(),
                    found == exists|x: int| 0 <= x < j && sigs@[x] == s,
                decreases sigs@.len() - j,
            {
                if sigs[j] == s {
                    found = true;
                }
                j = j + 1;
            }
            if found {
                n = n + 1;
            }
            i = i + 1;
        }
        assert(self.entries().subrange(0, i as int) =~= self.entries());
        n
    }

    /// Earliest and latest computation times of the stored records, if any.
    pub fn computed_span(&self) -> (r: Option<(i64, i64)>)
        ensures
            r is None <==> self.entries().len() == 0,
            r matches Some(span) ==> span.0 == earliest(self.entries()) && span.1 == latest(
                self.entries(),
            ),
    {
        if self.records.len() == 0 {
            return None;
        }
        let mut lo = self.records[0].computed_at_ms;
        let mut hi = lo;
        let mut i: usize = 1;
        proof {
            assert(self.entries().subrange(0, 1)[0] == self.records@[0]@);
        }
        while i < self.records.len()
            invariant
                1 <= i <= self.records@.len(),
                self.entries().len() == self.records@.len(),
                lo == earliest(self.entries().subrange(0, i as int)),
                hi == latest(self.entries().subrange(0, i as int)),
            decreases self.records@.len() - i,
        {
            let ghost next = self.entries().subrange(0, i + 1);
            assert(next.drop_last() =~= self.entries().subrange(0, i as int));
            assert(next.last() == self.records@[i as int]@);
            let t = self.records[i].computed_at_ms;
            if t < lo {
                lo = t;
            }
            if t > hi {
                hi = t;
            }
            i = i + 1;
        }
        assert(self.entries().subrange(0, i as int) =~= self.entries());
        Some((lo, hi))
    }

    fn position(&self, sig: &Signature) -> (r: Option<usize>)
        ensures
            r is None <==> !self.holds(*sig),
            r matches Some(i) ==> i < self.entries().len() && self.entries()[i as int].signature
                == *sig,
    {
        let mut i: usize = 0;
        while i < self.records.len()
            invariant
                i <= self.records@.len(),
                self.entries().len() == self.records@.len(),
                forall|k: int| 0 <= k < i ==> (#[trigger] self.entries()[k]).signature != *sig,
            decreases self.records@.len() - i,
        {
            if self.records[i].signature == *sig {
                assert(self.entries()[i as int] == self.records@[i as int]@);
                return Some(i);
            }
            i = i + 1;
        }
        None
    }

    /// The record stored for a signature, if any.
    pub fn lookup(&self, sig: &Signature) -> (r: Option<&CayleyTableRecord>)
        requires
            self.wf(),
        ensures
            r is None <==> !self.holds(*sig),
            r matches Some(rec) ==> rec@ == self.record(*sig),
    {
        match self.position(sig) {
            Some(i) => {
                proof {
                    let j = choose|j: int| 0 <= j < self.entries().len() && (#[trigger] self.entries()[j]).signature == *sig;
                    assert(j == i);
                }
                Some(&self.records[i])
            },
            None => None,
        }
    }

    /// Whether a record is stored for a signature.
    pub fn contains(&self, sig: &Signature) -> (b: bool)
        ensures
            b == self.holds(*sig),
    {
        self.position(sig).is_some()
    }

    /// Stores a record. The first write for a signature wins: a second one is
    /// refused with `DuplicateKey` and leaves the store as it was.
    pub fn insert(&mut self, rec: CayleyTableRecord) -> (res: Result<(), CayleyError>)
        requires
            old(self).wf(),
        ensures
            final(self).wf(),
            final(self).counters() == old(self).counters(),
            old(self).holds(rec.signature) ==> res == Err::<(), CayleyError>(CayleyError::DuplicateKey)
                && final(self).entries() == old(self).entries(),
            !old(self).holds(rec.signature) ==> res == Ok::<(), CayleyError>(()) && final(self).entries()
                == old(self).entries().push(rec@),
    {
        if self.contains(&rec.signature) {
            return Err(CayleyError::DuplicateKey);
        }
        let ghost rv = rec@;
        self.records.push(rec);
        assert(self.entries() =~= old(self).entries().push(rv));
        Ok(())
    }

    /// Removes every record and returns how many there were. Usage counters
    /// are kept.
    pub fn delete_all(&mut self) -> (n: usize)
        requires
            old(self).wf(),
        ensures
            final(self).wf(),
            n == old(self).entries().len(),
            final(self).entries() == Seq::<RecordView>::empty(),
            final(self).counters() == old(self).counters(),
    {
        let n = self.records.len();
        self.records = Vec::new();
        assert(self.entries() =~= Seq::<RecordView>::empty());
        n
    }

    /// The usage counter of a signature, if a hit was ever recorded.
    pub fn usage(&self, sig: &Signature) -> (r: Option<UsageStat>)
        requires
            self.wf(),
        ensures
            r == self.usage_of(*sig),
    {
        let mut i: usize = 0;
        while i < self.usage.len()
            invariant
                i <= self.usage@.len(),
                unique_usage(self.usage@),
                forall|k: int| 0 <= k < i ==> (#[trigger] self.usage@[k]).signature != *sig,
            decreases self.usage@.len() - i,
        {
            if self.usage[i].signature == *sig {
                proof {
                    lemma_usage_at(self.usage@, i as int);
                }
                return Some(self.usage[i]);
            }
            i = i + 1;
        }
        proof {
            lemma_usage_absent(self.usage@, *sig);
        }
        None
    }

    /// Counts a cache hit on `sig` that saved `time_saved_ms` of computation,
    /// at time `now_ms`. Counters stop at their maximum rather than wrap.
    pub fn record_usage(&mut self, sig: &Signature, time_saved_ms: u64, now_ms: i64)
        requires
            old(self).wf(),
        ensures
            final(self).wf(),
            final(self).entries() == old(self).entries(),
            final(self).usage_of(*sig) == Some(after_hit(*sig, old(self).usage_of(*sig), time_saved_ms, now_ms)),
            forall|s: Signature| s != *sig ==> final(self).usage_of(s) == old(self).usage_of(s),
    {
        let mut i: usize = 0;
        while i < self.usage.len()
            invariant
                i <= self.usage@.len(),
                self == old(self),
                old(self).wf(),
                unique_usage(self.usage@),
                forall|k: int| 0 <= k < i ==> (#[trigger] self.usage@[k]).signature != *sig,
            decreases self.usage@.len() - i,
        {
            if self.usage[i].signature == *sig {
                let u = self.usage[i];
                let next = UsageStat {
                    signature: *sig,
                    hit_count: if u.hit_count < u64::MAX {
                        u.hit_count + 1
                    } else {
                        u.hit_count
                    },
                    time_saved_ms: if u.time_saved_ms <= u64::MAX - time_saved_ms {
                        u.time_saved_ms + time_saved_ms
                    } else {
                        u64::MAX
                    },
                    last_access_ms: now_ms,
                };
                proof {
                    lemma_usage_at(self.usage@, i as int);
                }
                self.usage.set(i, next);
                proof {
                    assert(unique_usage(self.usage@));
                    assert(self.entries() == old(self).entries());
                    assert(unique_records(self.entries()));
                    lemma_usage_at(self.usage@, i as int);
                    assert forall|s: Signature| s != *sig implies self.usage_of(s) == old(self).usage_of(s) by {
                        let o = old(self).usage@;
                        if exists|k: int| 0 <= k < o.len() && (#[trigger] o[k]).signature == s {
                            let k = choose|k: int| 0 <= k < o.len() && (#[trigger] o[k]).signature == s;
                            lemma_usage_at(o, k);
                            lemma_usage_at(self.usage@, k);
                        } else {
                            assert forall|k: int| 0 <= k < self.usage@.len() implies (#[trigger] self.usage@[k]).signature != s by {
                                if k != i {
                                    assert(self.usage@[k] == o[k]);
                                }
                            }
                            lemma_usage_absent(self.usage@, s);
                        }
                    }
                }
                return;
            }
            i = i + 1;
        }
        let fresh = UsageStat { signature: *sig, hit_count: 1, time_saved_ms, last_access_ms: now_ms };
        proof {
            lemma_usage_absent(self.usage@, *sig);
        }
        self.usage.push(fresh);
        proof {
            let o = old(self).usage@;
            let n = o.len();
            assert(unique_usage(self.usage@));
            lemma_usage_at(self.usage@, n as int);
            assert forall|s: Signature| s != *sig implies self.usage_of(s) == old(self).usage_of(s) by {
                if exists|k: int| 0 <= k < o.len() && (#[trigger] o[k]).signature == s {
                    let k = choose|k: int| 0 <= k < o.len() && (#[trigger] o[k]).signature == s;
                    lemma_usage_at(o, k);
                    lemma_usage_at(self.usage@, k);
                } else {
                    lemma_usage_absent(self.usage@, s);
                }
            }
        }
    }
}

} // verus!
