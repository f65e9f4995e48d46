//! Target-quality search: pick a CRF whose perceptual score lands inside a
//! target band, probing as few rate points as possible. Scores are handled
//! in thousandths, CRF values in hundredths, so the search itself is exact
//! integer arithmetic; the metric runs outside and only its value comes in.

use vstd::prelude::*;
use crate::enc::{spec_crf_str, spec_zero_pad, spec_dec, crf_str, u64_to_dec, zero_pad};
use vstd::string::StringSliceAdditionalSpecFns;

verus! {

/// Outcome of scoring one probe.
#[derive(Clone, Copy, Debug, PartialEq, Eq, Structural)]
pub enum TqOutcome {
    /// The probe's score is inside the target band: it wins.
    Accepted(u32),
    /// The band was missed; the bracket has been narrowed, probe again.
    Continue,
    /// No CRF in the bracket can reach the band.
    Exhausted,
}

/// One chunk's search state: the CRF bracket still worth probing, in
/// hundredths, and the score band to hit, in thousandths.
pub struct TqSearch {
    pub lo: u32,
    pub hi: u32,
    pub target_lo: u32,
    pub target_hi: u32,
}

/// A search state is well formed while its score band is ordered.
pub open spec fn tq_wf(s: TqSearch) -> bool {
    s.target_lo <= s.target_hi
}

impl TqSearch {
    /// Start a search over `[crf_lo, crf_hi]` aiming at scores in
    /// `[score_lo, score_hi]`.
    pub fn new(crf_lo: u32, crf_hi: u32, score_lo: u32, score_hi: u32) -> (r: TqSearch)
        requires
            crf_lo <= crf_hi,
            score_lo <= score_hi,
        ensures
            r.lo == crf_lo,
            r.hi == crf_hi,
            r.target_lo == score_lo,
            r.target_hi == score_hi,
            tq_wf(r),
    {
        TqSearch { lo: crf_lo, hi: crf_hi, target_lo: score_lo, target_hi: score_hi }
    }

    /// The CRF to probe next: the middle of the bracket, or nothing once
    /// the bracket is empty.
    pub fn current_probe(&self) -> (r: Option<u32>)
        ensures
            self.lo <= self.hi ==> r == Some((self.lo + (self.hi - self.lo) / 2) as u32),
            self.lo > self.hi ==> r is None,
    {
        if self.lo <= self.hi {
            Some(self.lo + (self.hi - self.lo) / 2)
        } else {
            None
        }
    }

    /// Take the metric's verdict on a probe at `crf`. A score inside the
    /// band accepts the probe. A score above the band means the quality is
    /// higher than asked: every smaller CRF would overshoot too, so the
    /// bracket keeps only CRFs above the probe. A score below the band
    /// keeps only CRFs below it. An empty bracket ends the search. When
    /// the probe lay inside the bracket and the search goes on, the
    /// bracket is strictly narrower than before: the search terminates.
    pub fn observe(&mut self, crf: u32, score_milli: u32) -> (r: TqOutcome)
        requires
            tq_wf(*old(self)),
        ensures
            final(self).target_lo == old(self).target_lo,
            final(self).target_hi == old(self).target_hi,
            old(self).target_lo <= score_milli <= old(self).target_hi ==> r == TqOutcome::Accepted(
                crf,
            ) && *final(self) == *old(self),
            score_milli > old(self).target_hi && crf < u32::MAX ==> final(self).lo == crf + 1
                && final(self).hi == old(self).hi && (r == if final(self).lo <= final(self).hi {
                TqOutcome::Continue
            } else {
                TqOutcome::Exhausted
            }),
            score_milli > old(self).target_hi && crf == u32::MAX ==> r == TqOutcome::Exhausted
                && final(self).lo > final(self).hi,
            score_milli < old(self).target_lo && crf > 0 ==> final(self).hi == crf - 1 && final(self).lo == old(self).lo && (r == if final(self).lo <= final(self).hi {
                TqOutcome::Continue
            } else {
                TqOutcome::Exhausted
            }),
            score_milli < old(self).target_lo && crf == 0 ==> r == TqOutcome::Exhausted && final(self).lo > final(self).hi,
            r == TqOutcome::Continue && old(self).lo <= crf <= old(self).hi ==> final(self).hi
                - final(self).lo < old(self).hi - old(self).lo,
    {
        if self.target_lo <= score_milli && score_milli <= self.target_hi {
            TqOutcome::Accepted(crf)
        } else if score_milli > self.target_hi {
            if crf == u32::MAX {
                self.lo = 1;
                self.hi = 0;
                return TqOutcome::Exhausted;
            }
            self.lo = crf + 1;
            if self.lo <= self.hi {
                TqOutcome::Continue
            } else {
                TqOutcome::Exhausted
            }
        } else {
            if crf == 0 {
                self.lo = 1;
                self.hi = 0;
                return TqOutcome::Exhausted;
            }
            self.hi = crf - 1;
            if self.lo <= self.hi {
                TqOutcome::Continue
            } else {
                TqOutcome::Exhausted
            }
        }
    }
}

/// The file name of one probe: the chunk index and the probed CRF, so a
/// name is unique per chunk and rate point and a probe is never encoded
/// twice.
pub open spec fn spec_probe_name(idx: u32, centi: u32) -> Seq<u8> {
    spec_zero_pad(spec_dec(idx as int), 4) + ("_").spec_bytes() + spec_crf_str(centi) + (
    ".ivf").spec_bytes()
}

/// Name of the probe file for a chunk at a rate point.
pub fn probe_name(idx: u32, centi: u32) -> (r: Vec<u8>)
    ensures
        r@ == spec_probe_name(idx, centi),
{
    let mut v = zero_pad(u64_to_dec(idx as u64), 4);
    let mut sep = crate::enc::arg_vec("_");
    v.append(&mut sep);
    let mut c = crf_str(centi);
    v.append(&mut c);
    let mut suffix = crate::enc::arg_vec(".ivf");
    v.append(&mut suffix);
    v
}

/// One remembered probe: its name and the rate point and score it got.
pub struct ProbeRecord {
    pub name: Vec<u8>,
    pub crf_centi: u32,
    pub score_milli: u32,
}

/// The memo of probes already encoded and scored, shared by the workers;
/// at most one record per probe name.
pub struct ProbeMemo {
    pub records: Vec<ProbeRecord>,
}

/// Whether the memo holds a record under this name.
pub open spec fn spec_memo_has(records: Seq<ProbeRecord>, name: Seq<u8>) -> bool {
    exists|i: int| 0 <= i < records.len() && records[i].name@ == name
}

/// At most one record per name.
pub open spec fn memo_wf(records: Seq<ProbeRecord>) -> bool {
    forall|i: int, j: int| 0 <= i < j < records.len() ==> records[i].name@ != records[j].name@
}

impl ProbeMemo {
    /// An empty memo.
    pub fn new() -> (r: ProbeMemo)
        ensures
            r.records@.len() == 0,
            memo_wf(r.records@),
    {
        ProbeMemo { records: Vec::new() }
    }

    /// Look a probe up by name; what comes back is a recorded rate point
    /// and score, so an identical probe is never recomputed.
    pub fn find(&self, name: &Vec<u8>) -> (r: Option<(u32, u32)>)
        ensures
            r is Some <==> spec_memo_has(self.records@, name@),
            r matches Some(p) ==> exists|i: int|
                0 <= i < self.records@.len() && self.records@[i].name@ == name@ && (#[trigger] self.records@[i]).crf_centi == p.0
                    && self.records@[i].score_milli == p.1,
    {
        let n = self.records.len();
        let mut i: usize = 0;
        while i < n
            invariant
                n == self.records@.len(),
                i <= n,
                forall|k: int| 0 <= k < i ==> (#[trigger] self.records@[k]).name@ != name@,
            decreases n - i,
        {
            if crate::args::vec_eq(&self.records[i].name, name) {
                return Some((self.records[i].crf_centi, self.records[i].score_milli));
            }
            i += 1;
        }
        None
    }

    /// Record a scored probe; a name already present is left as it was.
    pub fn insert(&mut self, name: Vec<u8>, crf_centi: u32, score_milli: u32)
        ensures
            spec_memo_has(old(self).records@, name@) ==> final(self).records@ == old(self).records@,
            !spec_memo_has(old(self).records@, name@) ==> final(self).records@.len() == old(self).records@.len() + 1 && final(self).records@.last().name@ == name@ && final(self).records@.last().crf_centi == crf_centi && final(self).records@.last().score_milli
                == score_milli && final(self).records@.drop_last() == old(self).records@,
            memo_wf(old(self).records@) ==> memo_wf(final(self).records@),
    {
        if self.find(&name).is_none() {
            let ghost before = self.records@;
            self.records.push(ProbeRecord { name, crf_centi, score_milli });
            proof {
                assert(final(self).records@.drop_last() =~= before);
            }
        }
    }
}

/// The RGB row stride the metric pipeline uses: two bytes per sample,
/// rounded up to a multiple of 32 bytes.
pub fn rgb_stride(width: u32) -> (r: u32)
    requires
        width * 2 + 31 <= u32::MAX,
    ensures
        r == ((width * 2 + 31) as int / 32) * 32,
        r % 32 == 0,
        r >= width * 2,
{
    let r = ((width * 2).checked_add(31).unwrap_or(u32::MAX) / 32) * 32;
    proof {
        assert(((width * 2 + 31) as int / 32) * 32 >= width * 2) by (nonlinear_arith);
        assert((((width * 2 + 31) as int / 32) * 32) % 32 == 0) by (nonlinear_arith);
    }
    r
}

} // verus!
