//! Progress arithmetic: everything the terminal display shows is computed
//! here from plain counters, so the rendering layer only formats numbers.

use vstd::prelude::*;
use vstd::string::StringSliceAdditionalSpecFns;

verus! {

/// The display bar is 32 cells wide.
pub const BAR_WIDTH: usize = 32;

/// A non-negative mathematical value clipped to what a `usize` can hold.
pub open spec fn sat_usize(x: int) -> int {
    if x <= usize::MAX as int {
        x
    } else {
        usize::MAX as int
    }
}

/// State of the one-line indexing / scene-detection bar.
pub struct ProgsBar {
    pub last_val: usize,
    pub tot: usize,
    pub quiet: bool,
}

/// The numbers one bar tick renders: bar cells filled, percent, the rate,
/// the time left, and the progress pair shown on the right.
pub struct BarReport {
    pub filled: usize,
    pub perc: usize,
    pub rate: usize,
    pub eta_secs: usize,
    pub current: usize,
    pub tot: usize,
}

/// What one tick must show for a step `current` of `tot` after
/// `elapsed_secs`: the bar fill and percent are clamped, the rate divides
/// by at least one second, and the time left scales elapsed time by the
/// remaining share.
pub open spec fn spec_bar_report(current: int, tot: int, elapsed_secs: int, rate_base: int) -> (
    int,
    int,
    int,
    int,
) {
    let filled_raw = (32 * current) / (if tot >= 1 {
        tot
    } else {
        1
    });
    let filled = if filled_raw <= 32 {
        filled_raw
    } else {
        32
    };
    let perc_raw = (100 * current) / (if tot >= 1 {
        tot
    } else {
        1
    });
    let perc = if perc_raw <= 100 {
        perc_raw
    } else {
        100
    };
    let rate = rate_base / (if elapsed_secs >= 1 {
        elapsed_secs
    } else {
        1
    });
    let remaining = if tot >= current {
        tot - current
    } else {
        0
    };
    let eta = sat_usize((remaining * elapsed_secs) / (if current >= 1 {
        current
    } else {
        1
    }));
    (filled, perc, rate, eta)
}

/// Clamped bar cells for `current` of `tot`.
fn bar_fill(current: usize, tot: usize) -> (r: usize)
    ensures
        ({
            let raw = (32 * current) as int / (if tot >= 1 {
                tot as int
            } else {
                1
            });
            r == if raw <= 32 {
                raw
            } else {
                32
            }
        }),
{
    let t = if tot >= 1 {
        tot as u128
    } else {
        1
    };
    let raw = (32u128 * (current as u128)) / t;
    if raw >= 32 {
        32
    } else {
        raw as usize
    }
}

/// Clamped percent for `current` of `tot`.
fn percent(current: usize, tot: usize) -> (r: usize)
    ensures
        ({
            let raw = (100 * current) as int / (if tot >= 1 {
                tot as int
            } else {
                1
            });
            r == if raw <= 100 {
                raw
            } else {
                100
            }
        }),
{
    let t = if tot >= 1 {
        tot as u128
    } else {
        1
    };
    let raw = (100u128 * (current as u128)) / t;
    if raw >= 100 {
        100
    } else {
        raw as usize
    }
}

/// `remaining * elapsed / max(current, 1)`, saturated.
fn eta_estimate(remaining: usize, elapsed_secs: usize, current: usize) -> (r: usize)
    ensures
        r == sat_usize((remaining as int * elapsed_secs as int) / (if current >= 1 {
            current as int
        } else {
            1
        })),
{
    let c = if current >= 1 {
        current as u128
    } else {
        1
    };
    let a = remaining as u128;
    let b = elapsed_secs as u128;
    proof {
        vstd::arithmetic::mul::lemma_mul_upper_bound(
            a as int,
            u64::MAX as int,
            b as int,
            u64::MAX as int,
        );
    }
    let raw = (a * b) / c;
    if raw > usize::MAX as u128 {
        usize::MAX
    } else {
        raw as usize
    }
}

impl ProgsBar {
    /// A fresh bar; a quiet one never renders.
    pub fn new(quiet: bool) -> (r: Self)
        ensures
            r.last_val == 0,
            r.tot == 0,
            r.quiet == quiet,
    {
        ProgsBar { last_val: 0, tot: 0, quiet }
    }

    /// One indexing tick: `current` of `tot` bytes after `elapsed_secs`.
    /// The rate shown is megabytes per second. Quiet bars change nothing
    /// and render nothing.
    pub fn up_idx(&mut self, current: usize, tot: usize, elapsed_secs: usize) -> (r: Option<
        BarReport,
    >)
        ensures
            old(self).quiet ==> r is None && *final(self) == *old(self),
            !old(self).quiet ==> ({
                let mb: int = current as int / (1024int * 1024);
                let (filled, perc, rate, eta) = spec_bar_report(
                    current as int,
                    tot as int,
                    elapsed_secs as int,
                    mb,
                );
                &&& final(self).tot == tot
                &&& final(self).last_val == current
                &&& final(self).quiet == old(self).quiet
                &&& r matches Some(b) && b.filled == filled && b.perc == perc && b.rate == rate
                    && b.eta_secs == eta && b.current == mb && b.tot == tot as int / (1024int * 1024)
            }),
    {
        if self.quiet {
            return None;
        }
        self.tot = tot;
        self.last_val = current;
        let mb = current / (1024 * 1024);
        let remaining = if tot >= current {
            tot - current
        } else {
            0
        };
        let report = BarReport {
            filled: bar_fill(current, tot),
            perc: percent(current, tot),
            rate: mb / (if elapsed_secs >= 1 {
                elapsed_secs
            } else {
                1
            }),
            eta_secs: eta_estimate(remaining, elapsed_secs, current),
            current: mb,
            tot: tot / (1024 * 1024),
        };
        Some(report)
    }

    /// One scene-detection tick: `current` of `tot` frames after
    /// `elapsed_secs`. The rate shown is frames per second.
    pub fn up_scenes(&mut self, current: usize, tot: usize, elapsed_secs: usize) -> (r: Option<
        BarReport,
    >)
        ensures
            old(self).quiet ==> r is None && *final(self) == *old(self),
            !old(self).quiet ==> ({
                let (filled, perc, rate, eta) = spec_bar_report(
                    current as int,
                    tot as int,
                    elapsed_secs as int,
                    current as int,
                );
                &&& final(self).tot == tot
                &&& final(self).last_val == current
                &&& final(self).quiet == old(self).quiet
                &&& r matches Some(b) && b.filled == filled && b.perc == perc && b.rate == rate
                    && b.eta_secs == eta && b.current == current && b.tot == tot
            }),
    {
        if self.quiet {
            return None;
        }
        self.tot = tot;
        self.last_val = current;
        let remaining = if tot >= current {
            tot - current
        } else {
            0
        };
        let report = BarReport {
            filled: bar_fill(current, tot),
            perc: percent(current, tot),
            rate: current / (if elapsed_secs >= 1 {
                elapsed_secs
            } else {
                1
            }),
            eta_secs: eta_estimate(remaining, elapsed_secs, current),
            current,
            tot,
        };
        Some(report)
    }
}

/// A duration split into hours, minutes and seconds.
pub fn dur_parts(secs: u64) -> (r: (u64, u64, u64))
    ensures
        r.0 == secs / 3600,
        r.1 == (secs % 3600) / 60,
        r.2 == secs % 60,
{
    (secs / 3600, (secs % 3600) / 60, secs % 60)
}

/// Whether `needle` occurs in `hay` at position `i`.
pub open spec fn spec_match_at(hay: Seq<u8>, needle: Seq<u8>, i: int) -> bool {
    0 <= i && i + needle.len() <= hay.len() && hay.subrange(i, i + needle.len()) == needle
}

/// The first position at or after `i` where `needle` occurs, or -1.
pub open spec fn spec_find(hay: Seq<u8>, needle: Seq<u8>, i: int) -> int
    recommends
        0 <= i,
    decreases hay.len() + 1 - i,
{
    if i < 0 {
        -1
    } else if i + needle.len() > hay.len() {
        -1
    } else if spec_match_at(hay, needle, i) {
        i
    } else {
        spec_find(hay, needle, i + 1)
    }
}

fn match_at(hay: &Vec<u8>, needle: &[u8], i: usize) -> (r: bool)
    requires
        i + needle@.len() <= hay@.len(),
    ensures
        r == spec_match_at(hay@, needle@, i as int),
{
    let n = needle.len();
    let hlen = hay.len();
    let mut k: usize = 0;
    while k < n
        invariant
            n == needle@.len(),
            hlen == hay@.len(),
            i + n <= hlen,
            k <= n,
            forall|j: int| 0 <= j < k ==> hay@[i + j] == needle@[j],
        decreases n - k,
    {
        if hay[i + k] != *vstd::slice::slice_index_get(needle, k) {
            proof {
                if spec_match_at(hay@, needle@, i as int) {
                    assert(hay@.subrange(i as int, i + needle@.len())[k as int] == needle@[k as int]);
                }
            }
            return false;
        }
        k += 1;
    }
    proof {
        assert(hay@.subrange(i as int, i + needle@.len()) =~= needle@);
    }
    true
}

/// Find the first occurrence of a literal in a line.
pub fn find_sub(hay: &Vec<u8>, needle: &str) -> (r: Option<usize>)
    ensures
        r is None ==> spec_find(hay@, needle.spec_bytes(), 0) == -1,
        r matches Some(k) ==> k == spec_find(hay@, needle.spec_bytes(), 0) && k + needle.spec_bytes().len() <= hay@.len(),
{
    let nb = needle.as_bytes();
    let nlen = nb.len();
    let hlen = hay.len();
    if nlen > hlen {
        return None;
    }
    if nlen == 0 {
        proof {
            assert(hay@.subrange(0, 0) =~= needle.spec_bytes());
            assert(spec_match_at(hay@, needle.spec_bytes(), 0));
        }
        return Some(0);
    }
    let last = hlen - nlen;
    let mut i: usize = 0;
    while i <= last
        invariant
            nlen == needle.spec_bytes().len(),
            nb@ == needle.spec_bytes(),
            hlen == hay@.len(),
            1 <= nlen <= hlen,
            last == hlen - nlen,
            i <= last + 1,
            spec_find(hay@, needle.spec_bytes(), 0) == spec_find(hay@, needle.spec_bytes(), i as int),
        decreases last + 1 - i,
    {
        if match_at(hay, nb, i) {
            return Some(i);
        }
        i += 1;
    }
    None
}

/// Whether an encoder stderr line reports an error.
pub fn is_error_line(line: &Vec<u8>) -> (r: bool)
    ensures
        r == (spec_find(line@, ("error").spec_bytes(), 0) >= 0),
{
    find_sub(line, "error").is_some()
}

/// Whether an encoder stderr line carries a frame counter: it speaks of
/// encoding and is not the closing summary.
pub fn is_progress_line(line: &Vec<u8>) -> (r: bool)
    ensures
        r == (spec_find(line@, ("Encoding:").spec_bytes(), 0) >= 0 && spec_find(
            line@,
            ("SUMMARY").spec_bytes(),
            0,
        ) < 0),
{
    find_sub(line, "Encoding:").is_some() && find_sub(line, "SUMMARY").is_none()
}

/// A digit or the slash of a `done/total` pair.
pub open spec fn spec_dig_or_slash(b: u8) -> bool {
    (48 <= b <= 57) || b == 47
}

/// Walk left from `p` over digits and slashes to the start of the counter.
pub open spec fn spec_scan_start(s: Seq<u8>, p: int) -> int
    decreases p,
{
    if p <= 0 {
        0
    } else if spec_dig_or_slash(s[p - 1]) {
        spec_scan_start(s, p - 1)
    } else {
        p
    }
}

/// What the frame counter of a progress line holds: the digits of the
/// `done/total Frames` pair just before ` Frames`, up to the first slash,
/// parsed as a number; nothing when the line has no such counter.
pub open spec fn spec_frame_cnt(s: Seq<u8>) -> Option<usize> {
    let p = spec_find(s, (" Frames").spec_bytes(), 0);
    if p < 0 {
        None
    } else {
        let st = spec_scan_start(s, p);
        let num = s.subrange(st, p);
        let cut = spec_find(num, ("/").spec_bytes(), 0);
        let seg = if cut < 0 {
            num
        } else {
            num.subrange(0, cut)
        };
        crate::args::spec_parse_usize(seg)
    }
}

fn dig_or_slash_before(v: &Vec<u8>, p: usize) -> (r: bool)
    requires
        0 < p <= v@.len(),
    ensures
        r == spec_dig_or_slash(v@[p - 1]),
{
    let b = v[p - 1];
    (48 <= b && b <= 57) || b == 47
}

/// Read the frames-encoded-so-far counter out of one encoder stderr line.
pub fn get_frame_cnt(line: &Vec<u8>) -> (r: Option<usize>)
    ensures
        r == spec_frame_cnt(line@),
{
    match find_sub(line, " Frames") {
        None => None,
        Some(p) => {
            let mut st: usize = p;
            while st > 0 && dig_or_slash_before(line, st)
                invariant
                    p <= line@.len(),
                    st <= p,
                    spec_scan_start(line@, p as int) == spec_scan_start(line@, st as int),
                decreases st,
            {
                st -= 1;
            }
            let num = crate::args::copy_range(line, st, p);
            let seg = match find_sub(&num, "/") {
                None => num,
                Some(c) => crate::args::copy_range(&num, 0, c),
            };
            crate::args::parse_usize(&seg)
        },
    }
}

/// Counters and totals behind the multi-line encode display.
pub struct ProgsTrack {
    pub tot_chunks: usize,
    pub tot_frames: usize,
    pub init_frames: usize,
    pub worker_cnt: usize,
    pub fps_num: usize,
    pub fps_den: usize,
    pub processed: usize,
    pub completed: usize,
}

/// The numbers one encode-progress render shows.
pub struct EncReport {
    pub frames_done: usize,
    pub new_frames: usize,
    pub remaining: usize,
    pub eta_secs: usize,
    pub chunks_done: usize,
    pub tot_chunks: usize,
    pub tot_frames: usize,
    pub bar_filled: usize,
    pub perc: usize,
}

/// What one render must show, given the tracker state, the elapsed time,
/// and the frame total of the resume store: frames done is the larger of
/// the stderr counter and the store's total; the time left scales elapsed
/// time by the share of frames still missing, counting only frames done in
/// this session; bar and percent are clamped.
pub open spec fn spec_enc_report(t: ProgsTrack, elapsed_secs: int, completed_frames: int) -> EncReport {
    let cf = sat_usize(completed_frames);
    let frames_done = if cf > t.processed {
        cf
    } else {
        t.processed as int
    };
    let new_frames = if frames_done >= t.init_frames {
        frames_done - t.init_frames
    } else {
        0
    };
    let remaining = if t.tot_frames >= frames_done {
        t.tot_frames - frames_done
    } else {
        0
    };
    let eta = sat_usize((remaining * elapsed_secs) / (if new_frames >= 1 {
        new_frames
    } else {
        1
    }));
    let bar_raw = (32 * frames_done) / (if t.tot_frames >= 1 {
        t.tot_frames as int
    } else {
        1
    });
    let perc_raw = (100 * frames_done) / (if t.tot_frames >= 1 {
        t.tot_frames as int
    } else {
        1
    });
    EncReport {
        frames_done: frames_done as usize,
        new_frames: new_frames as usize,
        remaining: remaining as usize,
        eta_secs: eta as usize,
        chunks_done: t.completed,
        tot_chunks: t.tot_chunks,
        tot_frames: t.tot_frames,
        bar_filled: if bar_raw <= 32 {
            bar_raw as usize
        } else {
            32
        },
        perc: if perc_raw <= 100 {
            perc_raw as usize
        } else {
            100
        },
    }
}

impl ProgsTrack {
    /// A tracker for a run over the given chunks; `init_frames` and
    /// `completed` carry what a resumed run already finished.
    pub fn new(
        chunks: &Vec<crate::chunk::Chunk>,
        inf: &crate::video::VidInf,
        worker_cnt: usize,
        init_frames: usize,
        completed: usize,
    ) -> (r: Self)
        ensures
            r.tot_chunks == chunks@.len(),
            r.tot_frames == inf.frames,
            r.init_frames == init_frames,
            r.worker_cnt == worker_cnt,
            r.fps_num == inf.fps_num,
            r.fps_den == inf.fps_den,
            r.processed == init_frames,
            r.completed == completed,
    {
        ProgsTrack {
            tot_chunks: chunks.len(),
            tot_frames: inf.frames,
            init_frames,
            worker_cnt,
            fps_num: inf.fps_num as usize,
            fps_den: inf.fps_den as usize,
            processed: init_frames,
            completed,
        }
    }

    /// Add newly observed frames to the running stderr counter.
    pub fn note_frames(&mut self, diff: usize)
        ensures
            final(self).processed == sat_usize(old(self).processed + diff),
            final(self).completed == old(self).completed,
            final(self).tot_chunks == old(self).tot_chunks,
            final(self).tot_frames == old(self).tot_frames,
            final(self).init_frames == old(self).init_frames,
            final(self).worker_cnt == old(self).worker_cnt,
            final(self).fps_num == old(self).fps_num,
            final(self).fps_den == old(self).fps_den,
    {
        self.processed = match self.processed.checked_add(diff) {
            Some(v) => v,
            None => usize::MAX,
        };
    }

    /// Count one more finished chunk.
    pub fn note_completed(&mut self)
        ensures
            final(self).completed == sat_usize(old(self).completed + 1),
            final(self).processed == old(self).processed,
            final(self).tot_chunks == old(self).tot_chunks,
            final(self).tot_frames == old(self).tot_frames,
            final(self).init_frames == old(self).init_frames,
            final(self).worker_cnt == old(self).worker_cnt,
            final(self).fps_num == old(self).fps_num,
            final(self).fps_den == old(self).fps_den,
    {
        self.completed = match self.completed.checked_add(1) {
            Some(v) => v,
            None => usize::MAX,
        };
    }

    /// The numbers of one encode-progress render.
    pub fn encode_report(&self, elapsed_secs: usize, completed_frames: u64) -> (r: EncReport)
        ensures
            r == spec_enc_report(*self, elapsed_secs as int, completed_frames as int),
    {
        let cf = if completed_frames > usize::MAX as u64 {
            usize::MAX
        } else {
            completed_frames as usize
        };
        let frames_done = if cf > self.processed {
            cf
        } else {
            self.processed
        };
        let new_frames = if frames_done >= self.init_frames {
            frames_done - self.init_frames
        } else {
            0
        };
        let remaining = if self.tot_frames >= frames_done {
            self.tot_frames - frames_done
        } else {
            0
        };
        EncReport {
            frames_done,
            new_frames,
            remaining,
            eta_secs: eta_estimate(remaining, elapsed_secs, new_frames),
            chunks_done: self.completed,
            tot_chunks: self.tot_chunks,
            tot_frames: self.tot_frames,
            bar_filled: bar_fill(frames_done, self.tot_frames),
            perc: percent(frames_done, self.tot_frames),
        }
    }

    /// The closing render after all workers have joined: the same numbers
    /// as any other render, computed one last time.
    pub fn final_update(&self, elapsed_secs: usize, completed_frames: u64) -> (r: EncReport)
        ensures
            r == spec_enc_report(*self, elapsed_secs as int, completed_frames as int),
    {
        self.encode_report(elapsed_secs, completed_frames)
    }
}

} // verus!
