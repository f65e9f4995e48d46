//! Chunk model and resume store: turn a scene list into encodable chunks,
//! keep per-chunk completion records, and decide which chunks a resumed run
//! may skip.

use vstd::prelude::*;
use crate::error::XavError;

verus! {

/// A contiguous half-open range `[start, end)` of frames encoded as one
/// independent unit. `idx` is dense, 0-based, and fixes the output name.
#[derive(Clone, Copy, Debug, PartialEq, Eq, Structural)]
pub struct Chunk {
    pub idx: u32,
    pub start: u32,
    pub end: u32,
}

/// A chunk is well formed when it is non-empty and stays inside the clip.
pub open spec fn chunk_wf(c: Chunk, frame_count: u32) -> bool {
    c.start < c.end && c.end <= frame_count
}

/// A scene list is valid for a clip of `f` frames when every cut is inside
/// `(0, f)` and the cuts are strictly increasing; every chunk it induces is
/// then non-empty.
pub open spec fn scenes_valid(s: Seq<u32>, f: u32) -> bool {
    &&& f > 0
    &&& forall|i: int| 0 <= i < s.len() ==> 0 < #[trigger] s[i]
    &&& forall|i: int| 0 <= i && i + 1 < s.len() ==> #[trigger] s[i] < s[i + 1]
    &&& s.len() > 0 ==> s[s.len() - 1] < f
}

/// The chunk a valid scene list induces at position `i`.
pub open spec fn chunk_at(s: Seq<u32>, f: u32, i: int) -> Chunk {
    Chunk {
        idx: i as u32,
        start: if i == 0 {
            0u32
        } else {
            s[i - 1]
        },
        end: if i == s.len() {
            f
        } else {
            s[i]
        },
    }
}

/// All chunks a scene list induces: `[0, s[0]), [s[0], s[1]), ..., [s[k-1], f)`.
pub open spec fn chunks_of(s: Seq<u32>, f: u32) -> Seq<Chunk> {
    Seq::new(s.len() + 1, |i: int| chunk_at(s, f, i))
}

/// Build the chunk list from a scene list. Succeeds exactly on valid scene
/// lists; a scene list that would induce an empty chunk is rejected.
pub fn chunkify(scenes: &Vec<u32>, frame_count: u32) -> (r: Result<Vec<Chunk>, XavError>)
    requires
        scenes@.len() < u32::MAX,
    ensures
        r is Ok <==> scenes_valid(scenes@, frame_count),
        r matches Ok(c) ==> c@ =~= chunks_of(scenes@, frame_count),
        r matches Err(e) ==> e == XavError::ArgError,
{
    let n = scenes.len();
    let mut chunks: Vec<Chunk> = Vec::new();
    let mut i: usize = 0;
    while i <= n
        invariant
            n == scenes@.len(),
            n < u32::MAX,
            i <= n + 1,
            chunks@.len() == i,
            forall|k: int| 0 <= k < i ==> chunks@[k] == chunk_at(scenes@, frame_count, k),
            forall|k: int|
                0 <= k < i ==> (#[trigger] chunks@[k]).start < chunks@[k].end,
        decreases n + 1 - i,
    {
        let start: u32 = if i == 0 {
            0
        } else {
            scenes[i - 1]
        };
        let end: u32 = if i == n {
            frame_count
        } else {
            scenes[i]
        };
        if start >= end {
            return Err(XavError::ArgError);
        }
        chunks.push(Chunk { idx: i as u32, start, end });
        i += 1;
    }
    proof {
        assert forall|k: int| 0 <= k < scenes@.len() implies 0 < #[trigger] scenes@[k] by {
            lemma_scenes_nonneg(scenes@, frame_count, chunks@, k);
        }
        assert forall|k: int| 0 <= k && k + 1 < scenes@.len() implies #[trigger] scenes@[k]
            < scenes@[k + 1] by {
            assert(chunks@[k + 1].start < chunks@[k + 1].end);
        }
        if scenes@.len() > 0 {
            assert(chunks@[scenes@.len() as int].start < chunks@[scenes@.len() as int].end);
        } else {
            assert(chunks@[0].start < chunks@[0].end);
        }
    }
    Ok(chunks)
}

/// The chunks of a valid scene list partition `[0, frame_count)`: the first
/// chunk starts at zero, each chunk ends where the next one starts, the last
/// chunk ends at the frame count, and every chunk is non-empty with a dense
/// index. Concatenating the ranges in index order therefore yields exactly
/// `[0, frame_count)`, with no gaps and no overlaps.
#[verifier::rlimit(30)]
pub proof fn lemma_chunk_partition(s: Seq<u32>, f: u32)
    requires
        scenes_valid(s, f),
        s.len() < u32::MAX,
    ensures
        chunks_of(s, f).len() == s.len() + 1,
        chunks_of(s, f)[0].start == 0,
        chunks_of(s, f)[s.len() as int].end == f,
        forall|i: int|
            0 <= i < s.len() ==> (#[trigger] chunks_of(s, f)[i]).end == chunks_of(s, f)[i + 1].start,
        forall|i: int|
            0 <= i <= s.len() ==> chunk_wf(#[trigger] chunks_of(s, f)[i], f),
        forall|i: int| 0 <= i <= s.len() ==> (#[trigger] chunks_of(s, f)[i]).idx == i,
{
    assert forall|i: int| 0 <= i <= s.len() implies chunk_wf(#[trigger] chunks_of(s, f)[i], f) by {
        assert(chunks_of(s, f)[i] == chunk_at(s, f, i));
        if i < s.len() {
            lemma_scenes_sorted(s, i, s.len() - 1);
            assert(s[s.len() - 1] < f);
        }
        if i > 0 && i < s.len() {
            assert(s[i - 1] < s[i]);
        }
    }
    assert forall|i: int| 0 <= i <= s.len() implies (#[trigger] chunks_of(s, f)[i]).idx == i by {
        assert(chunks_of(s, f)[i] == chunk_at(s, f, i));
    }
}

/// Every cut of a list whose induced chunks are all non-empty is positive.
proof fn lemma_scenes_nonneg(s: Seq<u32>, f: u32, c: Seq<Chunk>, k: int)
    requires
        0 <= k < s.len(),
        c.len() == s.len() + 1,
        forall|j: int| 0 <= j < c.len() ==> c[j] == chunk_at(s, f, j),
        forall|j: int| 0 <= j < c.len() ==> (#[trigger] c[j]).start < c[j].end,
    ensures
        0 < s[k],
    decreases k,
{
    if k == 0 {
        assert(c[0].start < c[0].end);
    } else {
        lemma_scenes_nonneg(s, f, c, k - 1);
        assert(c[k].start < c[k].end);
    }
}

/// Strict increase extends from neighbours to any pair of positions.
proof fn lemma_scenes_sorted(s: Seq<u32>, i: int, j: int)
    requires
        forall|k: int| 0 <= k && k + 1 < s.len() ==> #[trigger] s[k] < s[k + 1],
        0 <= i <= j < s.len(),
    ensures
        s[i] <= s[j],
    decreases j - i,
{
    if i < j {
        lemma_scenes_sorted(s, i, j - 1);
        assert(s[j - 1] < s[j]);
    }
}

/// The number of frames the chunks at positions `[0, n)` cover.
pub open spec fn frames_covered(c: Seq<Chunk>, n: int) -> int
    decreases n,
{
    if n <= 0 {
        0
    } else {
        frames_covered(c, n - 1) + (c[n - 1].end - c[n - 1].start)
    }
}

/// The chunk ranges of a valid scene list add up to the whole clip: the
/// per-chunk frame counts sum to the frame count.
pub proof fn lemma_chunk_frames_sum(s: Seq<u32>, f: u32)
    requires
        scenes_valid(s, f),
    ensures
        frames_covered(chunks_of(s, f), s.len() as int + 1) == f,
{
    lemma_covered_prefix(chunks_of(s, f), s, f, s.len() as int + 1);
}

/// The first `n` chunks cover exactly `[0, end of chunk n-1)`.
proof fn lemma_covered_prefix(c: Seq<Chunk>, s: Seq<u32>, f: u32, n: int)
    requires
        scenes_valid(s, f),
        c == chunks_of(s, f),
        0 < n <= s.len() + 1,
    ensures
        frames_covered(c, n) == c[n - 1].end,
    decreases n,
{
    assert(c[n - 1] == chunk_at(s, f, n - 1));
    if n == 1 {
        assert(frames_covered(c, 0) == 0);
        assert(c[0].start == 0);
    } else {
        lemma_covered_prefix(c, s, f, n - 1);
        assert(c[n - 2] == chunk_at(s, f, n - 2));
        assert(c[n - 2].end == c[n - 1].start);
    }
}

/// One row of the resume store: a chunk that finished encoding, how many
/// frames it held, and how large its bitstream file is.
#[derive(Clone, Copy, Debug, PartialEq, Eq, Structural)]
pub struct ChunkComp {
    pub idx: u32,
    pub frames: u32,
    pub size: u64,
}

/// The resume store holds at most one record per chunk index.
pub open spec fn resume_wf(rows: Seq<ChunkComp>) -> bool {
    forall|i: int, j: int| 0 <= i < j < rows.len() ==> rows[i].idx != rows[j].idx
}

/// Whether some row records the given chunk index.
pub open spec fn spec_has_idx(rows: Seq<ChunkComp>, idx: u32) -> bool {
    exists|i: int| 0 <= i < rows.len() && rows[i].idx == idx
}

/// Completion records of every chunk that already finished, in commit order.
#[derive(Clone)]
pub struct ResumeInf {
    pub chnks_done: Vec<ChunkComp>,
}

impl ResumeInf {
    /// An empty store, used when no resume file exists yet.
    pub fn new() -> (r: ResumeInf)
        ensures
            r.chnks_done@.len() == 0,
            resume_wf(r.chnks_done@),
    {
        ResumeInf { chnks_done: Vec::new() }
    }

    /// Whether a completion for the given chunk index is already recorded.
    pub fn contains_idx(&self, idx: u32) -> (r: bool)
        ensures
            r == spec_has_idx(self.chnks_done@, idx),
    {
        let n = self.chnks_done.len();
        let mut i: usize = 0;
        while i < n
            invariant
                n == self.chnks_done@.len(),
                i <= n,
                forall|k: int| 0 <= k < i ==> self.chnks_done@[k].idx != idx,
            decreases n - i,
        {
            if self.chnks_done[i].idx == idx {
                return true;
            }
            i += 1;
        }
        false
    }

    /// Record one completion. A record whose index is already present is
    /// dropped, so appending the same completion twice leaves a single row
    /// per index and a well-formed store stays well formed.
    pub fn add_completion(&mut self, comp: ChunkComp)
        ensures
            spec_has_idx(old(self).chnks_done@, comp.idx) ==> final(self).chnks_done@ == old(self).chnks_done@,
            !spec_has_idx(old(self).chnks_done@, comp.idx) ==> final(self).chnks_done@ == old(self).chnks_done@.push(comp),
            resume_wf(old(self).chnks_done@) ==> resume_wf(final(self).chnks_done@),
    {
        if !self.contains_idx(comp.idx) {
            self.chnks_done.push(comp);
        }
    }

    /// Total frames and total bytes over all recorded completions, each sum
    /// saturating at the largest 64-bit value; the progress display and the
    /// bitrate estimate start from these.
    pub fn totals(&self) -> (r: (u64, u64))
        ensures
            r.0 == sat_u64(spec_total_frames(self.chnks_done@, self.chnks_done@.len() as int)),
            r.1 == sat_u64(spec_total_size(self.chnks_done@, self.chnks_done@.len() as int)),
    {
        let n = self.chnks_done.len();
        let mut frames: u64 = 0;
        let mut size: u64 = 0;
        let mut i: usize = 0;
        while i < n
            invariant
                n == self.chnks_done@.len(),
                i <= n,
                frames == sat_u64(spec_total_frames(self.chnks_done@, i as int)),
                size == sat_u64(spec_total_size(self.chnks_done@, i as int)),
            decreases n - i,
        {
            proof {
                lemma_total_frames_bound(self.chnks_done@, i as int);
                lemma_total_size_bound(self.chnks_done@, i as int);
            }
            frames = frames.checked_add(self.chnks_done[i].frames as u64).unwrap_or(u64::MAX);
            size = size.checked_add(self.chnks_done[i].size).unwrap_or(u64::MAX);
            i += 1;
        }
        (frames, size)
    }
}

/// Frames recorded by the first `n` rows.
pub open spec fn spec_total_frames(rows: Seq<ChunkComp>, n: int) -> int
    decreases n,
{
    if n <= 0 {
        0
    } else {
        spec_total_frames(rows, n - 1) + rows[n - 1].frames
    }
}

/// Bytes recorded by the first `n` rows.
pub open spec fn spec_total_size(rows: Seq<ChunkComp>, n: int) -> int
    decreases n,
{
    if n <= 0 {
        0
    } else {
        spec_total_size(rows, n - 1) + rows[n - 1].size
    }
}

/// A non-negative mathematical total clipped to what a `u64` can hold.
pub open spec fn sat_u64(x: int) -> int {
    if x <= u64::MAX as int {
        x
    } else {
        u64::MAX as int
    }
}

proof fn lemma_total_frames_bound(rows: Seq<ChunkComp>, n: int)
    requires
        0 <= n <= rows.len(),
    ensures
        0 <= spec_total_frames(rows, n),
    decreases n,
{
    if n > 0 {
        lemma_total_frames_bound(rows, n - 1);
    }
}

proof fn lemma_total_size_bound(rows: Seq<ChunkComp>, n: int)
    requires
        0 <= n <= rows.len(),
    ensures
        0 <= spec_total_size(rows, n),
    decreases n,
{
    if n > 0 {
        lemma_total_size_bound(rows, n - 1);
    }
}

/// Keep only the chunks whose index has no completion record yet: a resumed
/// run never hands a finished chunk to the decoder again.
pub fn filter_chunks(chunks: &Vec<Chunk>, resume: &ResumeInf) -> (r: Vec<Chunk>)
    ensures
        r@ == chunks@.filter(|c: Chunk| !spec_has_idx(resume.chnks_done@, c.idx)),
        forall|j: int| 0 <= j < r@.len() ==> !spec_has_idx(resume.chnks_done@, (#[trigger] r@[j]).idx),
        forall|j: int|
            0 <= j < chunks@.len() && !spec_has_idx(resume.chnks_done@, chunks@[j].idx)
                ==> r@.contains(#[trigger] chunks@[j]),
{
    let n = chunks.len();
    let mut r: Vec<Chunk> = Vec::new();
    let mut i: usize = 0;
    proof {
        reveal(Seq::filter);
    }
    while i < n
        invariant
            n == chunks@.len(),
            i <= n,
            r@ == chunks@.take(i as int).filter(|c: Chunk| !spec_has_idx(resume.chnks_done@, c.idx)),
        decreases n - i,
    {
        let keep = !resume.contains_idx(chunks[i].idx);
        proof {
            reveal(Seq::filter);
            let taken = chunks@.take(i as int + 1);
            assert(taken.drop_last() =~= chunks@.take(i as int));
            assert(taken.last() == chunks@[i as int]);
        }
        if keep {
            r.push(chunks[i]);
        }
        i += 1;
    }
    proof {
        assert(chunks@.take(n as int) =~= chunks@);
        let p = |c: Chunk| !spec_has_idx(resume.chnks_done@, c.idx);
        assert forall|j: int| 0 <= j < r@.len() implies !spec_has_idx(
            resume.chnks_done@,
            (#[trigger] r@[j]).idx,
        ) by {
            chunks@.lemma_filter_pred(p, j);
        }
        assert forall|j: int|
            0 <= j < chunks@.len() && !spec_has_idx(resume.chnks_done@, chunks@[j].idx) implies r@
            .contains(#[trigger] chunks@[j]) by {
            chunks@.lemma_filter_contains(p, j);
        }
    }
    r
}

/// The scene-cut values a scene file holds: every whitespace-separated
/// token read as a decimal frame number, in file order; a token that is not
/// a number, or does not fit, spoils the whole file.
pub open spec fn spec_scene_vals(toks: Seq<Seq<u8>>, i: int) -> Option<Seq<u32>>
    decreases toks.len() - i,
{
    if i < 0 || i >= toks.len() {
        Some(Seq::empty())
    } else {
        match crate::args::spec_parse_usize(toks[i]) {
            Some(v) => if v <= u32::MAX {
                match spec_scene_vals(toks, i + 1) {
                    Some(rest) => Some(seq![v as u32] + rest),
                    None => None,
                }
            } else {
                None
            },
            None => None,
        }
    }
}

/// Read a scene list out of the bytes of a scene file: one cut frame
/// number per line. Fails on anything that is not a number.
pub fn parse_scenes(data: &Vec<u8>) -> (r: Result<Vec<u32>, XavError>)
    ensures
        ({
            let toks = crate::enc::spec_split_ws(data@);
            match spec_scene_vals(toks, 0) {
                Some(vals) => r matches Ok(v) && v@ == vals,
                None => r == Err::<Vec<u32>, XavError>(XavError::ArgError),
            }
        }),
{
    let toks = crate::enc::split_ws(data);
    let ghost tv = crate::enc::views(toks@);
    let n = toks.len();
    let mut out: Vec<u32> = Vec::new();
    let mut i: usize = 0;
    while i < n
        invariant
            n == toks@.len(),
            tv == crate::enc::views(toks@),
            tv == crate::enc::spec_split_ws(data@),
            i <= n,
            ({
                match spec_scene_vals(tv, 0) {
                    Some(all) => spec_scene_vals(tv, i as int) matches Some(rest) && all =~= out@
                        + rest,
                    None => spec_scene_vals(tv, i as int) is None,
                }
            }),
        decreases n - i,
    {
        proof {
            assert(tv[i as int] == toks@[i as int]@);
        }
        proof {
            assert(tv.len() == n);
        }
        match crate::args::parse_usize(&toks[i]) {
            Some(v) => {
                if v <= u32::MAX as usize {
                    out.push(v as u32);
                } else {
                    proof {
                        assert(spec_scene_vals(tv, i as int) is None);
                    }
                    return Err(XavError::ArgError);
                }
            },
            None => {
                proof {
                    assert(spec_scene_vals(tv, i as int) is None);
                }
                return Err(XavError::ArgError);
            },
        }
        i += 1;
        proof {
            if spec_scene_vals(tv, 0) is Some {
                let all = spec_scene_vals(tv, 0).unwrap();
                assert(all =~= out@.drop_last() + spec_scene_vals(tv, i - 1).unwrap());
                assert(spec_scene_vals(tv, i - 1).unwrap() =~= seq![out@.last()]
                    + spec_scene_vals(tv, i as int).unwrap());
                assert(all =~= out@ + spec_scene_vals(tv, i as int).unwrap());
            }
        }
    }
    proof {
        if spec_scene_vals(tv, 0) is Some {
            assert(spec_scene_vals(tv, n as int).unwrap() =~= Seq::<u32>::empty());
            assert(spec_scene_vals(tv, 0).unwrap() =~= out@);
        }
    }
    Ok(out)
}

/// One row of the resume store as it is written to disk: the chunk index,
/// its frame count and its byte size in decimal, space-separated, each row
/// on its own line.
pub open spec fn spec_resume_line(c: ChunkComp) -> Seq<u8> {
    crate::enc::spec_dec(c.idx as int) + seq![32u8] + crate::enc::spec_dec(c.frames as int)
        + seq![32u8] + crate::enc::spec_dec(c.size as int) + seq![10u8]
}

/// The first `n` rows of the store, serialized.
pub open spec fn spec_resume_bytes(rows: Seq<ChunkComp>, n: int) -> Seq<u8>
    decreases n,
{
    if n <= 0 {
        Seq::empty()
    } else {
        spec_resume_bytes(rows, n - 1) + spec_resume_line(rows[n - 1])
    }
}

/// Serialize the whole store for its file.
pub fn resume_to_bytes(resume: &ResumeInf) -> (r: Vec<u8>)
    ensures
        r@ == spec_resume_bytes(resume.chnks_done@, resume.chnks_done@.len() as int),
{
    let rows = &resume.chnks_done;
    let n = rows.len();
    let mut out: Vec<u8> = Vec::new();
    let mut i: usize = 0;
    while i < n
        invariant
            n == rows@.len(),
            i <= n,
            out@ == spec_resume_bytes(rows@, i as int),
        decreases n - i,
    {
        let c = rows[i];
        let mut line = crate::enc::u64_to_dec(c.idx as u64);
        line.push(32);
        let mut f = crate::enc::u64_to_dec(c.frames as u64);
        line.append(&mut f);
        line.push(32);
        let mut sz = crate::enc::u64_to_dec(c.size);
        line.append(&mut sz);
        line.push(10);
        assert(line@ =~= spec_resume_line(rows@[i as int]));
        let ghost pre = out@;
        out.append(&mut line);
        assert(out@ =~= pre + spec_resume_line(rows@[i as int]));
        i += 1;
    }
    out
}

/// The rows a resume file holds: its whitespace-separated tokens read three
/// at a time as index, frame count and size; a leftover or unreadable token
/// spoils the file.
pub open spec fn spec_resume_rows(toks: Seq<Seq<u8>>, i: int) -> Option<Seq<ChunkComp>>
    decreases toks.len() - i,
{
    if i < 0 || i >= toks.len() {
        Some(Seq::empty())
    } else if i + 3 > toks.len() {
        None
    } else {
        match (crate::args::spec_parse_usize(toks[i]), crate::args::spec_parse_usize(toks[i + 1]),
        crate::args::spec_parse_usize(toks[i + 2])) {
            (Some(idx), Some(frames), Some(size)) => if idx <= u32::MAX && frames <= u32::MAX {
                match spec_resume_rows(toks, i + 3) {
                    Some(rest) => Some(
                        seq![
                            ChunkComp {
                                idx: idx as u32,
                                frames: frames as u32,
                                size: size as u64,
                            },
                        ] + rest,
                    ),
                    None => None,
                }
            } else {
                None
            },
            _ => None,
        }
    }
}

/// Read a resume store back from its file bytes.
pub fn resume_from_bytes(data: &Vec<u8>) -> (r: Result<ResumeInf, XavError>)
    ensures
        ({
            let toks = crate::enc::spec_split_ws(data@);
            match spec_resume_rows(toks, 0) {
                Some(rows) => r matches Ok(ri) && ri.chnks_done@ == rows,
                None => r == Err::<ResumeInf, XavError>(XavError::IOError),
            }
        }),
{
    let toks = crate::enc::split_ws(data);
    let ghost tv = crate::enc::views(toks@);
    let n = toks.len();
    let mut out: Vec<ChunkComp> = Vec::new();
    let mut i: usize = 0;
    while i < n
        invariant
            n == toks@.len(),
            tv == crate::enc::views(toks@),
            tv == crate::enc::spec_split_ws(data@),
            i <= n,
            ({
                match spec_resume_rows(tv, 0) {
                    Some(all) => spec_resume_rows(tv, i as int) matches Some(rest) && all =~= out@
                        + rest,
                    None => spec_resume_rows(tv, i as int) is None,
                }
            }),
        decreases n - i,
    {
        proof {
            assert(tv[i as int] == toks@[i as int]@);
            if i + 1 < n {
                assert(tv[i as int + 1] == toks@[i as int + 1]@);
            }
            if i + 2 < n {
                assert(tv[i as int + 2] == toks@[i as int + 2]@);
            }
        }
        proof {
            assert(tv.len() == n);
        }
        if n - i < 3 {
            proof {
                assert(spec_resume_rows(tv, i as int) is None);
            }
            return Err(XavError::IOError);
        }
        let idx = match crate::args::parse_usize(&toks[i]) {
            Some(v) => v,
            None => {
                proof {
                    assert(spec_resume_rows(tv, i as int) is None);
                }
                return Err(XavError::IOError);
            },
        };
        let frames = match crate::args::parse_usize(&toks[i + 1]) {
            Some(v) => v,
            None => {
                proof {
                    assert(spec_resume_rows(tv, i as int) is None);
                }
                return Err(XavError::IOError);
            },
        };
        let size = match crate::args::parse_usize(&toks[i + 2]) {
            Some(v) => v,
            None => {
                proof {
                    assert(spec_resume_rows(tv, i as int) is None);
                }
                return Err(XavError::IOError);
            },
        };
        if idx > u32::MAX as usize || frames > u32::MAX as usize {
            proof {
                assert(spec_resume_rows(tv, i as int) is None);
            }
            return Err(XavError::IOError);
        }
        out.push(ChunkComp { idx: idx as u32, frames: frames as u32, size: size as u64 });
        i += 3;
        proof {
            if spec_resume_rows(tv, 0) is Some {
                let all = spec_resume_rows(tv, 0).unwrap();
                assert(all =~= out@.drop_last() + spec_resume_rows(tv, i - 3).unwrap());
                assert(spec_resume_rows(tv, i - 3).unwrap() =~= seq![out@.last()]
                    + spec_resume_rows(tv, i as int).unwrap());
                assert(all =~= out@ + spec_resume_rows(tv, i as int).unwrap());
            }
        }
    }
    proof {
        if spec_resume_rows(tv, 0) is Some {
            assert(spec_resume_rows(tv, n as int).unwrap() =~= Seq::<ChunkComp>::empty());
            assert(spec_resume_rows(tv, 0).unwrap() =~= out@);
        }
    }
    Ok(ResumeInf { chnks_done: out })
}

/// Per-worker counters shared with the progress display, plus the resume
/// store the workers append to.
pub struct WorkerStats {
    pub completed: usize,
    pub frames_done: usize,
    pub completions: ResumeInf,
}

impl WorkerStats {
    /// Counters seeded from what a resumed run already finished.
    pub fn new(initial_completed: usize, init_frames: usize, initial_data: ResumeInf) -> (r:
        WorkerStats)
        ensures
            r.completed == initial_completed,
            r.frames_done == init_frames,
            r.completions == initial_data,
    {
        WorkerStats { completed: initial_completed, frames_done: init_frames, completions: initial_data }
    }

    /// Count one finished chunk and the frames its encoder consumed.
    pub fn note_chunk(&mut self, written: usize)
        ensures
            final(self).completed == crate::progress::sat_usize(old(self).completed + 1),
            final(self).frames_done == crate::progress::sat_usize(
                old(self).frames_done + written,
            ),
            final(self).completions == old(self).completions,
    {
        self.completed = match self.completed.checked_add(1) {
            Some(v) => v,
            None => usize::MAX,
        };
        self.frames_done = match self.frames_done.checked_add(written) {
            Some(v) => v,
            None => usize::MAX,
        };
    }

    /// Record one completion row; the store keeps at most one row per
    /// chunk index, so recording the same completion twice changes
    /// nothing.
    pub fn add_completion(&mut self, completion: ChunkComp)
        ensures
            spec_has_idx(old(self).completions.chnks_done@, completion.idx) ==> final(self).completions.chnks_done@ == old(self).completions.chnks_done@,
            !spec_has_idx(old(self).completions.chnks_done@, completion.idx) ==> final(self).completions.chnks_done@ == old(self).completions.chnks_done@.push(completion),
            resume_wf(old(self).completions.chnks_done@) ==> resume_wf(
                final(self).completions.chnks_done@,
            ),
            final(self).completed == old(self).completed,
            final(self).frames_done == old(self).frames_done,
    {
        self.completions.add_completion(completion);
    }
}

/// Serializing from the left: the first row's line comes first.
proof fn lemma_resume_bytes_left(rows: Seq<ChunkComp>, n: int)
    requires
        1 <= n <= rows.len(),
    ensures
        spec_resume_bytes(rows, n) =~= spec_resume_line(rows[0]) + spec_resume_bytes(
            rows.skip(1),
            n - 1,
        ),
    decreases n,
{
    if n == 1 {
        assert(spec_resume_bytes(rows, 0) == Seq::<u8>::empty());
        assert(spec_resume_bytes(rows.skip(1), 0) == Seq::<u8>::empty());
        assert(spec_resume_bytes(rows, 1) =~= Seq::<u8>::empty() + spec_resume_line(rows[0]));
        assert(spec_resume_bytes(rows, 1) =~= spec_resume_line(rows[0]) + spec_resume_bytes(
            rows.skip(1),
            0,
        ));
    } else {
        lemma_resume_bytes_left(rows, n - 1);
        assert(rows.skip(1)[n - 2] == rows[n - 1]);
        assert(spec_resume_bytes(rows.skip(1), n - 1) == spec_resume_bytes(rows.skip(1), n - 2)
            + spec_resume_line(rows[n - 1]));
        assert(spec_resume_bytes(rows, n) =~= spec_resume_line(rows[0]) + spec_resume_bytes(
            rows.skip(1),
            n - 1,
        ));
    }
}

/// The row reader never looks left of its position.
proof fn lemma_resume_rows_shift(x: Seq<Seq<u8>>, y: Seq<Seq<u8>>, i: int)
    requires
        i >= x.len(),
    ensures
        spec_resume_rows(x + y, i) == spec_resume_rows(y, i - x.len()),
    decreases (x + y).len() - i,
{
    let s = x + y;
    if i < 0 || i >= s.len() {
    } else if i + 3 > s.len() {
    } else {
        assert(s[i] == y[i - x.len()]);
        assert(s[i + 1] == y[i - x.len() + 1]);
        assert(s[i + 2] == y[i - x.len() + 2]);
        lemma_resume_rows_shift(x, y, i + 3);
    }
}

/// One serialized line splits into exactly its three decimal tokens,
/// whatever follows it.
proof fn lemma_line_splits(c: ChunkComp, rest: Seq<u8>)
    ensures
        crate::enc::spec_split_ws(spec_resume_line(c) + rest) == seq![
            crate::enc::spec_dec(c.idx as int),
            crate::enc::spec_dec(c.frames as int),
            crate::enc::spec_dec(c.size as int),
        ] + crate::enc::spec_split_ws(rest),
{
    let t1 = crate::enc::spec_dec(c.idx as int);
    let t2 = crate::enc::spec_dec(c.frames as int);
    let t3 = crate::enc::spec_dec(c.size as int);
    let line = spec_resume_line(c);
    let s = line + rest;
    crate::args::lemma_dec_digits(c.idx as int);
    crate::args::lemma_dec_digits(c.frames as int);
    crate::args::lemma_dec_digits(c.size as int);
    let p1 = t1.len() as int;
    let p2 = p1 + 1 + t2.len();
    let p3 = p2 + 1 + t3.len();
    assert(line.len() == p3 + 1);

    assert(s.subrange(0, p1) =~= t1);
    assert forall|m: int| 0 <= m < p1 implies !crate::enc::is_ws(#[trigger] s[m]) by {
        assert(s[m] == t1[m]);
        assert(48 <= t1[m] <= 57);
    }
    crate::enc::lemma_split_acc_token(s, 0, Seq::empty(), p1);
    assert(Seq::<u8>::empty() + s.subrange(0, p1) =~= t1);
    assert(s[p1] == 32);
    assert(crate::enc::spec_split_acc(s, p1, t1) == seq![t1] + crate::enc::spec_split_acc(
        s,
        p1 + 1,
        Seq::empty(),
    ));

    assert(s.subrange(p1 + 1, p2) =~= t2);
    assert forall|m: int| p1 + 1 <= m < p2 implies !crate::enc::is_ws(#[trigger] s[m]) by {
        assert(s[m] == t2[m - (p1 + 1)]);
        assert(48 <= t2[m - (p1 + 1)] <= 57);
    }
    crate::enc::lemma_split_acc_token(s, p1 + 1, Seq::empty(), t2.len() as int);
    assert(Seq::<u8>::empty() + s.subrange(p1 + 1, p2) =~= t2);
    assert(s[p2] == 32);
    assert(crate::enc::spec_split_acc(s, p2, t2) == seq![t2] + crate::enc::spec_split_acc(
        s,
        p2 + 1,
        Seq::empty(),
    ));

    assert(s.subrange(p2 + 1, p3) =~= t3);
    assert forall|m: int| p2 + 1 <= m < p3 implies !crate::enc::is_ws(#[trigger] s[m]) by {
        assert(s[m] == t3[m - (p2 + 1)]);
        assert(48 <= t3[m - (p2 + 1)] <= 57);
    }
    crate::enc::lemma_split_acc_token(s, p2 + 1, Seq::empty(), t3.len() as int);
    assert(Seq::<u8>::empty() + s.subrange(p2 + 1, p3) =~= t3);
    assert(s[p3] == 10);
    assert(crate::enc::spec_split_acc(s, p3, t3) == seq![t3] + crate::enc::spec_split_acc(
        s,
        p3 + 1,
        Seq::empty(),
    ));

    crate::enc::lemma_split_acc_shift(line, rest, p3 + 1, Seq::empty());
    assert(crate::enc::spec_split_acc(s, p3 + 1, Seq::empty()) == crate::enc::spec_split_ws(
        rest,
    ));

    assert(crate::enc::spec_split_ws(s) =~= seq![t1, t2, t3] + crate::enc::spec_split_ws(rest));
}

/// Serializing the store and reading the bytes back restores every row:
/// the resume file format round-trips. Sizes must fit the machine's word
/// for the reader's decimal parser.
pub proof fn lemma_resume_round_trip(rows: Seq<ChunkComp>)
    requires
        forall|i: int| 0 <= i < rows.len() ==> (#[trigger] rows[i]).size <= usize::MAX,
    ensures
        spec_resume_rows(
            crate::enc::spec_split_ws(spec_resume_bytes(rows, rows.len() as int)),
            0,
        ) == Some(rows),
    decreases rows.len(),
{
    if rows.len() == 0 {
        let toks = crate::enc::spec_split_ws(spec_resume_bytes(rows, 0));
        assert(spec_resume_bytes(rows, 0) =~= Seq::<u8>::empty());
        assert(toks =~= Seq::<Seq<u8>>::empty());
        assert(spec_resume_rows(toks, 0) == Some(Seq::<ChunkComp>::empty()));
        assert(rows =~= Seq::<ChunkComp>::empty());
    } else {
        let c = rows[0];
        let tail = rows.skip(1);
        let rest = spec_resume_bytes(tail, tail.len() as int);
        lemma_resume_bytes_left(rows, rows.len() as int);
        assert(spec_resume_bytes(rows, rows.len() as int) =~= spec_resume_line(c) + rest);
        lemma_line_splits(c, rest);
        let t1 = crate::enc::spec_dec(c.idx as int);
        let t2 = crate::enc::spec_dec(c.frames as int);
        let t3 = crate::enc::spec_dec(c.size as int);
        let head = seq![t1, t2, t3];
        let tail_toks = crate::enc::spec_split_ws(rest);
        let toks = head + tail_toks;
        assert(crate::enc::spec_split_ws(spec_resume_bytes(rows, rows.len() as int)) == toks);

        assert(forall|i: int| 0 <= i < tail.len() ==> (#[trigger] tail[i]).size <= usize::MAX);
        lemma_resume_round_trip(tail);
        assert(spec_resume_rows(tail_toks, 0) == Some(tail));

        crate::args::lemma_dec_parse_round_trip(c.idx as int);
        crate::args::lemma_dec_parse_round_trip(c.frames as int);
        crate::args::lemma_dec_parse_round_trip(c.size as int);
        assert(toks[0] == t1);
        assert(toks[1] == t2);
        assert(toks[2] == t3);
        lemma_resume_rows_shift(head, tail_toks, 3);
        assert(spec_resume_rows(toks, 3) == Some(tail));
        assert(crate::args::spec_parse_usize(t1) == Some((c.idx as int) as usize));
        assert(crate::args::spec_parse_usize(t2) == Some((c.frames as int) as usize));
        assert(crate::args::spec_parse_usize(t3) == Some((c.size as int) as usize));
        assert(spec_resume_rows(toks, 0) == Some(seq![c] + tail));
        assert(seq![c] + tail =~= rows);
    }
}

} // verus!
