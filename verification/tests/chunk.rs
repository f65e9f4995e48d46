use xav::chunk::{
    chunkify, filter_chunks, parse_scenes, resume_from_bytes, resume_to_bytes, Chunk, ChunkComp,
    ResumeInf, WorkerStats,
};
use xav::error::XavError;

#[test]
fn one_cut_partitions_the_clip() {
    // a 300-frame clip with one scene cut at 150
    let chunks = chunkify(&vec![150], 300).unwrap();
    assert_eq!(chunks.len(), 2);
    assert_eq!((chunks[0].idx, chunks[0].start, chunks[0].end), (0, 0, 150));
    assert_eq!((chunks[1].idx, chunks[1].start, chunks[1].end), (1, 150, 300));
    let frames: u32 = chunks.iter().map(|c| c.end - c.start).sum();
    assert_eq!(frames, 300);
}

#[test]
fn empty_scene_list_gives_one_chunk() {
    let chunks = chunkify(&Vec::new(), 42).unwrap();
    assert_eq!(chunks.len(), 1);
    assert_eq!((chunks[0].idx, chunks[0].start, chunks[0].end), (0, 0, 42));
}

#[test]
fn chunks_meet_with_no_gaps() {
    let chunks = chunkify(&vec![10, 40, 90], 100).unwrap();
    assert_eq!(chunks.len(), 4);
    assert_eq!(chunks[0].start, 0);
    for i in 0..chunks.len() - 1 {
        assert_eq!(chunks[i].end, chunks[i + 1].start);
        assert_eq!(chunks[i].idx, i as u32);
    }
    assert_eq!(chunks.last().unwrap().end, 100);
}

#[test]
fn bad_scene_lists_are_rejected() {
    assert_eq!(chunkify(&vec![150, 150], 300), Err(XavError::ArgError));
    assert_eq!(chunkify(&vec![200, 100], 300), Err(XavError::ArgError));
    assert_eq!(chunkify(&vec![0], 300), Err(XavError::ArgError));
    assert_eq!(chunkify(&vec![300], 300), Err(XavError::ArgError));
    assert_eq!(chunkify(&Vec::new(), 0), Err(XavError::ArgError));
}

#[test]
fn duplicate_completion_leaves_one_row() {
    let mut r = ResumeInf::new();
    let comp = ChunkComp { idx: 3, frames: 150, size: 1000 };
    r.add_completion(comp);
    r.add_completion(comp);
    assert_eq!(r.chnks_done.len(), 1);
    assert_eq!(r.chnks_done[0].idx, 3);
}

#[test]
fn totals_sum_frames_and_sizes() {
    let mut r = ResumeInf::new();
    r.add_completion(ChunkComp { idx: 0, frames: 150, size: 1000 });
    r.add_completion(ChunkComp { idx: 1, frames: 150, size: 2500 });
    assert_eq!(r.totals(), (300, 3500));
}

#[test]
fn completed_chunks_are_skipped() {
    // resume scenario: chunk 0 of the two-chunk clip already finished
    let chunks = chunkify(&vec![150], 300).unwrap();
    let mut r = ResumeInf::new();
    r.add_completion(ChunkComp { idx: 0, frames: 150, size: 1000 });
    let left = filter_chunks(&chunks, &r);
    assert_eq!(left.len(), 1);
    assert_eq!(left[0].idx, 1);
    assert_eq!((left[0].start, left[0].end), (150, 300));
}

#[test]
fn nothing_skipped_without_resume_rows() {
    let chunks = chunkify(&vec![150], 300).unwrap();
    let left = filter_chunks(&chunks, &ResumeInf::new());
    assert_eq!(left, chunks);
}

#[test]
fn scene_file_parses_one_number_per_line() {
    let data = b"150\n275\n".to_vec();
    assert_eq!(parse_scenes(&data), Ok(vec![150, 275]));
    let empty = Vec::new();
    assert_eq!(parse_scenes(&empty), Ok(Vec::new()));
}

#[test]
fn scene_file_rejects_junk() {
    assert_eq!(parse_scenes(&b"150\nabc\n".to_vec()), Err(XavError::ArgError));
    assert_eq!(parse_scenes(&b"15x\n".to_vec()), Err(XavError::ArgError));
}

#[test]
fn resume_file_round_trips() {
    let mut r = ResumeInf::new();
    r.add_completion(ChunkComp { idx: 1, frames: 150, size: 123456 });
    r.add_completion(ChunkComp { idx: 0, frames: 150, size: 999 });
    let bytes = resume_to_bytes(&r);
    assert_eq!(bytes, b"1 150 123456\n0 150 999\n".to_vec());
    let back = resume_from_bytes(&bytes).unwrap();
    assert_eq!(back.chnks_done, r.chnks_done);
}

#[test]
fn resume_file_rejects_short_rows() {
    assert!(resume_from_bytes(&b"1 150\n".to_vec()).is_err());
    assert!(resume_from_bytes(&b"1 150 abc\n".to_vec()).is_err());
}

#[test]
fn worker_stats_count_chunks_and_frames() {
    let mut s = WorkerStats::new(1, 150, ResumeInf::new());
    s.note_chunk(150);
    assert_eq!(s.completed, 2);
    assert_eq!(s.frames_done, 300);
    s.add_completion(ChunkComp { idx: 1, frames: 150, size: 10 });
    s.add_completion(ChunkComp { idx: 1, frames: 150, size: 10 });
    assert_eq!(s.completions.chnks_done.len(), 1);
}

#[test]
fn chunk_values_are_plain_data() {
    let c = Chunk { idx: 0, start: 0, end: 1 };
    assert_eq!(c, c);
}
