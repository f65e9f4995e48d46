use xav::chunk::chunkify;
use xav::progress::{dur_parts, find_sub, get_frame_cnt, is_error_line, is_progress_line, ProgsBar, ProgsTrack};
use xav::video::VidInf;

fn inf() -> VidInf {
    VidInf {
        width: 1920,
        height: 1080,
        fps_num: 24000,
        fps_den: 1001,
        frames: 300,
        color_primaries: None,
        transfer_characteristics: None,
        matrix_coefficients: None,
        is_10bit: false,
        color_range: None,
        chroma_sample_position: None,
        mastering_display: None,
        content_light: None,
    }
}

#[test]
fn frame_counter_reads_the_pair_before_frames() {
    let line = b"Encoding: 123/4000 Frames @ 35.1 fps".to_vec();
    assert_eq!(get_frame_cnt(&line), Some(123));
    let no_counter = b"Encoding: warming up".to_vec();
    assert_eq!(get_frame_cnt(&no_counter), None);
    let bare = b"17 Frames done".to_vec();
    assert_eq!(get_frame_cnt(&bare), Some(17));
}

#[test]
fn line_classification() {
    assert!(is_error_line(&b"Svt[error]: bad input".to_vec()));
    assert!(!is_error_line(&b"Encoding: 1/2 Frames".to_vec()));
    assert!(is_progress_line(&b"Encoding: 1/2 Frames".to_vec()));
    assert!(!is_progress_line(&b"SUMMARY Encoding: done".to_vec()));
    assert!(!is_progress_line(&b"initialising".to_vec()));
}

#[test]
fn substring_search() {
    assert_eq!(find_sub(&b"abcabc".to_vec(), "cab"), Some(2));
    assert_eq!(find_sub(&b"abc".to_vec(), "zz"), None);
}

#[test]
fn quiet_bar_renders_nothing() {
    let mut bar = ProgsBar::new(true);
    assert!(bar.up_idx(10, 100, 1).is_none());
    assert!(bar.up_scenes(10, 100, 1).is_none());
}

#[test]
fn bar_tick_numbers() {
    let mut bar = ProgsBar::new(false);
    let r = bar.up_scenes(50, 200, 5).unwrap();
    assert_eq!(r.filled, 32 * 50 / 200);
    assert_eq!(r.perc, 25);
    assert_eq!(r.rate, 10);
    assert_eq!(r.eta_secs, 150 * 5 / 50);
    assert_eq!((r.current, r.tot), (50, 200));
    assert_eq!(bar.last_val, 50);
    assert_eq!(bar.tot, 200);
}

#[test]
fn bar_clamps_at_full() {
    let mut bar = ProgsBar::new(false);
    let r = bar.up_scenes(300, 200, 1).unwrap();
    assert_eq!(r.filled, 32);
    assert_eq!(r.perc, 100);
}

#[test]
fn encode_report_scales_eta_by_new_frames() {
    let chunks = chunkify(&vec![150], 300).unwrap();
    let mut t = ProgsTrack::new(&chunks, &inf(), 2, 0, 0);
    t.note_frames(100);
    t.note_completed();
    let r = t.encode_report(10, 0);
    assert_eq!(r.frames_done, 100);
    assert_eq!(r.new_frames, 100);
    assert_eq!(r.remaining, 200);
    assert_eq!(r.eta_secs, 200 * 10 / 100);
    assert_eq!(r.chunks_done, 1);
    assert_eq!(r.tot_chunks, 2);
    assert_eq!(r.bar_filled, 32 * 100 / 300);
    assert_eq!(r.perc, 33);
}

#[test]
fn resume_store_total_can_lead_the_counter() {
    let chunks = chunkify(&vec![150], 300).unwrap();
    let t = ProgsTrack::new(&chunks, &inf(), 2, 150, 1);
    // the store already covers 150 frames; the stderr counter saw none yet
    let r = t.final_update(1, 150);
    assert_eq!(r.frames_done, 150);
    assert_eq!(r.new_frames, 0);
}

#[test]
fn durations_split_into_h_m_s() {
    assert_eq!(dur_parts(0), (0, 0, 0));
    assert_eq!(dur_parts(3661), (1, 1, 1));
    assert_eq!(dur_parts(86399), (23, 59, 59));
}
