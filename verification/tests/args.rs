use xav::args::{
    apply_defaults, get_args, hash_input, parse_quoted_args, parse_usize, quote_args, vec_is,
    work_dir_name, Args,
};
use xav::error::XavError;

fn argv(parts: &[&str]) -> Vec<Vec<u8>> {
    parts.iter().map(|p| p.as_bytes().to_vec()).collect()
}

#[test]
fn plain_invocation_fills_defaults() {
    let a = get_args(&argv(&["xav", "clips/movie.mkv"]), 16).unwrap();
    assert_eq!(a.input, b"clips/movie.mkv".to_vec());
    assert_eq!(a.output, b"clips/movie_av1.mkv".to_vec());
    assert_eq!(a.scene_file, b"scd_movie.txt".to_vec());
    assert_eq!(a.worker, 4);
    assert_eq!(a.params, b"--lp 3".to_vec());
    assert!(!a.resume);
    assert!(!a.quiet);
}

#[test]
fn worker_defaults_follow_thread_count() {
    for (threads, workers) in
        [(32usize, 8usize), (40, 8), (24, 6), (16, 4), (12, 3), (8, 2), (7, 1), (1, 1)]
    {
        let a = get_args(&argv(&["xav", "in.mkv"]), threads).unwrap();
        assert_eq!(a.worker, workers, "threads {threads}");
    }
}

#[test]
fn explicit_options_are_honoured() {
    let a = get_args(
        &argv(&["xav", "-w", "8", "-s", "sc.txt", "-p", "--lp 3 --tune 0", "-q", "in.mkv", "o.mkv"]),
        4,
    )
    .unwrap();
    assert_eq!(a.worker, 8);
    assert_eq!(a.scene_file, b"sc.txt".to_vec());
    assert_eq!(a.params, b"--lp 3 --tune 0".to_vec());
    assert!(a.quiet);
    assert_eq!(a.input, b"in.mkv".to_vec());
    assert_eq!(a.output, b"o.mkv".to_vec());
}

#[test]
fn noise_is_scaled_and_range_checked() {
    let a = get_args(&argv(&["xav", "-n", "64", "in.mkv"]), 8).unwrap();
    assert_eq!(a.noise, Some(6400));
    assert_eq!(get_args(&argv(&["xav", "-n", "65", "in.mkv"]), 8), Err(XavError::ArgError));
    assert_eq!(get_args(&argv(&["xav", "-n", "0", "in.mkv"]), 8), Err(XavError::ArgError));
}

#[test]
fn tq_sets_default_crf_range() {
    let a = get_args(&argv(&["xav", "-t", "9.45-9.55", "in.mkv"]), 8).unwrap();
    assert_eq!(a.target_quality, Some(b"9.45-9.55".to_vec()));
    assert_eq!(a.qp_range, Some(b"10.0-40.0".to_vec()));
}

#[test]
fn bad_invocations_error() {
    assert_eq!(get_args(&argv(&["xav"]), 8), Err(XavError::ArgError));
    assert_eq!(get_args(&argv(&["xav", "--bogus", "in.mkv"]), 8), Err(XavError::ArgError));
    assert_eq!(get_args(&argv(&["xav", "-w", "abc", "in.mkv"]), 8), Err(XavError::ArgError));
    // flags alone, no input
    assert_eq!(get_args(&argv(&["xav", "-q"]), 8), Err(XavError::ArgError));
}

#[test]
fn resume_comes_back_unparsed_for_replay() {
    let a = get_args(&argv(&["xav", "-r", "in.mkv"]), 8).unwrap();
    assert!(a.resume);
    assert_eq!(a.input, b"in.mkv".to_vec());
    // the defaulting pass has not run for a resume request
    assert_eq!(a.output, Vec::<u8>::new());
}

#[test]
fn defaults_can_run_alone() {
    let mut a = Args {
        worker: 0,
        scene_file: Vec::new(),
        target_quality: None,
        qp_range: None,
        params: b"--tune 0".to_vec(),
        resume: false,
        quiet: false,
        noise: None,
        input: b"dir/x.y.mkv".to_vec(),
        output: Vec::new(),
    };
    apply_defaults(&mut a, 32);
    assert_eq!(a.worker, 8);
    assert_eq!(a.params, b"--lp 3 --tune 0".to_vec());
    assert_eq!(a.output, b"dir/x.y_av1.mkv".to_vec());
    assert_eq!(a.scene_file, b"scd_x.y.txt".to_vec());
}

#[test]
fn quoting_round_trips_spaced_tokens() {
    let args = argv(&["xav", "-p", "--lp 3 --tune 0", "in.mkv"]);
    let line = quote_args(&args);
    assert_eq!(line, b"xav -p \"--lp 3 --tune 0\" in.mkv".to_vec());
    assert_eq!(parse_quoted_args(&line), args);
}

#[test]
fn numbers_parse_and_reject() {
    assert_eq!(parse_usize(&b"0".to_vec()), Some(0));
    assert_eq!(parse_usize(&b"12345".to_vec()), Some(12345));
    assert_eq!(parse_usize(&b"".to_vec()), None);
    assert_eq!(parse_usize(&b"12a".to_vec()), None);
    assert_eq!(parse_usize(&b"999999999999999999999999".to_vec()), None);
}

#[test]
fn hash_is_stable_hex() {
    let h1 = hash_input(&b"movie.mkv".to_vec());
    let h2 = hash_input(&b"movie.mkv".to_vec());
    assert_eq!(h1, h2);
    assert!(!h1.is_empty() && h1.len() <= 16);
    assert!(h1.iter().all(|b| b.is_ascii_hexdigit() && !b.is_ascii_uppercase()));
}

#[test]
fn work_dir_is_a_dotted_seven_digit_prefix() {
    let d = work_dir_name(&b"0123456789ab".to_vec());
    assert_eq!(d, b".0123456".to_vec());
    let short = work_dir_name(&b"ab".to_vec());
    assert_eq!(short, b".00000ab".to_vec());
}

#[test]
fn byte_string_comparison() {
    assert!(vec_is(&b"-w".to_vec(), "-w"));
    assert!(!vec_is(&b"-w".to_vec(), "--worker"));
}
