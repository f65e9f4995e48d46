use xav::tq::{probe_name, rgb_stride, ProbeMemo, TqOutcome, TqSearch};

/// The stub metric: a score of 9.500 at CRF 20.00, falling by 0.010 per
/// whole CRF step above it.
fn stub_metric(crf_centi: u32) -> u32 {
    let base: i64 = 9500;
    let drop = (crf_centi as i64 - 2000) / 10;
    (base - drop) as u32
}

#[test]
fn search_converges_into_the_band() {
    // target 9.45-9.55, CRF range 10.00-40.00
    let mut s = TqSearch::new(1000, 4000, 9450, 9550);
    let mut accepted = None;
    let mut probes = 0;
    while let Some(crf) = s.current_probe() {
        probes += 1;
        assert!(probes <= 16, "search must narrow quickly");
        match s.observe(crf, stub_metric(crf)) {
            TqOutcome::Accepted(c) => {
                accepted = Some(c);
                break;
            }
            TqOutcome::Continue => {}
            TqOutcome::Exhausted => break,
        }
    }
    let crf = accepted.expect("a CRF in range must be found");
    // every CRF between 15.00 and 25.00 scores inside the band
    assert!((1500..=2500).contains(&crf));
    let score = stub_metric(crf);
    assert!((9450..=9550).contains(&score));
}

#[test]
fn search_gives_up_when_no_crf_reaches_the_band() {
    // the metric never reaches 99.0 anywhere in the range
    let mut s = TqSearch::new(1000, 4000, 99000, 99100);
    let mut steps = 0;
    loop {
        steps += 1;
        assert!(steps <= 64);
        let Some(crf) = s.current_probe() else { break };
        match s.observe(crf, stub_metric(crf)) {
            TqOutcome::Accepted(_) => panic!("nothing can be accepted"),
            TqOutcome::Continue => {}
            TqOutcome::Exhausted => break,
        }
    }
}

#[test]
fn score_above_band_raises_crf() {
    let mut s = TqSearch::new(1000, 4000, 9450, 9550);
    // probing 15.00 scores 9.550+0.050 = too good: the bracket must move up
    let r = s.observe(1500, 9600);
    assert_eq!(r, TqOutcome::Continue);
    assert_eq!((s.lo, s.hi), (1501, 4000));
    // probing 30.00 scores too low: the bracket must move down
    let r = s.observe(3000, 9300);
    assert_eq!(r, TqOutcome::Continue);
    assert_eq!((s.lo, s.hi), (1501, 2999));
}

#[test]
fn probe_names_are_unique_per_chunk_and_rate() {
    assert_eq!(probe_name(3, 2000), b"0003_20.00.ivf".to_vec());
    assert_ne!(probe_name(3, 2000), probe_name(3, 2001));
    assert_ne!(probe_name(3, 2000), probe_name(4, 2000));
}

#[test]
fn memo_never_recomputes_a_probe() {
    let mut m = ProbeMemo::new();
    let name = probe_name(0, 2000);
    assert_eq!(m.find(&name), None);
    m.insert(name.clone(), 2000, 9500);
    assert_eq!(m.find(&name), Some((2000, 9500)));
    // a second insert under the same name changes nothing
    m.insert(name.clone(), 2000, 1);
    assert_eq!(m.find(&name), Some((2000, 9500)));
    assert_eq!(m.records.len(), 1);
}

#[test]
fn metric_stride_rounds_up_to_32() {
    assert_eq!(rgb_stride(1920), 3840);
    assert_eq!(rgb_stride(1921), 3872);
    assert_eq!(rgb_stride(1), 32);
}
