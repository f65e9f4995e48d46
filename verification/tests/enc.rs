use xav::enc::{
    crf_str, get_max_chunk_size, get_tile_params, make_enc_cmd, output_name, split_ws, u64_to_dec,
    zero_pad,
};
use xav::video::VidInf;

fn inf(width: u32, height: u32) -> VidInf {
    VidInf {
        width,
        height,
        fps_num: 24000,
        fps_den: 1001,
        frames: 300,
        color_primaries: Some(1),
        transfer_characteristics: Some(1),
        matrix_coefficients: Some(1),
        is_10bit: false,
        color_range: Some(0),
        chroma_sample_position: None,
        mastering_display: None,
        content_light: None,
    }
}

#[test]
fn tile_table_by_long_edge() {
    assert_eq!(get_tile_params(1920, 1080), (1, 0));
    assert_eq!(get_tile_params(1080, 1920), (0, 1));
    assert_eq!(get_tile_params(1080, 1080), (0, 0));
    assert_eq!(get_tile_params(720, 480), (0, 0));
    assert_eq!(get_tile_params(3840, 2160), (2, 0));
    assert_eq!(get_tile_params(2160, 3840), (0, 2));
    assert_eq!(get_tile_params(2160, 1080), (1, 0));
    assert_eq!(get_tile_params(4096, 4096), (2, 0));
}

#[test]
fn portrait_2160_long_edge_gives_one_row() {
    // 1080x1920 portrait clip: long edge 1920 in (1080, 2160], one tile row
    assert_eq!(get_tile_params(1080, 1920), (0, 1));
}

#[test]
fn decimal_rendering() {
    assert_eq!(u64_to_dec(0), b"0".to_vec());
    assert_eq!(u64_to_dec(7), b"7".to_vec());
    assert_eq!(u64_to_dec(1001), b"1001".to_vec());
    assert_eq!(u64_to_dec(u64::MAX), u64::MAX.to_string().into_bytes());
}

#[test]
fn zero_padding() {
    assert_eq!(zero_pad(b"7".to_vec(), 4), b"0007".to_vec());
    assert_eq!(zero_pad(b"12345".to_vec(), 4), b"12345".to_vec());
}

#[test]
fn output_names_are_dense_and_sorted() {
    assert_eq!(output_name(0), b"0000.ivf".to_vec());
    assert_eq!(output_name(1), b"0001.ivf".to_vec());
    assert_eq!(output_name(42), b"0042.ivf".to_vec());
    assert_eq!(output_name(10000), b"10000.ivf".to_vec());
    let names: Vec<Vec<u8>> = (0..100).map(output_name).collect();
    let mut sorted = names.clone();
    sorted.sort();
    assert_eq!(names, sorted);
}

#[test]
fn crf_renders_two_decimals() {
    assert_eq!(crf_str(2000), b"20.00".to_vec());
    assert_eq!(crf_str(1234), b"12.34".to_vec());
    assert_eq!(crf_str(105), b"1.05".to_vec());
}

#[test]
fn chunk_cap_is_ten_seconds_or_300() {
    assert_eq!(get_max_chunk_size(&inf(1920, 1080)), 240);
    let mut slow = inf(1920, 1080);
    slow.fps_num = 60;
    slow.fps_den = 1;
    assert_eq!(get_max_chunk_size(&slow), 300);
}

#[test]
fn params_split_on_whitespace() {
    assert_eq!(
        split_ws(&b"--lp 3  --tune 0".to_vec()),
        vec![b"--lp".to_vec(), b"3".to_vec(), b"--tune".to_vec(), b"0".to_vec()]
    );
    assert_eq!(split_ws(&b"".to_vec()), Vec::<Vec<u8>>::new());
    assert_eq!(split_ws(&b"   ".to_vec()), Vec::<Vec<u8>>::new());
}

#[test]
fn command_line_puts_everything_in_order() {
    let v = inf(1920, 1080);
    let args = make_enc_cmd(
        &v,
        &b"--lp 3".to_vec(),
        None,
        &b"out/0000.ivf".to_vec(),
        None,
        false,
    );
    let strs: Vec<String> = args.iter().map(|a| String::from_utf8(a.clone()).unwrap()).collect();
    let joined = strs.join(" ");
    assert!(joined.starts_with(
        "-i stdin --input-depth 10 --width 1920 --forced-max-frame-width 1920 \
         --height 1080 --forced-max-frame-height 1080 --fps-num 24000 --fps-denom 1001 \
         --keyint -1 --rc 0 --scd 0 --scm 0 --progress 3"
    ));
    assert!(joined.contains("--color-primaries 1"));
    assert!(joined.contains("--transfer-characteristics 1"));
    assert!(joined.contains("--matrix-coefficients 1"));
    assert!(joined.contains("--color-range 0"));
    assert!(joined.contains("--tile-columns 1 --tile-rows 0"));
    assert!(joined.ends_with("--lp 3 -b out/0000.ivf"));
    assert!(!joined.contains("--crf"));
    assert!(!joined.contains("--no-progress"));
}

#[test]
fn command_line_with_crf_grain_and_quiet() {
    let v = inf(1080, 1920);
    let args = make_enc_cmd(
        &v,
        &b"".to_vec(),
        Some(2000),
        &b"o.ivf".to_vec(),
        Some(&b"grain.tbl".to_vec()),
        true,
    );
    let strs: Vec<String> = args.iter().map(|a| String::from_utf8(a.clone()).unwrap()).collect();
    let joined = strs.join(" ");
    assert!(joined.contains("--progress 0"));
    assert!(joined.contains("--crf 20.00"));
    assert!(joined.contains("--tile-columns 0 --tile-rows 1"));
    assert!(joined.contains("--fgs-table grain.tbl"));
    assert!(joined.contains("--no-progress 1"));
    assert!(joined.ends_with("-b o.ivf"));
}
