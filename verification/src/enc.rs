//! Encoder process driver, minus the process: decimal rendering of the
//! numeric flags, the per-chunk output name, the tile-layout rule, and the
//! full encoder argument vector.

use vstd::prelude::*;
use vstd::string::StringSliceAdditionalSpecFns;
use crate::video::VidInf;

verus! {

/// The decimal digits of a non-negative number, most significant first.
pub open spec fn spec_dec(n: int) -> Seq<u8>
    recommends
        n >= 0,
    decreases n,
{
    if n < 10 {
        seq![(48 + if n >= 0 { n } else { 0 }) as u8]
    } else {
        spec_dec(n / 10).push((48 + n % 10) as u8)
    }
}

/// Render a number in decimal.
pub fn u64_to_dec(n: u64) -> (r: Vec<u8>)
    ensures
        r@ == spec_dec(n as int),
    decreases n,
{
    if n < 10 {
        let mut v: Vec<u8> = Vec::new();
        v.push(48 + (n as u8));
        v
    } else {
        let mut v = u64_to_dec(n / 10);
        v.push(48 + ((n % 10) as u8));
        v
    }
}

/// The decimal rendering of a signed number: a minus sign when negative.
pub open spec fn spec_dec_i(n: int) -> Seq<u8> {
    if n < 0 {
        ("-").spec_bytes() + spec_dec(-n)
    } else {
        spec_dec(n)
    }
}

/// Render a signed number in decimal.
pub fn i64_to_dec(n: i64) -> (r: Vec<u8>)
    requires
        n > i64::MIN,
    ensures
        r@ == spec_dec_i(n as int),
{
    if n < 0 {
        let s = "-";
        let mut v = vstd::slice::slice_to_vec(s.as_bytes());
        let mut d = u64_to_dec((-n) as u64);
        v.append(&mut d);
        v
    } else {
        u64_to_dec(n as u64)
    }
}

/// `s` left-padded with ASCII zeros to at least `w` digits.
pub open spec fn spec_zero_pad(s: Seq<u8>, w: int) -> Seq<u8> {
    if s.len() >= w {
        s
    } else {
        Seq::new((w - s.len()) as nat, |i: int| 48u8) + s
    }
}

/// Left-pad a digit string with zeros to at least `width` digits.
pub fn zero_pad(digits: Vec<u8>, width: usize) -> (r: Vec<u8>)
    ensures
        r@ == spec_zero_pad(digits@, width as int),
{
    let ghost orig = digits@;
    let mut v = digits;
    while v.len() < width
        invariant
            v@.len() >= orig.len(),
            v@.len() > orig.len() ==> v@.len() <= width,
            v@ =~= Seq::new((v@.len() - orig.len()) as nat, |i: int| 48u8) + orig,
        decreases width - v.len(),
    {
        v.insert(0, 48);
        assert(v@ =~= Seq::new((v@.len() - orig.len()) as nat, |i: int| 48u8) + orig);
    }
    proof {
        if orig.len() >= width {
            assert(v@ =~= orig);
        }
        assert(v@ =~= spec_zero_pad(orig, width as int));
    }
    v
}

/// The bitstream file name of a chunk: its index, zero-padded to four
/// digits, with the container suffix.
pub open spec fn spec_output_name(idx: u32) -> Seq<u8> {
    spec_zero_pad(spec_dec(idx as int), 4) + (".ivf").spec_bytes()
}

/// Name of the bitstream file a chunk's encode writes, `<idx:04>.ivf`;
/// the mux later walks these names in index order.
pub fn output_name(idx: u32) -> (r: Vec<u8>)
    ensures
        r@ == spec_output_name(idx),
{
    let digits = u64_to_dec(idx as u64);
    let mut v = zero_pad(digits, 4);
    let suffix = ".ivf";
    let mut sv = vstd::slice::slice_to_vec(suffix.as_bytes());
    v.append(&mut sv);
    v
}

/// A rate parameter in hundredths, rendered with exactly two decimals.
pub open spec fn spec_crf_str(centi: u32) -> Seq<u8> {
    spec_dec(centi as int / 100) + (".").spec_bytes() + spec_zero_pad(
        spec_dec(centi as int % 100),
        2,
    )
}

/// Render a centi-CRF value as the encoder expects it, `<int>.<2 digits>`.
pub fn crf_str(centi: u32) -> (r: Vec<u8>)
    ensures
        r@ == spec_crf_str(centi),
{
    let mut v = u64_to_dec((centi / 100) as u64);
    let dot = ".";
    let mut dv = vstd::slice::slice_to_vec(dot.as_bytes());
    v.append(&mut dv);
    let mut frac = zero_pad(u64_to_dec((centi % 100) as u64), 2);
    v.append(&mut frac);
    v
}

/// The longer of the two frame axes.
pub open spec fn spec_long_edge(width: u32, height: u32) -> u32 {
    if height > width {
        height
    } else {
        width
    }
}

/// The tile layout as a pair `(columns, rows)` per the long-edge rule.
pub open spec fn spec_tiles(width: u32, height: u32) -> (u32, u32) {
    let long = spec_long_edge(width, height);
    if long <= 1080 {
        (0u32, 0u32)
    } else if long <= 2160 {
        if height > width {
            (0u32, 1u32)
        } else {
            (1u32, 0u32)
        }
    } else {
        if height > width {
            (0u32, 2u32)
        } else {
            (2u32, 0u32)
        }
    }
}

/// The tile layout the encoder is told to use, per the long-edge rule:
/// no tiling up to 1080, one split up to 2160, two splits above that,
/// along the longer axis.
pub fn get_tile_params(width: u32, height: u32) -> (r: (u32, u32))
    ensures
        r == spec_tiles(width, height),
        spec_long_edge(width, height) <= 1080 ==> r == (0u32, 0u32),
        1080 < spec_long_edge(width, height) <= 2160 && height > width ==> r == (0u32, 1u32),
        1080 < spec_long_edge(width, height) <= 2160 && height <= width ==> r == (1u32, 0u32),
        spec_long_edge(width, height) > 2160 && height > width ==> r == (0u32, 2u32),
        spec_long_edge(width, height) > 2160 && height <= width ==> r == (2u32, 0u32),
{
    let is_vertical = height > width;
    let max_dim = if width >= height {
        width
    } else {
        height
    };
    if max_dim <= 1080 {
        (0, 0)
    } else if max_dim <= 2160 {
        if is_vertical {
            (0, 1)
        } else {
            (1, 0)
        }
    } else {
        if is_vertical {
            (0, 2)
        } else {
            (2, 0)
        }
    }
}

/// How many frames one chunk payload may hold: ten seconds of video,
/// rounded to the nearest frame, but never more than 300.
pub fn get_max_chunk_size(inf: &VidInf) -> (r: usize)
    requires
        inf.fps_den > 0,
    ensures
        ({
            let exact = (10 * inf.fps_num + inf.fps_den / 2) as int / inf.fps_den as int;
            r == if exact < 300 {
                exact
            } else {
                300int
            }
        }),
{
    let num = inf.fps_num as u64;
    let den = inf.fps_den as u64;
    let rounded = (num * 10 + den / 2) / den;
    if rounded >= 300 {
        300
    } else {
        rounded as usize
    }
}

/// Whitespace as the free-form parameter splitter sees it.
pub open spec fn is_ws(b: u8) -> bool {
    b == 32 || b == 9 || b == 10 || b == 13
}

/// The whitespace-separated tokens of `s[i..]`, with `cur` the partial token
/// read so far.
pub open spec fn spec_split_acc(s: Seq<u8>, i: int, cur: Seq<u8>) -> Seq<Seq<u8>>
    decreases s.len() - i,
{
    if i < 0 || i >= s.len() {
        if cur.len() == 0 {
            seq![]
        } else {
            seq![cur]
        }
    } else if is_ws(s[i]) {
        if cur.len() == 0 {
            spec_split_acc(s, i + 1, seq![])
        } else {
            seq![cur] + spec_split_acc(s, i + 1, seq![])
        }
    } else {
        spec_split_acc(s, i + 1, cur.push(s[i]))
    }
}

/// The whitespace-separated tokens of `s`, in order; runs of whitespace
/// separate tokens and never appear inside one.
pub open spec fn spec_split_ws(s: Seq<u8>) -> Seq<Seq<u8>> {
    spec_split_acc(s, 0, seq![])
}

/// The byte views of a list of byte vectors.
pub open spec fn views(s: Seq<Vec<u8>>) -> Seq<Seq<u8>> {
    s.map_values(|v: Vec<u8>| v@)
}

/// Pushing a vector appends its view.
pub proof fn lemma_views_push(s: Seq<Vec<u8>>, x: Vec<u8>)
    ensures
        views(s.push(x)) =~= views(s).push(x@),
{
}

/// Split a free-form parameter string on whitespace.
pub fn split_ws(params: &Vec<u8>) -> (r: Vec<Vec<u8>>)
    ensures
        views(r@) == spec_split_ws(params@),
{
    let n = params.len();
    let mut r: Vec<Vec<u8>> = Vec::new();
    let mut cur: Vec<u8> = Vec::new();
    let mut i: usize = 0;
    while i < n
        invariant
            n == params@.len(),
            i <= n,
            spec_split_ws(params@) =~= views(r@) + spec_split_acc(params@, i as int, cur@),
        decreases n - i,
    {
        let b = params[i];
        let ghost r0 = r@;
        let ghost cur0 = cur@;
        if b == 32 || b == 9 || b == 10 || b == 13 {
            assert(is_ws(params@[i as int]));
            if cur.len() > 0 {
                proof {
                    lemma_views_push(r@, cur);
                }
                r.push(cur);
                cur = Vec::new();
                assert(spec_split_acc(params@, i as int, cur0) == seq![cur0] + spec_split_acc(
                    params@,
                    i + 1,
                    Seq::empty(),
                ));
                assert(views(r0) + (seq![cur0] + spec_split_acc(params@, i + 1, Seq::empty()))
                    =~= views(r@) + spec_split_acc(params@, i + 1, Seq::empty()));
            } else {
                assert(spec_split_acc(params@, i as int, cur0) == spec_split_acc(
                    params@,
                    i + 1,
                    Seq::empty(),
                ));
                assert(cur@ =~= Seq::<u8>::empty());
            }
        } else {
            cur.push(b);
            assert(spec_split_acc(params@, i as int, cur0) == spec_split_acc(
                params@,
                i + 1,
                cur0.push(b),
            ));
        }
        i += 1;
        assert(spec_split_ws(params@) =~= views(r@) + spec_split_acc(params@, i as int, cur@));
    }
    if cur.len() > 0 {
        proof {
            lemma_views_push(r@, cur);
        }
        r.push(cur);
    }
    proof {
        assert(views(r@) =~= spec_split_ws(params@));
    }
    r
}

/// A flag with a signed decimal value, present only when the field is.
pub open spec fn spec_opt_num_args(flag: Seq<u8>, v: Option<i32>) -> Seq<Seq<u8>> {
    match v {
        Some(x) => seq![flag, spec_dec_i(x as int)],
        None => seq![],
    }
}

/// The fixed leading arguments of every encoder invocation: input from
/// standard input at depth 10, the source geometry and frame rate pinned,
/// closed GOP, constant-quality rate control, no scene detection, no speed
/// change, progress verbosity 3 (0 when quiet).
pub open spec fn spec_base_args(inf: VidInf, quiet: bool) -> Seq<Seq<u8>> {
    seq![
        ("-i").spec_bytes(),
        ("stdin").spec_bytes(),
        ("--input-depth").spec_bytes(),
        ("10").spec_bytes(),
        ("--width").spec_bytes(),
        spec_dec(inf.width as int),
        ("--forced-max-frame-width").spec_bytes(),
        spec_dec(inf.width as int),
        ("--height").spec_bytes(),
        spec_dec(inf.height as int),
        ("--forced-max-frame-height").spec_bytes(),
        spec_dec(inf.height as int),
        ("--fps-num").spec_bytes(),
        spec_dec(inf.fps_num as int),
        ("--fps-denom").spec_bytes(),
        spec_dec(inf.fps_den as int),
        ("--keyint").spec_bytes(),
        ("-1").spec_bytes(),
        ("--rc").spec_bytes(),
        ("0").spec_bytes(),
        ("--scd").spec_bytes(),
        ("0").spec_bytes(),
        ("--scm").spec_bytes(),
        ("0").spec_bytes(),
        ("--progress").spec_bytes(),
        if quiet {
            ("0").spec_bytes()
        } else {
            ("3").spec_bytes()
        },
    ]
}

/// One pair of arguments for every colour-description field the source
/// carries, in a fixed order.
pub open spec fn spec_color_args(inf: VidInf) -> Seq<Seq<u8>> {
    spec_opt_num_args(("--color-primaries").spec_bytes(), inf.color_primaries)
        + spec_opt_num_args(
        ("--transfer-characteristics").spec_bytes(),
        inf.transfer_characteristics,
    ) + spec_opt_num_args(("--matrix-coefficients").spec_bytes(), inf.matrix_coefficients)
        + spec_opt_num_args(("--color-range").spec_bytes(), inf.color_range) + spec_opt_num_args(
        ("--chroma-sample-position").spec_bytes(),
        inf.chroma_sample_position,
    ) + (match inf.mastering_display {
        Some(md) => seq![
            ("--mastering-display").spec_bytes(),
            vstd::utf8::encode_utf8(md@),
        ],
        None => seq![],
    }) + (match inf.content_light {
        Some(cl) => seq![("--content-light").spec_bytes(), vstd::utf8::encode_utf8(cl@)],
        None => seq![],
    })
}

/// The complete encoder argument vector: base arguments, then the CRF when
/// one is supplied, the colour description, the tile layout, the grain
/// table when present, the quiet flag, the user parameters split on
/// whitespace, and finally the output path.
pub open spec fn spec_enc_args(
    inf: VidInf,
    params: Seq<u8>,
    crf_centi: Option<u32>,
    output: Seq<u8>,
    grain: Option<Seq<u8>>,
    quiet: bool,
) -> Seq<Seq<u8>> {
    spec_base_args(inf, quiet) + (match crf_centi {
        Some(c) => seq![("--crf").spec_bytes(), spec_crf_str(c)],
        None => seq![],
    }) + spec_color_args(inf) + seq![
        ("--tile-columns").spec_bytes(),
        spec_dec(spec_tiles(inf.width, inf.height).0 as int),
        ("--tile-rows").spec_bytes(),
        spec_dec(spec_tiles(inf.width, inf.height).1 as int),
    ] + (match grain {
        Some(g) => seq![("--fgs-table").spec_bytes(), g],
        None => seq![],
    }) + (if quiet {
        seq![("--no-progress").spec_bytes(), ("1").spec_bytes()]
    } else {
        seq![]
    }) + spec_split_ws(params) + seq![("-b").spec_bytes(), output]
}

/// A string literal as an owned byte vector.
pub fn arg_vec(s: &str) -> (r: Vec<u8>)
    ensures
        r@ == s.spec_bytes(),
{
    vstd::slice::slice_to_vec(s.as_bytes())
}

/// Append one flag with no value.
fn push_flag(args: &mut Vec<Vec<u8>>, flag: &str)
    ensures
        views(final(args)@) =~= views(old(args)@).push(flag.spec_bytes()),
{
    let v = arg_vec(flag);
    proof {
        lemma_views_push(args@, v);
    }
    args.push(v);
}

/// Append one flag with a value.
fn push_pair(args: &mut Vec<Vec<u8>>, flag: &str, value: Vec<u8>)
    ensures
        views(final(args)@) =~= views(old(args)@).push(flag.spec_bytes()).push(value@),
{
    push_flag(args, flag);
    proof {
        lemma_views_push(args@, value);
    }
    args.push(value);
}

/// Append one flag with a signed decimal value when the field is present.
fn push_opt_num(args: &mut Vec<Vec<u8>>, flag: &str, v: Option<i32>)
    ensures
        views(final(args)@) =~= views(old(args)@) + spec_opt_num_args(flag.spec_bytes(), v),
{
    let ghost before = views(args@);
    match v {
        Some(x) => {
            push_pair(args, flag, i64_to_dec(x as i64));
            assert(views(args@) =~= before + spec_opt_num_args(flag.spec_bytes(), v));
        },
        None => {
            assert(views(args@) =~= before + spec_opt_num_args(flag.spec_bytes(), v));
        },
    }
}

/// The fixed leading arguments, built.
fn base_args(inf: &VidInf, quiet: bool) -> (r: Vec<Vec<u8>>)
    ensures
        views(r@) =~= spec_base_args(*inf, quiet),
{
    let mut args: Vec<Vec<u8>> = Vec::new();
    push_pair(&mut args, "-i", arg_vec("stdin"));
    push_pair(&mut args, "--input-depth", arg_vec("10"));
    push_pair(&mut args, "--width", u64_to_dec(inf.width as u64));
    push_pair(&mut args, "--forced-max-frame-width", u64_to_dec(inf.width as u64));
    push_pair(&mut args, "--height", u64_to_dec(inf.height as u64));
    push_pair(&mut args, "--forced-max-frame-height", u64_to_dec(inf.height as u64));
    push_pair(&mut args, "--fps-num", u64_to_dec(inf.fps_num as u64));
    push_pair(&mut args, "--fps-denom", u64_to_dec(inf.fps_den as u64));
    push_pair(&mut args, "--keyint", arg_vec("-1"));
    push_pair(&mut args, "--rc", arg_vec("0"));
    push_pair(&mut args, "--scd", arg_vec("0"));
    push_pair(&mut args, "--scm", arg_vec("0"));
    if quiet {
        push_pair(&mut args, "--progress", arg_vec("0"));
    } else {
        push_pair(&mut args, "--progress", arg_vec("3"));
    }
    args
}

/// The colour-description arguments, built.
fn color_args(inf: &VidInf) -> (r: Vec<Vec<u8>>)
    ensures
        views(r@) =~= spec_color_args(*inf),
{
    let mut args: Vec<Vec<u8>> = Vec::new();
    push_opt_num(&mut args, "--color-primaries", inf.color_primaries);
    push_opt_num(&mut args, "--transfer-characteristics", inf.transfer_characteristics);
    push_opt_num(&mut args, "--matrix-coefficients", inf.matrix_coefficients);
    push_opt_num(&mut args, "--color-range", inf.color_range);
    push_opt_num(&mut args, "--chroma-sample-position", inf.chroma_sample_position);
    match &inf.mastering_display {
        Some(md) => {
            let b = vstd::slice::slice_to_vec(md.as_str().as_bytes());
            push_pair(&mut args, "--mastering-display", b);
        },
        None => {},
    }
    match &inf.content_light {
        Some(cl) => {
            let b = vstd::slice::slice_to_vec(cl.as_str().as_bytes());
            push_pair(&mut args, "--content-light", b);
        },
        None => {},
    }
    args
}

/// The arguments through the colour description: base, CRF, colour.
#[verifier::rlimit(60)]
fn enc_args_head(inf: &VidInf, crf_centi: Option<u32>, quiet: bool) -> (r: Vec<Vec<u8>>)
    ensures
        views(r@) =~= spec_base_args(*inf, quiet) + (match crf_centi {
            Some(c) => seq![("--crf").spec_bytes(), spec_crf_str(c)],
            None => Seq::empty(),
        }) + spec_color_args(*inf),
{
    let mut args = base_args(inf, quiet);

    match crf_centi {
        Some(c) => {
            push_pair(&mut args, "--crf", crf_str(c));
        },
        None => {},
    }
    let ghost after_crf = spec_base_args(*inf, quiet) + (match crf_centi {
        Some(c) => seq![("--crf").spec_bytes(), spec_crf_str(c)],
        None => Seq::empty(),
    });
    assert(views(args@) =~= after_crf);

    let mut color = color_args(inf);
    let ghost pre_color = views(args@);
    let ghost color_view = views(color@);
    args.append(&mut color);
    assert(views(args@) =~= pre_color + color_view);
    assert(views(args@) =~= after_crf + spec_color_args(*inf));
    args
}

/// Build the encoder command line from the stream description and the run
/// options; everything but spawning the process.
#[verifier::rlimit(60)]
pub fn make_enc_cmd(
    inf: &VidInf,
    params: &Vec<u8>,
    crf_centi: Option<u32>,
    output: &Vec<u8>,
    grain_table: Option<&Vec<u8>>,
    quiet: bool,
) -> (r: Vec<Vec<u8>>)
    ensures
        views(r@) == spec_enc_args(
            *inf,
            params@,
            crf_centi,
            output@,
            match grain_table {
                Some(g) => Some(g@),
                None => None,
            },
            quiet,
        ),
{
    let mut args = enc_args_head(inf, crf_centi, quiet);
    let ghost after_color = spec_base_args(*inf, quiet) + (match crf_centi {
        Some(c) => seq![("--crf").spec_bytes(), spec_crf_str(c)],
        None => Seq::empty(),
    }) + spec_color_args(*inf);

    let (tile_cols, tile_rows) = get_tile_params(inf.width, inf.height);
    push_pair(&mut args, "--tile-columns", u64_to_dec(tile_cols as u64));
    push_pair(&mut args, "--tile-rows", u64_to_dec(tile_rows as u64));
    let ghost after_tiles = after_color + seq![
        ("--tile-columns").spec_bytes(),
        spec_dec(spec_tiles(inf.width, inf.height).0 as int),
        ("--tile-rows").spec_bytes(),
        spec_dec(spec_tiles(inf.width, inf.height).1 as int),
    ];
    assert(views(args@) =~= after_tiles);

    match grain_table {
        Some(g) => {
            let gv = vstd::slice::slice_to_vec(g.as_slice());
            push_pair(&mut args, "--fgs-table", gv);
        },
        None => {},
    }
    let ghost after_grain = after_tiles + (match grain_table {
        Some(g) => seq![("--fgs-table").spec_bytes(), g@],
        None => Seq::empty(),
    });
    assert(views(args@) =~= after_grain);

    if quiet {
        push_pair(&mut args, "--no-progress", arg_vec("1"));
    }
    let ghost after_quiet = after_grain + (if quiet {
        seq![("--no-progress").spec_bytes(), ("1").spec_bytes()]
    } else {
        Seq::empty()
    });
    assert(views(args@) =~= after_quiet);

    let mut user = split_ws(params);
    let ghost user_view = views(user@);
    let ghost pre_user = views(args@);
    args.append(&mut user);
    assert(views(args@) =~= pre_user + user_view);

    push_pair(&mut args, "-b", vstd::slice::slice_to_vec(output.as_slice()));

    proof {
        let gview = match grain_table {
            Some(g) => Some(g@),
            None => None,
        };
        assert(views(args@) =~= spec_enc_args(*inf, params@, crf_centi, output@, gview, quiet));
    }
    args
}

/// A zero-padded digit string keeps its value: leading zeros change
/// nothing.
proof fn lemma_zero_pad_value(s: Seq<u8>, w: int)
    ensures
        crate::args::spec_digits_val(spec_zero_pad(s, w)) == crate::args::spec_digits_val(s),
        crate::args::spec_all_digits(s) ==> crate::args::spec_all_digits(spec_zero_pad(s, w)),
    decreases w - s.len(),
{
    if s.len() >= w {
    } else {
        let p = spec_zero_pad(s, w);
        let shorter = spec_zero_pad(s, w - 1);
        assert(p =~= seq![48u8] + shorter);
        lemma_zero_pad_value(s, w - 1);
        lemma_lead_zero_value(shorter);
        assert(crate::args::spec_all_digits(s) ==> crate::args::spec_all_digits(p)) by {
            if crate::args::spec_all_digits(s) {
                assert forall|i: int| 0 <= i < p.len() implies 48 <= #[trigger] p[i] <= 57 by {
                    if i >= p.len() - s.len() {
                        assert(p[i] == s[i - (p.len() - s.len())]);
                    }
                }
            }
        }
    }
}

/// Prepending one zero digit keeps the value.
proof fn lemma_lead_zero_value(s: Seq<u8>)
    ensures
        crate::args::spec_digits_val(seq![48u8] + s) == crate::args::spec_digits_val(s),
    decreases s.len(),
{
    let z = seq![48u8] + s;
    if s.len() == 0 {
        assert(z =~= seq![48u8]);
        assert(z.drop_last() =~= Seq::<u8>::empty());
        assert(crate::args::spec_digits_val(Seq::<u8>::empty()) == 0);
        assert(z.last() == 48u8);
        assert(crate::args::spec_digits_val(z) == 0);
    } else {
        assert(z.drop_last() =~= seq![48u8] + s.drop_last());
        lemma_lead_zero_value(s.drop_last());
        assert(z.last() == s.last());
    }
}

/// Different chunks never share an output name: whatever order the workers
/// finish in, chunk `i` only ever writes `<i:04>.ivf`.
pub proof fn lemma_output_name_injective(i: u32, j: u32)
    requires
        i != j,
    ensures
        spec_output_name(i) != spec_output_name(j),
{
    if spec_output_name(i) == spec_output_name(j) {
        let a = spec_zero_pad(spec_dec(i as int), 4);
        let b = spec_zero_pad(spec_dec(j as int), 4);
        let suffix = (".ivf").spec_bytes();
        assert((a + suffix).len() == (b + suffix).len());
        assert(a.len() == b.len());
        assert(a =~= b) by {
            assert forall|k: int| 0 <= k < a.len() implies a[k] == b[k] by {
                assert((a + suffix)[k] == a[k]);
                assert((b + suffix)[k] == b[k]);
            }
        }
        crate::args::lemma_dec_digits(i as int);
        crate::args::lemma_dec_digits(j as int);
        lemma_zero_pad_value(spec_dec(i as int), 4);
        lemma_zero_pad_value(spec_dec(j as int), 4);
        assert(crate::args::spec_digits_val(a) == i);
        assert(crate::args::spec_digits_val(b) == j);
    }
}

/// The splitter never looks left of its position: walking a concatenation
/// past the first part is walking the second part.
pub proof fn lemma_split_acc_shift(x: Seq<u8>, y: Seq<u8>, i: int, cur: Seq<u8>)
    requires
        i >= x.len(),
    ensures
        spec_split_acc(x + y, i, cur) == spec_split_acc(y, i - x.len(), cur),
    decreases (x + y).len() - i,
{
    let s = x + y;
    if i < 0 || i >= s.len() {
    } else {
        assert(s[i] == y[i - x.len()]);
        if is_ws(s[i]) {
            if cur.len() == 0 {
                lemma_split_acc_shift(x, y, i + 1, Seq::empty());
            } else {
                lemma_split_acc_shift(x, y, i + 1, Seq::empty());
            }
        } else {
            lemma_split_acc_shift(x, y, i + 1, cur.push(s[i]));
        }
    }
}

/// Walking `k` non-whitespace bytes moves them into the current token.
pub proof fn lemma_split_acc_token(s: Seq<u8>, i: int, cur: Seq<u8>, k: int)
    requires
        0 <= i,
        0 <= k,
        i + k <= s.len(),
        forall|m: int| i <= m < i + k ==> !is_ws(#[trigger] s[m]),
    ensures
        spec_split_acc(s, i, cur) == spec_split_acc(s, i + k, cur + s.subrange(i, i + k)),
    decreases k,
{
    if k == 0 {
        assert(cur + s.subrange(i, i) =~= cur);
    } else {
        assert(!is_ws(s[i]));
        lemma_split_acc_token(s, i + 1, cur.push(s[i]), k - 1);
        assert(cur.push(s[i]) + s.subrange(i + 1, i + k) =~= cur + s.subrange(i, i + k));
    }
}

/// No decimal digit is whitespace.
pub proof fn lemma_digits_not_ws(t: Seq<u8>)
    requires
        crate::args::spec_all_digits(t),
    ensures
        forall|m: int| 0 <= m < t.len() ==> !is_ws(#[trigger] t[m]),
{
}

} // verus!
