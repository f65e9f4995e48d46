//! Command-line model: the token grammar, the defaulting rules, the quoted
//! argument vector persisted for resume, and the working-directory name.

use vstd::prelude::*;
use vstd::string::StringSliceAdditionalSpecFns;
use crate::enc::{spec_zero_pad, zero_pad};
use crate::error::XavError;

verus! {

/// The run options, fully parsed.
#[derive(Clone, Debug, PartialEq, Eq)]
pub struct Args {
    pub worker: usize,
    pub scene_file: Vec<u8>,
    pub target_quality: Option<Vec<u8>>,
    pub qp_range: Option<Vec<u8>>,
    pub params: Vec<u8>,
    pub resume: bool,
    pub quiet: bool,
    pub noise: Option<u32>,
    pub input: Vec<u8>,
    pub output: Vec<u8>,
}

/// The mathematical image of `Args`.
pub struct ArgsModel {
    pub worker: usize,
    pub scene_file: Seq<u8>,
    pub target_quality: Option<Seq<u8>>,
    pub qp_range: Option<Seq<u8>>,
    pub params: Seq<u8>,
    pub resume: bool,
    pub quiet: bool,
    pub noise: Option<u32>,
    pub input: Seq<u8>,
    pub output: Seq<u8>,
}

impl View for Args {
    type V = ArgsModel;

    open spec fn view(&self) -> ArgsModel {
        ArgsModel {
            worker: self.worker,
            scene_file: self.scene_file@,
            target_quality: match self.target_quality {
                Some(ref v) => Some(v@),
                None => None,
            },
            qp_range: match self.qp_range {
                Some(ref v) => Some(v@),
                None => None,
            },
            params: self.params@,
            resume: self.resume,
            quiet: self.quiet,
            noise: self.noise,
            input: self.input@,
            output: self.output@,
        }
    }
}

/// No options chosen yet: the state the token walk starts from.
pub open spec fn spec_args_init() -> ArgsModel {
    ArgsModel {
        worker: 0,
        scene_file: Seq::empty(),
        target_quality: None,
        qp_range: None,
        params: Seq::empty(),
        resume: false,
        quiet: false,
        noise: None,
        input: Seq::empty(),
        output: Seq::empty(),
    }
}

/// The value of a run of decimal digits, most significant first.
pub open spec fn spec_digits_val(s: Seq<u8>) -> int
    decreases s.len(),
{
    if s.len() == 0 {
        0
    } else {
        spec_digits_val(s.drop_last()) * 10 + (s.last() - 48)
    }
}

/// Whether every byte is a decimal digit.
pub open spec fn spec_all_digits(s: Seq<u8>) -> bool {
    forall|i: int| 0 <= i < s.len() ==> 48 <= #[trigger] s[i] <= 57
}

/// What parsing a decimal number yields: the value of a non-empty digit
/// string when it fits, nothing otherwise.
pub open spec fn spec_parse_usize(s: Seq<u8>) -> Option<usize> {
    if s.len() > 0 && spec_all_digits(s) && spec_digits_val(s) <= usize::MAX {
        Some(spec_digits_val(s) as usize)
    } else {
        None
    }
}

proof fn lemma_digits_val_nonneg(s: Seq<u8>)
    requires
        spec_all_digits(s),
    ensures
        spec_digits_val(s) >= 0,
    decreases s.len(),
{
    if s.len() > 0 {
        assert(spec_all_digits(s.drop_last()));
        lemma_digits_val_nonneg(s.drop_last());
    }
}

proof fn lemma_digits_val_prefix_le(s: Seq<u8>, n: int)
    requires
        spec_all_digits(s),
        0 <= n <= s.len(),
    ensures
        spec_digits_val(s.take(n)) <= spec_digits_val(s),
    decreases s.len() - n,
{
    if n == s.len() {
        assert(s.take(n) =~= s);
    } else {
        lemma_digits_val_prefix_le(s, n + 1);
        let t = s.take(n + 1);
        assert(t.drop_last() =~= s.take(n));
        assert(spec_digits_val(t) == spec_digits_val(s.take(n)) * 10 + (s[n] - 48));
        assert(spec_all_digits(s.take(n)));
        lemma_digits_val_nonneg(s.take(n));
    }
}

/// Parse a decimal number; rejects empty input, non-digits, and overflow.
pub fn parse_usize(s: &Vec<u8>) -> (r: Option<usize>)
    ensures
        r == spec_parse_usize(s@),
{
    let n = s.len();
    if n == 0 {
        return None;
    }
    let mut acc: usize = 0;
    let mut i: usize = 0;
    while i < n
        invariant
            n == s@.len(),
            i <= n,
            spec_all_digits(s@.take(i as int)),
            acc == spec_digits_val(s@.take(i as int)),
        decreases n - i,
    {
        let b = s[i];
        if b < 48 || b > 57 {
            return None;
        }
        let d = (b - 48) as usize;
        let ghost pre = s@.take(i as int);
        proof {
            assert(s@.take(i + 1).drop_last() =~= pre);
        }
        match acc.checked_mul(10) {
            Some(m) => {
                match m.checked_add(d) {
                    Some(v) => {
                        acc = v;
                    },
                    None => {
                        proof {
                            assert(spec_digits_val(s@.take(i + 1)) > usize::MAX);
                            if spec_all_digits(s@) {
                                lemma_digits_val_prefix_le(s@, i + 1);
                            }
                        }
                        return None;
                    },
                }
            },
            None => {
                proof {
                    assert(spec_digits_val(s@.take(i + 1)) > usize::MAX);
                    if spec_all_digits(s@) {
                        lemma_digits_val_prefix_le(s@, i + 1);
                    }
                }
                return None;
            },
        }
        i += 1;
    }
    proof {
        assert(s@.take(n as int) =~= s@);
    }
    Some(acc)
}

/// Compare two byte vectors.
pub fn vec_eq(a: &Vec<u8>, b: &Vec<u8>) -> (r: bool)
    ensures
        r == (a@ == b@),
{
    let n = a.len();
    if n != b.len() {
        return false;
    }
    let mut i: usize = 0;
    while i < n
        invariant
            n == a@.len(),
            n == b@.len(),
            i <= n,
            forall|k: int| 0 <= k < i ==> a@[k] == b@[k],
        decreases n - i,
    {
        if a[i] != b[i] {
            return false;
        }
        i += 1;
    }
    proof {
        assert(a@ =~= b@);
    }
    true
}

/// Compare a byte vector with a string literal.
pub fn vec_is(v: &Vec<u8>, s: &str) -> (r: bool)
    ensures
        r == (v@ == s.spec_bytes()),
{
    let b = s.as_bytes();
    let blen = b.len();
    if v.len() != blen {
        proof {
            if v@ == s.spec_bytes() {
                assert(v@.len() == s.spec_bytes().len());
            }
        }
        return false;
    }
    let mut i: usize = 0;
    while i < blen
        invariant
            blen == b@.len(),
            v@.len() == blen,
            b@ == s.spec_bytes(),
            i <= blen,
            forall|k: int| 0 <= k < i ==> v@[k] == b@[k],
        decreases blen - i,
    {
        if v[i] != *vstd::slice::slice_index_get(b, i) {
            return false;
        }
        i += 1;
    }
    proof {
        assert(v@ =~= b@);
    }
    true
}

/// One step of the token walk: how the options change when the walker stands
/// on token `i`. A value-taking flag at the very end of the vector consumes
/// nothing and changes nothing; an unknown flag stops the walk.
pub open spec fn spec_parse_tokens(args: Seq<Seq<u8>>, i: int, cur: ArgsModel) -> Option<ArgsModel>
    decreases args.len() - i,
{
    if i < 0 || i >= args.len() {
        Some(cur)
    } else {
        let a = args[i];
        if a == ("-w").spec_bytes() || a == ("--worker").spec_bytes() {
            if i + 1 < args.len() {
                match spec_parse_usize(args[i + 1]) {
                    Some(v) => spec_parse_tokens(args, i + 2, ArgsModel { worker: v, ..cur }),
                    None => None,
                }
            } else {
                spec_parse_tokens(args, i + 1, cur)
            }
        } else if a == ("-s").spec_bytes() || a == ("--sc").spec_bytes() {
            if i + 1 < args.len() {
                spec_parse_tokens(args, i + 2, ArgsModel { scene_file: args[i + 1], ..cur })
            } else {
                spec_parse_tokens(args, i + 1, cur)
            }
        } else if a == ("-t").spec_bytes() || a == ("--tq").spec_bytes() {
            if i + 1 < args.len() {
                spec_parse_tokens(
                    args,
                    i + 2,
                    ArgsModel { target_quality: Some(args[i + 1]), ..cur },
                )
            } else {
                spec_parse_tokens(args, i + 1, cur)
            }
        } else if a == ("-c").spec_bytes() || a == ("--qp").spec_bytes() {
            if i + 1 < args.len() {
                spec_parse_tokens(args, i + 2, ArgsModel { qp_range: Some(args[i + 1]), ..cur })
            } else {
                spec_parse_tokens(args, i + 1, cur)
            }
        } else if a == ("-p").spec_bytes() || a == ("--param").spec_bytes() {
            if i + 1 < args.len() {
                spec_parse_tokens(args, i + 2, ArgsModel { params: args[i + 1], ..cur })
            } else {
                spec_parse_tokens(args, i + 1, cur)
            }
        } else if a == ("-r").spec_bytes() || a == ("--resume").spec_bytes() {
            spec_parse_tokens(args, i + 1, ArgsModel { resume: true, ..cur })
        } else if a == ("-q").spec_bytes() || a == ("--quiet").spec_bytes() {
            spec_parse_tokens(args, i + 1, ArgsModel { quiet: true, ..cur })
        } else if a == ("-n").spec_bytes() || a == ("--noise").spec_bytes() {
            if i + 1 < args.len() {
                match spec_parse_usize(args[i + 1]) {
                    Some(v) => if 1 <= v <= 64 {
                        spec_parse_tokens(
                            args,
                            i + 2,
                            ArgsModel { noise: Some((v * 100) as u32), ..cur },
                        )
                    } else {
                        None
                    },
                    None => None,
                }
            } else {
                spec_parse_tokens(args, i + 1, cur)
            }
        } else if a.len() == 0 || a[0] != 45 {
            if cur.input.len() == 0 {
                spec_parse_tokens(args, i + 1, ArgsModel { input: a, ..cur })
            } else if cur.output.len() == 0 {
                spec_parse_tokens(args, i + 1, ArgsModel { output: a, ..cur })
            } else {
                spec_parse_tokens(args, i + 1, cur)
            }
        } else {
            None
        }
    }
}

/// Index of the last occurrence of `b`, or -1 when absent.
pub open spec fn spec_rfind(s: Seq<u8>, b: u8) -> int
    decreases s.len(),
{
    if s.len() == 0 {
        -1
    } else if s.last() == b {
        s.len() - 1
    } else {
        spec_rfind(s.drop_last(), b)
    }
}

/// The part of a path after its last separator.
pub open spec fn spec_file_name(s: Seq<u8>) -> Seq<u8> {
    s.skip(spec_rfind(s, 47) + 1)
}

/// The directory part of a path, separator included.
pub open spec fn spec_dir_part(s: Seq<u8>) -> Seq<u8> {
    s.take(spec_rfind(s, 47) + 1)
}

/// A file name without its last extension; a leading dot alone marks no
/// extension.
pub open spec fn spec_stem(name: Seq<u8>) -> Seq<u8> {
    let d = spec_rfind(name, 46);
    if d <= 0 {
        name
    } else {
        name.take(d)
    }
}

/// Trailing whitespace removed.
pub open spec fn spec_trim_end(s: Seq<u8>) -> Seq<u8>
    decreases s.len(),
{
    if s.len() == 0 {
        s
    } else if crate::enc::is_ws(s.last()) {
        spec_trim_end(s.drop_last())
    } else {
        s
    }
}

/// How many concurrent encoders a host with the given thread count gets.
pub open spec fn spec_default_worker(threads: usize) -> usize {
    if threads >= 32 {
        8
    } else if threads >= 24 {
        6
    } else if threads >= 16 {
        4
    } else if threads >= 12 {
        3
    } else if threads >= 8 {
        2
    } else {
        1
    }
}

/// The defaulting pass: a missing worker count comes from the host thread
/// count and prepends `--lp 3` to the user parameters; a missing output is
/// the input with `_av1.mkv` on its stem; a missing scene file is
/// `scd_<stem>.txt`; a missing CRF range defaults when a target is set.
pub open spec fn spec_defaults(a: ArgsModel, threads: usize) -> ArgsModel {
    let stem = spec_stem(spec_file_name(a.input));
    let a1 = if a.worker == 0 {
        ArgsModel {
            worker: spec_default_worker(threads),
            params: spec_trim_end(("--lp 3 ").spec_bytes() + a.params),
            ..a
        }
    } else {
        a
    };
    let a2 = if a1.output.len() == 0 {
        ArgsModel { output: spec_dir_part(a1.input) + stem + ("_av1.mkv").spec_bytes(), ..a1 }
    } else {
        a1
    };
    let a3 = if a2.scene_file.len() == 0 {
        ArgsModel { scene_file: ("scd_").spec_bytes() + stem + (".txt").spec_bytes(), ..a2 }
    } else {
        a2
    };
    if a3.target_quality is Some && a3.qp_range is None {
        ArgsModel { qp_range: Some(("10.0-40.0").spec_bytes()), ..a3 }
    } else {
        a3
    }
}

/// What `get_args` must return: too few tokens or a walk that stops is an
/// argument error; a resume request comes back as parsed for the caller to
/// replay; anything else is defaulted and must end up complete.
pub open spec fn spec_get_args(args: Seq<Seq<u8>>, threads: usize) -> Result<ArgsModel, XavError> {
    if args.len() < 2 {
        Err(XavError::ArgError)
    } else {
        match spec_parse_tokens(args, 1, spec_args_init()) {
            None => Err(XavError::ArgError),
            Some(m) => if m.resume {
                Ok(m)
            } else {
                let d = spec_defaults(m, threads);
                if d.worker == 0 || d.scene_file.len() == 0 || d.input.len() == 0 || d.output.len()
                    == 0 {
                    Err(XavError::ArgError)
                } else {
                    Ok(d)
                }
            },
        }
    }
}

/// Find the last occurrence of a byte.
pub fn rfind_byte(v: &Vec<u8>, b: u8) -> (r: Option<usize>)
    ensures
        r is None ==> spec_rfind(v@, b) == -1,
        r matches Some(k) ==> k == spec_rfind(v@, b) && k < v@.len(),
{
    let mut i = v.len();
    proof {
        assert(v@.take(v@.len() as int) =~= v@);
    }
    while i > 0
        invariant
            i <= v@.len(),
            spec_rfind(v@, b) == spec_rfind(v@.take(i as int), b),
        decreases i,
    {
        if v[i - 1] == b {
            proof {
                assert(v@.take(i as int).last() == b);
            }
            return Some(i - 1);
        }
        proof {
            assert(v@.take(i as int).drop_last() =~= v@.take(i - 1));
        }
        i -= 1;
    }
    None
}

/// Copy the byte range `[from, to)`.
pub(crate) fn copy_range(v: &Vec<u8>, from: usize, to: usize) -> (r: Vec<u8>)
    requires
        from <= to <= v@.len(),
    ensures
        r@ == v@.subrange(from as int, to as int),
{
    let s = vstd::slice::slice_subrange(v.as_slice(), from, to);
    vstd::slice::slice_to_vec(s)
}

/// The part of a path after its last separator.
pub fn file_name_part(v: &Vec<u8>) -> (r: Vec<u8>)
    ensures
        r@ == spec_file_name(v@),
{
    let cut: usize = match rfind_byte(v, 47) {
        Some(k) => {
            assert(k < v.len());
            k + 1
        },
        None => 0,
    };
    let r = copy_range(v, cut, v.len());
    proof {
        assert(r@ =~= v@.skip(spec_rfind(v@, 47) + 1));
    }
    r
}

/// The directory part of a path, separator included.
pub fn dir_part(v: &Vec<u8>) -> (r: Vec<u8>)
    ensures
        r@ == spec_dir_part(v@),
{
    let cut: usize = match rfind_byte(v, 47) {
        Some(k) => {
            assert(k < v.len());
            k + 1
        },
        None => 0,
    };
    copy_range(v, 0, cut)
}

/// A file name without its last extension.
pub fn stem_part(name: &Vec<u8>) -> (r: Vec<u8>)
    ensures
        r@ == spec_stem(name@),
{
    match rfind_byte(name, 46) {
        Some(k) => {
            if k == 0 {
                copy_range(name, 0, name.len())
            } else {
                let r = copy_range(name, 0, k);
                proof {
                    assert(r@ =~= name@.take(spec_rfind(name@, 46)));
                }
                r
            }
        },
        None => {
            let r = copy_range(name, 0, name.len());
            proof {
                assert(r@ =~= name@);
            }
            r
        },
    }
}

/// Whether the byte just before position `e` is whitespace.
fn ws_before(v: &Vec<u8>, e: usize) -> (r: bool)
    requires
        0 < e <= v@.len(),
    ensures
        r == crate::enc::is_ws(v@[e - 1]),
{
    let b = v[e - 1];
    b == 32 || b == 9 || b == 10 || b == 13
}

/// Drop trailing whitespace.
pub fn trim_end(v: Vec<u8>) -> (r: Vec<u8>)
    ensures
        r@ == spec_trim_end(v@),
{
    let mut e = v.len();
    proof {
        assert(v@.take(v@.len() as int) =~= v@);
    }
    while e > 0 && ws_before(&v, e)
        invariant
            e <= v@.len(),
            spec_trim_end(v@) == spec_trim_end(v@.take(e as int)),
        decreases e,
    {
        proof {
            assert(v@.take(e as int).drop_last() =~= v@.take(e - 1));
        }
        e -= 1;
    }
    let r = copy_range(&v, 0, e);
    proof {
        if e > 0 {
            assert(!crate::enc::is_ws(v@.take(e as int).last()));
        }
        assert(r@ =~= v@.take(e as int));
    }
    r
}

/// Apply the defaulting rules in place.
pub fn apply_defaults(args: &mut Args, threads: usize)
    ensures
        final(args)@ == spec_defaults(old(args)@, threads),
{
    let name = file_name_part(&args.input);
    let stem = stem_part(&name);
    if args.worker == 0 {
        args.worker = if threads >= 32 {
            8
        } else if threads >= 24 {
            6
        } else if threads >= 16 {
            4
        } else if threads >= 12 {
            3
        } else if threads >= 8 {
            2
        } else {
            1
        };
        let mut p = crate::enc::arg_vec("--lp 3 ");
        let mut user = vstd::slice::slice_to_vec(args.params.as_slice());
        p.append(&mut user);
        args.params = trim_end(p);
    }
    if args.output.len() == 0 {
        let mut out = dir_part(&args.input);
        let mut st = vstd::slice::slice_to_vec(stem.as_slice());
        out.append(&mut st);
        let mut suffix = crate::enc::arg_vec("_av1.mkv");
        out.append(&mut suffix);
        args.output = out;
    }
    if args.scene_file.len() == 0 {
        let mut sf = crate::enc::arg_vec("scd_");
        let mut st = vstd::slice::slice_to_vec(stem.as_slice());
        sf.append(&mut st);
        let mut suffix = crate::enc::arg_vec(".txt");
        sf.append(&mut suffix);
        args.scene_file = sf;
    }
    if args.target_quality.is_some() && args.qp_range.is_none() {
        args.qp_range = Some(crate::enc::arg_vec("10.0-40.0"));
    }
}

/// Parse the token vector into run options, defaulted and validated; a
/// resume request comes back as parsed, for the caller to replay the saved
/// vector through this function again.
pub fn get_args(args: &Vec<Vec<u8>>, threads: usize) -> (r: Result<Args, XavError>)
    ensures
        r matches Ok(a) ==> spec_get_args(crate::enc::views(args@), threads) == Ok::<
            ArgsModel,
            XavError,
        >(a@),
        r matches Err(e) ==> spec_get_args(crate::enc::views(args@), threads) == Err::<
            ArgsModel,
            XavError,
        >(e),
{
    let ghost toks = crate::enc::views(args@);
    let n = args.len();
    if n < 2 {
        return Err(XavError::ArgError);
    }
    let mut cur = Args {
        worker: 0,
        scene_file: Vec::new(),
        target_quality: None,
        qp_range: None,
        params: Vec::new(),
        resume: false,
        quiet: false,
        noise: None,
        input: Vec::new(),
        output: Vec::new(),
    };
    assert(cur@ == spec_args_init());
    let mut i: usize = 1;
    while i < n
        invariant
            n == args@.len(),
            toks == crate::enc::views(args@),
            2 <= n,
            1 <= i <= n,
            spec_parse_tokens(toks, 1, spec_args_init()) == spec_parse_tokens(toks, i as int, cur@),
        decreases n - i,
    {
        proof {
            assert(toks[i as int] == args@[i as int]@);
            if i + 1 < n {
                assert(toks[i as int + 1] == args@[i as int + 1]@);
            }
        }
        let a = &args[i];
        if vec_is(a, "-w") || vec_is(a, "--worker") {
            if i + 1 < n {
                match parse_usize(&args[i + 1]) {
                    Some(v) => {
                        cur.worker = v;
                        i += 2;
                    },
                    None => {
                        return Err(XavError::ArgError);
                    },
                }
            } else {
                i += 1;
            }
        } else if vec_is(a, "-s") || vec_is(a, "--sc") {
            if i + 1 < n {
                cur.scene_file = vstd::slice::slice_to_vec(args[i + 1].as_slice());
                i += 2;
            } else {
                i += 1;
            }
        } else if vec_is(a, "-t") || vec_is(a, "--tq") {
            if i + 1 < n {
                cur.target_quality = Some(vstd::slice::slice_to_vec(args[i + 1].as_slice()));
                i += 2;
            } else {
                i += 1;
            }
        } else if vec_is(a, "-c") || vec_is(a, "--qp") {
            if i + 1 < n {
                cur.qp_range = Some(vstd::slice::slice_to_vec(args[i + 1].as_slice()));
                i += 2;
            } else {
                i += 1;
            }
        } else if vec_is(a, "-p") || vec_is(a, "--param") {
            if i + 1 < n {
                cur.params = vstd::slice::slice_to_vec(args[i + 1].as_slice());
                i += 2;
            } else {
                i += 1;
            }
        } else if vec_is(a, "-r") || vec_is(a, "--resume") {
            cur.resume = true;
            i += 1;
        } else if vec_is(a, "-q") || vec_is(a, "--quiet") {
            cur.quiet = true;
            i += 1;
        } else if vec_is(a, "-n") || vec_is(a, "--noise") {
            if i + 1 < n {
                match parse_usize(&args[i + 1]) {
                    Some(v) => {
                        if 1 <= v && v <= 64 {
                            cur.noise = Some((v as u32) * 100);
                            i += 2;
                        } else {
                            return Err(XavError::ArgError);
                        }
                    },
                    None => {
                        return Err(XavError::ArgError);
                    },
                }
            } else {
                i += 1;
            }
        } else if a.len() == 0 || a[0] != 45 {
            if cur.input.len() == 0 {
                cur.input = vstd::slice::slice_to_vec(a.as_slice());
            } else if cur.output.len() == 0 {
                cur.output = vstd::slice::slice_to_vec(a.as_slice());
            }
            i += 1;
        } else {
            return Err(XavError::ArgError);
        }
    }
    if cur.resume {
        return Ok(cur);
    }
    apply_defaults(&mut cur, threads);
    if cur.worker == 0 || cur.scene_file.len() == 0 || cur.input.len() == 0 || cur.output.len()
        == 0 {
        return Err(XavError::ArgError);
    }
    Ok(cur)
}

/// Whether a token holds a space and must be quoted when saved.
pub open spec fn spec_has_space(t: Seq<u8>) -> bool {
    exists|i: int| 0 <= i < t.len() && t[i] == 32
}

/// A token as it is written to the saved argument file: quoted when it
/// holds a space.
pub open spec fn spec_quote_token(t: Seq<u8>) -> Seq<u8> {
    if spec_has_space(t) {
        seq![34u8] + t + seq![34u8]
    } else {
        t
    }
}

/// The first `n` tokens, quoted and joined with single spaces.
pub open spec fn spec_quote_join(args: Seq<Seq<u8>>, n: int) -> Seq<u8>
    decreases n,
{
    if n <= 0 {
        Seq::empty()
    } else if n == 1 {
        spec_quote_token(args[0])
    } else {
        spec_quote_join(args, n - 1) + seq![32u8] + spec_quote_token(args[n - 1])
    }
}

/// The saved form of a whole argument vector.
pub open spec fn spec_quote_args(args: Seq<Seq<u8>>) -> Seq<u8> {
    spec_quote_join(args, args.len() as int)
}

fn has_space(t: &Vec<u8>) -> (r: bool)
    ensures
        r == spec_has_space(t@),
{
    let n = t.len();
    let mut i: usize = 0;
    while i < n
        invariant
            n == t@.len(),
            i <= n,
            forall|k: int| 0 <= k < i ==> t@[k] != 32,
        decreases n - i,
    {
        if t[i] == 32 {
            return true;
        }
        i += 1;
    }
    false
}

fn quote_token(t: &Vec<u8>) -> (r: Vec<u8>)
    ensures
        r@ == spec_quote_token(t@),
{
    if has_space(t) {
        let mut v: Vec<u8> = Vec::new();
        v.push(34);
        let mut mid = vstd::slice::slice_to_vec(t.as_slice());
        v.append(&mut mid);
        v.push(34);
        proof {
            assert(v@ =~= seq![34u8] + t@ + seq![34u8]);
        }
        v
    } else {
        vstd::slice::slice_to_vec(t.as_slice())
    }
}

/// Join an argument vector into one line, quoting tokens that hold spaces;
/// this is what `cmd.txt` stores for a later resume.
pub fn quote_args(args: &Vec<Vec<u8>>) -> (r: Vec<u8>)
    ensures
        r@ == spec_quote_args(crate::enc::views(args@)),
{
    let ghost toks = crate::enc::views(args@);
    let n = args.len();
    let mut out: Vec<u8> = Vec::new();
    let mut i: usize = 0;
    while i < n
        invariant
            n == args@.len(),
            toks == crate::enc::views(args@),
            i <= n,
            out@ == spec_quote_join(toks, i as int),
        decreases n - i,
    {
        proof {
            assert(toks[i as int] == args@[i as int]@);
        }
        if i > 0 {
            out.push(32);
        }
        let mut q = quote_token(&args[i]);
        let ghost pre = out@;
        out.append(&mut q);
        proof {
            if i == 0 {
                assert(out@ =~= spec_quote_token(toks[0]));
            } else {
                assert(out@ =~= spec_quote_join(toks, i as int) + seq![32u8] + spec_quote_token(
                    toks[i as int],
                ));
            }
        }
        i += 1;
    }
    out
}

/// The tokens read back from a saved argument line: a quote toggles quoting,
/// an unquoted space separates tokens, everything else belongs to the
/// current token. `cur` is the partial token read so far.
pub open spec fn spec_unquote_acc(s: Seq<u8>, i: int, cur: Seq<u8>, inq: bool) -> Seq<Seq<u8>>
    decreases s.len() - i,
{
    if i < 0 || i >= s.len() {
        if cur.len() == 0 {
            seq![]
        } else {
            seq![cur]
        }
    } else if s[i] == 34 {
        spec_unquote_acc(s, i + 1, cur, !inq)
    } else if s[i] == 32 && !inq {
        if cur.len() == 0 {
            spec_unquote_acc(s, i + 1, seq![], false)
        } else {
            seq![cur] + spec_unquote_acc(s, i + 1, seq![], false)
        }
    } else {
        spec_unquote_acc(s, i + 1, cur.push(s[i]), inq)
    }
}

/// What parsing a saved argument line yields.
pub open spec fn spec_parse_quoted(s: Seq<u8>) -> Seq<Seq<u8>> {
    spec_unquote_acc(s, 0, Seq::empty(), false)
}

/// Split a saved argument line back into tokens, honouring quotes.
pub fn parse_quoted_args(cmd_line: &Vec<u8>) -> (r: Vec<Vec<u8>>)
    ensures
        crate::enc::views(r@) == spec_parse_quoted(cmd_line@),
{
    let n = cmd_line.len();
    let mut r: Vec<Vec<u8>> = Vec::new();
    let mut cur: Vec<u8> = Vec::new();
    let mut in_quotes = false;
    let mut i: usize = 0;
    while i < n
        invariant
            n == cmd_line@.len(),
            i <= n,
            spec_parse_quoted(cmd_line@) =~= crate::enc::views(r@) + spec_unquote_acc(
                cmd_line@,
                i as int,
                cur@,
                in_quotes,
            ),
        decreases n - i,
    {
        let b = cmd_line[i];
        let ghost r0 = r@;
        let ghost cur0 = cur@;
        let ghost inq0 = in_quotes;
        if b == 34 {
            in_quotes = !in_quotes;
            assert(spec_unquote_acc(cmd_line@, i as int, cur0, inq0) == spec_unquote_acc(
                cmd_line@,
                i + 1,
                cur0,
                !inq0,
            ));
        } else if b == 32 && !in_quotes {
            if cur.len() > 0 {
                proof {
                    crate::enc::lemma_views_push(r@, cur);
                }
                r.push(cur);
                cur = Vec::new();
                assert(spec_unquote_acc(cmd_line@, i as int, cur0, false) == seq![cur0]
                    + spec_unquote_acc(cmd_line@, i + 1, Seq::empty(), false));
                assert(crate::enc::views(r0) + (seq![cur0] + spec_unquote_acc(
                    cmd_line@,
                    i + 1,
                    Seq::empty(),
                    false,
                )) =~= crate::enc::views(r@) + spec_unquote_acc(
                    cmd_line@,
                    i + 1,
                    Seq::empty(),
                    false,
                ));
            } else {
                assert(spec_unquote_acc(cmd_line@, i as int, cur0, false) == spec_unquote_acc(
                    cmd_line@,
                    i + 1,
                    Seq::empty(),
                    false,
                ));
                assert(cur@ =~= Seq::<u8>::empty());
            }
        } else {
            cur.push(b);
            assert(spec_unquote_acc(cmd_line@, i as int, cur0, inq0) == spec_unquote_acc(
                cmd_line@,
                i + 1,
                cur0.push(b),
                inq0,
            ));
        }
        i += 1;
        assert(spec_parse_quoted(cmd_line@) =~= crate::enc::views(r@) + spec_unquote_acc(
            cmd_line@,
            i as int,
            cur@,
            in_quotes,
        ));
    }
    if cur.len() > 0 {
        proof {
            crate::enc::lemma_views_push(r@, cur);
        }
        r.push(cur);
    }
    proof {
        assert(crate::enc::views(r@) =~= spec_parse_quoted(cmd_line@));
    }
    r
}

/// The digest the working-directory name is derived from; it depends on the
/// input path's bytes alone.
pub uninterp spec fn path_hash(s: Seq<u8>) -> u64;

/// Relies on std's DefaultHasher, whose `new` is documented to build the
/// same fixed-key hasher in every process: hashing a byte string and taking
/// `finish` yields a digest that is a function of the bytes alone.
#[verifier::external_body]
fn hash_bytes(path: &Vec<u8>) -> (r: u64)
    ensures
        r == path_hash(path@),
{
    let mut hasher = std::collections::hash_map::DefaultHasher::new();
    std::hash::Hash::hash(path, &mut hasher);
    std::hash::Hasher::finish(&hasher)
}

/// The lowercase hexadecimal digits of a non-negative number.
pub open spec fn spec_hex(n: int) -> Seq<u8>
    recommends
        n >= 0,
    decreases n,
{
    if n < 16 {
        seq![spec_hex_digit(if n >= 0 { n } else { 0 })]
    } else {
        spec_hex(n / 16).push(spec_hex_digit(n % 16))
    }
}

/// One lowercase hexadecimal digit.
pub open spec fn spec_hex_digit(d: int) -> u8 {
    if d < 10 {
        (48 + d) as u8
    } else {
        (87 + d) as u8
    }
}

/// Render a number in lowercase hexadecimal.
pub fn u64_to_hex(n: u64) -> (r: Vec<u8>)
    ensures
        r@ == spec_hex(n as int),
    decreases n,
{
    if n < 16 {
        let d = n as u8;
        let mut v: Vec<u8> = Vec::new();
        if d < 10 {
            v.push(48 + d);
        } else {
            v.push(87 + d);
        }
        v
    } else {
        let mut v = u64_to_hex(n / 16);
        let d = (n % 16) as u8;
        if d < 10 {
            v.push(48 + d);
        } else {
            v.push(87 + d);
        }
        v
    }
}

/// The stable hash of the input path, in lowercase hexadecimal; the
/// working-directory name is built from its leading digits.
pub fn hash_input(path: &Vec<u8>) -> (r: Vec<u8>)
    ensures
        r@ == spec_hex(path_hash(path@) as int),
{
    u64_to_hex(hash_bytes(path))
}

/// The hidden working directory for a given input hash: a dot followed by
/// the first seven hex digits, zero-padded on the left when the digest is
/// short.
pub open spec fn spec_work_dir_name(hash: Seq<u8>) -> Seq<u8> {
    (".").spec_bytes() + spec_zero_pad(hash, 7).take(7)
}

/// Name of the hidden working directory derived from the input hash.
pub fn work_dir_name(hash: &Vec<u8>) -> (r: Vec<u8>)
    ensures
        r@ == spec_work_dir_name(hash@),
{
    let padded = zero_pad(vstd::slice::slice_to_vec(hash.as_slice()), 7);
    assert(padded@.len() >= 7);
    let mut v = crate::enc::arg_vec(".");
    let mut head = copy_range(&padded, 0, 7);
    v.append(&mut head);
    proof {
        assert(v@ =~= spec_work_dir_name(hash@));
    }
    v
}

/// Rendering a number in decimal and parsing it back yields the number:
/// the store's numeric fields survive the round trip through their file.
pub proof fn lemma_dec_parse_round_trip(n: int)
    requires
        0 <= n <= usize::MAX,
    ensures
        spec_parse_usize(crate::enc::spec_dec(n)) == Some(n as usize),
{
    lemma_dec_digits(n);
}

/// The decimal rendering of a number is non-empty, all digits, and has the
/// number as its value.
pub proof fn lemma_dec_digits(n: int)
    requires
        n >= 0,
    ensures
        crate::enc::spec_dec(n).len() >= 1,
        spec_all_digits(crate::enc::spec_dec(n)),
        spec_digits_val(crate::enc::spec_dec(n)) == n,
    decreases n,
{
    let d = crate::enc::spec_dec(n);
    if n < 10 {
        assert(d == seq![(48 + n) as u8]);
        assert(d.drop_last() =~= Seq::<u8>::empty());
        assert(spec_digits_val(Seq::<u8>::empty()) == 0);
        assert(d.last() == (48 + n) as u8);
        assert(spec_digits_val(d) == spec_digits_val(d.drop_last()) * 10 + (d.last() - 48));
        assert(spec_digits_val(d) == n);
    } else {
        lemma_dec_digits(n / 10);
        let p = crate::enc::spec_dec(n / 10);
        assert(d == p.push((48 + n % 10) as u8));
        assert(d.drop_last() =~= p);
        assert(spec_digits_val(d) == spec_digits_val(p) * 10 + (n % 10));
        assert(spec_all_digits(d)) by {
            assert forall|i: int| 0 <= i < d.len() implies 48 <= #[trigger] d[i] <= 57 by {
                if i < p.len() {
                    assert(d[i] == p[i]);
                } else {
                    assert(d[i] == (48 + n % 10) as u8);
                }
            }
        }
    }
}

/// The quoted-line reader never looks left of its position.
proof fn lemma_unquote_shift(x: Seq<u8>, y: Seq<u8>, i: int, cur: Seq<u8>, inq: bool)
    requires
        i >= x.len(),
    ensures
        spec_unquote_acc(x + y, i, cur, inq) == spec_unquote_acc(y, i - x.len(), cur, inq),
    decreases (x + y).len() - i,
{
    let s = x + y;
    if i < 0 || i >= s.len() {
    } else {
        assert(s[i] == y[i - x.len()]);
        if s[i] == 34 {
            lemma_unquote_shift(x, y, i + 1, cur, !inq);
        } else if s[i] == 32 && !inq {
            lemma_unquote_shift(x, y, i + 1, Seq::empty(), false);
        } else {
            lemma_unquote_shift(x, y, i + 1, cur.push(s[i]), inq);
        }
    }
}

/// Outside quotes, bytes that are neither a quote nor a space accumulate
/// into the current token.
proof fn lemma_unquote_plain(s: Seq<u8>, i: int, cur: Seq<u8>, k: int)
    requires
        0 <= i,
        0 <= k,
        i + k <= s.len(),
        forall|m: int| i <= m < i + k ==> (#[trigger] s[m]) != 34 && s[m] != 32,
    ensures
        spec_unquote_acc(s, i, cur, false) == spec_unquote_acc(
            s,
            i + k,
            cur + s.subrange(i, i + k),
            false,
        ),
    decreases k,
{
    if k == 0 {
        assert(cur + s.subrange(i, i) =~= cur);
    } else {
        lemma_unquote_plain(s, i + 1, cur.push(s[i]), k - 1);
        assert(cur.push(s[i]) + s.subrange(i + 1, i + k) =~= cur + s.subrange(i, i + k));
    }
}

/// Inside quotes, every byte but a quote accumulates, spaces included.
proof fn lemma_unquote_quoted(s: Seq<u8>, i: int, cur: Seq<u8>, k: int)
    requires
        0 <= i,
        0 <= k,
        i + k <= s.len(),
        forall|m: int| i <= m < i + k ==> (#[trigger] s[m]) != 34,
    ensures
        spec_unquote_acc(s, i, cur, true) == spec_unquote_acc(
            s,
            i + k,
            cur + s.subrange(i, i + k),
            true,
        ),
    decreases k,
{
    if k == 0 {
        assert(cur + s.subrange(i, i) =~= cur);
    } else {
        lemma_unquote_quoted(s, i + 1, cur.push(s[i]), k - 1);
        assert(cur.push(s[i]) + s.subrange(i + 1, i + k) =~= cur + s.subrange(i, i + k));
    }
}

/// Joining from the left: the first token comes first.
proof fn lemma_quote_join_left(args: Seq<Seq<u8>>, n: int)
    requires
        2 <= n <= args.len(),
    ensures
        spec_quote_join(args, n) =~= spec_quote_token(args[0]) + seq![32u8] + spec_quote_join(
            args.skip(1),
            n - 1,
        ),
    decreases n,
{
    if n == 2 {
        assert(spec_quote_join(args, 2) == spec_quote_join(args, 1) + seq![32u8]
            + spec_quote_token(args[1]));
        assert(spec_quote_join(args.skip(1), 1) == spec_quote_token(args.skip(1)[0]));
        assert(args.skip(1)[0] == args[1]);
    } else {
        lemma_quote_join_left(args, n - 1);
        assert(args.skip(1)[n - 2] == args[n - 1]);
        assert(spec_quote_join(args.skip(1), n - 1) == spec_quote_join(args.skip(1), n - 2)
            + seq![32u8] + spec_quote_token(args[n - 1]));
    }
}

/// Reading a quoted token off the front of a line leaves the token and the
/// rest of the walk; `sep` tells whether a separating space follows.
proof fn lemma_token_unquotes(t: Seq<u8>, rest: Seq<u8>, sep: bool)
    requires
        t.len() >= 1,
        forall|m: int| 0 <= m < t.len() ==> (#[trigger] t[m]) != 34,
        sep ==> rest.len() >= 1 && rest[0] == 32,
        !sep ==> rest.len() == 0,
    ensures
        spec_parse_quoted(spec_quote_token(t) + rest) == seq![t] + spec_unquote_acc(
            spec_quote_token(t) + rest,
            spec_quote_token(t).len() + (if sep {
                1int
            } else {
                0int
            }),
            Seq::empty(),
            false,
        ),
{
    let q = spec_quote_token(t);
    let s = q + rest;
    if spec_has_space(t) {
        assert(q =~= seq![34u8] + t + seq![34u8]);
        assert(s[0] == 34);
        assert(spec_unquote_acc(s, 0, Seq::empty(), false) == spec_unquote_acc(
            s,
            1,
            Seq::empty(),
            true,
        ));
        assert(s.subrange(1, 1 + t.len() as int) =~= t);
        assert forall|m: int| 1 <= m < 1 + t.len() implies (#[trigger] s[m]) != 34 by {
            assert(s[m] == t[m - 1]);
        }
        lemma_unquote_quoted(s, 1, Seq::empty(), t.len() as int);
        assert(Seq::<u8>::empty() + s.subrange(1, 1 + t.len() as int) =~= t);
        assert(s[1 + t.len() as int] == 34);
        assert(spec_unquote_acc(s, 1 + t.len() as int, t, true) == spec_unquote_acc(
            s,
            2 + t.len() as int,
            t,
            false,
        ));
        if sep {
            assert(s[q.len() as int] == 32);
            assert(spec_unquote_acc(s, q.len() as int, t, false) == seq![t] + spec_unquote_acc(
                s,
                q.len() as int + 1,
                Seq::empty(),
                false,
            ));
        } else {
            assert(s.len() == q.len());
            assert(spec_unquote_acc(s, q.len() as int, t, false) == seq![t]);
            assert(spec_unquote_acc(s, q.len() as int, Seq::empty(), false) =~= Seq::<
                Seq<u8>,
            >::empty());
            assert(seq![t] + spec_unquote_acc(s, q.len() as int, Seq::empty(), false) =~= seq![t]);
        }
    } else {
        assert(q == t);
        assert(s.subrange(0, t.len() as int) =~= t);
        assert forall|m: int| 0 <= m < t.len() implies (#[trigger] s[m]) != 34 && s[m] != 32 by {
            assert(s[m] == t[m]);
            assert(!spec_has_space(t));
            assert(t[m] != 32);
        }
        lemma_unquote_plain(s, 0, Seq::empty(), t.len() as int);
        assert(Seq::<u8>::empty() + s.subrange(0, t.len() as int) =~= t);
        if sep {
            assert(s[t.len() as int] == 32);
            assert(spec_unquote_acc(s, t.len() as int, t, false) == seq![t] + spec_unquote_acc(
                s,
                t.len() as int + 1,
                Seq::empty(),
                false,
            ));
        } else {
            assert(s.len() == t.len());
            assert(spec_unquote_acc(s, t.len() as int, t, false) == seq![t]);
            assert(seq![t] + spec_unquote_acc(s, t.len() as int, Seq::empty(), false) =~= seq![t]);
        }
    }
}

/// The saved argument line reads back as exactly the argument vector it
/// was written from: a resumed run replays the original tokens. Tokens are
/// non-empty and hold no quote character, as command-line tokens here do.
pub proof fn lemma_quote_parse_round_trip(args: Seq<Seq<u8>>)
    requires
        forall|i: int| 0 <= i < args.len() ==> (#[trigger] args[i]).len() >= 1,
        forall|i: int, m: int|
            0 <= i < args.len() && 0 <= m < args[i].len() ==> (#[trigger] args[i][m]) != 34,
    ensures
        spec_parse_quoted(spec_quote_args(args)) == args,
    decreases args.len(),
{
    let n = args.len() as int;
    if n == 0 {
        assert(spec_quote_args(args) =~= Seq::<u8>::empty());
        assert(spec_parse_quoted(Seq::<u8>::empty()) =~= Seq::<Seq<u8>>::empty());
        assert(args =~= Seq::<Seq<u8>>::empty());
    } else if n == 1 {
        let t = args[0];
        assert(spec_quote_args(args) == spec_quote_token(t));
        assert(spec_quote_token(t) =~= spec_quote_token(t) + Seq::<u8>::empty());
        assert(forall|m: int| 0 <= m < t.len() ==> (#[trigger] t[m]) != 34);
        lemma_token_unquotes(t, Seq::empty(), false);
        let s = spec_quote_token(t) + Seq::<u8>::empty();
        assert(spec_unquote_acc(s, s.len() as int, Seq::empty(), false) =~= Seq::<
            Seq<u8>,
        >::empty());
        assert(spec_parse_quoted(spec_quote_args(args)) =~= seq![t]);
        assert(args =~= seq![t]);
    } else {
        let t = args[0];
        let tail = args.skip(1);
        lemma_quote_join_left(args, n);
        let rest = seq![32u8] + spec_quote_join(tail, n - 1);
        assert(spec_quote_args(args) =~= spec_quote_token(t) + rest);
        assert(forall|m: int| 0 <= m < t.len() ==> (#[trigger] t[m]) != 34);
        lemma_token_unquotes(t, rest, true);
        let s = spec_quote_token(t) + rest;
        let after = spec_quote_token(t).len() + 1;
        assert(s =~= (spec_quote_token(t) + seq![32u8]) + spec_quote_join(tail, n - 1));
        lemma_unquote_shift(
            spec_quote_token(t) + seq![32u8],
            spec_quote_join(tail, n - 1),
            after as int,
            Seq::empty(),
            false,
        );
        assert(spec_unquote_acc(s, after as int, Seq::empty(), false) == spec_parse_quoted(
            spec_quote_join(tail, n - 1),
        ));
        assert(forall|i: int| 0 <= i < tail.len() ==> (#[trigger] tail[i]).len() >= 1);
        assert forall|i: int, m: int|
            0 <= i < tail.len() && 0 <= m < tail[i].len() implies (#[trigger] tail[i][m])
            != 34 by {
            assert(tail[i] == args[i + 1]);
            assert(args[i + 1][m] != 34);
        }
        lemma_quote_parse_round_trip(tail);
        assert(spec_quote_args(tail) == spec_quote_join(tail, n - 1));
        assert(spec_parse_quoted(spec_quote_args(args)) =~= seq![t] + tail);
        assert(seq![t] + tail =~= args);
    }
}

} // verus!
