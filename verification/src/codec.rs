//! Pixel codec: sizes of the three frame layouts, 8-to-10-bit widening, and
//! the 4-samples-in-5-bytes packing with its inverse.

use vstd::prelude::*;
use crate::video::VidInf;

verus! {

/// Bytes in one 8-bit planar 4:2:0 frame: Y is `w*h`, U and V are a quarter
/// of that each.
pub open spec fn spec_8bit_size(w: int, h: int) -> int {
    w * h * 3 / 2
}

/// Bytes in one 10-bit planar frame stored as 16-bit little-endian words.
pub open spec fn spec_10bit_size(w: int, h: int) -> int {
    w * h * 2 + (w * h * 2 / 4) * 2
}

/// Bytes in one packed 10-bit frame: 4 samples in 5 bytes.
pub open spec fn spec_packed_size(w: int, h: int) -> int {
    (w * h * 3 / 2) * 5 / 4
}

pub fn calc_8bit_size(inf: &VidInf) -> (r: usize)
    requires
        inf.width * inf.height * 3 <= usize::MAX,
    ensures
        r == spec_8bit_size(inf.width as int, inf.height as int),
{
    (inf.width as usize) * (inf.height as usize) * 3 / 2
}

pub fn calc_10bit_size(inf: &VidInf) -> (r: usize)
    requires
        inf.width * inf.height * 3 <= usize::MAX,
    ensures
        r == spec_10bit_size(inf.width as int, inf.height as int),
{
    let y_size: usize = (inf.width as usize) * (inf.height as usize) * 2;
    let uv_size: usize = y_size / 4;
    y_size + uv_size * 2
}

pub fn calc_packed_size(inf: &VidInf) -> (r: usize)
    requires
        inf.width * inf.height * 15 <= usize::MAX,
    ensures
        r == spec_packed_size(inf.width as int, inf.height as int),
{
    let tot_pixels: usize = (inf.width as usize) * (inf.height as usize) * 3 / 2;
    (tot_pixels * 5) / 4
}

/// One 10-bit sample read from two little-endian bytes, high bits masked off.
pub open spec fn pack_word(lo: u8, hi: u8) -> u32 {
    ((lo as u32) | ((hi as u32) << 8)) & 0x3FF
}

pub open spec fn pkb0(p0: u32) -> u8 {
    (p0 & 0xFF) as u8
}

pub open spec fn pkb1(p0: u32, p1: u32) -> u8 {
    ((p0 >> 8) | ((p1 & 0x3F) << 2)) as u8
}

pub open spec fn pkb2(p1: u32, p2: u32) -> u8 {
    ((p1 >> 6) | ((p2 & 0x0F) << 4)) as u8
}

pub open spec fn pkb3(p2: u32, p3: u32) -> u8 {
    ((p2 >> 4) | ((p3 & 0x03) << 6)) as u8
}

pub open spec fn pkb4(p3: u32) -> u8 {
    (p3 >> 2) as u8
}

/// The five packed bytes of one aligned group of four 10-bit samples,
/// the samples given as eight little-endian bytes.
pub open spec fn spec_pack_group(s: Seq<u8>) -> Seq<u8>
    recommends
        s.len() == 8,
{
    let p0 = pack_word(s[0], s[1]);
    let p1 = pack_word(s[2], s[3]);
    let p2 = pack_word(s[4], s[5]);
    let p3 = pack_word(s[6], s[7]);
    seq![pkb0(p0), pkb1(p0, p1), pkb2(p1, p2), pkb3(p2, p3), pkb4(p3)]
}

pub open spec fn unw0(c0: u8, c1: u8) -> u16 {
    (c0 as u16) | (((c1 & 0x03) as u16) << 8)
}

pub open spec fn unw1(c1: u8, c2: u8) -> u16 {
    ((c1 as u16) >> 2) | (((c2 & 0x0F) as u16) << 6)
}

pub open spec fn unw2(c2: u8, c3: u8) -> u16 {
    ((c2 as u16) >> 4) | (((c3 & 0x3F) as u16) << 4)
}

pub open spec fn unw3(c3: u8, c4: u8) -> u16 {
    ((c3 as u16) >> 6) | ((c4 as u16) << 2)
}

/// The eight little-endian bytes of the four samples held in one packed
/// 5-byte group.
pub open spec fn spec_unpack_group(s: Seq<u8>) -> Seq<u8>
    recommends
        s.len() == 5,
{
    let p0 = unw0(s[0], s[1]);
    let p1 = unw1(s[1], s[2]);
    let p2 = unw2(s[2], s[3]);
    let p3 = unw3(s[3], s[4]);
    seq![
        (p0 & 0xFF) as u8,
        (p0 >> 8) as u8,
        (p1 & 0xFF) as u8,
        (p1 >> 8) as u8,
        (p2 & 0xFF) as u8,
        (p2 >> 8) as u8,
        (p3 & 0xFF) as u8,
        (p3 >> 8) as u8,
    ]
}

/// Pack four 10-bit samples (eight little-endian bytes) into five bytes.
pub fn pack_4_pix_10bit(input: [u8; 8], output: &mut [u8; 5])
    ensures
        final(output)@ =~= spec_pack_group(input@),
{
    let p0: u32 = ((input[0] as u32) | ((input[1] as u32) << 8)) & 0x3FF;
    let p1: u32 = ((input[2] as u32) | ((input[3] as u32) << 8)) & 0x3FF;
    let p2: u32 = ((input[4] as u32) | ((input[5] as u32) << 8)) & 0x3FF;
    let p3: u32 = ((input[6] as u32) | ((input[7] as u32) << 8)) & 0x3FF;

    output[0] = #[verifier::truncate] ((p0 & 0xFF) as u8);
    output[1] = #[verifier::truncate] (((p0 >> 8) | ((p1 & 0x3F) << 2)) as u8);
    output[2] = #[verifier::truncate] (((p1 >> 6) | ((p2 & 0x0F) << 4)) as u8);
    output[3] = #[verifier::truncate] (((p2 >> 4) | ((p3 & 0x03) << 6)) as u8);
    output[4] = #[verifier::truncate] ((p3 >> 2) as u8);
}

/// Unpack one 5-byte group back into four 10-bit samples stored as eight
/// little-endian bytes.
pub fn unpack_4_pix_10bit(input: [u8; 5], output: &mut [u8; 8])
    ensures
        final(output)@ =~= spec_unpack_group(input@),
{
    let p0: u16 = (input[0] as u16) | (((input[1] & 0x03) as u16) << 8);
    let p1: u16 = ((input[1] as u16) >> 2) | (((input[2] & 0x0F) as u16) << 6);
    let p2: u16 = ((input[2] as u16) >> 4) | (((input[3] & 0x3F) as u16) << 4);
    let p3: u16 = ((input[3] as u16) >> 6) | ((input[4] as u16) << 2);

    output[0] = #[verifier::truncate] ((p0 & 0xFF) as u8);
    output[1] = #[verifier::truncate] ((p0 >> 8) as u8);
    output[2] = #[verifier::truncate] ((p1 & 0xFF) as u8);
    output[3] = #[verifier::truncate] ((p1 >> 8) as u8);
    output[4] = #[verifier::truncate] ((p2 & 0xFF) as u8);
    output[5] = #[verifier::truncate] ((p2 >> 8) as u8);
    output[6] = #[verifier::truncate] ((p3 & 0xFF) as u8);
    output[7] = #[verifier::truncate] ((p3 >> 8) as u8);
}

proof fn lemma_scalar_round_trip(a0: u8, b0: u8, a1: u8, b1: u8, a2: u8, b2: u8, a3: u8, b3: u8)
    by (bit_vector)
    requires
        b0 < 4,
        b1 < 4,
        b2 < 4,
        b3 < 4,
    ensures
        ({
            let p0 = pack_word(a0, b0);
            let p1 = pack_word(a1, b1);
            let p2 = pack_word(a2, b2);
            let p3 = pack_word(a3, b3);
            let c0 = pkb0(p0);
            let c1 = pkb1(p0, p1);
            let c2 = pkb2(p1, p2);
            let c3 = pkb3(p2, p3);
            let c4 = pkb4(p3);
            let w0 = unw0(c0, c1);
            let w1 = unw1(c1, c2);
            let w2 = unw2(c2, c3);
            let w3 = unw3(c3, c4);
            &&& (w0 & 0xFF) as u8 == a0
            &&& (w0 >> 8) as u8 == b0
            &&& (w1 & 0xFF) as u8 == a1
            &&& (w1 >> 8) as u8 == b1
            &&& (w2 & 0xFF) as u8 == a2
            &&& (w2 >> 8) as u8 == b2
            &&& (w3 & 0xFF) as u8 == a3
            &&& (w3 >> 8) as u8 == b3
        }),
{
}

/// Packing four 10-bit samples and unpacking the result gives the samples
/// back: the codec is a bijection on aligned groups. A sample is 10-bit
/// exactly when its high byte is below 4.
pub proof fn lemma_group_round_trip(s: Seq<u8>)
    requires
        s.len() == 8,
        forall|i: int| 0 <= i < 8 && i % 2 == 1 ==> (#[trigger] s[i]) < 4,
    ensures
        spec_unpack_group(spec_pack_group(s)) =~= s,
{
    assert(s[1] < 4);
    assert(s[3] < 4);
    assert(s[5] < 4);
    assert(s[7] < 4);
    lemma_scalar_round_trip(s[0], s[1], s[2], s[3], s[4], s[5], s[6], s[7]);
}

proof fn lemma_scalar_repack(c0: u8, c1: u8, c2: u8, c3: u8, c4: u8)
    by (bit_vector)
    ensures
        ({
            let w0 = unw0(c0, c1);
            let w1 = unw1(c1, c2);
            let w2 = unw2(c2, c3);
            let w3 = unw3(c3, c4);
            let p0 = pack_word((w0 & 0xFF) as u8, (w0 >> 8) as u8);
            let p1 = pack_word((w1 & 0xFF) as u8, (w1 >> 8) as u8);
            let p2 = pack_word((w2 & 0xFF) as u8, (w2 >> 8) as u8);
            let p3 = pack_word((w3 & 0xFF) as u8, (w3 >> 8) as u8);
            &&& pkb0(p0) == c0
            &&& pkb1(p0, p1) == c1
            &&& pkb2(p1, p2) == c2
            &&& pkb3(p2, p3) == c3
            &&& pkb4(p3) == c4
        }),
{
}

/// Unpacking five packed bytes and packing the result restores them: with
/// the round trip in the other direction, the codec is a bijection between
/// aligned 4-sample groups and 5-byte groups.
pub proof fn lemma_group_repack(s: Seq<u8>)
    requires
        s.len() == 5,
    ensures
        spec_pack_group(spec_unpack_group(s)) =~= s,
{
    lemma_scalar_repack(s[0], s[1], s[2], s[3], s[4]);
}

/// Every complete 8-byte group of `s` packed, groups in order.
pub open spec fn spec_pack_all(s: Seq<u8>) -> Seq<u8> {
    Seq::new(
        ((s.len() / 8) * 5) as nat,
        |i: int| spec_pack_group(s.subrange(8 * (i / 5), 8 * (i / 5) + 8))[i % 5],
    )
}

/// Every complete 5-byte group of `s` unpacked, groups in order.
pub open spec fn spec_unpack_all(s: Seq<u8>) -> Seq<u8> {
    Seq::new(
        ((s.len() / 5) * 8) as nat,
        |i: int| spec_unpack_group(s.subrange(5 * (i / 8), 5 * (i / 8) + 5))[i % 8],
    )
}

/// A trailing partial group is padded with zero samples before packing.
pub open spec fn pad8(s: Seq<u8>) -> Seq<u8>
    recommends
        s.len() <= 8,
{
    s + Seq::new((8 - s.len() as int) as nat, |i: int| 0u8)
}

/// Packing a whole buffer and unpacking the result restores every byte:
/// the round trip is the identity on 10-bit data made of complete
/// 4-sample groups.
pub proof fn lemma_pack_unpack_round_trip(s: Seq<u8>)
    requires
        s.len() % 8 == 0,
        forall|i: int| 0 <= i < s.len() && i % 2 == 1 ==> (#[trigger] s[i]) < 4,
    ensures
        spec_unpack_all(spec_pack_all(s)) =~= s,
{
    let t = spec_pack_all(s);
    assert(t.len() == (s.len() / 8) * 5);
    assert(t.len() % 5 == 0);
    assert(t.len() / 5 == s.len() / 8);
    assert(spec_unpack_all(t).len() == s.len());
    assert forall|i: int| 0 <= i < s.len() implies spec_unpack_all(t)[i] == s[i] by {
        let g = i / 8;
        let grp = s.subrange(8 * g, 8 * g + 8);
        assert forall|j: int| 0 <= j < 8 && j % 2 == 1 implies (#[trigger] grp[j]) < 4 by {
            assert((8 * g + j) % 2 == j % 2);
            assert(s[8 * g + j] < 4);
        }
        lemma_group_round_trip(grp);
        assert(t.subrange(5 * g, 5 * g + 5) =~= spec_pack_group(grp)) by {
            assert forall|j: int| 0 <= j < 5 implies t.subrange(5 * g, 5 * g + 5)[j]
                == spec_pack_group(grp)[j] by {
                assert(t[5 * g + j] == spec_pack_group(
                    s.subrange(8 * ((5 * g + j) / 5), 8 * ((5 * g + j) / 5) + 8),
                )[(5 * g + j) % 5]);
                assert((5 * g + j) / 5 == g);
                assert((5 * g + j) % 5 == j);
            }
        }
        assert(spec_unpack_all(t)[i] == spec_unpack_group(t.subrange(5 * g, 5 * g + 5))[i % 8]);
        assert(spec_unpack_group(spec_pack_group(grp)) =~= grp);
        assert(grp[i % 8] == s[8 * g + i % 8]);
        assert(8 * g + i % 8 == i);
    }
}

/// Pack a 10-bit planar buffer into the 4-samples-in-5-bytes layout.
/// Complete groups are packed in place; a trailing partial group is padded
/// with zero samples when the output still has room for it; output bytes
/// past the packed region keep their old value.
pub fn pack_10bit(input: &Vec<u8>, output: &mut Vec<u8>)
    ensures
        final(output).len() == old(output).len(),
        ({
            let n: int = if input@.len() / 8 <= old(output)@.len() / 5 {
                (input@.len() / 8) as int
            } else {
                (old(output)@.len() / 5) as int
            };
            let tail = input@.len() % 8 != 0 && n == input@.len() / 8 && old(output)@.len() >= 5 * n
                + 5;
            let end = if tail {
                5 * n + 5
            } else {
                5 * n
            };
            &&& final(output)@.subrange(0, 5 * n) =~= spec_pack_all(
                input@.take(8 * n),
            )
            &&& tail ==> final(output)@.subrange(5 * n, 5 * n + 5) =~= spec_pack_group(
                pad8(input@.skip(8 * n)),
            )
            &&& forall|i: int|
                end <= i < old(output)@.len() ==> final(output)@[i] == old(output)@[i]
        }),
{
    let in_len = input.len();
    let out_len = output.len();
    let max_chunks_in = in_len / 8;
    let max_chunks_out = out_len / 5;
    let num_chunks = if max_chunks_in <= max_chunks_out {
        max_chunks_in
    } else {
        max_chunks_out
    };
    let ghost out0 = output@;

    let mut g: usize = 0;
    while g < num_chunks
        invariant
            num_chunks <= max_chunks_in,
            num_chunks <= max_chunks_out,
            max_chunks_in == in_len / 8,
            max_chunks_out == out_len / 5,
            in_len == input@.len(),
            out_len == out0.len(),
            output@.len() == out0.len(),
            g <= num_chunks,
            forall|k: int|
                0 <= k < g ==> #[trigger] output@.subrange(5 * k, 5 * k + 5) =~= spec_pack_group(
                    input@.subrange(8 * k, 8 * k + 8),
                ),
            forall|i: int| 5 * g <= i < out0.len() ==> output@[i] == out0[i],
        decreases num_chunks - g,
    {
        let base = 8 * g;
        let inp: [u8; 8] = [
            input[base],
            input[base + 1],
            input[base + 2],
            input[base + 3],
            input[base + 4],
            input[base + 5],
            input[base + 6],
            input[base + 7],
        ];
        assert(inp@ =~= input@.subrange(8 * g as int, 8 * g + 8));
        let mut grp: [u8; 5] = [0u8; 5];
        pack_4_pix_10bit(inp, &mut grp);
        let obase = 5 * g;
        let ghost pre = output@;
        output[obase] = grp[0];
        output[obase + 1] = grp[1];
        output[obase + 2] = grp[2];
        output[obase + 3] = grp[3];
        output[obase + 4] = grp[4];
        assert(output@.subrange(5 * g as int, 5 * g + 5) =~= grp@);
        g += 1;
        assert forall|k: int|
            0 <= k < g implies #[trigger] output@.subrange(5 * k, 5 * k + 5) =~= spec_pack_group(
            input@.subrange(8 * k, 8 * k + 8),
        ) by {
            if k < g - 1 {
                assert(output@.subrange(5 * k, 5 * k + 5) =~= pre.subrange(5 * k, 5 * k + 5));
                assert(pre.subrange(5 * k, 5 * k + 5) =~= spec_pack_group(
                    input@.subrange(8 * k, 8 * k + 8),
                ));
            } else {
                assert(output@.subrange(5 * k, 5 * k + 5) =~= grp@);
            }
        }
    }

    let ghost mid = output@;
    let remaining_in = in_len % 8;
    if remaining_in > 0 && num_chunks == max_chunks_in && out_len >= 5 * num_chunks + 5 {
        let processed_in = num_chunks * 8;
        let processed_out = num_chunks * 5;
        let mut temp: [u8; 8] = [0u8; 8];
        let mut j: usize = 0;
        while j < remaining_in
            invariant
                remaining_in == in_len % 8,
                num_chunks == in_len / 8,
                processed_in == num_chunks * 8,
                in_len == input@.len(),
                j <= remaining_in,
                forall|k: int| 0 <= k < j ==> temp@[k] == input@[processed_in + k],
                forall|k: int| j <= k < 8 ==> temp@[k] == 0u8,
            decreases remaining_in - j,
        {
            temp[j] = input[processed_in + j];
            j += 1;
        }
        assert(temp@ =~= pad8(input@.skip(8 * num_chunks as int)));
        let mut grp: [u8; 5] = [0u8; 5];
        pack_4_pix_10bit(temp, &mut grp);
        output[processed_out] = grp[0];
        output[processed_out + 1] = grp[1];
        output[processed_out + 2] = grp[2];
        output[processed_out + 3] = grp[3];
        output[processed_out + 4] = grp[4];
        assert(output@.subrange(5 * num_chunks as int, 5 * num_chunks + 5) =~= grp@);
    }

    proof {
        let n = num_chunks as int;
        assert forall|i: int| 0 <= i < 5 * n implies output@[i] == spec_pack_all(
            input@.take(8 * n),
        )[i] by {
            let k = i / 5;
            assert(0 <= k < n);
            assert(mid.subrange(5 * k, 5 * k + 5) =~= spec_pack_group(
                input@.subrange(8 * k, 8 * k + 8),
            ));
            assert(output@.subrange(5 * k, 5 * k + 5) =~= mid.subrange(5 * k, 5 * k + 5));
            assert(output@[5 * k + i % 5] == spec_pack_group(input@.subrange(8 * k, 8 * k + 8))[i
                % 5]);
            assert(5 * k + i % 5 == i);
            let t = input@.take(8 * n);
            assert(t.subrange(8 * k, 8 * k + 8) =~= input@.subrange(8 * k, 8 * k + 8));
            assert(spec_pack_all(t)[i] == spec_pack_group(t.subrange(8 * (i / 5), 8 * (i / 5) + 8))[
                i % 5]);
        }
        assert(output@.subrange(0, 5 * n) =~= spec_pack_all(input@.take(8 * n)));
    }
}

/// Unpack a packed 10-bit buffer back to planar 16-bit samples. Complete
/// 5-byte groups are unpacked in order; output bytes past the unpacked
/// region keep their old value.
pub fn unpack_10bit(input: &Vec<u8>, output: &mut Vec<u8>)
    ensures
        final(output).len() == old(output).len(),
        ({
            let n: int = if input@.len() / 5 <= old(output)@.len() / 8 {
                (input@.len() / 5) as int
            } else {
                (old(output)@.len() / 8) as int
            };
            &&& final(output)@.subrange(0, 8 * n) =~= spec_unpack_all(
                input@.take(5 * n),
            )
            &&& forall|i: int|
                8 * n <= i < old(output)@.len() ==> final(output)@[i] == old(output)@[i]
        }),
{
    let in_len = input.len();
    let out_len = output.len();
    let max_chunks_in = in_len / 5;
    let max_chunks_out = out_len / 8;
    let num_chunks = if max_chunks_in <= max_chunks_out {
        max_chunks_in
    } else {
        max_chunks_out
    };
    let ghost out0 = output@;

    let mut g: usize = 0;
    while g < num_chunks
        invariant
            num_chunks <= max_chunks_in,
            num_chunks <= max_chunks_out,
            max_chunks_in == in_len / 5,
            max_chunks_out == out_len / 8,
            in_len == input@.len(),
            out_len == out0.len(),
            output@.len() == out0.len(),
            g <= num_chunks,
            forall|k: int|
                0 <= k < g ==> #[trigger] output@.subrange(8 * k, 8 * k + 8) =~= spec_unpack_group(
                    input@.subrange(5 * k, 5 * k + 5),
                ),
            forall|i: int| 8 * g <= i < out0.len() ==> output@[i] == out0[i],
        decreases num_chunks - g,
    {
        let base = 5 * g;
        let inp: [u8; 5] = [
            input[base],
            input[base + 1],
            input[base + 2],
            input[base + 3],
            input[base + 4],
        ];
        assert(inp@ =~= input@.subrange(5 * g as int, 5 * g + 5));
        let mut grp: [u8; 8] = [0u8; 8];
        unpack_4_pix_10bit(inp, &mut grp);
        let obase = 8 * g;
        let ghost pre = output@;
        output[obase] = grp[0];
        output[obase + 1] = grp[1];
        output[obase + 2] = grp[2];
        output[obase + 3] = grp[3];
        output[obase + 4] = grp[4];
        output[obase + 5] = grp[5];
        output[obase + 6] = grp[6];
        output[obase + 7] = grp[7];
        assert(output@.subrange(8 * g as int, 8 * g + 8) =~= grp@);
        g += 1;
        assert forall|k: int|
            0 <= k < g implies #[trigger] output@.subrange(8 * k, 8 * k + 8) =~= spec_unpack_group(
            input@.subrange(5 * k, 5 * k + 5),
        ) by {
            if k < g - 1 {
                assert(output@.subrange(8 * k, 8 * k + 8) =~= pre.subrange(8 * k, 8 * k + 8));
                assert(pre.subrange(8 * k, 8 * k + 8) =~= spec_unpack_group(
                    input@.subrange(5 * k, 5 * k + 5),
                ));
            } else {
                assert(output@.subrange(8 * k, 8 * k + 8) =~= grp@);
            }
        }
    }

    proof {
        let n = num_chunks as int;
        assert forall|i: int| 0 <= i < 8 * n implies output@[i] == spec_unpack_all(
            input@.take(5 * n),
        )[i] by {
            let k = i / 8;
            assert(0 <= k < n);
            assert(output@.subrange(8 * k, 8 * k + 8) =~= spec_unpack_group(
                input@.subrange(5 * k, 5 * k + 5),
            ));
            assert(output@[8 * k + i % 8] == spec_unpack_group(input@.subrange(5 * k, 5 * k + 5))[i
                % 8]);
            assert(8 * k + i % 8 == i);
            let t = input@.take(5 * n);
            assert(t.subrange(5 * k, 5 * k + 5) =~= input@.subrange(5 * k, 5 * k + 5));
            assert(spec_unpack_all(t)[i] == spec_unpack_group(t.subrange(5 * (i / 8), 5 * (i / 8)
                + 5))[i % 8]);
        }
        assert(output@.subrange(0, 8 * n) =~= spec_unpack_all(input@.take(5 * n)));
    }
}

/// Widen 8-bit samples to 10-bit ones stored as 16-bit little-endian words:
/// each widened sample is exactly four times the source byte.
pub fn conv_to_10bit(input: &Vec<u8>, output: &mut Vec<u8>)
    ensures
        final(output).len() == old(output).len(),
        ({
            let n: int = if input@.len() <= old(output)@.len() / 2 {
                input@.len() as int
            } else {
                (old(output)@.len() / 2) as int
            };
            &&& forall|i: int|
                0 <= i < n ==> (#[trigger] final(output)@[2 * i]) as int + 256 * (final(
                    output
                )@[2 * i + 1] as int) == 4 * input@[i]
            &&& forall|i: int|
                2 * n <= i < old(output)@.len() ==> final(output)@[i] == old(output)@[i]
        }),
{
    let in_len = input.len();
    let out_len = output.len();
    let n = if in_len <= out_len / 2 {
        in_len
    } else {
        out_len / 2
    };
    let ghost out0 = output@;

    let mut i: usize = 0;
    while i < n
        invariant
            n <= in_len,
            2 * n <= out_len,
            in_len == input@.len(),
            out_len == out0.len(),
            output@.len() == out0.len(),
            i <= n,
            forall|k: int|
                0 <= k < i ==> (#[trigger] output@[2 * k]) as int + 256 * (output@[2 * k + 1] as int)
                    == 4 * input@[k],
            forall|j: int| 2 * i <= j < out0.len() ==> output@[j] == out0[j],
        decreases n - i,
    {
        let b = input[i];
        let wide: u16 = (b as u16) << 2;
        let lo: u8 = #[verifier::truncate] ((wide & 0xFF) as u8);
        let hi: u8 = #[verifier::truncate] ((wide >> 8) as u8);
        assert((lo as int) + 256 * (hi as int) == 4 * b) by (bit_vector)
            requires
                wide == (b as u16) << 2,
                lo == (wide & 0xFF) as u8,
                hi == (wide >> 8) as u8,
        ;
        output[2 * i] = lo;
        output[2 * i + 1] = hi;
        i += 1;
    }
}

/// The row region of `out` that plane row `r` fills.
pub open spec fn spec_row_copied(
    src: Seq<u8>,
    linesize: int,
    row_bytes: int,
    out: Seq<u8>,
    pos: int,
    r: int,
) -> bool {
    out.subrange(pos + r * row_bytes, pos + r * row_bytes + row_bytes) == src.subrange(
        r * linesize,
        r * linesize + row_bytes,
    )
}

/// Copy `height` rows of `row_bytes` bytes each out of a plane whose rows
/// lie `linesize` bytes apart, into `output` starting at `out_pos`; the
/// extractor never trusts the line size to equal the row width. Bytes
/// outside the written region keep their value.
pub fn copy_plane_rows(
    src: &Vec<u8>,
    linesize: usize,
    row_bytes: usize,
    height: usize,
    output: &mut Vec<u8>,
    out_pos: usize,
) -> (new_pos: usize)
    requires
        row_bytes <= linesize,
        height * linesize <= src@.len(),
        out_pos + height * row_bytes <= old(output)@.len(),
    ensures
        new_pos == out_pos + height * row_bytes,
        final(output).len() == old(output).len(),
        forall|r: int|
            0 <= r < height ==> #[trigger] spec_row_copied(
                src@,
                linesize as int,
                row_bytes as int,
                final(output)@,
                out_pos as int,
                r,
            ),
        forall|i: int|
            0 <= i < out_pos || out_pos + height * row_bytes <= i < old(output)@.len()
                ==> final(output)@[i] == old(output)@[i],
{
    let ghost out0 = output@;
    let olen = output.len();
    let slen = src.len();
    let mut pos = out_pos;
    let mut src_off: usize = 0;
    let mut r: usize = 0;
    while r < height
        invariant
            row_bytes <= linesize,
            slen == src@.len(),
            olen == out0.len(),
            height * linesize <= src@.len(),
            out_pos + height * row_bytes <= out0.len(),
            output@.len() == out0.len(),
            r <= height,
            src_off == r * linesize,
            pos == out_pos + r * row_bytes,
            forall|k: int|
                0 <= k < r ==> #[trigger] spec_row_copied(
                    src@,
                    linesize as int,
                    row_bytes as int,
                    output@,
                    out_pos as int,
                    k,
                ),
            forall|i: int| 0 <= i < out_pos || pos <= i < out0.len() ==> output@[i] == out0[i],
        decreases height - r,
    {
        proof {
            assert((r + 1) * linesize <= height * linesize) by (nonlinear_arith)
                requires
                    r < height,
                    linesize >= 0,
            ;
            assert((r + 1) * linesize == r * linesize + linesize) by (nonlinear_arith);
            assert((r + 1) * row_bytes <= height * row_bytes) by (nonlinear_arith)
                requires
                    r < height,
                    row_bytes >= 0,
            ;
            assert((r + 1) * row_bytes == r * row_bytes + row_bytes) by (nonlinear_arith);
        }
        let ghost pre = output@;
        let mut c: usize = 0;
        while c < row_bytes
            invariant
                row_bytes <= linesize,
                slen == src@.len(),
                olen == out0.len(),
                src_off + linesize <= slen,
                pos + row_bytes <= olen,
                output@.len() == out0.len(),
                c <= row_bytes,
                forall|j: int| 0 <= j < c ==> #[trigger] output@[pos + j] == src@[src_off + j],
                forall|i: int| 0 <= i < pos || pos + c <= i < out0.len() ==> output@[i] == pre[i],
            decreases row_bytes - c,
        {
            output[pos + c] = src[src_off + c];
            c += 1;
        }
        proof {
            assert forall|j: int| 0 <= j < row_bytes implies #[trigger] output@.subrange(
                pos as int,
                pos + row_bytes,
            )[j] == src@.subrange(src_off as int, src_off + row_bytes)[j] by {
                assert(output@[pos + j] == src@[src_off + j]);
            }
            assert(output@.subrange(pos as int, pos + row_bytes) =~= src@.subrange(
                src_off as int,
                src_off + row_bytes,
            ));
            assert(spec_row_copied(
                src@,
                linesize as int,
                row_bytes as int,
                output@,
                out_pos as int,
                r as int,
            ));
            assert forall|k: int|
                0 <= k < r implies #[trigger] spec_row_copied(
                src@,
                linesize as int,
                row_bytes as int,
                output@,
                out_pos as int,
                k,
            ) by {
                assert((k + 1) * row_bytes <= r * row_bytes) by (nonlinear_arith)
                    requires
                        k < r,
                        row_bytes >= 0,
                ;
                assert((k + 1) * row_bytes == k * row_bytes + row_bytes) by (nonlinear_arith);
                assert(spec_row_copied(
                    src@,
                    linesize as int,
                    row_bytes as int,
                    pre,
                    out_pos as int,
                    k,
                ));
                assert(output@.subrange(
                    out_pos + k * row_bytes,
                    out_pos + k * row_bytes + row_bytes,
                ) =~= pre.subrange(out_pos + k * row_bytes, out_pos + k * row_bytes + row_bytes));
            }
        }
        pos = pos + row_bytes;
        src_off = src_off + linesize;
        r += 1;
    }
    pos
}

/// The low byte of an 8-bit sample widened to 10 bits.
pub open spec fn widen_lo(b: u8) -> u8 {
    ((b as int * 4) % 256) as u8
}

/// The high byte of an 8-bit sample widened to 10 bits.
pub open spec fn widen_hi(b: u8) -> u8 {
    ((b as int * 4) / 256) as u8
}

/// A row of 8-bit samples widened to 16-bit little-endian words.
pub open spec fn spec_widen(s: Seq<u8>) -> Seq<u8> {
    Seq::new(
        (2 * s.len()) as nat,
        |i: int|
            if i % 2 == 0 {
                widen_lo(s[i / 2])
            } else {
                widen_hi(s[i / 2])
            },
    )
}

/// Each widened word is exactly four times its source byte: the law behind
/// the 8-to-10-bit widening, stated once for any widened row.
pub proof fn lemma_widen_times_four(s: Seq<u8>, i: int)
    requires
        0 <= i < s.len(),
    ensures
        spec_widen(s)[2 * i] + 256 * spec_widen(s)[2 * i + 1] == 4 * s[i],
{
    assert((s[i] as int * 4) % 256 + 256 * ((s[i] as int * 4) / 256) == s[i] as int * 4);
    assert((s[i] as int * 4) % 256 < 256);
    assert((s[i] as int * 4) / 256 <= 3) by (nonlinear_arith)
        requires
            s[i] < 256,
    ;
}

/// Copy `height` rows of `width` 8-bit samples, widening each sample to a
/// 10-bit little-endian word on the way. Bytes outside the written region
/// keep their value.
pub fn copy_plane_8to10(
    src: &Vec<u8>,
    linesize: usize,
    width: usize,
    height: usize,
    output: &mut Vec<u8>,
    out_pos: usize,
) -> (new_pos: usize)
    requires
        width <= linesize,
        2 * width <= usize::MAX,
        height * linesize <= src@.len(),
        out_pos + height * (2 * width) <= old(output)@.len(),
    ensures
        new_pos == out_pos + height * (2 * width),
        final(output).len() == old(output).len(),
        forall|r: int|
            0 <= r < height ==> #[trigger] final(output)@.subrange(
                out_pos + r * (2 * width),
                out_pos + r * (2 * width) + 2 * width,
            ) == spec_widen(src@.subrange(r * linesize, r * linesize + width)),
        forall|i: int|
            0 <= i < out_pos || out_pos + height * (2 * width) <= i < old(output)@.len()
                ==> final(output)@[i] == old(output)@[i],
{
    let ghost out0 = output@;
    let olen = output.len();
    let slen = src.len();
    let row_out = 2 * width;
    let mut pos = out_pos;
    let mut src_off: usize = 0;
    let mut r: usize = 0;
    while r < height
        invariant
            width <= linesize,
            row_out == 2 * width,
            slen == src@.len(),
            olen == out0.len(),
            height * linesize <= src@.len(),
            out_pos + height * row_out <= out0.len(),
            output@.len() == out0.len(),
            r <= height,
            src_off == r * linesize,
            pos == out_pos + r * row_out,
            forall|k: int|
                0 <= k < r ==> #[trigger] output@.subrange(
                    out_pos + k * (2 * width),
                    out_pos + k * (2 * width) + 2 * width,
                ) == spec_widen(src@.subrange(k * linesize, k * linesize + width)),
            forall|i: int| 0 <= i < out_pos || pos <= i < out0.len() ==> output@[i] == out0[i],
        decreases height - r,
    {
        proof {
            assert((r + 1) * linesize <= height * linesize) by (nonlinear_arith)
                requires
                    r < height,
                    linesize >= 0,
            ;
            assert((r + 1) * linesize == r * linesize + linesize) by (nonlinear_arith);
            assert((r + 1) * row_out <= height * row_out) by (nonlinear_arith)
                requires
                    r < height,
                    row_out >= 0,
            ;
            assert((r + 1) * row_out == r * row_out + row_out) by (nonlinear_arith);
        }
        let ghost pre = output@;
        let mut c: usize = 0;
        while c < width
            invariant
                width <= linesize,
                row_out == 2 * width,
                slen == src@.len(),
                olen == out0.len(),
                src_off + linesize <= slen,
                pos + row_out <= olen,
                output@.len() == out0.len(),
                c <= width,
                forall|j: int|
                    0 <= j < c ==> #[trigger] output@[pos + 2 * j] == widen_lo(src@[src_off + j])
                        && output@[pos + 2 * j + 1] == widen_hi(src@[src_off + j]),
                forall|i: int|
                    0 <= i < pos || pos + 2 * c <= i < out0.len() ==> output@[i] == pre[i],
            decreases width - c,
        {
            let b = src[src_off + c];
            let wide: u16 = (b as u16) << 2;
            let lo: u8 = #[verifier::truncate] ((wide & 0xFF) as u8);
            let hi: u8 = #[verifier::truncate] ((wide >> 8) as u8);
            assert(lo == widen_lo(b) && hi == widen_hi(b)) by (bit_vector)
                requires
                    wide == (b as u16) << 2,
                    lo == (wide & 0xFF) as u8,
                    hi == (wide >> 8) as u8,
            ;
            output[pos + 2 * c] = lo;
            output[pos + 2 * c + 1] = hi;
            c += 1;
        }
        proof {
            assert forall|j: int| 0 <= j < 2 * width implies #[trigger] output@.subrange(
                pos as int,
                pos + 2 * width,
            )[j] == spec_widen(src@.subrange(src_off as int, src_off + width))[j] by {
                let t = j / 2;
                assert(output@[pos + 2 * t] == widen_lo(src@[src_off + t]));
                assert(output@[pos + 2 * t + 1] == widen_hi(src@[src_off + t]));
                if j % 2 == 0 {
                    assert(j == 2 * t);
                } else {
                    assert(j == 2 * t + 1);
                }
            }
            assert(output@.subrange(pos as int, pos + 2 * width) =~= spec_widen(
                src@.subrange(src_off as int, src_off + width),
            ));
            assert(output@.subrange(
                out_pos + r * (2 * width),
                out_pos + r * (2 * width) + 2 * width,
            ) == spec_widen(src@.subrange(r * linesize, r * linesize + width)));
            assert forall|k: int|
                0 <= k < r implies #[trigger] output@.subrange(
                out_pos + k * (2 * width),
                out_pos + k * (2 * width) + 2 * width,
            ) == spec_widen(src@.subrange(k * linesize, k * linesize + width)) by {
                assert((k + 1) * row_out <= r * row_out) by (nonlinear_arith)
                    requires
                        k < r,
                        row_out >= 0,
                ;
                assert((k + 1) * row_out == k * row_out + row_out) by (nonlinear_arith);
                assert(output@.subrange(
                    out_pos + k * (2 * width),
                    out_pos + k * (2 * width) + 2 * width,
                ) =~= pre.subrange(out_pos + k * (2 * width), out_pos + k * (2 * width) + 2 * width));
            }
        }
        pos = pos + row_out;
        src_off = src_off + linesize;
        r += 1;
    }
    pos
}

/// Rows already copied stay copied in any later state that leaves the
/// plane's output region untouched.
proof fn lemma_rows_framed(
    src: Seq<u8>,
    linesize: int,
    row_bytes: int,
    a: Seq<u8>,
    b: Seq<u8>,
    pos: int,
    height: int,
)
    requires
        a.len() == b.len(),
        row_bytes >= 0,
        pos >= 0,
        height >= 0,
        pos + height * row_bytes <= a.len(),
        forall|i: int| pos <= i < pos + height * row_bytes ==> a[i] == b[i],
        forall|r: int|
            0 <= r < height ==> #[trigger] spec_row_copied(src, linesize, row_bytes, a, pos, r),
    ensures
        forall|r: int|
            0 <= r < height ==> #[trigger] spec_row_copied(src, linesize, row_bytes, b, pos, r),
{
    assert forall|r: int|
        0 <= r < height implies #[trigger] spec_row_copied(
        src,
        linesize,
        row_bytes,
        b,
        pos,
        r,
    ) by {
        assert(spec_row_copied(src, linesize, row_bytes, a, pos, r));
        assert((r + 1) * row_bytes <= height * row_bytes) by (nonlinear_arith)
            requires
                r < height,
                row_bytes >= 0,
        ;
        assert((r + 1) * row_bytes == r * row_bytes + row_bytes) by (nonlinear_arith);
        assert(r * row_bytes >= 0) by (nonlinear_arith)
            requires
                r >= 0,
                row_bytes >= 0,
        ;
        assert(b.subrange(pos + r * row_bytes, pos + r * row_bytes + row_bytes) =~= a.subrange(
            pos + r * row_bytes,
            pos + r * row_bytes + row_bytes,
        ));
    }
}

/// Rows already widened stay widened in any later state that leaves the
/// plane's output region untouched.
proof fn lemma_widen_framed(
    src: Seq<u8>,
    linesize: int,
    width: int,
    a: Seq<u8>,
    b: Seq<u8>,
    pos: int,
    height: int,
)
    requires
        a.len() == b.len(),
        width >= 0,
        pos >= 0,
        height >= 0,
        pos + height * (2 * width) <= a.len(),
        forall|i: int| pos <= i < pos + height * (2 * width) ==> a[i] == b[i],
        forall|r: int|
            0 <= r < height ==> #[trigger] a.subrange(
                pos + r * (2 * width),
                pos + r * (2 * width) + 2 * width,
            ) == spec_widen(src.subrange(r * linesize, r * linesize + width)),
    ensures
        forall|r: int|
            0 <= r < height ==> #[trigger] b.subrange(
                pos + r * (2 * width),
                pos + r * (2 * width) + 2 * width,
            ) == spec_widen(src.subrange(r * linesize, r * linesize + width)),
{
    assert forall|r: int|
        0 <= r < height implies #[trigger] b.subrange(
        pos + r * (2 * width),
        pos + r * (2 * width) + 2 * width,
    ) == spec_widen(src.subrange(r * linesize, r * linesize + width)) by {
        assert((r + 1) * (2 * width) <= height * (2 * width)) by (nonlinear_arith)
            requires
                r < height,
                width >= 0,
        ;
        assert((r + 1) * (2 * width) == r * (2 * width) + 2 * width) by (nonlinear_arith);
        assert(r * (2 * width) >= 0) by (nonlinear_arith)
            requires
                r >= 0,
                width >= 0,
        ;
        assert(b.subrange(pos + r * (2 * width), pos + r * (2 * width) + 2 * width) =~= a.subrange(
            pos + r * (2 * width),
            pos + r * (2 * width) + 2 * width,
        ));
    }
}

/// Assemble one full 8-bit planar frame from the decoder's three planes,
/// row by row at each plane's own line size: Y, then U, then V.
pub fn assemble_8bit(
    y: &Vec<u8>,
    y_ls: usize,
    u: &Vec<u8>,
    u_ls: usize,
    v: &Vec<u8>,
    v_ls: usize,
    width: usize,
    height: usize,
    output: &mut Vec<u8>,
) -> (new_pos: usize)
    requires
        width <= y_ls,
        height * y_ls <= y@.len(),
        width / 2 <= u_ls,
        (height / 2) * u_ls <= u@.len(),
        width / 2 <= v_ls,
        (height / 2) * v_ls <= v@.len(),
        height * width + 2 * ((height / 2) * (width / 2)) <= old(output)@.len(),
    ensures
        new_pos == height * width + 2 * ((height / 2) * (width / 2)),
        final(output).len() == old(output).len(),
        forall|r: int|
            0 <= r < height ==> #[trigger] spec_row_copied(
                y@,
                y_ls as int,
                width as int,
                final(output)@,
                0,
                r,
            ),
        forall|r: int|
            0 <= r < height / 2 ==> #[trigger] spec_row_copied(
                u@,
                u_ls as int,
                width as int / 2,
                final(output)@,
                height * width,
                r,
            ),
        forall|r: int|
            0 <= r < height / 2 ==> #[trigger] spec_row_copied(
                v@,
                v_ls as int,
                width as int / 2,
                final(output)@,
                height * width + (height / 2) * (width / 2),
                r,
            ),
{
    let uv_w = width / 2;
    let uv_h = height / 2;
    let pos1 = copy_plane_rows(y, y_ls, width, height, output, 0);
    let ghost mid1 = output@;
    let pos2 = copy_plane_rows(u, u_ls, uv_w, uv_h, output, pos1);
    let ghost mid2 = output@;
    proof {
        lemma_rows_framed(y@, y_ls as int, width as int, mid1, mid2, 0, height as int);
    }
    let pos3 = copy_plane_rows(v, v_ls, uv_w, uv_h, output, pos2);
    proof {
        lemma_rows_framed(y@, y_ls as int, width as int, mid2, output@, 0, height as int);
        lemma_rows_framed(
            u@,
            u_ls as int,
            uv_w as int,
            mid2,
            output@,
            pos1 as int,
            uv_h as int,
        );
    }
    pos3
}

/// Assemble one full 10-bit planar frame from the decoder's three planes:
/// a 10-bit source is copied row by row, an 8-bit source is widened to
/// 10-bit words on the way; Y, then U, then V.
pub fn assemble_10bit(
    y: &Vec<u8>,
    y_ls: usize,
    u: &Vec<u8>,
    u_ls: usize,
    v: &Vec<u8>,
    v_ls: usize,
    width: usize,
    height: usize,
    is_10bit: bool,
    output: &mut Vec<u8>,
) -> (new_pos: usize)
    requires
        2 * width <= usize::MAX,
        is_10bit ==> 2 * width <= y_ls && 2 * (width / 2) <= u_ls && 2 * (width / 2) <= v_ls,
        !is_10bit ==> width <= y_ls && width / 2 <= u_ls && width / 2 <= v_ls,
        height * y_ls <= y@.len(),
        (height / 2) * u_ls <= u@.len(),
        (height / 2) * v_ls <= v@.len(),
        height * (2 * width) + 2 * ((height / 2) * (2 * (width / 2))) <= old(output)@.len(),
    ensures
        new_pos == height * (2 * width) + 2 * ((height / 2) * (2 * (width / 2))),
        final(output).len() == old(output).len(),
        is_10bit ==> ({
            &&& forall|r: int|
                0 <= r < height ==> #[trigger] spec_row_copied(
                    y@,
                    y_ls as int,
                    2 * width as int,
                    final(output)@,
                    0,
                    r,
                )
            &&& forall|r: int|
                0 <= r < height / 2 ==> #[trigger] spec_row_copied(
                    u@,
                    u_ls as int,
                    2 * (width as int / 2),
                    final(output)@,
                    height * (2 * width),
                    r,
                )
            &&& forall|r: int|
                0 <= r < height / 2 ==> #[trigger] spec_row_copied(
                    v@,
                    v_ls as int,
                    2 * (width as int / 2),
                    final(output)@,
                    height * (2 * width) + (height / 2) * (2 * (width / 2)),
                    r,
                )
        }),
        !is_10bit ==> ({
            &&& forall|r: int|
                0 <= r < height ==> #[trigger] final(output)@.subrange(
                    r * (2 * width),
                    r * (2 * width) + 2 * width,
                ) == spec_widen(y@.subrange(r * y_ls, r * y_ls + width))
            &&& forall|r: int|
                0 <= r < height / 2 ==> #[trigger] final(output)@.subrange(
                    height * (2 * width) + r * (2 * (width / 2)),
                    height * (2 * width) + r * (2 * (width / 2)) + 2 * (width / 2),
                ) == spec_widen(u@.subrange(r * u_ls, r * u_ls + width as int / 2))
            &&& forall|r: int|
                0 <= r < height / 2 ==> #[trigger] final(output)@.subrange(
                    height * (2 * width) + (height / 2) * (2 * (width / 2)) + r * (2 * (width
                        / 2)),
                    height * (2 * width) + (height / 2) * (2 * (width / 2)) + r * (2 * (width / 2))
                        + 2 * (width / 2),
                ) == spec_widen(v@.subrange(r * v_ls, r * v_ls + width as int / 2))
        }),
{
    let uv_w = width / 2;
    let uv_h = height / 2;
    if is_10bit {
        let pos1 = copy_plane_rows(y, y_ls, 2 * width, height, output, 0);
        let ghost mid1 = output@;
        let pos2 = copy_plane_rows(u, u_ls, 2 * uv_w, uv_h, output, pos1);
        let ghost mid2 = output@;
        proof {
            lemma_rows_framed(y@, y_ls as int, 2 * width as int, mid1, mid2, 0, height as int);
        }
        let pos3 = copy_plane_rows(v, v_ls, 2 * uv_w, uv_h, output, pos2);
        proof {
            lemma_rows_framed(y@, y_ls as int, 2 * width as int, mid2, output@, 0, height as int);
            lemma_rows_framed(
                u@,
                u_ls as int,
                2 * (uv_w as int),
                mid2,
                output@,
                pos1 as int,
                uv_h as int,
            );
        }
        pos3
    } else {
        let pos1 = copy_plane_8to10(y, y_ls, width, height, output, 0);
        let ghost mid1 = output@;
        let pos2 = copy_plane_8to10(u, u_ls, uv_w, uv_h, output, pos1);
        let ghost mid2 = output@;
        proof {
            lemma_widen_framed(y@, y_ls as int, width as int, mid1, mid2, 0, height as int);
        }
        let pos3 = copy_plane_8to10(v, v_ls, uv_w, uv_h, output, pos2);
        proof {
            lemma_widen_framed(y@, y_ls as int, width as int, mid2, output@, 0, height as int);
            lemma_widen_framed(
                u@,
                u_ls as int,
                uv_w as int,
                mid2,
                output@,
                pos1 as int,
                uv_h as int,
            );
            assert forall|r: int|
                0 <= r < height / 2 implies #[trigger] output@.subrange(
                height * (2 * width) + r * (2 * (width as int / 2)),
                height * (2 * width) + r * (2 * (width as int / 2)) + 2 * (width as int / 2),
            ) == spec_widen(u@.subrange(r * u_ls, r * u_ls + width as int / 2)) by {
                assert(output@.subrange(
                    pos1 + r * (2 * uv_w),
                    pos1 + r * (2 * uv_w) + 2 * uv_w,
                ) == spec_widen(u@.subrange(r * u_ls, r * u_ls + uv_w)));
                assert(height * (2 * width) + r * (2 * (width as int / 2)) == pos1 + r * (2
                    * uv_w));
            }
            assert forall|r: int|
                0 <= r < height / 2 implies #[trigger] output@.subrange(
                height * (2 * width) + (height as int / 2) * (2 * (width as int / 2)) + r * (2 * (
                width as int / 2)),
                height * (2 * width) + (height as int / 2) * (2 * (width as int / 2)) + r * (2 * (
                width as int / 2)) + 2 * (width as int / 2),
            ) == spec_widen(v@.subrange(r * v_ls, r * v_ls + width as int / 2)) by {
                assert(output@.subrange(
                    pos2 + r * (2 * uv_w),
                    pos2 + r * (2 * uv_w) + 2 * uv_w,
                ) == spec_widen(v@.subrange(r * v_ls, r * v_ls + uv_w)));
                assert(height * (2 * width) + (height as int / 2) * (2 * (width as int / 2)) + r
                    * (2 * (width as int / 2)) == pos2 + r * (2 * uv_w));
            }
            assert forall|r: int|
                0 <= r < height implies #[trigger] output@.subrange(
                r * (2 * width),
                r * (2 * width) + 2 * width,
            ) == spec_widen(y@.subrange(r * y_ls, r * y_ls + width)) by {
                assert(output@.subrange(
                    0 + r * (2 * width),
                    0 + r * (2 * width) + 2 * width,
                ) == spec_widen(y@.subrange(r * y_ls, r * y_ls + width)));
            }
        }
        pos3
    }
}

} // verus!
