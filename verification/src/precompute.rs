//! Cache of precomputed features: the binary format of a sample, and the
//! manifest of a data set.
//!
//! A sample is a header of 16 bytes (`MFCC`, version, number of frames, number
//! of targets, all integers little-endian), the feature values row by row, and
//! the targets.

use vstd::prelude::*;

use crate::dataset::TrainingSample;
use crate::error::{Error, ErrorView, Result};
use crate::g2p::CmuDict;
use crate::ieee::Real32;
use crate::mfcc::FeatureMode;
use crate::phoneme_map::transcript_to_targets;
use crate::text::{decimal_of, padded_decimal_of};
use crate::{dataset, mfcc, phoneme_map, text};

verus! {

/// Format version.
pub const VERSION: u32 = 1;

/// Sanity bound on the number of frames and of targets of a sample.
pub const MAX_REASONABLE: usize = 100_000;

// ---------------------------------------------------------------------------
// Little-endian integers
// ---------------------------------------------------------------------------

/// The four bytes of `x`, the lowest first.
pub open spec fn le32(x: u32) -> Seq<u8> {
    seq![
        (x % 256) as u8,
        (x / 256 % 256) as u8,
        (x / 65536 % 256) as u8,
        (x / 16777216) as u8,
    ]
}

/// The integer that the four bytes of `data` from `at` on stand for.
pub open spec fn u32_at(data: Seq<u8>, at: int) -> u32 {
    (data[at] + data[at + 1] * 256 + data[at + 2] * 65536 + data[at + 3] * 16777216) as u32
}

/// `x` in two's complement.
pub open spec fn to_bits(x: i32) -> u32 {
    if x < 0 {
        (x + 0x1_0000_0000) as u32
    } else {
        x as u32
    }
}

/// The integer whose two's complement is `bits`.
pub open spec fn from_bits(bits: u32) -> i32 {
    if bits >= 0x8000_0000 {
        (bits - 0x1_0000_0000) as i32
    } else {
        bits as i32
    }
}

/// Reading an integer gives back the one that was written.
pub proof fn lemma_le32_round_trip(x: u32, data: Seq<u8>, at: int)
    requires
        0 <= at,
        at + 4 <= data.len(),
        data.subrange(at, at + 4) == le32(x),
    ensures
        u32_at(data, at) == x,
{
    let s = data.subrange(at, at + 4);
    assert(s[0] == data[at] && s[1] == data[at + 1] && s[2] == data[at + 2] && s[3] == data[at
        + 3]);
    assert(x == (x % 256) + (x / 256 % 256) * 256 + (x / 65536 % 256) * 65536 + (x / 16777216)
        * 16777216) by {
        assert(x / 65536 == (x / 256) / 256) by (nonlinear_arith);
        assert(x / 16777216 == (x / 65536) / 256) by (nonlinear_arith);
    }
}

/// Appends the bytes of `x`.
fn push_u32(out: &mut Vec<u8>, x: u32)
    ensures
        final(out)@ == old(out)@ + le32(x),
{
    out.push((x % 256) as u8);
    out.push((x / 256 % 256) as u8);
    out.push((x / 65536 % 256) as u8);
    out.push((x / 16777216) as u8);
    assert(out@ =~= old(out)@ + le32(x));
}

/// Reads the four bytes from `at` on.
pub(crate) fn read_u32(data: &Vec<u8>, at: usize) -> (r: u32)
    requires
        at + 4 <= data@.len(),
    ensures
        r == u32_at(data@, at as int),
{
    let n: usize = data.len();
    assert(at + 4 <= n);
    data[at] as u32 + data[at + 1] as u32 * 256 + data[at + 2] as u32 * 65536 + data[at + 3] as u32
        * 16777216
}

fn bits_of(x: i32) -> (r: u32)
    ensures
        r == to_bits(x),
{
    if x < 0 {
        (x as i64 + 0x1_0000_0000) as u32
    } else {
        x as u32
    }
}

fn int_of(bits: u32) -> (r: i32)
    ensures
        r == from_bits(bits),
{
    if bits >= 0x8000_0000 {
        (bits as i64 - 0x1_0000_0000) as i32
    } else {
        bits as i32
    }
}

// ---------------------------------------------------------------------------
// Writing
// ---------------------------------------------------------------------------

/// The magic bytes at the front of a sample: `MFCC`.
pub open spec fn magic() -> Seq<u8> {
    seq![77u8, 70u8, 67u8, 67u8]
}

pub open spec fn value_bytes(values: Seq<Real32>) -> Seq<u8>
    decreases values.len(),
{
    if values.len() == 0 {
        seq![]
    } else {
        value_bytes(values.drop_last()) + le32(values.last().bits)
    }
}

pub open spec fn target_bytes(targets: Seq<i32>) -> Seq<u8>
    decreases targets.len(),
{
    if targets.len() == 0 {
        seq![]
    } else {
        target_bytes(targets.drop_last()) + le32(to_bits(targets.last()))
    }
}

/// A sample in its binary form.
pub open spec fn encoded(frames: Seq<Vec<Real32>>, targets: Seq<i32>) -> Seq<u8> {
    magic() + le32(VERSION) + le32(frames.len() as u32) + le32(targets.len() as u32) + value_bytes(
        mfcc::flat(frames),
    ) + target_bytes(targets)
}

/// Whether all frames are `dim` wide.
pub open spec fn widths_ok(frames: Seq<Vec<Real32>>, dim: nat) -> bool {
    forall|i: int| 0 <= i < frames.len() ==> (#[trigger] frames[i])@.len() == dim
}

/// `i` is the first frame that is not `dim` wide.
pub open spec fn first_misfit(frames: Seq<Vec<Real32>>, dim: nat, i: int) -> bool {
    0 <= i < frames.len() && frames[i]@.len() != dim && widths_ok(frames.take(i), dim)
}

/// The binary form of a sample. A frame of another width than `feature_dim` is
/// an error.
pub fn encode_binary_sample(
    path: &str,
    feature_frames: &Vec<Vec<Real32>>,
    feature_dim: usize,
    targets: &Vec<i32>,
) -> (r: Result<Vec<u8>>)
    ensures
        match r {
            Ok(bytes) => widths_ok(feature_frames@, feature_dim as nat) && bytes@ == encoded(
                feature_frames@,
                targets@,
            ),
            Err(e) => exists|i: int| #[trigger]
                first_misfit(feature_frames@, feature_dim as nat, i) && e@ == ErrorView::Config(
                    "Feature frame width mismatch while writing "@ + path@ + ": expected "@
                        + text::decimal(feature_dim as nat) + ", got "@ + text::decimal(
                        feature_frames@[i]@.len(),
                    ),
                ),
        },
{
    let mut out: Vec<u8> = Vec::new();
    out.push(77);
    out.push(70);
    out.push(67);
    out.push(67);
    assert(out@ =~= magic());
    push_u32(&mut out, VERSION);
    push_u32(&mut out, feature_frames.len() as u32);
    push_u32(&mut out, targets.len() as u32);
    let ghost head = out@;
    let n: usize = feature_frames.len();
    let mut i: usize = 0;
    assert(feature_frames@.take(0) =~= Seq::<Vec<Real32>>::empty());
    assert(out@ =~= head + value_bytes(mfcc::flat(feature_frames@.take(0))));
    while i < n
        invariant
            n == feature_frames@.len(),
            i <= n,
            widths_ok(feature_frames@.take(i as int), feature_dim as nat),
            out@ == head + value_bytes(mfcc::flat(feature_frames@.take(i as int))),
        decreases n - i,
    {
        let frame = &feature_frames[i];
        let width: usize = frame.len();
        if width != feature_dim {
            let mut msg = "Feature frame width mismatch while writing ".to_owned();
            msg.append(path);
            msg.append(": expected ");
            let expected = decimal_of(feature_dim as u64);
            msg.append(expected.as_str());
            msg.append(", got ");
            let got = decimal_of(width as u64);
            msg.append(got.as_str());
            assert(first_misfit(feature_frames@, feature_dim as nat, i as int));
            return Err(Error::config(msg.as_str()));
        }
        let ghost upto = feature_frames@.take(i + 1);
        let ghost before = mfcc::flat(feature_frames@.take(i as int));
        assert(upto.drop_last() =~= feature_frames@.take(i as int));
        assert(widths_ok(upto, feature_dim as nat)) by {
            assert forall|k: int| 0 <= k < upto.len() implies (#[trigger] upto[k])@.len()
                == feature_dim by {
                if k < i {
                    assert(upto[k] == feature_frames@.take(i as int)[k]);
                }
            }
        }
        let mut c: usize = 0;
        assert(before + frame@.take(0) =~= before);
        while c < width
            invariant
                width == frame@.len(),
                c <= width,
                out@ == head + value_bytes(before + frame@.take(c as int)),
            decreases width - c,
        {
            push_u32(&mut out, frame[c].bits);
            let ghost more = before + frame@.take(c + 1);
            assert(more.drop_last() =~= before + frame@.take(c as int));
            assert(more.last() == frame@[c as int]);
            assert(out@ =~= head + value_bytes(more));
            c = c + 1;
        }
        assert(frame@.take(width as int) =~= frame@);
        i = i + 1;
    }
    assert(feature_frames@.take(n as int) =~= feature_frames@);
    let ghost body = out@;
    let m: usize = targets.len();
    let mut j: usize = 0;
    assert(targets@.take(0) =~= Seq::<i32>::empty());
    assert(out@ =~= body + target_bytes(targets@.take(0)));
    while j < m
        invariant
            m == targets@.len(),
            j <= m,
            out@ == body + target_bytes(targets@.take(j as int)),
        decreases m - j,
    {
        let ghost upto = targets@.take(j + 1);
        assert(upto.drop_last() =~= targets@.take(j as int));
        push_u32(&mut out, bits_of(targets[j]));
        assert(out@ =~= body + target_bytes(upto));
        j = j + 1;
    }
    assert(targets@.take(m as int) =~= targets@);
    Ok(out)
}

// ---------------------------------------------------------------------------
// Reading
// ---------------------------------------------------------------------------

/// The feature values of a sample, row by row.
pub open spec fn feature_rows(data: Seq<u8>, frames: nat, dim: nat) -> Seq<Seq<Real32>> {
    Seq::new(
        frames,
        |f: int|
            Seq::new(dim, |c: int| Real32 { bits: u32_at(data, 16 + (f * dim + c) * 4) }),
    )
}

/// The targets of a sample.
pub open spec fn target_row(data: Seq<u8>, from: int, targets: nat) -> Seq<i32> {
    Seq::new(targets, |k: int| from_bits(u32_at(data, from + k * 4)))
}

pub open spec fn corrupt(what: Seq<char>, path: Seq<char>) -> Seq<char> {
    what + path + ": failed to fill whole buffer"@
}

pub open spec fn sizes(frames: nat, targets: nat) -> Seq<char> {
    text::decimal(frames) + "f/"@ + text::decimal(targets) + "t"@
}

/// What a binary sample holds, or why it is refused. The header is checked
/// from front to back, and before the data.
pub open spec fn decoded(
    data: Seq<u8>,
    path: Seq<char>,
    expected_frames: nat,
    expected_targets: nat,
    dim: nat,
) -> std::result::Result<(Seq<Seq<Real32>>, Seq<i32>), Seq<char>> {
    let version = u32_at(data, 4);
    let frames = u32_at(data, 8) as nat;
    let targets = u32_at(data, 12) as nat;
    let body = 16 + frames * dim * 4;
    if data.len() < 4 {
        Err(corrupt("Corrupt file "@, path))
    } else if data.take(4) != magic() {
        Err("Bad magic in "@ + path)
    } else if data.len() < 8 {
        Err(corrupt("Corrupt file "@, path))
    } else if version != VERSION {
        Err("Unsupported version "@ + text::decimal(version as nat) + " in "@ + path)
    } else if data.len() < 16 {
        Err(corrupt("Corrupt file "@, path))
    } else if frames > MAX_REASONABLE || targets > MAX_REASONABLE {
        Err("Unreasonable sizes in "@ + path + ": "@ + sizes(frames, targets) + " (max 100000)"@)
    } else if frames != expected_frames || targets != expected_targets {
        Err(
            "Size mismatch in "@ + path + ": expected "@ + sizes(expected_frames, expected_targets)
                + ", got "@ + sizes(frames, targets),
        )
    } else if data.len() < body {
        Err(corrupt("Corrupt feature data in "@, path))
    } else if data.len() < body + targets * 4 {
        Err(corrupt("Corrupt target data in "@, path))
    } else {
        Ok((feature_rows(data, frames, dim), target_row(data, body as int, targets)))
    }
}

pub open spec fn row_views(rows: Seq<Vec<Real32>>) -> Seq<Seq<Real32>> {
    rows.map_values(|r: Vec<Real32>| r@)
}

fn corrupt_error(what: &str, path: &str) -> (r: Error)
    ensures
        r@ == ErrorView::Config(corrupt(what@, path@)),
{
    let mut msg = what.to_owned();
    msg.append(path);
    msg.append(": failed to fill whole buffer");
    Error::config(msg.as_str())
}

fn sizes_text(frames: usize, targets: usize) -> (r: String)
    ensures
        r@ == sizes(frames as nat, targets as nat),
{
    let mut out = decimal_of(frames as u64);
    out.append("f/");
    let t = decimal_of(targets as u64);
    out.append(t.as_str());
    out.append("t");
    out
}

fn read_rows(data: &Vec<u8>, frames: usize, dim: usize) -> (r: Vec<Vec<Real32>>)
    requires
        16 + frames * dim * 4 <= data@.len(),
    ensures
        row_views(r@) == feature_rows(data@, frames as nat, dim as nat),
{
    let n: usize = data.len();
    let mut rows: Vec<Vec<Real32>> = Vec::new();
    let mut at: usize = 16;
    let mut f: usize = 0;
    while f < frames
        invariant
            f <= frames,
            n == data@.len(),
            16 + frames * dim * 4 <= data@.len(),
            at == 16 + f * dim * 4,
            rows@.len() == f,
            forall|k: int|
                0 <= k < f ==> (#[trigger] rows@[k])@ == Seq::new(
                    dim as nat,
                    |c: int| Real32 { bits: u32_at(data@, 16 + (k * dim + c) * 4) },
                ),
        decreases frames - f,
    {
        let mut row: Vec<Real32> = Vec::new();
        let mut c: usize = 0;
        assert(f * dim + dim <= frames * dim) by (nonlinear_arith)
            requires
                f + 1 <= frames,
        ;
        while c < dim
            invariant
                c <= dim,
                n == data@.len(),
                16 + frames * dim * 4 <= data@.len(),
                f * dim + dim <= frames * dim,
                at == 16 + (f * dim + c) * 4,
                row@.len() == c,
                forall|k: int|
                    0 <= k < c ==> #[trigger] row@[k] == (Real32 {
                        bits: u32_at(data@, 16 + (f * dim + k) * 4),
                    }),
            decreases dim - c,
        {
            let bits: u32 = read_u32(data, at);
            row.push(Real32::new(bits));
            at = at + 4;
            c = c + 1;
        }
        assert(row@ =~= Seq::new(
            dim as nat,
            |c: int| Real32 { bits: u32_at(data@, 16 + (f * dim + c) * 4) },
        ));
        assert((f + 1) * dim == f * dim + dim) by (nonlinear_arith);
        rows.push(row);
        f = f + 1;
    }
    assert(row_views(rows@) =~= feature_rows(data@, frames as nat, dim as nat));
    rows
}

fn read_targets(data: &Vec<u8>, from: usize, count: usize) -> (r: Vec<i32>)
    requires
        from + count * 4 <= data@.len(),
    ensures
        r@ == target_row(data@, from as int, count as nat),
{
    let n: usize = data.len();
    let mut out: Vec<i32> = Vec::new();
    let mut k: usize = 0;
    while k < count
        invariant
            k <= count,
            n == data@.len(),
            from + count * 4 <= data@.len(),
            out@.len() == k,
            forall|i: int|
                0 <= i < k ==> #[trigger] out@[i] == from_bits(u32_at(data@, from + i * 4)),
        decreases count - k,
    {
        let bits: u32 = read_u32(data, from + k * 4);
        out.push(int_of(bits));
        k = k + 1;
    }
    assert(out@ =~= target_row(data@, from as int, count as nat));
    out
}

/// Reads a binary sample.
pub fn decode_binary_sample(
    path: &str,
    data: &Vec<u8>,
    expected_frames: usize,
    expected_targets: usize,
    feature_dim: usize,
) -> (r: Result<(Vec<Vec<Real32>>, Vec<i32>)>)
    ensures
        match decoded(
            data@,
            path@,
            expected_frames as nat,
            expected_targets as nat,
            feature_dim as nat,
        ) {
            Ok((rows, targets)) => r matches Ok((v, t)) && row_views(v@) == rows && t@ == targets,
            Err(msg) => r matches Err(e) && e@ == ErrorView::Config(msg),
        },
{
    let n: usize = data.len();
    if n < 4 {
        return Err(corrupt_error("Corrupt file ", path));
    }
    if !(data[0] == 77 && data[1] == 70 && data[2] == 67 && data[3] == 67) {
        assert(data@.take(4) != magic()) by {
            let front = data@.take(4);
            assert(front[0] == data@[0] && front[1] == data@[1] && front[2] == data@[2]
                && front[3] == data@[3]);
        }
        let mut msg = "Bad magic in ".to_owned();
        msg.append(path);
        return Err(Error::config(msg.as_str()));
    }
    assert(data@.take(4) =~= magic());
    if n < 8 {
        return Err(corrupt_error("Corrupt file ", path));
    }
    let version: u32 = read_u32(data, 4);
    if version != VERSION {
        let mut msg = "Unsupported version ".to_owned();
        let digits = decimal_of(version as u64);
        msg.append(digits.as_str());
        msg.append(" in ");
        msg.append(path);
        return Err(Error::config(msg.as_str()));
    }
    if n < 16 {
        return Err(corrupt_error("Corrupt file ", path));
    }
    let frames: usize = read_u32(data, 8) as usize;
    let targets: usize = read_u32(data, 12) as usize;
    if frames > MAX_REASONABLE || targets > MAX_REASONABLE {
        let mut msg = "Unreasonable sizes in ".to_owned();
        msg.append(path);
        msg.append(": ");
        let got = sizes_text(frames, targets);
        msg.append(got.as_str());
        msg.append(" (max 100000)");
        return Err(Error::config(msg.as_str()));
    }
    if frames != expected_frames || targets != expected_targets {
        let mut msg = "Size mismatch in ".to_owned();
        msg.append(path);
        msg.append(": expected ");
        let expected = sizes_text(expected_frames, expected_targets);
        msg.append(expected.as_str());
        msg.append(", got ");
        let got = sizes_text(frames, targets);
        msg.append(got.as_str());
        return Err(Error::config(msg.as_str()));
    }
    let values: usize = match frames.checked_mul(feature_dim) {
        Some(v) => v,
        None => {
            return Err(corrupt_error("Corrupt feature data in ", path));
        },
    };
    if (n - 16) / 4 < values {
        return Err(corrupt_error("Corrupt feature data in ", path));
    }
    let body: usize = 16 + values * 4;
    if (n - body) / 4 < targets {
        return Err(corrupt_error("Corrupt target data in ", path));
    }
    let rows = read_rows(data, frames, feature_dim);
    let row = read_targets(data, body, targets);
    Ok((rows, row))
}

/// Where the bytes of a value stand.
pub proof fn lemma_value_bytes(values: Seq<Real32>, k: int)
    ensures
        value_bytes(values).len() == values.len() * 4,
        0 <= k < values.len() ==> value_bytes(values).subrange(k * 4, k * 4 + 4) == le32(
            values[k].bits,
        ),
    decreases values.len(),
{
    if values.len() > 0 {
        lemma_value_bytes(values.drop_last(), k);
        let all = value_bytes(values);
        let before = value_bytes(values.drop_last());
        if 0 <= k < values.len() - 1 {
            assert(all.subrange(k * 4, k * 4 + 4) =~= before.subrange(k * 4, k * 4 + 4));
        } else if k == values.len() - 1 {
            assert(all.subrange(k * 4, k * 4 + 4) =~= le32(values[k].bits));
        }
    }
}

pub proof fn lemma_target_bytes(targets: Seq<i32>, k: int)
    ensures
        target_bytes(targets).len() == targets.len() * 4,
        0 <= k < targets.len() ==> target_bytes(targets).subrange(k * 4, k * 4 + 4) == le32(
            to_bits(targets[k]),
        ),
    decreases targets.len(),
{
    if targets.len() > 0 {
        lemma_target_bytes(targets.drop_last(), k);
        let all = target_bytes(targets);
        let before = target_bytes(targets.drop_last());
        if 0 <= k < targets.len() - 1 {
            assert(all.subrange(k * 4, k * 4 + 4) =~= before.subrange(k * 4, k * 4 + 4));
        } else if k == targets.len() - 1 {
            assert(all.subrange(k * 4, k * 4 + 4) =~= le32(to_bits(targets[k])));
        }
    }
}

/// Reading a sample gives back what was written.
pub proof fn law_sample_round_trip(
    frames: Seq<Vec<Real32>>,
    targets: Seq<i32>,
    dim: nat,
    path: Seq<char>,
)
    requires
        widths_ok(frames, dim),
        frames.len() <= MAX_REASONABLE,
        targets.len() <= MAX_REASONABLE,
    ensures
        decoded(encoded(frames, targets), path, frames.len(), targets.len(), dim) == Ok::<
            (Seq<Seq<Real32>>, Seq<i32>),
            Seq<char>,
        >((row_views(frames), targets)),
{
    let data = encoded(frames, targets);
    let values = mfcc::flat(frames);
    let n = frames.len() as int;
    let d = dim as int;
    mfcc::lemma_flat_cell(frames, d, 0, 0);
    lemma_value_bytes(values, 0);
    lemma_target_bytes(targets, 0);
    let head = magic() + le32(VERSION) + le32(frames.len() as u32) + le32(targets.len() as u32);
    assert(head.len() == 16);
    assert(data =~= head + value_bytes(values) + target_bytes(targets));
    assert(data.take(4) =~= magic());
    assert(data.subrange(4, 8) =~= le32(VERSION));
    assert(data.subrange(8, 12) =~= le32(frames.len() as u32));
    assert(data.subrange(12, 16) =~= le32(targets.len() as u32));
    lemma_le32_round_trip(VERSION, data, 4);
    lemma_le32_round_trip(frames.len() as u32, data, 8);
    lemma_le32_round_trip(targets.len() as u32, data, 12);
    let body = 16 + n * d * 4;
    assert(data.len() == body + targets.len() * 4);
    let rows = feature_rows(data, frames.len(), dim);
    assert forall|f: int| 0 <= f < n implies #[trigger] rows[f] =~= frames[f]@ by {
        assert(frames[f]@.len() == dim);
        assert forall|c: int| 0 <= c < d implies rows[f][c] == #[trigger] frames[f]@[c] by {
            mfcc::lemma_flat_cell(frames, d, f, c);
            let k = f * d + c;
            lemma_value_bytes(values, k);
            assert(data.subrange(16 + k * 4, 16 + k * 4 + 4) =~= value_bytes(values).subrange(
                k * 4,
                k * 4 + 4,
            ));
            lemma_le32_round_trip(values[k].bits, data, 16 + k * 4);
            assert(rows[f][c] == Real32 { bits: u32_at(data, 16 + (f * d + c) * 4) });
        }
    }
    assert(rows =~= row_views(frames));
    let read = target_row(data, body, targets.len());
    assert forall|k: int| 0 <= k < targets.len() implies #[trigger] read[k] == targets[k] by {
        lemma_target_bytes(targets, k);
        assert(data.subrange(body + k * 4, body + k * 4 + 4) =~= target_bytes(targets).subrange(
            k * 4,
            k * 4 + 4,
        ));
        lemma_le32_round_trip(to_bits(targets[k]), data, body + k * 4);
    }
    assert(read =~= targets);
}

// ---------------------------------------------------------------------------
// Manifest
// ---------------------------------------------------------------------------

/// Manifest entry for one precomputed sample.
#[derive(Debug)]
pub struct PrecomputedEntry {
    /// Index in the manifest.
    pub index: usize,
    /// Number of feature frames.
    pub num_frames: usize,
    /// Number of CTC target indices.
    pub num_targets: usize,
    /// OOV word count from G2P resolution.
    pub oov_count: usize,
    /// Original audio path (for debugging).
    pub audio_path: String,
}

/// Manifest for a precomputed dataset.
#[derive(Debug)]
pub struct PrecomputedManifest {
    /// Feature dimension for each frame.
    pub feature_dim: usize,
    /// Number of precomputed samples.
    pub num_samples: usize,
    /// Total feature frames across all samples.
    pub total_frames: usize,
    /// Total OOV words.
    pub total_oov: usize,
    /// Data source.
    pub data_dir: String,
    /// Split name.
    pub split: String,
    /// Feature representation used for this cache.
    pub feature_mode: FeatureMode,
    /// Maximum utterance duration included in this cache.
    pub max_duration_secs: Option<Real32>,
    /// Individual sample entries.
    pub entries: Vec<PrecomputedEntry>,
}

/// Arguments for the precompute command.
pub struct PrecomputeArgs {
    pub data_dir: String,
    pub split: String,
    pub output_dir: String,
    pub max_duration_secs: Real32,
    pub feature_mode: FeatureMode,
}

/// The name of the file that holds sample `index`.
pub fn sample_file_name(index: usize) -> (r: String)
    ensures
        r@ == "sample_"@ + text::padded_decimal(index as nat, 6) + ".bin"@,
{
    let mut name = "sample_".to_owned();
    let digits = padded_decimal_of(index as u64, 6);
    name.append(digits.as_str());
    name.append(".bin");
    name
}

/// Refuses a manifest whose frames hold nothing.
pub fn check_manifest(manifest: &PrecomputedManifest) -> (r: Result<()>)
    ensures
        match r {
            Ok(_) => manifest.feature_dim > 0,
            Err(e) => manifest.feature_dim == 0 && e@ == ErrorView::Config(
                "Feature dimension mismatch: manifest has invalid feature_dim=0"@,
            ),
        },
{
    if manifest.feature_dim == 0 {
        return Err(
            Error::config("Feature dimension mismatch: manifest has invalid feature_dim=0"),
        );
    }
    Ok(())
}

/// The training sample that the file of a manifest entry holds.
pub fn load_entry(
    path: &str,
    data: &Vec<u8>,
    entry: &PrecomputedEntry,
    feature_dim: usize,
) -> (r: Result<TrainingSample<Real32>>)
    ensures
        match decoded(
            data@,
            path@,
            entry.num_frames as nat,
            entry.num_targets as nat,
            feature_dim as nat,
        ) {
            Ok((rows, targets)) => r matches Ok(sample) && row_views(sample.feature_frames@) == rows
                && sample.targets@ == targets && sample.feature_dim == feature_dim
                && sample.oov_count == entry.oov_count,
            Err(msg) => r matches Err(e) && e@ == ErrorView::Config(msg),
        },
{
    match decode_binary_sample(path, data, entry.num_frames, entry.num_targets, feature_dim) {
        Ok((feature_frames, targets)) => Ok(
            TrainingSample { feature_frames, feature_dim, targets, oov_count: entry.oov_count },
        ),
        Err(e) => Err(e),
    }
}

/// Resolves the transcript of an utterance and makes its manifest entry. A
/// transcript with more targets than there are frames is refused.
pub fn make_entry(
    index: usize,
    num_frames: usize,
    transcript: &str,
    dict: &CmuDict,
    audio_path: &str,
) -> (r: Result<(PrecomputedEntry, Vec<i32>)>)
    ensures
        match phoneme_map::transcript_outcome(transcript@, dict@) {
            Err(e) => r is Err && r->Err_0@ == e,
            Ok((targets, stats)) => match r {
                Ok((entry, t)) => {
                    &&& dataset::alignable(num_frames as nat, targets.len())
                    &&& t@ == targets
                    &&& entry.index == index
                    &&& entry.num_frames == num_frames
                    &&& entry.num_targets == targets.len()
                    &&& entry.oov_count == stats.g2p_hits
                    &&& entry.audio_path@ == audio_path@
                },
                Err(e) => !dataset::alignable(num_frames as nat, targets.len()) && e@
                    == ErrorView::Config(
                    "CTC constraint: "@ + text::decimal(num_frames as nat) + " frames < "@
                        + text::decimal(targets.len()) + " targets"@,
                ),
            },
        },
{
    let (targets, stats) = match transcript_to_targets(transcript, dict) {
        Ok(found) => found,
        Err(e) => {
            return Err(e);
        },
    };
    if num_frames < targets.len() {
        let mut msg = "CTC constraint: ".to_owned();
        let frames = decimal_of(num_frames as u64);
        msg.append(frames.as_str());
        msg.append(" frames < ");
        let count = decimal_of(targets.len() as u64);
        msg.append(count.as_str());
        msg.append(" targets");
        return Err(Error::config(msg.as_str()));
    }
    let entry = PrecomputedEntry {
        index,
        num_frames,
        num_targets: targets.len(),
        oov_count: stats.g2p_hits,
        audio_path: audio_path.to_owned(),
    };
    Ok((entry, targets))
}

/// Frames of all entries together.
pub open spec fn frames_sum(entries: Seq<PrecomputedEntry>) -> nat
    decreases entries.len(),
{
    if entries.len() == 0 {
        0
    } else {
        frames_sum(entries.drop_last()) + entries.last().num_frames as nat
    }
}

/// Unresolved words of all entries together.
pub open spec fn oov_sum(entries: Seq<PrecomputedEntry>) -> nat
    decreases entries.len(),
{
    if entries.len() == 0 {
        0
    } else {
        oov_sum(entries.drop_last()) + entries.last().oov_count as nat
    }
}

/// What a precomputation has done so far.
pub struct PrecomputeTally {
    pub entries: Vec<PrecomputedEntry>,
    pub skipped: usize,
    pub total_frames: usize,
    pub total_oov: usize,
}

impl PrecomputeTally {
    /// The totals are those of the entries.
    pub open spec fn consistent(&self) -> bool {
        self.total_frames == frames_sum(self.entries@) && self.total_oov == oov_sum(self.entries@)
    }

    pub fn new() -> (r: Self)
        ensures
            r.consistent(),
            r.entries@.len() == 0,
            r.skipped == 0,
    {
        PrecomputeTally { entries: Vec::new(), skipped: 0, total_frames: 0, total_oov: 0 }
    }

    /// Counts an utterance that was written.
    pub fn record(&mut self, entry: PrecomputedEntry)
        requires
            old(self).consistent(),
            old(self).total_frames + entry.num_frames <= usize::MAX,
            old(self).total_oov + entry.oov_count <= usize::MAX,
        ensures
            final(self).consistent(),
            final(self).entries@ == old(self).entries@.push(entry),
            final(self).skipped == old(self).skipped,
    {
        let ghost before = self.entries@;
        self.total_frames = self.total_frames + entry.num_frames;
        self.total_oov = self.total_oov + entry.oov_count;
        self.entries.push(entry);
        assert(before.push(entry).drop_last() =~= before);
    }

    /// Counts an utterance that could not be used.
    pub fn skip(&mut self)
        requires
            old(self).skipped < usize::MAX,
        ensures
            final(self).skipped == old(self).skipped + 1,
            final(self).entries@ == old(self).entries@,
            final(self).total_frames == old(self).total_frames,
            final(self).total_oov == old(self).total_oov,
    {
        self.skipped = self.skipped + 1;
    }

    /// The progress line after `done` of `total` utterances: one every
    /// thousand, and one at the end.
    pub fn progress(&self, done: usize, total: usize) -> (r: Option<String>)
        ensures
            match r {
                Some(line) => (done % 1000 == 0 || done == total) && line@ == "  ["@
                    + text::decimal(self.entries@.len()) + "/"@ + text::decimal(done as nat)
                    + "] extracted, "@ + text::decimal(self.skipped as nat) + " skipped, "@
                    + text::decimal(self.total_frames as nat) + " total frames"@,
                None => done % 1000 != 0 && done != total,
            },
    {
        if done % 1000 != 0 && done != total {
            return None;
        }
        let mut line = "  [".to_owned();
        let kept = decimal_of(self.entries.len() as u64);
        line.append(kept.as_str());
        line.append("/");
        let upto = decimal_of(done as u64);
        line.append(upto.as_str());
        line.append("] extracted, ");
        let skipped = decimal_of(self.skipped as u64);
        line.append(skipped.as_str());
        line.append(" skipped, ");
        let frames = decimal_of(self.total_frames as u64);
        line.append(frames.as_str());
        line.append(" total frames");
        Some(line)
    }

    /// The manifest of what was written; an error where nothing was.
    pub fn finish(self, args: &PrecomputeArgs) -> (r: Result<PrecomputedManifest>)
        ensures
            match r {
                Ok(m) => {
                    &&& self.entries@.len() > 0
                    &&& m.feature_dim == args.feature_mode.dim()
                    &&& m.feature_mode == args.feature_mode
                    &&& m.num_samples == self.entries@.len()
                    &&& m.total_frames == self.total_frames
                    &&& m.total_oov == self.total_oov
                    &&& m.data_dir@ == args.data_dir@
                    &&& m.split@ == args.split@
                    &&& m.max_duration_secs == Some(args.max_duration_secs)
                    &&& m.entries@ == self.entries@
                },
                Err(e) => self.entries@.len() == 0 && e@ == ErrorView::Config(
                    "No valid samples after extraction"@,
                ),
            },
    {
        if self.entries.len() == 0 {
            return Err(Error::config("No valid samples after extraction"));
        }
        Ok(
            PrecomputedManifest {
                feature_dim: args.feature_mode.feature_dim(),
                num_samples: self.entries.len(),
                total_frames: self.total_frames,
                total_oov: self.total_oov,
                data_dir: args.data_dir.clone(),
                split: args.split.clone(),
                feature_mode: args.feature_mode,
                max_duration_secs: Some(args.max_duration_secs),
                entries: self.entries,
            },
        )
    }
}

/// Bytes of one sample's file.
pub open spec fn entry_bytes(entry: PrecomputedEntry, dim: nat) -> nat {
    16 + entry.num_frames as nat * dim * 4 + entry.num_targets as nat * 4
}

/// Bytes of all sample files together.
pub open spec fn cache_bytes(entries: Seq<PrecomputedEntry>, dim: nat) -> nat
    decreases entries.len(),
{
    if entries.len() == 0 {
        0
    } else {
        cache_bytes(entries.drop_last(), dim) + entry_bytes(entries.last(), dim)
    }
}

proof fn lemma_cache_bytes_grow(entries: Seq<PrecomputedEntry>, dim: nat, k: int)
    requires
        0 <= k <= entries.len(),
    ensures
        cache_bytes(entries.take(k), dim) <= cache_bytes(entries, dim),
    decreases entries.len(),
{
    if k == entries.len() {
        assert(entries.take(k) =~= entries);
    } else {
        assert(entries.drop_last().take(k) =~= entries.take(k));
        lemma_cache_bytes_grow(entries.drop_last(), dim, k);
    }
}

/// Bytes that the cache takes on disk.
pub fn estimate_cache_size(manifest: &PrecomputedManifest) -> (r: usize)
    requires
        cache_bytes(manifest.entries@, manifest.feature_dim as nat) <= usize::MAX,
    ensures
        r == cache_bytes(manifest.entries@, manifest.feature_dim as nat),
{
    let n: usize = manifest.entries.len();
    let ghost all = manifest.entries@;
    let ghost dim = manifest.feature_dim as nat;
    let mut total: usize = 0;
    let mut i: usize = 0;
    assert(all.take(0) =~= Seq::<PrecomputedEntry>::empty());
    while i < n
        invariant
            n == all.len(),
            i <= n,
            all == manifest.entries@,
            dim == manifest.feature_dim,
            cache_bytes(all, dim) <= usize::MAX,
            total == cache_bytes(all.take(i as int), dim),
        decreases n - i,
    {
        let ghost upto = all.take(i + 1);
        proof {
            assert(upto.drop_last() =~= all.take(i as int));
            assert(upto.last() == all[i as int]);
            lemma_cache_bytes_grow(all, dim, i + 1);
        }
        let entry = &manifest.entries[i];
        let ghost product = entry.num_frames as nat * dim;
        assert(product * 4 + entry.num_targets * 4 + 16 + total <= usize::MAX);
        let values: usize = entry.num_frames * manifest.feature_dim;
        total = total + (16 + values * 4 + entry.num_targets * 4);
        i = i + 1;
    }
    assert(all.take(n as int) =~= all);
    total
}

/// A sample's file is as large as the estimate says.
pub proof fn law_estimate_matches_encoding(
    entry: PrecomputedEntry,
    frames: Seq<Vec<Real32>>,
    targets: Seq<i32>,
    dim: nat,
)
    requires
        widths_ok(frames, dim),
        entry.num_frames == frames.len(),
        entry.num_targets == targets.len(),
    ensures
        encoded(frames, targets).len() == entry_bytes(entry, dim),
{
    mfcc::lemma_flat_cell(frames, dim as int, 0, 0);
    lemma_value_bytes(mfcc::flat(frames), 0);
    lemma_target_bytes(targets, 0);
}

} // verus!
