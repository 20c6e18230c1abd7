//! Files of samples and of teacher features: what stands where, and which files
//! are refused.

use vstd::prelude::*;

use crate::finetune::teacher;
use crate::finetune::teacher::TeacherFeatureEntry;
use crate::ieee::Real32;
use crate::precompute::PrecomputedEntry;
use crate::{mfcc, precompute, text};

verus! {

// ---------------------------------------------------------------------------
// Numbers
// ---------------------------------------------------------------------------

/// The number in the four bytes at a place, the least significant byte first.
pub open spec fn number_at(data: Seq<u8>, at: int) -> int {
    data[at] + 256 * data[at + 1] + 65536 * data[at + 2] + 16777216 * data[at + 3]
}

/// Numbers are read least significant byte first.
pub proof fn law_numbers_are_little_endian(data: Seq<u8>, at: int)
    ensures
        precompute::u32_at(data, at) == number_at(data, at),
{
}

/// A number is written into the four bytes that it is read back from.
pub proof fn law_numbers_are_written_as_read(x: u32)
    ensures
        precompute::le32(x).len() == 4,
        number_at(precompute::le32(x), 0) == x,
{
    let s = precompute::le32(x);
    assert(s.subrange(0, 4) =~= s);
    precompute::lemma_le32_round_trip(x, s, 0);
}

/// A signed number is kept modulo two to the power of 32.
pub proof fn law_signed_numbers(x: i32, bits: u32)
    ensures
        precompute::to_bits(x) == x || precompute::to_bits(x) == x + 0x1_0000_0000,
        x >= 0 ==> precompute::to_bits(x) == x,
        precompute::from_bits(precompute::to_bits(x)) == x,
        precompute::to_bits(precompute::from_bits(bits)) == bits,
{
}

proof fn lemma_number_in(data: Seq<u8>, at: int, x: u32)
    requires
        0 <= at,
        at + 4 <= data.len(),
        data.subrange(at, at + 4) == precompute::le32(x),
    ensures
        number_at(data, at) == x,
{
    precompute::lemma_le32_round_trip(x, data, at);
}

// ---------------------------------------------------------------------------
// Samples
// ---------------------------------------------------------------------------

/// A sample's file starts with `MFCC`, the version, and the numbers of frames and
/// targets; then come the values, frame by frame, and the targets, four bytes
/// each.
#[verifier::rlimit(30)]
pub proof fn law_layout_of_a_sample(
    frames: Seq<Vec<Real32>>,
    targets: Seq<i32>,
    dim: nat,
    f: int,
    c: int,
    k: int,
)
    requires
        precompute::widths_ok(frames, dim),
        frames.len() <= u32::MAX,
        targets.len() <= u32::MAX,
        0 <= f < frames.len(),
        0 <= c < dim,
        0 <= k < targets.len(),
    ensures
        ({
            let data = precompute::encoded(frames, targets);
            let body = 16 + 4 * (frames.len() * dim);
            &&& data.len() == body + 4 * targets.len()
            &&& data.take(4) == seq![77u8, 70u8, 67u8, 67u8]
            &&& number_at(data, 4) == 1
            &&& number_at(data, 8) == frames.len()
            &&& number_at(data, 12) == targets.len()
            &&& number_at(data, 16 + 4 * (f * dim + c)) == frames[f]@[c].bits
            &&& number_at(data, body + 4 * k) == if targets[k] < 0 {
                targets[k] + 0x1_0000_0000
            } else {
                targets[k] as int
            }
        }),
{
    let data = precompute::encoded(frames, targets);
    let values = mfcc::flat(frames);
    let head = precompute::magic() + precompute::le32(precompute::VERSION) + precompute::le32(
        frames.len() as u32,
    ) + precompute::le32(targets.len() as u32);
    let body = 16 + 4 * (frames.len() * dim);
    mfcc::lemma_flat_cell(frames, dim as int, f, c);
    let at = f * dim + c;
    precompute::lemma_value_bytes(values, at);
    precompute::lemma_target_bytes(targets, k);
    let vb = precompute::value_bytes(values);
    let tb = precompute::target_bytes(targets);
    assert(head.len() == 16);
    assert(data =~= head + vb + tb);
    assert(data.take(4) =~= precompute::magic());
    assert(data.subrange(4, 8) =~= precompute::le32(1));
    assert(data.subrange(8, 12) =~= precompute::le32(frames.len() as u32));
    assert(data.subrange(12, 16) =~= precompute::le32(targets.len() as u32));
    lemma_number_in(data, 4, 1);
    lemma_number_in(data, 8, frames.len() as u32);
    lemma_number_in(data, 12, targets.len() as u32);
    assert(data.subrange(16 + 4 * at, 16 + 4 * at + 4) =~= vb.subrange(at * 4, at * 4 + 4));
    lemma_number_in(data, 16 + 4 * at, frames[f]@[c].bits);
    assert(data.subrange(body + 4 * k, body + 4 * k + 4) =~= tb.subrange(k * 4, k * 4 + 4));
    lemma_number_in(data, body + 4 * k, precompute::to_bits(targets[k]));
}

/// What is wrong with a sample's file, in the order in which it is looked for.
pub open spec fn faults(
    data: Seq<u8>,
    path: Seq<char>,
    expected_frames: nat,
    expected_targets: nat,
    dim: nat,
) -> Seq<(bool, Seq<char>)> {
    let cut = ": failed to fill whole buffer"@;
    let frames = number_at(data, 8);
    let targets = number_at(data, 12);
    let found = text::decimal(frames as nat) + "f/"@ + text::decimal(targets as nat) + "t"@;
    let asked = text::decimal(expected_frames) + "f/"@ + text::decimal(expected_targets) + "t"@;
    seq![
        (data.len() < 4, "Corrupt file "@ + path + cut),
        (
            !(data[0] == 77 && data[1] == 70 && data[2] == 67 && data[3] == 67),
            "Bad magic in "@ + path,
        ),
        (data.len() < 8, "Corrupt file "@ + path + cut),
        (
            number_at(data, 4) != 1,
            "Unsupported version "@ + text::decimal(number_at(data, 4) as nat) + " in "@ + path,
        ),
        (data.len() < 16, "Corrupt file "@ + path + cut),
        (
            frames > 100000 || targets > 100000,
            "Unreasonable sizes in "@ + path + ": "@ + found + " (max 100000)"@,
        ),
        (
            frames != expected_frames || targets != expected_targets,
            "Size mismatch in "@ + path + ": expected "@ + asked + ", got "@ + found,
        ),
        (data.len() < 16 + frames * dim * 4, "Corrupt feature data in "@ + path + cut),
        (
            data.len() < 16 + frames * dim * 4 + targets * 4,
            "Corrupt target data in "@ + path + cut,
        ),
    ]
}

/// A file is refused for the first of its faults.
pub proof fn law_first_fault_is_reported(
    data: Seq<u8>,
    path: Seq<char>,
    expected_frames: nat,
    expected_targets: nat,
    dim: nat,
    k: int,
)
    requires
        0 <= k < 9,
        faults(data, path, expected_frames, expected_targets, dim)[k].0,
        forall|j: int|
            0 <= j < k ==> !(#[trigger] faults(data, path, expected_frames, expected_targets, dim)[
            j]).0,
    ensures
        match precompute::decoded(data, path, expected_frames, expected_targets, dim) {
            Ok(_) => false,
            Err(e) => e == faults(data, path, expected_frames, expected_targets, dim)[k].1,
        },
{
    let p = faults(data, path, expected_frames, expected_targets, dim);
    if data.len() >= 4 {
        assert(data.take(4)[0] == data[0] && data.take(4)[1] == data[1] && data.take(4)[2]
            == data[2] && data.take(4)[3] == data[3]);
        assert(data.take(4) == precompute::magic() <==> (data[0] == 77 && data[1] == 70 && data[2]
            == 67 && data[3] == 67)) by {
            if data[0] == 77 && data[1] == 70 && data[2] == 67 && data[3] == 67 {
                assert(data.take(4) =~= precompute::magic());
            }
        }
    }
    if k > 0 {
        assert(!p[0].0);
    }
    if k > 1 {
        assert(!p[1].0);
    }
    if k > 2 {
        assert(!p[2].0);
    }
    if k > 3 {
        assert(!p[3].0);
    }
    if k > 4 {
        assert(!p[4].0);
    }
    if k > 5 {
        assert(!p[5].0);
    }
    if k > 6 {
        assert(!p[6].0);
    }
    if k > 7 {
        assert(!p[7].0);
    }
}

/// A file without a fault is read: every value and every target from its own four
/// bytes.
pub proof fn law_faultless_sample_is_read(
    data: Seq<u8>,
    path: Seq<char>,
    frames: nat,
    targets: nat,
    dim: nat,
)
    requires
        data.len() >= 16 + frames * dim * 4 + targets * 4,
        data[0] == 77 && data[1] == 70 && data[2] == 67 && data[3] == 67,
        number_at(data, 4) == 1,
        number_at(data, 8) == frames <= 100000,
        number_at(data, 12) == targets <= 100000,
    ensures
        match precompute::decoded(data, path, frames, targets, dim) {
            Ok((rows, read)) => {
                &&& rows.len() == frames
                &&& read.len() == targets
                &&& forall|f: int| 0 <= f < frames ==> (#[trigger] rows[f]).len() == dim
                &&& forall|f: int, c: int|
                    0 <= f < frames && 0 <= c < dim ==> (#[trigger] rows[f][c]).bits == number_at(
                        data,
                        16 + (f * dim + c) * 4,
                    )
                &&& forall|k: int|
                    0 <= k < targets ==> {
                        let n = number_at(data, 16 + frames * dim * 4 + k * 4);
                        (#[trigger] read[k]) == if n >= 0x8000_0000 {
                            n - 0x1_0000_0000
                        } else {
                            n
                        }
                    }
            },
            Err(_) => false,
        },
{
    assert(frames * dim * 4 >= 0) by (nonlinear_arith);
    assert(data.take(4) =~= precompute::magic());
}

/// Sums over a list of samples go entry by entry.
pub proof fn law_sums_over_samples(a: Seq<PrecomputedEntry>, b: Seq<PrecomputedEntry>, dim: nat)
    ensures
        precompute::frames_sum(a + b) == precompute::frames_sum(a) + precompute::frames_sum(b),
        precompute::oov_sum(a + b) == precompute::oov_sum(a) + precompute::oov_sum(b),
        precompute::cache_bytes(a + b, dim) == precompute::cache_bytes(a, dim)
            + precompute::cache_bytes(b, dim),
        b.len() == 1 ==> precompute::frames_sum(b) == b[0].num_frames,
        b.len() == 1 ==> precompute::oov_sum(b) == b[0].oov_count,
        b.len() == 1 ==> precompute::cache_bytes(b, dim) == 16 + 4 * (b[0].num_frames * dim
            + b[0].num_targets),
    decreases b.len(),
{
    if b.len() == 0 {
        assert(a + b =~= a);
    } else {
        law_sums_over_samples(a, b.drop_last(), dim);
        assert((a + b).drop_last() =~= a + b.drop_last());
        assert((a + b).last() == b.last());
    }
    if b.len() == 1 {
        let none = b.drop_last();
        assert(precompute::frames_sum(none) == 0);
        assert(precompute::oov_sum(none) == 0);
        assert(precompute::cache_bytes(none, dim) == 0);
        let n = b[0].num_frames as nat;
        assert(n * dim * 4 == 4 * (n * dim)) by (nonlinear_arith);
    }
}

// ---------------------------------------------------------------------------
// Teacher features
// ---------------------------------------------------------------------------

/// Features are read exactly where the file starts with `W2V2`, is of the first
/// version, has frames of 1024 values, as many as expected, and holds them all;
/// each value comes from its own four bytes.
pub proof fn law_teacher_features_are_read(data: Seq<u8>, expected: nat)
    ensures
        match teacher::teacher_decoded(data, expected) {
            Some((values, frames)) => {
                &&& data.len() >= 16 + expected * 1024 * 4
                &&& data[0] == 87 && data[1] == 50 && data[2] == 86 && data[3] == 50
                &&& number_at(data, 4) == 1
                &&& number_at(data, 8) == expected
                &&& number_at(data, 12) == 1024
                &&& frames == expected
                &&& values.len() == expected * 1024
                &&& forall|k: int|
                    0 <= k < values.len() ==> (#[trigger] values[k]).bits == number_at(
                        data,
                        16 + k * 4,
                    )
            },
            None => {
                ||| data.len() < 16
                ||| !(data[0] == 87 && data[1] == 50 && data[2] == 86 && data[3] == 50)
                ||| number_at(data, 4) != 1
                ||| number_at(data, 8) != expected
                ||| number_at(data, 12) != 1024
                ||| data.len() < 16 + expected * 1024 * 4
            },
        },
{
    if data.len() >= 4 {
        assert(data.take(4)[0] == data[0] && data.take(4)[1] == data[1] && data.take(4)[2]
            == data[2] && data.take(4)[3] == data[3]);
        if data[0] == 87 && data[1] == 50 && data[2] == 86 && data[3] == 50 {
            assert(data.take(4) =~= teacher::teacher_magic());
        }
    }
}

/// A name that the list has is found, with the last entry that has it.
pub proof fn law_last_entry_of_a_name_counts(
    files: Seq<(String, TeacherFeatureEntry)>,
    name: Seq<char>,
    i: int,
)
    requires
        0 <= i < files.len(),
        files[i].0@ == name,
        forall|j: int| i < j < files.len() ==> (#[trigger] files[j]).0@ != name,
    ensures
        teacher::file_map(files).contains_key(name),
        teacher::file_map(files)[name] == (files[i].1.bin@, files[i].1.frames),
    decreases files.len(),
{
    let front = files.drop_last();
    if i < front.len() {
        assert(files[files.len() - 1].0@ != name);
        assert(front[i] == files[i]);
        assert forall|j: int| i < j < front.len() implies (#[trigger] front[j]).0@ != name by {
            assert(files[j].0@ != name);
        }
        law_last_entry_of_a_name_counts(front, name, i);
    }
}

/// A name that the list does not have is not found.
pub proof fn law_unlisted_name_is_not_found(
    files: Seq<(String, TeacherFeatureEntry)>,
    name: Seq<char>,
)
    requires
        forall|j: int| 0 <= j < files.len() ==> (#[trigger] files[j]).0@ != name,
    ensures
        !teacher::file_map(files).contains_key(name),
    decreases files.len(),
{
    if files.len() > 0 {
        let front = files.drop_last();
        assert(files[files.len() - 1].0@ != name);
        assert forall|j: int| 0 <= j < front.len() implies (#[trigger] front[j]).0@ != name by {
            assert(files[j].0@ != name);
        }
        law_unlisted_name_is_not_found(front, name);
    }
}

/// Of the student's frames every other one is taken: value `c` of row `r` is value
/// `c` of row `2 * r` of the data.
pub proof fn law_every_other_row<T>(data: Seq<T>, count: nat, dim: nat, r: int, c: int)
    requires
        0 <= r < count,
        0 <= c < dim,
        2 * (count - 1) * dim + dim <= data.len(),
    ensures
        teacher::even_rows(data, count, dim).len() == count * dim,
        0 <= r * dim + c < count * dim,
        teacher::even_rows(data, count, dim)[r * dim + c] == data[2 * r * dim + c],
    decreases count,
{
    let n = (count - 1) as nat;
    let start = 2 * n * dim;
    assert(0 <= r * dim && r * dim + dim <= count * dim && count * dim == n * dim + dim) by (
    nonlinear_arith)
        requires
            0 <= r,
            r + 1 <= count,
            n + 1 == count,
    ;
    assert(0 <= start) by (nonlinear_arith)
        requires
            start == 2 * n * dim,
    ;
    if n > 0 {
        assert(2 * (n - 1) * dim + dim <= start) by (nonlinear_arith)
            requires
                start == 2 * n * dim,
                n > 0,
        ;
        law_every_other_row(
            data,
            n,
            dim,
            if r < n {
                r
            } else {
                0
            },
            c,
        );
        if r < n {
            assert(r * dim + dim <= n * dim) by (nonlinear_arith)
                requires
                    r + 1 <= n,
            ;
        }
    } else {
        assert(teacher::even_rows(data, n, dim) =~= seq![]);
        assert(n * dim == 0);
    }
    if r == n {
        assert(r * dim == n * dim);
        assert(2 * r * dim == start);
    }
}

} // verus!
