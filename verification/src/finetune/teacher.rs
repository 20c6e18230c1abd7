//! Cached teacher features.
//!
//! A cache file is a header of 16 bytes (`W2V2`, version, number of frames,
//! width of a frame, all integers little-endian) and the feature values row by
//! row.

use vstd::hash_map::StringHashMap;
use vstd::prelude::*;

use super::config::DISTILL_DIM;
use crate::ieee::Real32;
use crate::precompute;
use crate::precompute::read_u32;

verus! {

/// A cache file: its name, and the number of frames that it holds.
pub struct TeacherFeatureEntry {
    pub bin: String,
    pub frames: usize,
}

impl TeacherFeatureEntry {
    pub open spec fn view(&self) -> (Seq<char>, usize) {
        (self.bin@, self.frames)
    }
}

/// The teacher features of a data set, by audio file.
pub struct TeacherFeatureCache {
    root: String,
    files: StringHashMap<TeacherFeatureEntry>,
}

/// The map that a list of entries makes: a later entry of a file replaces an
/// earlier one.
pub open spec fn file_map(files: Seq<(String, TeacherFeatureEntry)>) -> Map<
    Seq<char>,
    (Seq<char>, usize),
>
    decreases files.len(),
{
    if files.len() == 0 {
        Map::empty()
    } else {
        file_map(files.drop_last()).insert(files.last().0@, files.last().1.view())
    }
}

impl TeacherFeatureCache {
    /// The directory of the cache files.
    pub closed spec fn dir(&self) -> Seq<char> {
        self.root@
    }

    /// The cache file of each audio file.
    pub closed spec fn known(&self) -> Map<Seq<char>, (Seq<char>, usize)> {
        self.files@.map_values(|e: TeacherFeatureEntry| e.view())
    }

    /// A cache in the directory `root`.
    pub fn new(root: &str, files: Vec<(String, TeacherFeatureEntry)>) -> (r: Self)
        ensures
            r.dir() == root@,
            r.known() == file_map(files@),
    {
        let n: usize = files.len();
        let mut cache = TeacherFeatureCache {
            root: root.to_owned(),
            files: StringHashMap::with_capacity(n),
        };
        let mut i: usize = 0;
        assert(cache.known() =~= Map::empty());
        while i < n
            invariant
                n == files@.len(),
                i <= n,
                cache.dir() == root@,
                cache.known() == file_map(files@.take(i as int)),
            decreases n - i,
        {
            let ghost upto = files@.take(i + 1);
            assert(upto.drop_last() =~= files@.take(i as int));
            assert(upto.last() == files@[i as int]);
            let name = files[i].0.clone();
            let entry = TeacherFeatureEntry { bin: files[i].1.bin.clone(), frames: files[i].1.frames };
            let ghost before = cache.known();
            cache.files.insert(name, entry);
            assert(cache.known() =~= before.insert(name@, entry.view()));
            i = i + 1;
        }
        assert(files@.take(n as int) =~= files@);
        cache
    }

    /// The directory of the cache files.
    pub fn root(&self) -> (r: &str)
        ensures
            r@ == self.dir(),
    {
        self.root.as_str()
    }

    /// The cache file of an audio file, if there is one.
    pub fn locate(&self, audio_file: &str) -> (r: Option<&TeacherFeatureEntry>)
        ensures
            match r {
                Some(entry) => self.known().contains_key(audio_file@) && self.known()[audio_file@]
                    == entry.view(),
                None => !self.known().contains_key(audio_file@),
            },
    {
        self.files.get(audio_file)
    }
}

/// The magic bytes at the front of a cache file: `W2V2`.
pub open spec fn teacher_magic() -> Seq<u8> {
    seq![87u8, 50u8, 86u8, 50u8]
}

/// The feature values of a cache file.
pub open spec fn teacher_values(data: Seq<u8>, count: nat) -> Seq<Real32> {
    Seq::new(count, |k: int| Real32 { bits: precompute::u32_at(data, 16 + k * 4) })
}

/// What a cache file holds; `None` where it is not of the version, the width
/// and the number of frames that are expected, or too short.
pub open spec fn teacher_decoded(data: Seq<u8>, expected_frames: nat) -> Option<
    (Seq<Real32>, nat),
> {
    let frames = precompute::u32_at(data, 8) as nat;
    if data.len() < 16 || data.take(4) != teacher_magic() || precompute::u32_at(data, 4) != 1
        || precompute::u32_at(data, 12) != DISTILL_DIM || frames != expected_frames || data.len()
        < 16 + frames * DISTILL_DIM * 4 {
        None
    } else {
        Some((teacher_values(data, frames * (DISTILL_DIM as nat)), frames))
    }
}

/// Reads a cache file: the features, row by row, and the number of frames.
pub fn decode_teacher_features(data: &Vec<u8>, expected_frames: usize) -> (r: Option<
    (Vec<Real32>, usize),
>)
    ensures
        match r {
            Some((values, frames)) => teacher_decoded(data@, expected_frames as nat) == Some(
                (values@, frames as nat),
            ),
            None => teacher_decoded(data@, expected_frames as nat) is None,
        },
{
    let n: usize = data.len();
    if n < 16 {
        return None;
    }
    if !(data[0] == 87 && data[1] == 50 && data[2] == 86 && data[3] == 50) {
        assert(data@.take(4) != teacher_magic()) by {
            let front = data@.take(4);
            assert(front[0] == data@[0] && front[1] == data@[1] && front[2] == data@[2]
                && front[3] == data@[3]);
        }
        return None;
    }
    assert(data@.take(4) =~= teacher_magic());
    if read_u32(data, 4) != 1 {
        return None;
    }
    let frames: usize = read_u32(data, 8) as usize;
    let dim: usize = read_u32(data, 12) as usize;
    if dim != DISTILL_DIM || frames != expected_frames {
        return None;
    }
    if (n - 16) / 4096 < frames {
        return None;
    }
    let count: usize = frames * DISTILL_DIM;
    let mut values: Vec<Real32> = Vec::new();
    let mut k: usize = 0;
    while k < count
        invariant
            n == data@.len(),
            k <= count,
            16 + count * 4 <= n,
            values@.len() == k,
            forall|i: int|
                0 <= i < k ==> #[trigger] values@[i] == (Real32 {
                    bits: precompute::u32_at(data@, 16 + i * 4),
                }),
        decreases count - k,
    {
        let bits: u32 = read_u32(data, 16 + k * 4);
        values.push(Real32::new(bits));
        k = k + 1;
    }
    assert(values@ =~= teacher_values(data@, count as nat));
    Some((values, frames))
}

/// A cache file in its binary form.
pub open spec fn teacher_encoded(values: Seq<Real32>, frames: u32) -> Seq<u8> {
    teacher_magic() + precompute::le32(1) + precompute::le32(frames) + precompute::le32(
        DISTILL_DIM as u32,
    ) + precompute::value_bytes(values)
}

/// Reading a cache file gives back the features that it was made of.
pub proof fn law_teacher_round_trip(values: Seq<Real32>, frames: u32)
    requires
        values.len() == frames * DISTILL_DIM,
    ensures
        teacher_decoded(teacher_encoded(values, frames), frames as nat) == Some(
            (values, frames as nat),
        ),
{
    let data = teacher_encoded(values, frames);
    precompute::lemma_value_bytes(values, 0);
    assert(data.take(4) =~= teacher_magic());
    assert(data.subrange(4, 8) =~= precompute::le32(1));
    assert(data.subrange(8, 12) =~= precompute::le32(frames));
    assert(data.subrange(12, 16) =~= precompute::le32(DISTILL_DIM as u32));
    precompute::lemma_le32_round_trip(1, data, 4);
    precompute::lemma_le32_round_trip(frames, data, 8);
    precompute::lemma_le32_round_trip(DISTILL_DIM as u32, data, 12);
    let read = teacher_values(data, values.len());
    assert forall|k: int| 0 <= k < values.len() implies #[trigger] read[k] == values[k] by {
        precompute::lemma_value_bytes(values, k);
        assert(data.subrange(16 + k * 4, 16 + k * 4 + 4) =~= precompute::value_bytes(
            values,
        ).subrange(k * 4, k * 4 + 4));
        precompute::lemma_le32_round_trip(values[k].bits, data, 16 + k * 4);
    }
    assert(read =~= values);
}

// ---------------------------------------------------------------------------
// Alignment
// ---------------------------------------------------------------------------

/// How many teacher frames have a student frame beside them: a teacher frame
/// lasts as long as two student frames.
pub fn aligned_frames(student_frames: usize, teacher_frames: usize) -> (r: usize)
    ensures
        r == if student_frames / 2 < teacher_frames {
            student_frames / 2
        } else {
            teacher_frames
        },
        2 * r <= student_frames,
{
    let half: usize = student_frames / 2;
    if half < teacher_frames {
        half
    } else {
        teacher_frames
    }
}

/// Rows 0, 2, 4 and so on of `data`, `count` of them, as far as it holds them.
pub open spec fn even_rows<T>(data: Seq<T>, count: nat, dim: nat) -> Seq<T>
    decreases count,
{
    if count == 0 {
        seq![]
    } else {
        let before = even_rows(data, (count - 1) as nat, dim);
        let start = 2 * (count - 1) * dim;
        if start + dim <= data.len() {
            before + data.subrange(start, start + dim)
        } else {
            before
        }
    }
}

/// Every second row of the student's features: those that lie where a teacher
/// frame does.
pub fn every_other_row<T: Copy>(data: &Vec<T>, count: usize, dim: usize) -> (r: Vec<T>)
    requires
        2 * count * dim <= usize::MAX,
    ensures
        r@ == even_rows(data@, count as nat, dim as nat),
{
    let n: usize = data.len();
    let mut out: Vec<T> = Vec::new();
    let mut f: usize = 0;
    let mut start: usize = 0;
    while f < count
        invariant
            n == data@.len(),
            f <= count,
            start == 2 * f * dim,
            2 * count * dim <= usize::MAX,
            out@ == even_rows(data@, f as nat, dim as nat),
        decreases count - f,
    {
        assert(2 * (f + 1) * dim <= 2 * count * dim) by (nonlinear_arith)
            requires
                f + 1 <= count,
        ;
        assert(2 * (f + 1) * dim == 2 * f * dim + 2 * dim) by (nonlinear_arith);
        if start <= n && dim <= n - start {
            let ghost before = out@;
            let mut c: usize = 0;
            assert(out@ =~= before + data@.subrange(start as int, start as int));
            while c < dim
                invariant
                    n == data@.len(),
                    c <= dim,
                    start + dim <= n,
                    out@ == before + data@.subrange(start as int, start + c),
                decreases dim - c,
            {
                out.push(data[start + c]);
                c = c + 1;
                assert(out@ =~= before + data@.subrange(start as int, start + c));
            }
        }
        start = start + 2 * dim;
        f = f + 1;
    }
    out
}

/// The first `count` rows of the teacher's features, as far as there are so
/// many.
pub fn leading_rows<T: Copy>(data: &Vec<T>, count: usize) -> (r: Vec<T>)
    requires
        count * DISTILL_DIM <= usize::MAX,
    ensures
        r@ == data@.take(
            if count * DISTILL_DIM < data@.len() {
                count * DISTILL_DIM
            } else {
                data@.len() as int
            },
        ),
{
    let n: usize = data.len();
    let want: usize = count * DISTILL_DIM;
    let take: usize = if want < n {
        want
    } else {
        n
    };
    let mut out: Vec<T> = Vec::new();
    let mut k: usize = 0;
    while k < take
        invariant
            n == data@.len(),
            k <= take <= n,
            out@ == data@.take(k as int),
        decreases take - k,
    {
        out.push(data[k]);
        k = k + 1;
        assert(out@ =~= data@.take(k as int));
    }
    out
}

} // verus!
