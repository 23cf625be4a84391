//! The binary form of a grid: a 16-byte header and one 32-bit difference per
//! sample, each taken against a prediction from the samples before it.

use crate::bytes::{
    le_bytes2, le_bytes4, le_value2, le_value4, lemma_le2_bytes, lemma_le2_value, lemma_le4_bytes,
    lemma_le4_value, push_i32_le, push_u16_le, push_u32_le, read_i32_le, read_u16_le, read_u32_le,
    signed32, twos32,
};
use crate::error::GridError;
use crate::grid::{lemma_count_bound, lemma_rows_not_empty, GridInfo, MemoryGrid};
use vstd::prelude::*;

verus! {

/// What stands for the neighbours that the first sample does not have.
pub const SENTINEL: i32 = 13606;

/// Length of the header in bytes.
pub const HEADER_LEN: usize = 16;

/// A grid as mathematics sees it: its geometry and its samples.
pub type GridModel = (GridInfo, Seq<int>);

/// The samples as unbounded integers.
pub open spec fn ints(p: Seq<i32>) -> Seq<int> {
    p.map_values(|v: i32| v as int)
}

/// `v` is a signed 32-bit number.
pub open spec fn fits_i32(v: int) -> bool {
    i32::MIN <= v <= i32::MAX
}

/// Every sample is a signed 32-bit number.
pub open spec fn all_fit(p: Seq<int>) -> bool {
    forall|i: int| 0 <= i < p.len() ==> fits_i32(#[trigger] p[i])
}

/// The sample before `pos` in row-major order; the sentinel at the start.
pub open spec fn prev_x(p: Seq<int>, pos: int) -> int {
    if pos == 0 {
        SENTINEL as int
    } else {
        p[pos - 1]
    }
}

/// The sample one row below `pos`; 0 in the first row. `w` is the row length.
pub open spec fn prev_y(p: Seq<int>, w: int, pos: int) -> int {
    if pos < w {
        0
    } else {
        p[pos - w]
    }
}

/// What `prev_y` was one step earlier; the sentinel at the start.
pub open spec fn prev_xy(p: Seq<int>, w: int, pos: int) -> int {
    if pos == 0 {
        SENTINEL as int
    } else {
        prev_y(p, w, pos - 1)
    }
}

/// The sample expected at `pos` if the surface went on as a plane.
pub open spec fn predicted(p: Seq<int>, w: int, pos: int) -> int {
    prev_x(p, pos) + prev_y(p, w, pos) - prev_xy(p, w, pos)
}

/// What is stored for the sample at `pos`: how far it is from the prediction.
pub open spec fn delta(p: Seq<int>, w: int, pos: int) -> int {
    p[pos] - predicted(p, w, pos)
}

/// Every difference is a signed 32-bit number, so the grid can be written.
pub open spec fn deltas_fit(p: Seq<int>, w: int) -> bool {
    forall|pos: int| 0 <= pos < p.len() ==> fits_i32(#[trigger] delta(p, w, pos))
}

/// The 16 bytes of the header.
pub open spec fn header_bytes(info: GridInfo) -> Seq<u8> {
    le_bytes2(info.x_num as int) + le_bytes2(info.y_num as int) + le_bytes2(info.x_denom as int)
        + le_bytes2(info.y_denom as int) + le_bytes4(info.x_min_bits as int) + le_bytes4(
        info.y_min_bits as int,
    )
}

/// The bytes of the differences of the first `count` samples.
pub open spec fn delta_bytes(p: Seq<int>, w: int, count: int) -> Seq<u8> {
    Seq::new((4 * count) as nat, |k: int| le_bytes4(twos32(delta(p, w, k / 4)))[k % 4])
}

/// The binary form of a grid.
pub open spec fn encoded(info: GridInfo, p: Seq<int>) -> Seq<u8> {
    header_bytes(info) + delta_bytes(p, info.x_num as int, p.len() as int)
}

/// The geometry that the first 16 bytes of `b` spell.
pub open spec fn header_info(b: Seq<u8>) -> GridInfo {
    GridInfo {
        x_num: le_value2(b, 0) as u32,
        y_num: le_value2(b, 2) as u32,
        x_denom: le_value2(b, 4) as u32,
        y_denom: le_value2(b, 6) as u32,
        x_min_bits: le_value4(b, 8) as u32,
        y_min_bits: le_value4(b, 12) as u32,
    }
}

/// The difference stored for the sample at `pos`.
pub open spec fn stream_delta(b: Seq<u8>, pos: int) -> int {
    signed32(le_value4(b, HEADER_LEN + 4 * pos))
}

/// The first `k` samples that the stream `b` spells for rows of length `w`:
/// each is its prediction plus its stored difference.
pub open spec fn rebuilt(b: Seq<u8>, w: int, k: nat) -> Seq<int>
    decreases k,
{
    if k == 0 {
        Seq::empty()
    } else {
        let before = rebuilt(b, w, (k - 1) as nat);
        before.push(predicted(before, w, k - 1) + stream_delta(b, k - 1))
    }
}

/// What reading the stream `b` gives.
pub open spec fn decoded(b: Seq<u8>) -> Result<GridModel, GridError> {
    if b.len() < HEADER_LEN {
        Err(GridError::TruncatedInput)
    } else {
        let info = header_info(b);
        if b.len() < HEADER_LEN + 4 * info.point_count() {
            Err(GridError::TruncatedInput)
        } else {
            let p = rebuilt(b, info.x_num as int, info.point_count() as nat);
            if all_fit(p) {
                Ok((info, p))
            } else {
                Err(GridError::SampleOutOfRange)
            }
        }
    }
}

/// `rebuilt` gives `k` samples.
pub proof fn lemma_rebuilt_len(b: Seq<u8>, w: int, k: nat)
    ensures
        rebuilt(b, w, k).len() == k,
    decreases k,
{
    if k > 0 {
        lemma_rebuilt_len(b, w, (k - 1) as nat);
    }
}

/// Going on with the stream changes no sample that was rebuilt before.
pub proof fn lemma_rebuilt_prefix(b: Seq<u8>, w: int, k: nat, n: nat)
    requires
        k <= n,
    ensures
        rebuilt(b, w, k).len() == k,
        rebuilt(b, w, n).len() == n,
        forall|i: int| 0 <= i < k ==> rebuilt(b, w, k)[i] == rebuilt(b, w, n)[i],
    decreases n,
{
    lemma_rebuilt_len(b, w, k);
    lemma_rebuilt_len(b, w, n);
    if k < n {
        lemma_rebuilt_prefix(b, w, k, (n - 1) as nat);
    }
}

/// The prediction at `pos` reads only samples before `pos`.
pub proof fn lemma_predicted_local(p: Seq<int>, q: Seq<int>, w: int, pos: int)
    requires
        w > 0,
        0 <= pos,
        forall|i: int| 0 <= i < pos ==> p[i] == q[i],
    ensures
        predicted(p, w, pos) == predicted(q, w, pos),
{
}

/// The prediction at `pos`, from the samples before it.
pub fn predict(points: &Vec<i32>, w: usize, pos: usize) -> (r: i64)
    requires
        w > 0,
        pos <= points.len(),
    ensures
        r == predicted(ints(points@), w as int, pos as int),
        -0x1_8000_0000 <= r <= 0x1_8000_0000,
{
    let px: i64 = if pos == 0 {
        SENTINEL as i64
    } else {
        points[pos - 1] as i64
    };
    let py: i64 = if pos < w {
        0
    } else {
        points[pos - w] as i64
    };
    let pxy: i64 = if pos == 0 {
        SENTINEL as i64
    } else if pos - 1 < w {
        0
    } else {
        points[pos - 1 - w] as i64
    };
    px + py - pxy
}

/// One more sample adds its four bytes.
pub proof fn lemma_delta_bytes_step(p: Seq<int>, w: int, count: int)
    requires
        0 <= count,
    ensures
        delta_bytes(p, w, count + 1) == delta_bytes(p, w, count) + le_bytes4(
            twos32(delta(p, w, count)),
        ),
{
    let a = delta_bytes(p, w, count + 1);
    let b = delta_bytes(p, w, count) + le_bytes4(twos32(delta(p, w, count)));
    assert(a.len() == b.len());
    assert forall|k: int| 0 <= k < a.len() implies a[k] == b[k] by {
        if k >= 4 * count {
            assert(k / 4 == count);
            assert(k % 4 == k - 4 * count);
        }
    }
    assert(a =~= b);
}

/// The header of a written grid spells its geometry.
pub proof fn lemma_header_round_trip(info: GridInfo, rest: Seq<u8>)
    requires
        info.wf(),
    ensures
        header_bytes(info).len() == HEADER_LEN,
        header_info(header_bytes(info) + rest) == info,
{
    let e = header_bytes(info) + rest;
    assert(e.subrange(0, 2) =~= le_bytes2(info.x_num as int));
    assert(e.subrange(2, 4) =~= le_bytes2(info.y_num as int));
    assert(e.subrange(4, 6) =~= le_bytes2(info.x_denom as int));
    assert(e.subrange(6, 8) =~= le_bytes2(info.y_denom as int));
    assert(e.subrange(8, 12) =~= le_bytes4(info.x_min_bits as int));
    assert(e.subrange(12, 16) =~= le_bytes4(info.y_min_bits as int));
    lemma_le2_value(info.x_num as int, e, 0);
    lemma_le2_value(info.y_num as int, e, 2);
    lemma_le2_value(info.x_denom as int, e, 4);
    lemma_le2_value(info.y_denom as int, e, 6);
    lemma_le4_value(info.x_min_bits as int, e, 8);
    lemma_le4_value(info.y_min_bits as int, e, 12);
}

/// In a written grid the difference stored for `pos` is the difference of
/// the sample at `pos`.
pub proof fn lemma_stream_delta_of_encoded(info: GridInfo, p: Seq<int>, pos: int)
    requires
        0 <= pos < p.len(),
        fits_i32(delta(p, info.x_num as int, pos)),
    ensures
        stream_delta(encoded(info, p), pos) == delta(p, info.x_num as int, pos),
{
    let w = info.x_num as int;
    let e = encoded(info, p);
    let d = delta(p, w, pos);
    let body = delta_bytes(p, w, p.len() as int);
    assert(header_bytes(info).len() == 16);
    let at = HEADER_LEN + 4 * pos;
    assert forall|j: int| 0 <= j < 4 implies e[at + j] == le_bytes4(twos32(d))[j] by {
        assert(e[at + j] == body[4 * pos + j]);
        assert((4 * pos + j) / 4 == pos);
        assert((4 * pos + j) % 4 == j);
    }
    assert(e.subrange(at, at + 4) =~= le_bytes4(twos32(d)));
    lemma_le4_value(twos32(d), e, at);
}

/// A stream whose stored differences are those of `p` rebuilds `p`.
pub proof fn lemma_rebuilt_takes(b: Seq<u8>, p: Seq<int>, w: int, k: nat)
    requires
        w > 0,
        k <= p.len(),
        forall|pos: int| 0 <= pos < p.len() ==> stream_delta(b, pos) == #[trigger] delta(p, w, pos),
    ensures
        rebuilt(b, w, k) == p.take(k as int),
    decreases k,
{
    if k > 0 {
        lemma_rebuilt_takes(b, p, w, (k - 1) as nat);
        let before = rebuilt(b, w, (k - 1) as nat);
        lemma_predicted_local(before, p, w, k - 1);
        assert(stream_delta(b, k - 1) == delta(p, w, k - 1));
        assert(rebuilt(b, w, k) =~= p.take(k as int));
    } else {
        assert(rebuilt(b, w, k) =~= p.take(k as int));
    }
}

/// Reading what was written gives the grid back: the same geometry and the
/// same samples. It holds of every grid that can be written, that is, whose
/// counts fit the header and whose differences fit 32 bits.
pub proof fn lemma_decode_inverts_encode(info: GridInfo, p: Seq<int>)
    requires
        info.wf(),
        p.len() == info.point_count(),
        all_fit(p),
        deltas_fit(p, info.x_num as int),
    ensures
        decoded(encoded(info, p)) == Ok::<GridModel, GridError>((info, p)),
{
    let w = info.x_num as int;
    let e = encoded(info, p);
    let n = p.len();
    lemma_header_round_trip(info, delta_bytes(p, w, n as int));
    assert(e.len() == HEADER_LEN + 4 * n);
    if n == 0 {
        assert(rebuilt(e, w, 0) =~= p);
    } else {
        lemma_rows_not_empty(w, info.y_num as int);
        assert forall|pos: int| 0 <= pos < p.len() implies stream_delta(e, pos) == #[trigger] delta(
            p,
            w,
            pos,
        ) by {
            lemma_stream_delta_of_encoded(info, p, pos);
        }
        lemma_rebuilt_takes(e, p, w, n);
        assert(p.take(n as int) =~= p);
    }
}

/// Writing what was read gives the bytes that were read: a grid that comes
/// out of a stream can always be written, and its binary form is the stream
/// up to its last sample.
pub proof fn lemma_encode_inverts_decode(b: Seq<u8>, info: GridInfo, p: Seq<int>)
    requires
        decoded(b) == Ok::<GridModel, GridError>((info, p)),
    ensures
        info.wf(),
        p.len() == info.point_count(),
        all_fit(p),
        deltas_fit(p, info.x_num as int),
        encoded(info, p) == b.take(HEADER_LEN + 4 * info.point_count()),
{
    let w = info.x_num as int;
    let n = info.point_count();
    lemma_le2_bytes(b, 0);
    lemma_le2_bytes(b, 2);
    lemma_le2_bytes(b, 4);
    lemma_le2_bytes(b, 6);
    lemma_le4_bytes(b, 8);
    lemma_le4_bytes(b, 12);
    lemma_count_bound(info.x_num as int, info.y_num as int);
    lemma_rebuilt_len(b, w, n as nat);
    assert(header_bytes(info) =~= b.take(16)) by {
        let h = header_bytes(info);
        assert forall|i: int| 0 <= i < 16 implies h[i] == b[i] by {
            assert(b.subrange(0, 2)[i - 0] == b[i] || i >= 2 || i < 0);
            assert(b.subrange(2, 4)[i - 2] == b[i] || i >= 4 || i < 2);
            assert(b.subrange(4, 6)[i - 4] == b[i] || i >= 6 || i < 4);
            assert(b.subrange(6, 8)[i - 6] == b[i] || i >= 8 || i < 6);
            assert(b.subrange(8, 12)[i - 8] == b[i] || i >= 12 || i < 8);
            assert(b.subrange(12, 16)[i - 12] == b[i] || i >= 16 || i < 12);
        }
    }
    assert forall|pos: int| 0 <= pos < n implies #[trigger] delta(p, w, pos) == stream_delta(
        b,
        pos,
    ) by {
        lemma_rows_not_empty(w, info.y_num as int);
        lemma_rebuilt_prefix(b, w, (pos + 1) as nat, n as nat);
        lemma_rebuilt_prefix(b, w, pos as nat, (pos + 1) as nat);
        let before = rebuilt(b, w, pos as nat);
        lemma_predicted_local(before, p, w, pos);
        assert(rebuilt(b, w, (pos + 1) as nat)[pos] == predicted(before, w, pos) + stream_delta(
            b,
            pos,
        ));
    }
    assert forall|pos: int| 0 <= pos < n implies fits_i32(#[trigger] delta(p, w, pos)) by {
        lemma_le4_bytes(b, HEADER_LEN + 4 * pos);
    }
    let body = delta_bytes(p, w, n);
    assert forall|k: int| 0 <= k < 4 * n implies body[k] == b[16 + k] by {
        let pos = k / 4;
        let j = k % 4;
        lemma_le4_bytes(b, HEADER_LEN + 4 * pos);
        assert(delta(p, w, pos) == stream_delta(b, pos));
        assert(twos32(signed32(le_value4(b, 16 + 4 * pos))) == le_value4(b, 16 + 4 * pos));
        assert(b.subrange(16 + 4 * pos, 16 + 4 * pos + 4)[j] == b[16 + 4 * pos + j]);
    }
    assert(encoded(info, p) =~= b.take(HEADER_LEN + 4 * n));
}

impl MemoryGrid {
    /// The grid as mathematics sees it.
    pub open spec fn model(&self) -> GridModel {
        (self.grid_info, ints(self.samples()))
    }

    /// Tells whether every difference fits 32 bits, that is, whether the
    /// grid can be written.
    pub fn is_encodable(&self) -> (ok: bool)
        requires
            self.wf(),
        ensures
            ok == deltas_fit(ints(self.samples()), self.grid_info.x_num as int),
    {
        let n: usize = self.points.len();
        let w: usize = self.grid_info.x_num as usize;
        let ghost p = ints(self.samples());
        let mut pos: usize = 0;
        while pos < n
            invariant
                pos <= n,
                n == self.points.len(),
                w == self.grid_info.x_num,
                self.wf(),
                p == ints(self.samples()),
                forall|i: int| 0 <= i < pos ==> fits_i32(#[trigger] delta(p, w as int, i)),
            decreases n - pos,
        {
            proof {
                lemma_rows_not_empty(w as int, self.grid_info.y_num as int);
            }
            let d: i64 = self.points[pos] as i64 - predict(&self.points, w, pos);
            if d < -0x8000_0000 || d > 0x7FFF_FFFF {
                assert(!fits_i32(delta(p, w as int, pos as int)));
                return false;
            }
            pos += 1;
        }
        true
    }

    /// Loads the geoid model from its binary form. Bytes after the last
    /// sample are left unread.
    pub fn from_binary_reader(reader: &[u8]) -> (r: Result<MemoryGrid, GridError>)
        ensures
            match r {
                Ok(g) => g.wf() && decoded(reader@) == Ok::<GridModel, GridError>(g.model()),
                Err(e) => decoded(reader@) == Err::<GridModel, GridError>(e),
            },
    {
        if reader.len() < HEADER_LEN {
            return Err(GridError::TruncatedInput);
        }
        let grid_info = GridInfo {
            x_num: read_u16_le(reader, 0) as u32,
            y_num: read_u16_le(reader, 2) as u32,
            x_denom: read_u16_le(reader, 4) as u32,
            y_denom: read_u16_le(reader, 6) as u32,
            x_min_bits: read_u32_le(reader, 8),
            y_min_bits: read_u32_le(reader, 12),
        };
        assert(grid_info == header_info(reader@));
        let n: usize = grid_info.num_points();
        proof {
            lemma_count_bound(grid_info.x_num as int, grid_info.y_num as int);
        }
        if (reader.len() as u64) < 16 + 4 * (n as u64) {
            return Err(GridError::TruncatedInput);
        }
        let w: usize = grid_info.x_num as usize;
        let ghost b = reader@;
        let mut points: Vec<i32> = Vec::with_capacity(n);
        let mut pos: usize = 0;
        while pos < n
            invariant
                pos <= n,
                n == grid_info.point_count(),
                w == grid_info.x_num,
                grid_info.wf(),
                grid_info == header_info(b),
                b == reader@,
                reader.len() >= 16 + 4 * n,
                points.len() == pos,
                ints(points@) == rebuilt(b, w as int, pos as nat),
            decreases n - pos,
        {
            proof {
                lemma_rows_not_empty(w as int, grid_info.y_num as int);
            }
            let d: i32 = read_i32_le(reader, 16 + 4 * pos);
            let cur: i64 = predict(&points, w, pos) + d as i64;
            assert(cur == rebuilt(b, w as int, (pos + 1) as nat)[pos as int]);
            if cur < -0x8000_0000 || cur > 0x7FFF_FFFF {
                proof {
                    lemma_rebuilt_prefix(b, w as int, (pos + 1) as nat, n as nat);
                    assert(!fits_i32(rebuilt(b, w as int, n as nat)[pos as int]));
                }
                return Err(GridError::SampleOutOfRange);
            }
            points.push(cur as i32);
            assert(ints(points@) =~= rebuilt(b, w as int, (pos + 1) as nat));
            pos += 1;
        }
        assert(all_fit(rebuilt(b, w as int, n as nat))) by {
            assert forall|i: int| 0 <= i < n implies fits_i32(
                #[trigger] rebuilt(b, w as int, n as nat)[i],
            ) by {
                assert(ints(points@)[i] == points@[i]);
            }
            lemma_rebuilt_len(b, w as int, n as nat);
        }
        Ok(MemoryGrid { grid_info, points })
    }

    /// Dumps the geoid model in binary form at the end of `writer`.
    pub fn to_binary_writer(&self, writer: &mut Vec<u8>)
        requires
            self.wf(),
            deltas_fit(ints(self.samples()), self.grid_info.x_num as int),
        ensures
            final(writer)@ == old(writer)@ + encoded(self.grid_info, ints(self.samples())),
    {
        let ghost start = writer@;
        let ghost p = ints(self.samples());
        let info = self.grid_info;
        push_u16_le(writer, info.x_num as u16);
        push_u16_le(writer, info.y_num as u16);
        push_u16_le(writer, info.x_denom as u16);
        push_u16_le(writer, info.y_denom as u16);
        push_u32_le(writer, info.x_min_bits);
        push_u32_le(writer, info.y_min_bits);
        assert(writer@ =~= start + header_bytes(info));

        let n: usize = self.points.len();
        let w: usize = info.x_num as usize;
        let mut pos: usize = 0;
        assert(delta_bytes(p, w as int, 0) =~= Seq::<u8>::empty());
        while pos < n
            invariant
                pos <= n,
                n == self.points.len(),
                w == self.grid_info.x_num,
                info == self.grid_info,
                self.wf(),
                p == ints(self.samples()),
                deltas_fit(p, w as int),
                writer@ == start + header_bytes(info) + delta_bytes(p, w as int, pos as int),
            decreases n - pos,
        {
            proof {
                lemma_rows_not_empty(w as int, self.grid_info.y_num as int);
            }
            let d: i64 = self.points[pos] as i64 - predict(&self.points, w, pos);
            assert(fits_i32(delta(p, w as int, pos as int)));
            push_i32_le(writer, d as i32);
            proof {
                lemma_delta_bytes_step(p, w as int, pos as int);
            }
            pos += 1;
        }
        assert(writer@ =~= start + encoded(info, p));
    }
}

} // verus!
