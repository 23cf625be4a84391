//! The fixed-layout text distribution of the fifteen-minute grid: one header
//! line of six fields, then one decimal token per sample, from the northern
//! row to the southern one.

use crate::codec::{
    all_fit, decoded, deltas_fit, encoded, fits_i32, ints, lemma_decode_inverts_encode, GridModel,
};
use crate::error::{GridError, HeaderField};
use crate::grid::{GridInfo, MemoryGrid};
use crate::number::{parse_token, token_value};
use crate::text::{first_line_end, line_end, next_token, tokens_in};
use vstd::prelude::*;

verus! {

/// Samples in a row: every quarter degree of longitude from 0 to 360.
pub const X_NUM: u32 = 1441;

/// Rows: every quarter degree of latitude from -90 to 90.
pub const Y_NUM: u32 = 721;

/// Samples in the grid.
pub const POINT_COUNT: usize = 1038961;

/// Bit pattern of the single-precision number -90.
pub const MIN_LAT_BITS: u32 = 0xC2B4_0000;

/// The geometry of the fifteen-minute grid.
pub open spec fn egm96_info() -> GridInfo {
    GridInfo {
        x_num: X_NUM,
        y_num: Y_NUM,
        x_denom: 4,
        y_denom: 4,
        x_min_bits: 0,
        y_min_bits: MIN_LAT_BITS,
    }
}

/// The only text that is accepted as header field `k`: `-90.000000`,
/// `90.000000`, `.000000`, `360.000000`, `.250000` and `.250000`.
pub open spec fn expected_field(k: int) -> Seq<u8> {
    if k == 0 {
        seq![0x2Du8, 0x39, 0x30, 0x2E, 0x30, 0x30, 0x30, 0x30, 0x30, 0x30]
    } else if k == 1 {
        seq![0x39u8, 0x30, 0x2E, 0x30, 0x30, 0x30, 0x30, 0x30, 0x30]
    } else if k == 2 {
        seq![0x2Eu8, 0x30, 0x30, 0x30, 0x30, 0x30, 0x30]
    } else if k == 3 {
        seq![0x33u8, 0x36, 0x30, 0x2E, 0x30, 0x30, 0x30, 0x30, 0x30, 0x30]
    } else {
        seq![0x2Eu8, 0x32, 0x35, 0x30, 0x30, 0x30, 0x30]
    }
}

/// The header field with index `k`.
pub open spec fn field_name(k: int) -> HeaderField {
    if k == 0 {
        HeaderField::MinLat
    } else if k == 1 {
        HeaderField::MaxLat
    } else if k == 2 {
        HeaderField::MinLng
    } else if k == 3 {
        HeaderField::MaxLng
    } else if k == 4 {
        HeaderField::LatInterval
    } else {
        HeaderField::LngInterval
    }
}

/// Index of the first of the six fields that differs from what is accepted,
/// looking from `k` on; 6 where none does.
pub open spec fn first_wrong_field(fields: Seq<Seq<u8>>, k: int) -> int
    decreases 6 - k,
{
    if k < 0 || k >= 6 {
        6
    } else if fields[k] != expected_field(k) {
        k
    } else {
        first_wrong_field(fields, k + 1)
    }
}

/// What is wrong with the fields of a header line, if anything: their
/// number first, then the fields in their order.
pub open spec fn header_error(fields: Seq<Seq<u8>>) -> Option<GridError> {
    if fields.len() != 6 {
        Some(GridError::HeaderFieldCount)
    } else if first_wrong_field(fields, 0) < 6 {
        Some(GridError::HeaderField(field_name(first_wrong_field(fields, 0))))
    } else {
        None
    }
}

/// Index of the first token without a value, looking from `from` on; the
/// number of tokens where every one has a value.
pub open spec fn first_bad(tokens: Seq<Seq<u8>>, from: int) -> int
    decreases tokens.len() - from,
{
    if from < 0 || from >= tokens.len() {
        tokens.len() as int
    } else if token_value(tokens[from]) is None {
        from
    } else {
        first_bad(tokens, from + 1)
    }
}

/// The values of the tokens, in their order.
pub open spec fn values(tokens: Seq<Seq<u8>>) -> Seq<int> {
    Seq::new(tokens.len(), |i: int| token_value(tokens[i]).unwrap())
}

/// The rows in the opposite order, each row as it was.
pub open spec fn flip_rows(v: Seq<int>) -> Seq<int> {
    Seq::new(v.len(), |i: int| v[(Y_NUM - 1 - i / (X_NUM as int)) * X_NUM + i % (X_NUM as int)])
}

/// What reading the text `s` gives.
pub open spec fn parsed(s: Seq<u8>) -> Result<GridModel, GridError> {
    let cut = line_end(s, 0);
    let fields = tokens_in(s, 0, cut, true);
    let tokens = tokens_in(s, cut, s.len() as int, false);
    let bad = first_bad(tokens, 0);
    if header_error(fields) is Some {
        Err(header_error(fields).unwrap())
    } else if bad < tokens.len() {
        Err(GridError::InvalidToken { index: bad as usize })
    } else if tokens.len() != POINT_COUNT {
        Err(GridError::PointCount { expected: POINT_COUNT, found: tokens.len() as usize })
    } else {
        Ok((egm96_info(), flip_rows(values(tokens))))
    }
}

/// A header that is not accepted decides the outcome, whatever follows it.
pub proof fn lemma_header_decides(s: Seq<u8>, e: GridError)
    requires
        header_error(tokens_in(s, 0, line_end(s, 0), true)) == Some(e),
    ensures
        parsed(s) == Err::<GridModel, GridError>(e),
{
}

/// Where no token lacks a value, every token has one.
pub proof fn lemma_no_bad_token(tokens: Seq<Seq<u8>>, from: int, j: int)
    requires
        0 <= from <= j < tokens.len(),
        first_bad(tokens, from) >= tokens.len(),
    ensures
        token_value(tokens[j]) is Some,
    decreases j - from,
{
    if from < j {
        lemma_no_bad_token(tokens, from + 1, j);
    }
}

/// A grid that was read from text has the geometry of the fifteen-minute
/// grid, one sample for every grid point, and samples of 32 bits.
pub proof fn lemma_parsed_grid(s: Seq<u8>, info: GridInfo, p: Seq<int>)
    requires
        parsed(s) == Ok::<GridModel, GridError>((info, p)),
    ensures
        info == egm96_info(),
        info.wf(),
        p.len() == info.point_count(),
        p.len() == POINT_COUNT,
        all_fit(p),
{
    let tokens = tokens_in(s, line_end(s, 0), s.len() as int, false);
    let v = values(tokens);
    assert(X_NUM * Y_NUM == 1441 * 721);
    assert forall|i: int| 0 <= i < p.len() implies fits_i32(#[trigger] p[i]) by {
        let q = i / 1441;
        let r = i % 1441;
        assert(i == 1441 * q + r && 0 <= r < 1441);
        let from = (720 - q) * 1441 + r;
        assert(p[i] == v[from]);
        lemma_no_bad_token(tokens, 0, from);
    }
}

/// The text and the binary form agree: a grid that was read from text and
/// can be written comes back from its binary form as the same grid, with the
/// same geometry and the same samples, so that every query on the two gives
/// the same height.
pub proof fn lemma_text_and_binary_agree(s: Seq<u8>, info: GridInfo, p: Seq<int>)
    requires
        parsed(s) == Ok::<GridModel, GridError>((info, p)),
        deltas_fit(p, info.x_num as int),
    ensures
        decoded(encoded(info, p)) == parsed(s),
{
    lemma_parsed_grid(s, info, p);
    lemma_decode_inverts_encode(info, p);
}

/// Tokens with a value are passed over in the search for one without.
pub proof fn lemma_first_bad_from(tokens: Seq<Seq<u8>>, j: int, k: int)
    requires
        0 <= j <= k <= tokens.len(),
        forall|i: int| j <= i < k ==> token_value(#[trigger] tokens[i]) is Some,
    ensures
        first_bad(tokens, j) == first_bad(tokens, k),
    decreases k - j,
{
    if j < k {
        lemma_first_bad_from(tokens, j + 1, k);
    }
}

/// The bytes that are accepted as header field `k`.
fn expected_field_bytes(k: usize) -> (e: Vec<u8>)
    requires
        k < 6,
    ensures
        e@ == expected_field(k as int),
{
    let e: Vec<u8> = if k == 0 {
        vec![0x2Du8, 0x39, 0x30, 0x2E, 0x30, 0x30, 0x30, 0x30, 0x30, 0x30]
    } else if k == 1 {
        vec![0x39u8, 0x30, 0x2E, 0x30, 0x30, 0x30, 0x30, 0x30, 0x30]
    } else if k == 2 {
        vec![0x2Eu8, 0x30, 0x30, 0x30, 0x30, 0x30, 0x30]
    } else if k == 3 {
        vec![0x33u8, 0x36, 0x30, 0x2E, 0x30, 0x30, 0x30, 0x30, 0x30, 0x30]
    } else {
        vec![0x2Eu8, 0x32, 0x35, 0x30, 0x30, 0x30, 0x30]
    };
    assert(e@ =~= expected_field(k as int));
    e
}

/// The name of header field `k`.
fn field_of(k: usize) -> (f: HeaderField)
    requires
        k < 6,
    ensures
        f == field_name(k as int),
{
    if k == 0 {
        HeaderField::MinLat
    } else if k == 1 {
        HeaderField::MaxLat
    } else if k == 2 {
        HeaderField::MinLng
    } else if k == 3 {
        HeaderField::MaxLng
    } else if k == 4 {
        HeaderField::LatInterval
    } else {
        HeaderField::LngInterval
    }
}

/// Tells whether the bytes of `s` between `a` and `b` are those of `e`.
fn same_bytes(s: &[u8], a: usize, b: usize, e: &Vec<u8>) -> (same: bool)
    requires
        a <= b <= s.len(),
    ensures
        same == (s@.subrange(a as int, b as int) == e@),
{
    if b - a != e.len() {
        return false;
    }
    let n: usize = e.len();
    let mut j: usize = 0;
    while j < n
        invariant
            j <= n,
            n == e.len(),
            n == b - a,
            a <= b <= s.len(),
            forall|i: int| 0 <= i < j ==> s@[a + i] == e@[i],
        decreases n - j,
    {
        if s[a + j] != e[j] {
            assert(s@.subrange(a as int, b as int)[j as int] != e@[j as int]);
            return false;
        }
        j += 1;
    }
    assert(s@.subrange(a as int, b as int) =~= e@);
    true
}

/// Reads the header line, which ends at `cut`, and says what is wrong with
/// it, if anything.
pub fn check_header(s: &[u8], cut: usize) -> (r: Option<GridError>)
    requires
        cut <= s.len(),
    ensures
        r == header_error(tokens_in(s@, 0, cut as int, true)),
{
    let ghost fields = tokens_in(s@, 0, cut as int, true);
    let ghost mut found: Seq<Seq<u8>> = Seq::empty();
    let mut spans: Vec<(usize, usize)> = Vec::new();
    let mut i: usize = 0;
    let mut exhausted: bool = false;
    while spans.len() < 7 && !exhausted
        invariant
            i <= cut <= s.len(),
            fields == tokens_in(s@, 0, cut as int, true),
            fields == found + tokens_in(s@, i as int, cut as int, true),
            found.len() == spans.len(),
            spans.len() <= 7,
            exhausted ==> fields == found,
            forall|j: int|
                0 <= j < spans.len() ==> (#[trigger] spans@[j]).0 <= spans@[j].1 <= cut && found[j]
                    == s@.subrange(spans@[j].0 as int, spans@[j].1 as int),
        decreases (if exhausted { 0int } else { 1int }), 7 - spans.len(),
    {
        match next_token(s, i, cut, true) {
            None => {
                exhausted = true;
                assert(found + Seq::<Seq<u8>>::empty() =~= found);
            },
            Some((a, b)) => {
                proof {
                    let rest = tokens_in(s@, b as int, cut as int, true);
                    let t = s@.subrange(a as int, b as int);
                    assert(found + (seq![t] + rest) =~= found.push(t) + rest);
                    found = found.push(t);
                }
                spans.push((a, b));
                i = b;
            },
        }
    }
    if spans.len() != 6 {
        return Some(GridError::HeaderFieldCount);
    }
    assert(fields =~= found);
    let mut k: usize = 0;
    while k < 6
        invariant
            k <= 6,
            cut <= s.len(),
            spans.len() == 6,
            fields.len() == 6,
            fields == tokens_in(s@, 0, cut as int, true),
            first_wrong_field(fields, 0) == first_wrong_field(fields, k as int),
            forall|j: int|
                0 <= j < spans.len() ==> (#[trigger] spans@[j]).0 <= spans@[j].1 <= cut && fields[j]
                    == s@.subrange(spans@[j].0 as int, spans@[j].1 as int),
        decreases 6 - k,
    {
        let e: Vec<u8> = expected_field_bytes(k);
        let span: (usize, usize) = spans[k];
        assert(span == spans@[k as int]);
        if !same_bytes(s, span.0, span.1, &e) {
            assert(fields[k as int] != expected_field(k as int));
            return Some(GridError::HeaderField(field_of(k)));
        }
        assert(fields[k as int] == expected_field(k as int));
        k += 1;
    }
    None
}

/// Puts the rows of the fifteen-minute grid in the opposite order.
pub fn flip(v: &Vec<i32>) -> (out: Vec<i32>)
    requires
        v.len() == POINT_COUNT,
    ensures
        out.len() == POINT_COUNT,
        ints(out@) == flip_rows(ints(v@)),
{
    let mut out: Vec<i32> = Vec::with_capacity(POINT_COUNT);
    let mut y: usize = 0;
    while y < 721
        invariant
            y <= 721,
            v.len() == POINT_COUNT,
            out.len() == y * 1441,
            forall|i: int|
                0 <= i < out.len() ==> #[trigger] out@[i] == v@[(720 - i / 1441) * 1441 + i % 1441],
        decreases 721 - y,
    {
        let mut x: usize = 0;
        while x < 1441
            invariant
                x <= 1441,
                y < 721,
                v.len() == POINT_COUNT,
                out.len() == y * 1441 + x,
                forall|i: int|
                    0 <= i < out.len() ==> #[trigger] out@[i] == v@[(720 - i / 1441) * 1441 + i
                        % 1441],
            decreases 1441 - x,
        {
            let ghost at = out.len() as int;
            assert(at / 1441 == y && at % 1441 == x);
            out.push(v[(720 - y) * 1441 + x]);
            x += 1;
        }
        y += 1;
    }
    assert forall|i: int| 0 <= i < POINT_COUNT implies ints(out@)[i] == flip_rows(
        ints(v@),
    )[i] by {
        let q = i / 1441;
        let r = i % 1441;
        assert(i == 1441 * q + r && 0 <= r < 1441);
        assert(0 <= q <= 720);
        let from = (720 - q) * 1441 + r;
        assert(0 <= from < POINT_COUNT);
        assert(out@[i] == v@[from]);
        assert(from == (Y_NUM - 1 - i / (X_NUM as int)) * X_NUM + i % (X_NUM as int));
    }
    assert(ints(out@) =~= flip_rows(ints(v@)));
    out
}

impl MemoryGrid {
    /// Loads the fifteen-minute grid from its text distribution. The text is
    /// taken as bytes; in the header line the white space of Unicode splits
    /// the fields, given that the bytes are UTF-8.
    pub fn from_ascii_reader(reader: &[u8]) -> (r: Result<MemoryGrid, GridError>)
        ensures
            match r {
                Ok(g) => g.wf() && parsed(reader@) == Ok::<GridModel, GridError>(g.model()),
                Err(e) => parsed(reader@) == Err::<GridModel, GridError>(e),
            },
    {
        let cut: usize = first_line_end(reader);
        match check_header(reader, cut) {
            Some(e) => {
                return Err(e);
            },
            None => {},
        }
        let end: usize = reader.len();
        let ghost tokens = tokens_in(reader@, cut as int, end as int, false);
        let ghost mut done: Seq<Seq<u8>> = Seq::empty();
        let mut vals: Vec<i32> = Vec::new();
        let mut buf: Vec<u8> = Vec::new();
        let mut i: usize = cut;
        let mut exhausted: bool = false;
        while !exhausted
            invariant
                cut <= i <= end,
                end == reader.len(),
                cut == line_end(reader@, 0),
                header_error(tokens_in(reader@, 0, cut as int, true)) is None,
                tokens == tokens_in(reader@, cut as int, end as int, false),
                tokens == done + tokens_in(reader@, i as int, end as int, false),
                done.len() == vals.len(),
                vals.len() <= i,
                exhausted ==> tokens == done,
                forall|j: int|
                    0 <= j < done.len() ==> token_value(#[trigger] done[j]) == Some(
                        vals@[j] as int,
                    ),
            decreases (if exhausted { 0int } else { 1int }), end - i,
        {
            match next_token(reader, i, end, false) {
                None => {
                    exhausted = true;
                    assert(done + Seq::<Seq<u8>>::empty() =~= done);
                },
                Some((a, b)) => {
                    let ghost rest = tokens_in(reader@, b as int, end as int, false);
                    let ghost t = reader@.subrange(a as int, b as int);
                    assert(done + (seq![t] + rest) =~= done.push(t) + rest);
                    match parse_token(reader, a, b, &mut buf) {
                        None => {
                            proof {
                                let index = done.len() as int;
                                assert(tokens[index] == t);
                                assert forall|j: int| 0 <= j < index implies token_value(
                                    #[trigger] tokens[j],
                                ) is Some by {
                                    assert(tokens[j] == done[j]);
                                }
                                lemma_first_bad_from(tokens, 0, index);
                            }
                            return Err(GridError::InvalidToken { index: vals.len() });
                        },
                        Some(v) => {
                            proof {
                                done = done.push(t);
                            }
                            vals.push(v);
                            i = b;
                        },
                    }
                },
            }
        }
        proof {
            assert forall|j: int| 0 <= j < tokens.len() implies token_value(
                #[trigger] tokens[j],
            ) is Some by {
                assert(tokens[j] == done[j]);
            }
            lemma_first_bad_from(tokens, 0, tokens.len() as int);
        }
        if vals.len() != POINT_COUNT {
            return Err(GridError::PointCount { expected: POINT_COUNT, found: vals.len() });
        }
        assert(tokens == done);
        assert(first_bad(tokens, 0) == tokens.len());
        assert(ints(vals@) =~= values(tokens)) by {
            assert forall|j: int| 0 <= j < tokens.len() implies ints(vals@)[j]
                == values(tokens)[j] by {
                assert(token_value(done[j]) == Some(vals@[j] as int));
            }
        }
        let points: Vec<i32> = flip(&vals);
        let grid_info = GridInfo {
            x_num: X_NUM,
            y_num: Y_NUM,
            x_denom: 4,
            y_denom: 4,
            x_min_bits: 0,
            y_min_bits: MIN_LAT_BITS,
        };
        assert(grid_info == egm96_info());
        let g = MemoryGrid { grid_info, points };
        assert(g.grid_info.point_count() == POINT_COUNT) by {
            assert(X_NUM * Y_NUM == 1441 * 721);
        }
        Ok(g)
    }
}

} // verus!
