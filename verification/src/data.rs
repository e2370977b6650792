//! The point store: binary encoding and decoding of an altitude series.
//!
//! The on-disk layout is bit-exact: a 4-byte magic lead, a big-endian
//! 32-bit point count, then fixed 20-byte records of a 4-byte big-endian
//! height in feet and a 16-byte big-endian timestamp in milliseconds
//! since the Unix epoch. A legacy variant wraps the whole stream in a
//! zlib container; it is read, never written.

use vstd::prelude::*;
use vstd::arithmetic::div_mod::lemma_fundamental_div_mod_converse;

verus! {

/// One altitude sample. `time` models the sample's absolute timestamp as
/// milliseconds since the Unix epoch.
#[derive(Clone, Copy, Debug, PartialEq, Eq, Structural)]
pub struct Point {
    pub height: u32,
    pub time: u64,
}

/// An ordered series of samples, as held by the live buffer and by the
/// on-disk store.
#[derive(Clone, Debug)]
pub struct Plot {
    pub points: Vec<Point>,
}

/// Why a store operation failed.
#[derive(Clone, Copy, Debug, PartialEq, Eq, Structural)]
pub enum StoreError {
    /// The source ended before the declared contents did.
    Truncated,
    /// The 4-byte lead does not name this format.
    BadMagic,
    /// A stored timestamp does not fit the timestamp's value range.
    TimeOverflow,
    /// The legacy-compressed wrapping could not be undone.
    Decompress,
    /// More points than the 32-bit count field can declare.
    TooManyPoints,
}

/// The 4-byte lead that opens every uncompressed store.
pub open spec fn magic() -> Seq<u8> {
    seq![0x0du8, 0x01u8, 0x0au8, 0x00u8]
}

/// A 32-bit value as four big-endian bytes.
pub open spec fn u32_be(v: u32) -> Seq<u8> {
    seq![
        (v / 0x100_0000) as u8,
        ((v / 0x1_0000) % 0x100) as u8,
        ((v / 0x100) % 0x100) as u8,
        (v % 0x100) as u8,
    ]
}

/// A 64-bit value as eight big-endian bytes.
pub open spec fn u64_be(v: u64) -> Seq<u8> {
    seq![
        (v / 0x100_0000_0000_0000) as u8,
        ((v / 0x1_0000_0000_0000) % 0x100) as u8,
        ((v / 0x100_0000_0000) % 0x100) as u8,
        ((v / 0x1_0000_0000) % 0x100) as u8,
        ((v / 0x100_0000) % 0x100) as u8,
        ((v / 0x1_0000) % 0x100) as u8,
        ((v / 0x100) % 0x100) as u8,
        (v % 0x100) as u8,
    ]
}

/// A timestamp widened to the 16 bytes a record reserves for it.
pub open spec fn time_bytes(t: u64) -> Seq<u8> {
    seq![0u8, 0u8, 0u8, 0u8, 0u8, 0u8, 0u8, 0u8] + u64_be(t)
}

/// One fixed-size 20-byte record.
pub open spec fn record_bytes(p: Point) -> Seq<u8> {
    u32_be(p.height) + time_bytes(p.time)
}

/// All records, in sequence order.
pub open spec fn records_bytes(ps: Seq<Point>) -> Seq<u8>
    decreases ps.len(),
{
    if ps.len() == 0 {
        Seq::empty()
    } else {
        records_bytes(ps.drop_last()) + record_bytes(ps.last())
    }
}

/// The whole encoded store: magic, count, records.
pub open spec fn encode_bytes(ps: Seq<Point>) -> Seq<u8>
    recommends
        ps.len() <= u32::MAX,
{
    magic() + u32_be(ps.len() as u32) + records_bytes(ps)
}

/// The value of four big-endian bytes.
pub open spec fn be4_val(s: Seq<u8>) -> int
    recommends
        s.len() == 4,
{
    s[0] * 0x100_0000 + s[1] * 0x1_0000 + s[2] * 0x100 + s[3]
}

/// The value of eight big-endian bytes.
pub open spec fn be8_val(s: Seq<u8>) -> int
    recommends
        s.len() == 8,
{
    s[0] * 0x100_0000_0000_0000 + s[1] * 0x1_0000_0000_0000 + s[2] * 0x100_0000_0000 + s[3]
        * 0x1_0000_0000 + s[4] * 0x100_0000 + s[5] * 0x1_0000 + s[6] * 0x100 + s[7]
}

/// The value of sixteen big-endian bytes.
pub open spec fn be16_val(s: Seq<u8>) -> int
    recommends
        s.len() == 16,
{
    be8_val(s.subrange(0, 8)) * 0x1_0000_0000_0000_0000 + be8_val(s.subrange(8, 16))
}

proof fn lemma_u32_be_val(v: u32)
    ensures
        be4_val(u32_be(v)) == v,
{
    let s = u32_be(v);
    assert(s[0] == (v / 0x100_0000) as u8 && s[1] == ((v / 0x1_0000) % 0x100) as u8 && s[2] == ((v
        / 0x100) % 0x100) as u8 && s[3] == (v % 0x100) as u8);
    assert(((v / 0x100_0000) as u8) * 0x100_0000 + (((v / 0x1_0000) % 0x100) as u8) * 0x1_0000 + (((
    v / 0x100) % 0x100) as u8) * 0x100 + ((v % 0x100) as u8) == v) by (bit_vector);
}

proof fn lemma_u64_be_val(v: u64)
    ensures
        be8_val(u64_be(v)) == v,
{
    let s = u64_be(v);
    assert(((v / 0x100_0000_0000_0000) as u8) * 0x100_0000_0000_0000 + (((v / 0x1_0000_0000_0000)
        % 0x100) as u8) * 0x1_0000_0000_0000 + (((v / 0x100_0000_0000) % 0x100) as u8)
        * 0x100_0000_0000 + (((v / 0x1_0000_0000) % 0x100) as u8) * 0x1_0000_0000 + (((v
        / 0x100_0000) % 0x100) as u8) * 0x100_0000 + (((v / 0x1_0000) % 0x100) as u8) * 0x1_0000 + (
    ((v / 0x100) % 0x100) as u8) * 0x100 + ((v % 0x100) as u8) == v) by (bit_vector);
}

proof fn lemma_time_bytes_val(t: u64)
    ensures
        be16_val(time_bytes(t)) == t,
{
    let s = time_bytes(t);
    assert(s.subrange(0, 8) =~= seq![0u8, 0u8, 0u8, 0u8, 0u8, 0u8, 0u8, 0u8]);
    assert(s.subrange(8, 16) =~= u64_be(t));
    assert(be8_val(seq![0u8, 0u8, 0u8, 0u8, 0u8, 0u8, 0u8, 0u8]) == 0);
    lemma_u64_be_val(t);
}

proof fn lemma_records_len(ps: Seq<Point>)
    ensures
        records_bytes(ps).len() == 20 * ps.len(),
    decreases ps.len(),
{
    if ps.len() > 0 {
        lemma_records_len(ps.drop_last());
    }
}

proof fn lemma_records_slice(ps: Seq<Point>, i: int)
    requires
        0 <= i < ps.len(),
    ensures
        records_bytes(ps).subrange(20 * i, 20 * i + 20) == record_bytes(ps[i]),
    decreases ps.len(),
{
    lemma_records_len(ps);
    lemma_records_len(ps.drop_last());
    if i == ps.len() - 1 {
        assert(records_bytes(ps).subrange(20 * i, 20 * i + 20) =~= record_bytes(ps[i]));
    } else {
        lemma_records_slice(ps.drop_last(), i);
        assert(records_bytes(ps).subrange(20 * i, 20 * i + 20) =~= records_bytes(
            ps.drop_last(),
        ).subrange(20 * i, 20 * i + 20));
    }
}

fn push_u32_be(out: &mut Vec<u8>, v: u32)
    ensures
        final(out)@ == old(out)@ + u32_be(v),
{
    out.push((v / 0x100_0000) as u8);
    out.push(((v / 0x1_0000) % 0x100) as u8);
    out.push(((v / 0x100) % 0x100) as u8);
    out.push((v % 0x100) as u8);
    assert(out@ =~= old(out)@ + u32_be(v));
}

fn push_time_be(out: &mut Vec<u8>, t: u64)
    ensures
        final(out)@ == old(out)@ + time_bytes(t),
{
    let mut pad: usize = 0;
    while pad < 8
        invariant
            pad <= 8,
            out@ == old(out)@ + Seq::new(pad as nat, |i: int| 0u8),
        decreases 8 - pad,
    {
        out.push(0u8);
        assert(out@ =~= old(out)@ + Seq::new((pad + 1) as nat, |i: int| 0u8));
        pad = pad + 1;
    }
    out.push((t / 0x100_0000_0000_0000) as u8);
    out.push(((t / 0x1_0000_0000_0000) % 0x100) as u8);
    out.push(((t / 0x100_0000_0000) % 0x100) as u8);
    out.push(((t / 0x1_0000_0000) % 0x100) as u8);
    out.push(((t / 0x100_0000) % 0x100) as u8);
    out.push(((t / 0x1_0000) % 0x100) as u8);
    out.push(((t / 0x100) % 0x100) as u8);
    out.push((t % 0x100) as u8);
    assert(out@ =~= old(out)@ + time_bytes(t));
}

/// Encode a plot for persistence: header, count and fixed-size records.
/// Fails only when the point count exceeds the 32-bit count field; it is
/// never silently truncated.
pub fn write(plot: &Plot) -> (r: Result<Vec<u8>, StoreError>)
    ensures
        plot.points@.len() <= u32::MAX ==> (r matches Ok(bytes) && bytes@ == encode_bytes(
            plot.points@,
        )),
        plot.points@.len() > u32::MAX ==> r == Err::<Vec<u8>, StoreError>(StoreError::TooManyPoints),
{
    if plot.points.len() > u32::MAX as usize {
        return Err(StoreError::TooManyPoints);
    }
    let count = plot.points.len() as u32;
    let mut out: Vec<u8> = Vec::new();
    out.push(0x0d);
    out.push(0x01);
    out.push(0x0a);
    out.push(0x00);
    assert(out@ =~= magic());
    push_u32_be(&mut out, count);
    let mut i: usize = 0;
    while i < plot.points.len()
        invariant
            i <= plot.points@.len(),
            plot.points@.len() <= u32::MAX,
            count == plot.points@.len() as u32,
            out@ == magic() + u32_be(count) + records_bytes(plot.points@.take(i as int)),
        decreases plot.points@.len() - i,
    {
        let p = plot.points[i];
        push_u32_be(&mut out, p.height);
        push_time_be(&mut out, p.time);
        proof {
            let taken = plot.points@.take(i + 1);
            assert(taken.drop_last() =~= plot.points@.take(i as int));
            assert(out@ =~= magic() + u32_be(count) + records_bytes(taken));
        }
        i = i + 1;
    }
    assert(plot.points@.take(plot.points@.len() as int) =~= plot.points@);
    Ok(out)
}

/// The count field of an encoded store.
pub open spec fn count_of(b: Seq<u8>) -> int
    recommends
        b.len() >= 8,
{
    be4_val(b.subrange(4, 8))
}

/// The height field of record `i`.
pub open spec fn rec_height(b: Seq<u8>, i: int) -> int {
    be4_val(b.subrange(8 + 20 * i, 12 + 20 * i))
}

/// The timestamp field of record `i`.
pub open spec fn rec_time(b: Seq<u8>, i: int) -> int {
    be16_val(b.subrange(12 + 20 * i, 28 + 20 * i))
}

/// How many of the declared records are present in full.
pub open spec fn complete_records(b: Seq<u8>) -> int
    recommends
        b.len() >= 8,
{
    if (b.len() - 8) / 20 < count_of(b) {
        (b.len() - 8) / 20
    } else {
        count_of(b)
    }
}

/// The timestamps of the first `k` records all fit the timestamp range.
pub open spec fn times_ok_upto(b: Seq<u8>, k: int) -> bool {
    forall|i: int| 0 <= i < k ==> #[trigger] rec_time(b, i) <= u64::MAX
}

/// Record `i` as a point.
pub open spec fn point_at(b: Seq<u8>, i: int) -> Point {
    Point { height: rec_height(b, i) as u32, time: rec_time(b, i) as u64 }
}

/// The first `k` records as points.
pub open spec fn points_upto(b: Seq<u8>, k: int) -> Seq<Point> {
    Seq::new(k as nat, |i: int| point_at(b, i))
}

/// What decoding a byte stream yields: the declared points, or the first
/// failure in stream order. The magic lead is validated before anything
/// else; a count larger than the records present is a truncation, never a
/// short result; a timestamp beyond the representable range fails
/// explicitly rather than wrapping.
pub open spec fn parse_result(b: Seq<u8>) -> Result<Seq<Point>, StoreError> {
    if b.len() < 4 {
        Err(StoreError::Truncated)
    } else if b.subrange(0, 4) != magic() {
        Err(StoreError::BadMagic)
    } else if b.len() < 8 {
        Err(StoreError::Truncated)
    } else if !times_ok_upto(b, complete_records(b)) {
        Err(StoreError::TimeOverflow)
    } else if complete_records(b) < count_of(b) {
        Err(StoreError::Truncated)
    } else {
        Ok(points_upto(b, count_of(b)))
    }
}

/// A decoded plot and a decoding failure, seen as one mathematical result.
pub open spec fn plot_result_view(r: Result<Plot, StoreError>) -> Result<Seq<Point>, StoreError> {
    match r {
        Ok(plot) => Ok(plot.points@),
        Err(e) => Err(e),
    }
}

fn read_u32_be(bytes: &[u8], off: usize) -> (r: u32)
    requires
        off + 4 <= bytes@.len(),
    ensures
        r == be4_val(bytes@.subrange(off as int, off as int + 4)),
{
    let r = (bytes[off] as u32) * 0x100_0000 + (bytes[off + 1] as u32) * 0x1_0000 + (bytes[off + 2]
        as u32) * 0x100 + (bytes[off + 3] as u32);
    proof {
        let s = bytes@.subrange(off as int, off as int + 4);
        assert(s[0] == bytes@[off as int] && s[1] == bytes@[off as int + 1] && s[2] == bytes@[off
            as int + 2] && s[3] == bytes@[off as int + 3]);
    }
    r
}

fn read_u64_be(bytes: &[u8], off: usize) -> (r: u64)
    requires
        off + 8 <= bytes@.len(),
    ensures
        r == be8_val(bytes@.subrange(off as int, off as int + 8)),
{
    let r = (bytes[off] as u64) * 0x100_0000_0000_0000 + (bytes[off + 1] as u64)
        * 0x1_0000_0000_0000 + (bytes[off + 2] as u64) * 0x100_0000_0000 + (bytes[off + 3] as u64)
        * 0x1_0000_0000 + (bytes[off + 4] as u64) * 0x100_0000 + (bytes[off + 5] as u64) * 0x1_0000
        + (bytes[off + 6] as u64) * 0x100 + (bytes[off + 7] as u64);
    proof {
        let s = bytes@.subrange(off as int, off as int + 8);
        assert(s[0] == bytes@[off as int] && s[1] == bytes@[off as int + 1] && s[2] == bytes@[off
            as int + 2] && s[3] == bytes@[off as int + 3] && s[4] == bytes@[off as int + 4] && s[5]
            == bytes@[off as int + 5] && s[6] == bytes@[off as int + 6] && s[7] == bytes@[off
            as int + 7]);
    }
    r
}

/// Decode an uncompressed store from its bytes.
pub fn parse(bytes: &[u8]) -> (r: Result<Plot, StoreError>)
    ensures
        plot_result_view(r) == parse_result(bytes@),
{
    let b = Ghost(bytes@);
    if bytes.len() < 4 {
        return Err(StoreError::Truncated);
    }
    if !(bytes[0] == 0x0d && bytes[1] == 0x01 && bytes[2] == 0x0a && bytes[3] == 0x00) {
        proof {
            assert(b@.subrange(0, 4)[0] == b@[0] && b@.subrange(0, 4)[1] == b@[1] && b@.subrange(
                0,
                4,
            )[2] == b@[2] && b@.subrange(0, 4)[3] == b@[3]);
        }
        return Err(StoreError::BadMagic);
    }
    assert(b@.subrange(0, 4) =~= magic());
    if bytes.len() < 8 {
        return Err(StoreError::Truncated);
    }
    let count = read_u32_be(bytes, 4);
    assert(count == count_of(b@));
    let len64 = bytes.len() as u64;
    assert(b@.len() <= usize::MAX);
    let mut points: Vec<Point> = Vec::new();
    let mut i: u32 = 0;
    while i < count
        invariant
            b@ == bytes@,
            b@.len() >= 8,
            b@.subrange(0, 4) == magic(),
            count == count_of(b@),
            len64 == b@.len(),
            b@.len() <= usize::MAX,
            i <= count,
            b@.len() >= 8 + 20 * (i as int),
            times_ok_upto(b@, i as int),
            points@ == points_upto(b@, i as int),
        decreases count - i,
    {
        if len64 < 28 + 20 * (i as u64) {
            proof {
                lemma_fundamental_div_mod_converse(
                    b@.len() - 8,
                    20,
                    i as int,
                    b@.len() - 8 - 20 * (i as int),
                );
                assert(complete_records(b@) == i as int);
            }
            return Err(StoreError::Truncated);
        }
        assert(28 + 20 * (i as int) <= b@.len());
        let off = 8 + 20 * (i as usize);
        let height = read_u32_be(bytes, off);
        assert(height == rec_height(b@, i as int));
        if !(bytes[off + 4] == 0 && bytes[off + 5] == 0 && bytes[off + 6] == 0 && bytes[off + 7]
            == 0 && bytes[off + 8] == 0 && bytes[off + 9] == 0 && bytes[off + 10] == 0 && bytes[off
            + 11] == 0) {
            proof {
                let hi = b@.subrange(12 + 20 * (i as int), 28 + 20 * (i as int)).subrange(0, 8);
                assert(hi[0] == b@[off as int + 4] && hi[1] == b@[off as int + 5] && hi[2] == b@[off
                    as int + 6] && hi[3] == b@[off as int + 7] && hi[4] == b@[off as int + 8]
                    && hi[5] == b@[off as int + 9] && hi[6] == b@[off as int + 10] && hi[7] == b@[
                off as int + 11]);
                assert(rec_time(b@, i as int) > u64::MAX);
                assert(!times_ok_upto(b@, complete_records(b@))) by {
                    assert(20 * (i as int) < b@.len() - 8);
                    assert(complete_records(b@) > i as int) by {
                        vstd::arithmetic::div_mod::lemma_div_is_ordered(
                            20 * (i as int) + 20,
                            b@.len() - 8,
                            20,
                        );
                        vstd::arithmetic::div_mod::lemma_div_by_multiple(i as int + 1, 20);
                    }
                };
            }
            return Err(StoreError::TimeOverflow);
        }
        let time = read_u64_be(bytes, off + 12);
        proof {
            let rec = b@.subrange(12 + 20 * (i as int), 28 + 20 * (i as int));
            assert(rec.subrange(0, 8) =~= seq![0u8, 0u8, 0u8, 0u8, 0u8, 0u8, 0u8, 0u8]) by {
                let hi = rec.subrange(0, 8);
                assert(hi[0] == b@[off as int + 4] && hi[1] == b@[off as int + 5] && hi[2] == b@[off
                    as int + 6] && hi[3] == b@[off as int + 7] && hi[4] == b@[off as int + 8]
                    && hi[5] == b@[off as int + 9] && hi[6] == b@[off as int + 10] && hi[7] == b@[
                off as int + 11]);
            }
            assert(be8_val(seq![0u8, 0u8, 0u8, 0u8, 0u8, 0u8, 0u8, 0u8]) == 0);
            assert(rec.subrange(8, 16) =~= b@.subrange(
                off as int + 12,
                off as int + 20,
            ));
            assert(time == rec_time(b@, i as int));
        }
        points.push(Point { height, time });
        proof {
            assert(points@ =~= points_upto(b@, i as int + 1));
        }
        i = i + 1;
    }
    proof {
        assert(complete_records(b@) == count_of(b@)) by {
            vstd::arithmetic::div_mod::lemma_div_is_ordered(
                20 * (count as int),
                b@.len() - 8,
                20,
            );
            vstd::arithmetic::div_mod::lemma_div_by_multiple(count as int, 20);
        }
    }
    Ok(Plot { points })
}

/// Law: a source whose count field declares more records than are
/// actually present never decodes to points: the result is an error —
/// a truncation, or an earlier oversized timestamp — never a silently
/// short sequence.
pub proof fn lemma_short_source_rejected(b: Seq<u8>)
    requires
        b.len() >= 8,
        b.len() - 8 < 20 * count_of(b),
    ensures
        parse_result(b) is Err,
{
    if b.subrange(0, 4) == magic() {
        vstd::arithmetic::div_mod::lemma_multiply_divide_lt(b.len() - 8, 20, count_of(b));
        assert(complete_records(b) < count_of(b));
    }
}

/// Law: a store encoded from any point sequence decodes back to exactly
/// that sequence — same count, same heights and timestamps, same order.
#[verifier::rlimit(50)]
pub proof fn lemma_write_read_round_trip(ps: Seq<Point>)
    requires
        ps.len() <= u32::MAX,
    ensures
        parse_result(encode_bytes(ps)) == Ok::<Seq<Point>, StoreError>(ps),
{
    let b = encode_bytes(ps);
    let n = ps.len() as int;
    lemma_records_len(ps);
    assert(b.len() == 8 + 20 * n);
    assert(b.subrange(0, 4) =~= magic());
    assert(b.subrange(4, 8) =~= u32_be(ps.len() as u32));
    lemma_u32_be_val(ps.len() as u32);
    assert(count_of(b) == n);
    assert forall|i: int| 0 <= i < n implies #[trigger] point_at(b, i) == ps[i] && rec_time(b, i)
        <= u64::MAX by {
        lemma_records_slice(ps, i);
        let rec = record_bytes(ps[i]);
        assert(records_bytes(ps).subrange(20 * i, 20 * i + 20) == rec);
        assert forall|t: int| 0 <= t < 4 implies b.subrange(8 + 20 * i, 12 + 20 * i)[t] == u32_be(
            ps[i].height,
        )[t] by {
            assert(b.subrange(8 + 20 * i, 12 + 20 * i)[t] == b[8 + 20 * i + t]);
            assert(b[8 + 20 * i + t] == records_bytes(ps)[20 * i + t]);
            assert(records_bytes(ps)[20 * i + t] == records_bytes(ps).subrange(
                20 * i,
                20 * i + 20,
            )[t]);
            assert(rec[t] == u32_be(ps[i].height)[t]);
        }
        assert(b.subrange(8 + 20 * i, 12 + 20 * i) =~= u32_be(ps[i].height));
        lemma_u32_be_val(ps[i].height);
        assert(rec_height(b, i) == ps[i].height);
        assert forall|t: int| 0 <= t < 16 implies b.subrange(12 + 20 * i, 28 + 20 * i)[t]
            == time_bytes(ps[i].time)[t] by {
            assert(b.subrange(12 + 20 * i, 28 + 20 * i)[t] == b[12 + 20 * i + t]);
            assert(b[12 + 20 * i + t] == records_bytes(ps)[20 * i + 4 + t]);
            assert(records_bytes(ps)[20 * i + 4 + t] == records_bytes(ps).subrange(
                20 * i,
                20 * i + 20,
            )[4 + t]);
            assert(rec[4 + t] == time_bytes(ps[i].time)[t]);
        }
        assert(b.subrange(12 + 20 * i, 28 + 20 * i) =~= time_bytes(ps[i].time));
        lemma_time_bytes_val(ps[i].time);
        assert(rec_time(b, i) == ps[i].time);
    }
    assert((b.len() - 8) / 20 == n) by {
        vstd::arithmetic::div_mod::lemma_div_by_multiple(n, 20);
    }
    assert(complete_records(b) == n);
    assert forall|i: int| 0 <= i < n implies #[trigger] rec_time(b, i) <= u64::MAX by {
        assert(point_at(b, i) == ps[i]);
    }
    assert(times_ok_upto(b, n));
    assert(points_upto(b, n) =~= ps);
}

/// What undoing the legacy zlib wrapping yields for a given stream.
pub uninterp spec fn inflate_of(s: Seq<u8>) -> Seq<u8>;

/// Relies on flate2's ZlibDecoder reading to the end of the stream:
/// decompression consults nothing but the input bytes, so a successful
/// result is a function of them alone; a malformed stream is an error.
#[verifier::external_body]
fn inflate(bytes: &[u8]) -> (r: Option<Vec<u8>>)
    ensures
        r matches Some(out) ==> out@ == inflate_of(bytes@),
{
    let mut decoder = flate2::read::ZlibDecoder::new(bytes);
    let mut out = Vec::new();
    match std::io::Read::read_to_end(&mut decoder, &mut out) {
        Ok(_) => Some(out),
        Err(_) => None,
    }
}

/// Decode a store from the raw bytes of a file. The store's own layout
/// opens with the magic lead byte; any other first byte marks the legacy
/// variant, the whole stream wrapped in a zlib container, which is
/// decompressed and then decoded the same way. The decision is made once,
/// on the first byte, before any other interpretation.
pub fn read(bytes: &[u8]) -> (r: Result<Plot, StoreError>)
    ensures
        bytes@.len() == 0 ==> r == Err::<Plot, StoreError>(StoreError::Truncated),
        bytes@.len() > 0 && bytes@[0] == 0x0d ==> plot_result_view(r) == parse_result(bytes@),
        bytes@.len() > 0 && bytes@[0] != 0x0d ==> (plot_result_view(r) == parse_result(
            inflate_of(bytes@),
        ) || r == Err::<Plot, StoreError>(StoreError::Decompress)),
{
    if bytes.len() == 0 {
        return Err(StoreError::Truncated);
    }
    if bytes[0] == 0x0d {
        parse(bytes)
    } else {
        match inflate(bytes) {
            Some(inflated) => parse(inflated.as_slice()),
            None => Err(StoreError::Decompress),
        }
    }
}

/// The age of a sample in whole seconds at time `now`; a sample from the
/// future is given age zero rather than propagating impossible state.
pub open spec fn age_seconds(time: u64, now: u64) -> int {
    if time <= now {
        (now - time) / 1000
    } else {
        0
    }
}

pub open spec fn too_old(p: Point, now: u64, max_age: u32) -> bool {
    age_seconds(p.time, now) > max_age
}

fn point_too_old(p: &Point, now: u64, max_age: u32) -> (r: bool)
    ensures
        r == too_old(*p, now, max_age),
{
    let age_millis = if p.time <= now {
        now - p.time
    } else {
        0
    };
    age_millis / 1000 > max_age as u64
}

/// Drop the leading run of points older than `max_age` seconds at `now`.
/// The live buffer is time-ordered, so pruning only ever needs to look at
/// the front; the first young-enough point stops the scan.
pub fn prune_old_data(points: &mut Vec<Point>, now: u64, max_age: u32)
    ensures
        exists|k: int|
            0 <= k <= old(points)@.len() && final(points)@ == old(points)@.skip(k) && (forall|
                i: int,
            | 0 <= i < k ==> #[trigger] too_old(old(points)@[i], now, max_age)) && (k < old(
                points,
            )@.len() ==> !too_old(old(points)@[k], now, max_age)),
{
    let ghost mut removed: int = 0;
    loop
        invariant_except_break
            0 <= removed <= old(points)@.len(),
            points@ == old(points)@.skip(removed as int),
            forall|i: int| 0 <= i < removed ==> #[trigger] too_old(old(points)@[i], now, max_age),
        ensures
            0 <= removed <= old(points)@.len(),
            points@ == old(points)@.skip(removed as int),
            forall|i: int| 0 <= i < removed ==> #[trigger] too_old(old(points)@[i], now, max_age),
            removed < old(points)@.len() ==> !too_old(old(points)@[removed as int], now, max_age),
        decreases old(points)@.len() - removed,
    {
        if points.len() == 0 {
            break ;
        }
        let first = points[0];
        if point_too_old(&first, now, max_age) {
            points.remove(0);
            proof {
                assert(old(points)@.skip(removed as int).remove(0) =~= old(points)@.skip(
                    removed as int + 1,
                ));
            }
            proof {
                removed = removed + 1;
            }
        } else {
            break ;
        }
    }
}

} // verus!
