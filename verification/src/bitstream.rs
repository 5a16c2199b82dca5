//! Length-prefixed and start-code bitstreams, and the conversion between them.
//!
//! H.264 and HEVC exist in two shapes. MP4 stores each NAL unit behind a length
//! field; everything else — Annex B, and every platform decoder's preferred
//! input — separates them with `00 00 01` start codes. The two are trivially
//! interconvertible and completely incompatible, and handing a decoder the
//! wrong one produces no picture and no error.
//!
//! It is also where the parameter sets live. An MP4's `avcC` box holds the SPS
//! and PPS that a decoder needs *before* the first frame.

use vstd::prelude::*;

use crate::error::{is_decode_error, Error, Result};
use crate::identify::Encoding;
use crate::text::{decimal, push_decimal};

verus! {

/// The four-byte start code this crate writes. Three would do, but four keeps
/// NAL units aligned and is what every muxer writes.
pub open spec fn start_code() -> Seq<u8> {
    seq![0u8, 0u8, 0u8, 1u8]
}

/// Whether `n` is a NAL length size the formats allow.
pub open spec fn valid_length_size(n: nat) -> bool {
    n == 1 || n == 2 || n == 4
}

/// The largest unit an `n`-byte length field describes.
pub open spec fn length_ceiling(n: nat) -> nat {
    if n == 1 {
        0xFF
    } else if n == 2 {
        0xFFFF
    } else {
        0xFFFF_FFFF
    }
}

/// A run of bytes read as a big-endian number.
pub open spec fn be_value(s: Seq<u8>) -> nat
    decreases s.len(),
{
    if s.len() == 0 {
        0
    } else {
        be_value(s.drop_last()) * 256 + s.last() as nat
    }
}

/// `v` written big-endian into `n` bytes, high bytes dropped.
pub open spec fn be_bytes(v: nat, n: nat) -> Seq<u8>
    decreases n,
{
    if n == 0 {
        Seq::empty()
    } else {
        be_bytes(v / 256, (n - 1) as nat).push((v % 256) as u8)
    }
}

/// The error an unusable NAL length size is reported with.
pub open spec fn bad_length_size_message(n: nat) -> Seq<char> {
    "a NAL length field is 1, 2, or 4 bytes, not "@ + decimal(n)
}

/// The sets of a run of byte strings, as the contracts see them.
pub open spec fn sets_view(v: Seq<Vec<u8>>) -> Seq<Seq<u8>> {
    v.map_values(|x: Vec<u8>| x@)
}

/// Puts finished output in front of whatever the rest of a parse produces.
pub open spec fn prefixed<T>(done: Seq<T>, rest: core::result::Result<(Seq<T>, int), Seq<char>>) -> core::result::Result<
    (Seq<T>, int),
    Seq<char>,
> {
    match rest {
        Ok((more, at)) => Ok((done + more, at)),
        Err(m) => Err(m),
    }
}

/// Puts finished output in front of whatever the rest of a conversion produces.
pub open spec fn prefixed_bytes(done: Seq<u8>, rest: core::result::Result<Seq<u8>, Seq<char>>) -> core::result::Result<
    Seq<u8>,
    Seq<char>,
> {
    match rest {
        Ok(more) => Ok(done + more),
        Err(m) => Err(m),
    }
}

/// Parameter sets number `index` to `count - 1`, each behind a two-byte
/// length, starting at `cursor`: the sets and where they end, or what went
/// wrong.
pub open spec fn sets_from(
    data: Seq<u8>,
    cursor: int,
    index: nat,
    count: nat,
    what: Seq<char>,
) -> core::result::Result<(Seq<Seq<u8>>, int), Seq<char>>
    decreases count - index,
{
    if index >= count {
        Ok((Seq::empty(), cursor))
    } else if cursor + 2 > data.len() {
        Err("avcC ends inside "@ + what + " "@ + decimal(index) + "'s length"@)
    } else {
        let length = data[cursor] * 256 + data[cursor + 1];
        let start = cursor + 2;
        if start + length > data.len() {
            Err(what + " "@ + decimal(index) + " claims "@ + decimal(length as nat)
                + " bytes, past the end of the record"@)
        } else {
            prefixed(
                seq![data.subrange(start, start + length)],
                sets_from(data, start + length, index + 1, count, what),
            )
        }
    }
}

/// What an `avcC` record says: the NAL length size, the sequence parameter
/// sets and the picture parameter sets; or why it says nothing.
pub open spec fn spec_parse_avcc(data: Seq<u8>) -> core::result::Result<
    (nat, Seq<Seq<u8>>, Seq<Seq<u8>>),
    Seq<char>,
> {
    if data.len() < 7 {
        Err("an avcC record is at least 7 bytes; this one is "@ + decimal(data.len()))
    } else {
        let nal = (data[4] % 4) as nat + 1;
        if !valid_length_size(nal) {
            Err("avcC claims a "@ + decimal(nal)
                + "-byte NAL length, which is not 1, 2, or 4"@)
        } else {
            match sets_from(data, 6, 0, (data[5] % 32) as nat, "SPS"@) {
                Err(m) => Err(m),
                Ok((sps, at)) => {
                    if at >= data.len() {
                        Err("avcC ends before its PPS count"@)
                    } else {
                        match sets_from(data, at + 1, 0, data[at] as nat, "PPS"@) {
                            Err(m) => Err(m),
                            Ok((pps, _)) => Ok((nal, sps, pps)),
                        }
                    }
                },
            }
        }
    }
}

/// Units joined into one Annex B stream, each behind a four-byte start code.
pub open spec fn annex_join(units: Seq<Seq<u8>>) -> Seq<u8>
    decreases units.len(),
{
    if units.len() == 0 {
        Seq::empty()
    } else {
        annex_join(units.drop_last()) + start_code() + units.last()
    }
}

/// Length-prefixed units from `cursor` on, converted to Annex B, dropping the
/// empty ones.
pub open spec fn lp_decode(data: Seq<u8>, cursor: int, n: nat) -> core::result::Result<Seq<u8>, Seq<char>>
    decreases data.len() - cursor,
    when n > 0 && cursor >= 0
{
    if cursor >= data.len() {
        Ok(Seq::empty())
    } else if cursor + n > data.len() {
        Err("a NAL length field is cut short "@ + decimal((data.len() - cursor) as nat)
            + " bytes from the end"@)
    } else {
        let length = be_value(data.subrange(cursor, cursor + n));
        let start = cursor + n;
        if start + length > data.len() {
            Err("a NAL unit claims "@ + decimal(length) + " bytes with only "@ + decimal(
                (data.len() - start) as nat,
            ) + " left"@)
        } else {
            let piece = if length > 0 {
                start_code() + data.subrange(start, start + length)
            } else {
                Seq::empty()
            };
            prefixed_bytes(piece, lp_decode(data, start + length, n))
        }
    }
}

/// What converting a length-prefixed stream to Annex B gives.
pub open spec fn spec_length_prefixed_to_annex_b(data: Seq<u8>, n: nat) -> core::result::Result<
    Seq<u8>,
    Seq<char>,
> {
    if !valid_length_size(n) {
        Err(bad_length_size_message(n))
    } else {
        lp_decode(data, 0, n)
    }
}

/// Units written behind `n`-byte lengths, or the first unit too long for one.
pub open spec fn lp_encode(units: Seq<Seq<u8>>, n: nat) -> core::result::Result<Seq<u8>, Seq<char>>
    decreases units.len(),
{
    if units.len() == 0 {
        Ok(Seq::empty())
    } else if units[0].len() > length_ceiling(n) {
        Err("a "@ + decimal(units[0].len()) + "-byte NAL unit does not fit in a "@ + decimal(n)
            + "-byte length field"@)
    } else {
        prefixed_bytes(be_bytes(units[0].len(), n) + units[0], lp_encode(units.drop_first(), n))
    }
}

/// Whether a start code begins at `i`.
pub open spec fn start_code_at(data: Seq<u8>, i: int) -> bool {
    0 <= i && i + 3 <= data.len() && data[i] == 0 && data[i + 1] == 0 && data[i + 2] == 1
}

/// Where the units of an Annex B stream begin, scanning from `from`: just past
/// each three-byte start code found, left to right, none overlapping.
pub open spec fn scan_starts(data: Seq<u8>, from: int) -> Seq<int>
    decreases data.len() - from,
    when from >= 0
{
    if from + 3 > data.len() {
        Seq::empty()
    } else if start_code_at(data, from) {
        seq![from + 3] + scan_starts(data, from + 3)
    } else {
        scan_starts(data, from + 1)
    }
}

/// Where the unit beginning at `starts[k]` ends: at the next start code, less
/// the leading zero of a four-byte one; or at the end of the data.
pub open spec fn unit_end(data: Seq<u8>, starts: Seq<int>, k: int) -> int {
    if k + 1 < starts.len() {
        let code = starts[k + 1] - 3;
        if code > 0 && data[code - 1] == 0 {
            code - 1
        } else {
            code
        }
    } else {
        data.len() as int
    }
}

/// The non-empty units from the `k`th start on.
pub open spec fn units_from(data: Seq<u8>, starts: Seq<int>, k: int) -> Seq<Seq<u8>>
    decreases starts.len() - k,
    when k >= 0
{
    if k >= starts.len() {
        Seq::empty()
    } else {
        let rest = units_from(data, starts, k + 1);
        if unit_end(data, starts, k) > starts[k] {
            seq![data.subrange(starts[k], unit_end(data, starts, k))] + rest
        } else {
            rest
        }
    }
}

/// The NAL units of an Annex B stream, without their start codes.
pub open spec fn spec_annex_b_units(data: Seq<u8>) -> Seq<Seq<u8>> {
    units_from(data, scan_starts(data, 0), 0)
}

/// What converting an Annex B stream to length-prefixed units gives.
pub open spec fn spec_annex_b_to_length_prefixed(data: Seq<u8>, n: nat) -> core::result::Result<
    Seq<u8>,
    Seq<char>,
> {
    if !valid_length_size(n) {
        Err(bad_length_size_message(n))
    } else {
        lp_encode(spec_annex_b_units(data), n)
    }
}

/// Whether `e` is the decoding error this module raises, with this message.
pub open spec fn is_malformed(e: Error, message: Seq<char>) -> bool {
    is_decode_error(e, Encoding::H264, message)
}

/// The error a bitstream that does not parse is reported with.
fn malformed(reason: String) -> (e: Error)
    ensures
        is_malformed(e, reason@),
{
    Error::Decode { encoding: Encoding::H264, reason }
}

/// The parameter sets and NAL length size out of an `avcC` record.
#[derive(Clone, Debug, PartialEq, Eq)]
pub struct AvcConfig {
    /// How many bytes each NAL unit's length field takes: 1, 2, or 4.
    pub nal_length_size: usize,
    /// Sequence parameter sets — the picture's dimensions, profile, and level.
    pub sequence_parameter_sets: Vec<Vec<u8>>,
    /// Picture parameter sets.
    pub picture_parameter_sets: Vec<Vec<u8>>,
}

impl AvcConfig {
    /// The record as the contracts see it.
    pub open spec fn model(&self) -> (nat, Seq<Seq<u8>>, Seq<Seq<u8>>) {
        (
            self.nal_length_size as nat,
            sets_view(self.sequence_parameter_sets@),
            sets_view(self.picture_parameter_sets@),
        )
    }

    /// Parses an `avcC` decoder configuration record.
    ///
    /// # Errors
    ///
    /// [`Error::Decode`] if the record is truncated or claims a NAL length size
    /// the format does not allow.
    pub fn parse(data: &[u8]) -> (r: Result<AvcConfig>)
        ensures
            match spec_parse_avcc(data@) {
                Ok(m) => r matches Ok(c) && c.model() == m,
                Err(message) => r matches Err(e) && is_malformed(e, message),
            },
    {
        // version, profile, compatibility, level, length size, SPS count.
        if data.len() < 7 {
            let mut reason = String::from_str("an avcC record is at least 7 bytes; this one is ");
            push_decimal(&mut reason, data.len() as u64);
            return Err(malformed(reason));
        }
        // The low two bits of byte 4, plus one. The upper six are reserved ones.
        let low = data[4] & 0b11;
        proof {
            let b = data@[4];
            assert(b & 3 == b % 4) by (bit_vector);
        }
        let nal_length_size = low as usize + 1;
        // 3 is legal to write down and no encoder produces it; refusing it here
        // is cheaper than a decoder misreading every length.
        if nal_length_size == 3 {
            let mut reason = String::from_str("avcC claims a ");
            push_decimal(&mut reason, nal_length_size as u64);
            reason.append("-byte NAL length, which is not 1, 2, or 4");
            return Err(malformed(reason));
        }
        let mut cursor: usize = 5;
        // Five bits of count, three of reserved ones.
        let sps_count = (data[cursor] & 0b0001_1111) as usize;
        proof {
            let b = data@[5];
            assert(b & 31 == b % 32) by (bit_vector);
        }
        cursor = cursor + 1;
        let sequence_parameter_sets = match read_sets(data, &mut cursor, sps_count, "SPS") {
            Ok(sets) => sets,
            Err(e) => return Err(e),
        };
        if cursor >= data.len() {
            return Err(malformed(String::from_str("avcC ends before its PPS count")));
        }
        let pps_count = data[cursor] as usize;
        cursor = cursor + 1;
        let picture_parameter_sets = match read_sets(data, &mut cursor, pps_count, "PPS") {
            Ok(sets) => sets,
            Err(e) => return Err(e),
        };
        Ok(AvcConfig { nal_length_size, sequence_parameter_sets, picture_parameter_sets })
    }

    /// The parameter sets as an Annex B stream, ready to be pushed into a
    /// decoder ahead of the first frame.
    pub fn to_annex_b(&self) -> (out: Vec<u8>)
        ensures
            out@ == annex_join(self.model().1 + self.model().2),
    {
        let mut output: Vec<u8> = Vec::new();
        let ghost all = self.model().1 + self.model().2;
        let mut i: usize = 0;
        while i < self.sequence_parameter_sets.len()
            invariant
                all == self.model().1 + self.model().2,
                i <= self.sequence_parameter_sets@.len(),
                output@ == annex_join(all.subrange(0, i as int)),
            decreases self.sequence_parameter_sets@.len() - i,
        {
            push_unit(&mut output, self.sequence_parameter_sets[i].as_slice());
            proof {
                let next = all.subrange(0, i + 1);
                assert(next.drop_last() =~= all.subrange(0, i as int));
            }
            i = i + 1;
        }
        let first = self.sequence_parameter_sets.len();
        let mut j: usize = 0;
        while j < self.picture_parameter_sets.len()
            invariant
                all == self.model().1 + self.model().2,
                first == self.model().1.len(),
                j <= self.picture_parameter_sets@.len(),
                output@ == annex_join(all.subrange(0, first + j)),
            decreases self.picture_parameter_sets@.len() - j,
        {
            push_unit(&mut output, self.picture_parameter_sets[j].as_slice());
            proof {
                let next = all.subrange(0, first + j + 1);
                assert(next.drop_last() =~= all.subrange(0, first + j));
                assert(next.last() == self.model().2[j as int]);
            }
            j = j + 1;
        }
        proof {
            assert(all.subrange(0, all.len() as int) =~= all);
        }
        output
    }
}

/// Appends a start code and then `unit`.
fn push_unit(output: &mut Vec<u8>, unit: &[u8])
    ensures
        final(output)@ == old(output)@ + start_code() + unit@,
{
    output.push(0);
    output.push(0);
    output.push(0);
    output.push(1);
    let mut i: usize = 0;
    let ghost base = old(output)@ + start_code();
    proof {
        assert(output@ =~= base);
    }
    while i < unit.len()
        invariant
            i <= unit@.len(),
            output@ == base + unit@.subrange(0, i as int),
        decreases unit@.len() - i,
    {
        output.push(unit[i]);
        i = i + 1;
        proof {
            assert(output@ =~= base + unit@.subrange(0, i as int));
        }
    }
    proof {
        assert(unit@.subrange(0, unit@.len() as int) =~= unit@);
    }
}

/// A copy of `data[start..end]`.
fn copy_range(data: &[u8], start: usize, end: usize) -> (v: Vec<u8>)
    requires
        start <= end <= data@.len(),
    ensures
        v@ == data@.subrange(start as int, end as int),
{
    let mut v: Vec<u8> = Vec::new();
    let mut i: usize = start;
    while i < end
        invariant
            start <= i <= end <= data@.len(),
            v@ == data@.subrange(start as int, i as int),
        decreases end - i,
    {
        v.push(data[i]);
        i = i + 1;
        proof {
            assert(v@ =~= data@.subrange(start as int, i as int));
        }
    }
    v
}

/// Reads a run of `u16`-length-prefixed parameter sets.
fn read_sets(data: &[u8], cursor: &mut usize, count: usize, what: &str) -> (r: Result<Vec<Vec<u8>>>)
    requires
        *old(cursor) <= data@.len(),
    ensures
        match sets_from(data@, *old(cursor) as int, 0, count as nat, what@) {
            Ok((sets, at)) => r matches Ok(v) && sets_view(v@) == sets && *final(cursor) == at,
            Err(message) => r matches Err(e) && is_malformed(e, message),
        },
{
    let ghost whole = sets_from(data@, *old(cursor) as int, 0, count as nat, what@);
    let mut sets: Vec<Vec<u8>> = Vec::new();
    let mut index: usize = 0;
    while index < count
        invariant
            *cursor <= data@.len(),
            index <= count,
            whole == sets_from(data@, *old(cursor) as int, 0, count as nat, what@),
            whole == prefixed(
                sets_view(sets@),
                sets_from(data@, *cursor as int, index as nat, count as nat, what@),
            ),
        decreases count - index,
    {
        if data.len() - *cursor < 2 {
            let mut reason = String::from_str("avcC ends inside ");
            reason.append(what);
            reason.append(" ");
            push_decimal(&mut reason, index as u64);
            reason.append("'s length");
            return Err(malformed(reason));
        }
        let length = (data[*cursor] as usize) * 256 + data[*cursor + 1] as usize;
        *cursor = *cursor + 2;
        if length > data.len() - *cursor {
            let mut reason = String::from_str(what);
            reason.append(" ");
            push_decimal(&mut reason, index as u64);
            reason.append(" claims ");
            push_decimal(&mut reason, length as u64);
            reason.append(" bytes, past the end of the record");
            return Err(malformed(reason));
        }
        let end = *cursor + length;
        let set = copy_range(data, *cursor, end);
        proof {
            let rest = sets_from(data@, end as int, (index + 1) as nat, count as nat, what@);
            let done = sets_view(sets@);
            match rest {
                Ok((more, at)) => {
                    assert(done + (seq![set@] + more) =~= (done + seq![set@]) + more);
                },
                Err(_) => {},
            }
        }
        let ghost before = sets@;
        sets.push(set);
        proof {
            assert(sets_view(sets@) =~= sets_view(before) + seq![set@]) by {
                assert(sets@ =~= before.push(set));
            }
        }
        *cursor = end;
        index = index + 1;
    }
    Ok(sets)
}

/// The error an unusable NAL length size is reported with.
fn bad_length_size(n: usize) -> (e: Error)
    ensures
        is_malformed(e, bad_length_size_message(n as nat)),
{
    let mut reason = String::from_str("a NAL length field is 1, 2, or 4 bytes, not ");
    push_decimal(&mut reason, n as u64);
    malformed(reason)
}

/// The largest value `k` bytes hold.
spec fn fill_limit(k: nat) -> nat {
    if k == 0 {
        0
    } else if k == 1 {
        0xFF
    } else if k == 2 {
        0xFFFF
    } else if k == 3 {
        0xFF_FFFF
    } else {
        0xFFFF_FFFF
    }
}

/// The big-endian number in `data[at..at + n]`.
fn read_be(data: &[u8], at: usize, n: usize) -> (v: u64)
    requires
        1 <= n <= 4,
        at + n <= data@.len(),
    ensures
        v == be_value(data@.subrange(at as int, at + n)),
        v <= 0xFFFF_FFFF,
{
    let mut value: u64 = 0;
    let mut i: usize = 0;
    while i < n
        invariant
            n <= 4,
            at + n <= data.len(),
            i <= n,
            value == be_value(data@.subrange(at as int, at + i)),
            value <= fill_limit(i as nat),
        decreases n - i,
    {
        proof {
            let next = data@.subrange(at as int, at + i + 1);
            assert(next.drop_last() =~= data@.subrange(at as int, at + i));
        }
        value = value * 256 + data[at + i] as u64;
        i = i + 1;
    }
    value
}

/// Turns length-prefixed NAL units into an Annex B stream.
///
/// # Errors
///
/// [`Error::Decode`] if a length field runs past the end of the data, which is
/// the shape a truncated or hostile sample takes.
pub fn length_prefixed_to_annex_b(data: &[u8], nal_length_size: usize) -> (r: Result<Vec<u8>>)
    ensures
        match spec_length_prefixed_to_annex_b(data@, nal_length_size as nat) {
            Ok(out) => r matches Ok(v) && v@ == out,
            Err(message) => r matches Err(e) && is_malformed(e, message),
        },
{
    let n = nal_length_size;
    if !(n == 1 || n == 2 || n == 4) {
        return Err(bad_length_size(n));
    }
    let ghost whole = lp_decode(data@, 0, n as nat);
    let mut output: Vec<u8> = Vec::new();
    let mut cursor: usize = 0;
    while cursor < data.len()
        invariant
            n == nal_length_size,
            n == 1 || n == 2 || n == 4,
            cursor <= data@.len(),
            whole == lp_decode(data@, 0, n as nat),
            whole == prefixed_bytes(output@, lp_decode(data@, cursor as int, n as nat)),
        decreases data@.len() - cursor,
    {
        if data.len() - cursor < n {
            let mut reason = String::from_str("a NAL length field is cut short ");
            push_decimal(&mut reason, (data.len() - cursor) as u64);
            reason.append(" bytes from the end");
            proof {
                assert(lp_decode(data@, cursor as int, n as nat) == Err::<Seq<u8>, Seq<char>>(
                    reason@,
                ));
            }
            return Err(malformed(reason));
        }
        let length = read_be(data, cursor, n);
        cursor = cursor + n;
        if length > (data.len() - cursor) as u64 {
            let mut reason = String::from_str("a NAL unit claims ");
            push_decimal(&mut reason, length);
            reason.append(" bytes with only ");
            push_decimal(&mut reason, (data.len() - cursor) as u64);
            reason.append(" left");
            proof {
                let at = (cursor - n) as int;
                assert(data@.subrange(at, at + n) == data@.subrange(at, cursor as int));
                assert(lp_decode(data@, at, n as nat) == Err::<Seq<u8>, Seq<char>>(reason@));
            }
            return Err(malformed(reason));
        }
        let end = cursor + length as usize;
        let ghost before = output@;
        // A zero-length NAL unit is legal padding in some muxers; writing a
        // start code with nothing after it would confuse the decoder more
        // than skipping it does.
        if length > 0 {
            push_unit(&mut output, vstd::slice::slice_subrange(data, cursor, end));
        }
        proof {
            let piece = if length > 0 {
                start_code() + data@.subrange(cursor as int, end as int)
            } else {
                Seq::empty()
            };
            assert(output@ =~= before + piece);
            match lp_decode(data@, end as int, n as nat) {
                Ok(more) => {
                    assert(before + (piece + more) =~= (before + piece) + more);
                },
                Err(_) => {},
            }
        }
        cursor = end;
    }
    proof {
        assert(output@ + Seq::<u8>::empty() =~= output@);
    }
    Ok(output)
}

/// Appends `v` as `n` big-endian bytes.
fn push_be(output: &mut Vec<u8>, v: u64, n: usize)
    requires
        n == 1 || n == 2 || n == 4,
    ensures
        final(output)@ == old(output)@ + be_bytes(v as nat, n as nat),
{
    let q1 = v / 256;
    let q2 = q1 / 256;
    let q3 = q2 / 256;
    proof {
        reveal_with_fuel(be_bytes, 5);
    }
    if n == 4 {
        output.push((q3 % 256) as u8);
        output.push((q2 % 256) as u8);
    }
    if n >= 2 {
        output.push((q1 % 256) as u8);
    }
    output.push((v % 256) as u8);
    proof {
        assert(final(output)@ =~= old(output)@ + be_bytes(v as nat, n as nat));
    }
}

/// Turns an Annex B stream into length-prefixed NAL units.
///
/// # Errors
///
/// [`Error::Decode`] if a NAL unit is longer than `nal_length_size` can
/// express — a 2-byte length cannot describe a 70 KB keyframe.
pub fn annex_b_to_length_prefixed(data: &[u8], nal_length_size: usize) -> (r: Result<Vec<u8>>)
    ensures
        match spec_annex_b_to_length_prefixed(data@, nal_length_size as nat) {
            Ok(out) => r matches Ok(v) && v@ == out,
            Err(message) => r matches Err(e) && is_malformed(e, message),
        },
{
    let n = nal_length_size;
    if !(n == 1 || n == 2 || n == 4) {
        return Err(bad_length_size(n));
    }
    let units = annex_b_units(data);
    let ghost all = units@.map_values(|u: &[u8]| u@);
    let ceiling: usize = if n == 1 {
        0xFF
    } else if n == 2 {
        0xFFFF
    } else {
        0xFFFF_FFFF
    };
    let mut output: Vec<u8> = Vec::new();
    let mut i: usize = 0;
    proof {
        assert(all.subrange(0, all.len() as int) =~= all);
    }
    while i < units.len()
        invariant
            n == nal_length_size,
            n == 1 || n == 2 || n == 4,
            ceiling == length_ceiling(n as nat),
            all == units@.map_values(|u: &[u8]| u@),
            all == spec_annex_b_units(data@),
            i <= all.len(),
            lp_encode(all, n as nat) == prefixed_bytes(
                output@,
                lp_encode(all.subrange(i as int, all.len() as int), n as nat),
            ),
        decreases all.len() - i,
    {
        let unit = units[i];
        let length = unit.len();
        let ghost tail = all.subrange(i as int, all.len() as int);
        proof {
            assert(tail[0] == unit@);
            assert(tail.drop_first() =~= all.subrange(i + 1, all.len() as int));
        }
        if length > ceiling {
            let mut reason = String::from_str("a ");
            push_decimal(&mut reason, length as u64);
            reason.append("-byte NAL unit does not fit in a ");
            push_decimal(&mut reason, n as u64);
            reason.append("-byte length field");
            proof {
                assert(lp_encode(tail, n as nat) == Err::<Seq<u8>, Seq<char>>(reason@));
            }
            return Err(malformed(reason));
        }
        let ghost before = output@;
        push_be(&mut output, length as u64, n);
        let mut k: usize = 0;
        let ghost mid = output@;
        while k < length
            invariant
                length == unit@.len(),
                k <= length,
                output@ == mid + unit@.subrange(0, k as int),
            decreases length - k,
        {
            output.push(unit[k]);
            k = k + 1;
            proof {
                assert(output@ =~= mid + unit@.subrange(0, k as int));
            }
        }
        proof {
            let piece = be_bytes(length as nat, n as nat) + unit@;
            assert(unit@.subrange(0, length as int) =~= unit@);
            assert(output@ =~= before + piece);
            match lp_encode(all.subrange(i + 1, all.len() as int), n as nat) {
                Ok(more) => {
                    assert(before + (piece + more) =~= (before + piece) + more);
                },
                Err(_) => {},
            }
        }
        i = i + 1;
    }
    proof {
        assert(all.subrange(i as int, all.len() as int) =~= Seq::<Seq<u8>>::empty());
        assert(output@ + Seq::<u8>::empty() =~= output@);
    }
    Ok(output)
}

/// Facts about where a scan finds units: each lies past a start code, inside
/// the data, and at least a start code's length after the one before.
proof fn lemma_scan_starts(data: Seq<u8>, from: int)
    requires
        from >= 0,
    ensures
        forall|i: int|
            0 <= i < scan_starts(data, from).len() ==> from + 3 <= #[trigger] scan_starts(data, from)[i]
                <= data.len() && start_code_at(data, scan_starts(data, from)[i] - 3),
        forall|i: int, j: int|
            0 <= i < j < scan_starts(data, from).len() ==> scan_starts(data, from)[i] + 3
                <= scan_starts(data, from)[j],
    decreases data.len() - from,
{
    if from + 3 > data.len() {
        assert(scan_starts(data, from) =~= Seq::<int>::empty());
    } else if start_code_at(data, from) {
        lemma_scan_starts(data, from + 3);
        let s = scan_starts(data, from);
        let rest = scan_starts(data, from + 3);
        assert(s == seq![from + 3] + rest);
        assert(s[0] == from + 3);
        assert forall|i: int, j: int| 0 <= i < j < s.len() implies s[i] + 3 <= s[j] by {
            if i > 0 {
                assert(s[i] == rest[i - 1]);
            }
            assert(s[j] == rest[j - 1]);
        }
        assert forall|i: int| 0 <= i < s.len() implies from + 3 <= #[trigger] s[i] <= data.len()
            && start_code_at(data, s[i] - 3) by {
            if i > 0 {
                assert(s[i] == rest[i - 1]);
            }
        }
    } else {
        lemma_scan_starts(data, from + 1);
        assert(scan_starts(data, from) == scan_starts(data, from + 1));
    }
}

/// The NAL units of an Annex B stream, without their start codes.
///
/// Handles both the three- and four-byte start codes, which appear in the same
/// file: muxers use four before parameter sets and three elsewhere.
pub fn annex_b_units(data: &[u8]) -> (units: Vec<&[u8]>)
    ensures
        units@.map_values(|u: &[u8]| u@) == spec_annex_b_units(data@),
{
    let n = data.len();
    let ghost all_starts = scan_starts(data@, 0);
    let mut starts: Vec<usize> = Vec::new();
    let mut index: usize = 0;
    while n >= 3 && index <= n - 3
        invariant
            n == data@.len(),
            index <= n,
            all_starts == scan_starts(data@, 0),
            all_starts == starts@.map_values(|s: usize| s as int) + scan_starts(data@, index as int),
        decreases n - index,
    {
        if data[index] == 0 && data[index + 1] == 0 && data[index + 2] == 1 {
            let ghost before = starts@.map_values(|s: usize| s as int);
            starts.push(index + 3);
            proof {
                let rest = scan_starts(data@, index + 3);
                assert(starts@.map_values(|s: usize| s as int) =~= before + seq![index + 3]);
                assert(before + (seq![index + 3] + rest) =~= (before + seq![index + 3]) + rest);
            }
            index = index + 3;
        } else {
            index = index + 1;
        }
    }
    proof {
        assert(starts@.map_values(|s: usize| s as int) + scan_starts(data@, index as int)
            =~= starts@.map_values(|s: usize| s as int));
        lemma_scan_starts(data@, 0);
    }
    let ghost ints = starts@.map_values(|s: usize| s as int);
    let mut units: Vec<&[u8]> = Vec::new();
    let mut k: usize = 0;
    while k < starts.len()
        invariant
            n == data@.len(),
            ints == starts@.map_values(|s: usize| s as int),
            ints == scan_starts(data@, 0),
            k <= starts@.len(),
            forall|i: int| 0 <= i < ints.len() ==> 3 <= #[trigger] ints[i] <= n && start_code_at(data@, ints[i] - 3),
            forall|i: int, j: int| 0 <= i < j < ints.len() ==> ints[i] + 3 <= ints[j],
            spec_annex_b_units(data@) == units@.map_values(|u: &[u8]| u@) + units_from(data@, ints, k as int),
        decreases starts@.len() - k,
    {
        let start = starts[k];
        // The start code of the next unit belongs to neither, and it may be
        // three bytes or four: the fourth is a leading zero that is part of
        // the code rather than of this unit's payload.
        let end = if k + 1 < starts.len() {
            let code = starts[k + 1] - 3;
            if code > 0 && data[code - 1] == 0 {
                code - 1
            } else {
                code
            }
        } else {
            n
        };
        proof {
            assert(ints[k as int] == start);
            if k + 1 < starts.len() {
                assert(ints[k + 1] == starts@[k + 1]);
            }
            assert(end == unit_end(data@, ints, k as int));
        }
        let ghost before = units@.map_values(|u: &[u8]| u@);
        let ghost rest = units_from(data@, ints, k + 1);
        if end > start {
            let unit = vstd::slice::slice_subrange(data, start, end);
            units.push(unit);
            proof {
                assert(units@.map_values(|u: &[u8]| u@) =~= before + seq![unit@]);
                assert(before + (seq![unit@] + rest) =~= (before + seq![unit@]) + rest);
            }
        }
        k = k + 1;
    }
    proof {
        assert(units@.map_values(|u: &[u8]| u@) + Seq::<Seq<u8>>::empty() =~= units@.map_values(|u: &[u8]| u@));
    }
    units
}

/// Whether no start code appears anywhere inside `u`.
pub open spec fn free_of_start_codes(u: Seq<u8>) -> bool {
    forall|j: int| !#[trigger] start_code_at(u, j)
}

/// Units that survive a trip through either bitstream shape: none empty, none
/// holding a start code, none too long for an `n`-byte length.
pub open spec fn transportable(units: Seq<Seq<u8>>, n: nat) -> bool {
    forall|i: int|
        0 <= i < units.len() ==> #[trigger] units[i].len() > 0 && units[i].len() <= length_ceiling(n)
            && free_of_start_codes(units[i])
}

/// Units written behind `n`-byte big-endian lengths.
pub open spec fn lp_join(units: Seq<Seq<u8>>, n: nat) -> Seq<u8>
    decreases units.len(),
{
    if units.len() == 0 {
        Seq::empty()
    } else {
        be_bytes(units[0].len(), n) + units[0] + lp_join(units.drop_first(), n)
    }
}

/// Where the units of a joined Annex B stream begin.
spec fn join_starts(units: Seq<Seq<u8>>) -> Seq<int>
    decreases units.len(),
{
    if units.len() == 0 {
        Seq::empty()
    } else {
        seq![4int] + join_starts(units.drop_first()).map_values(
            |x: int| x + 4 + units[0].len(),
        )
    }
}

/// `256` to the `n`.
spec fn pow256(n: nat) -> nat
    decreases n,
{
    if n == 0 {
        1
    } else {
        256 * pow256((n - 1) as nat)
    }
}

proof fn lemma_annex_join_front(units: Seq<Seq<u8>>)
    requires
        units.len() > 0,
    ensures
        annex_join(units) == start_code() + units[0] + annex_join(units.drop_first()),
    decreases units.len(),
{
    if units.len() == 1 {
        assert(units.drop_last() =~= Seq::<Seq<u8>>::empty());
        assert(units.drop_first() =~= Seq::<Seq<u8>>::empty());
        assert(annex_join(units) =~= start_code() + units[0] + annex_join(units.drop_first()));
    } else {
        let front = units.drop_last();
        lemma_annex_join_front(front);
        assert(front.drop_first() =~= units.drop_first().drop_last());
        assert(units.drop_first().last() == units.last());
        assert(front[0] == units[0]);
        assert(annex_join(units) =~= start_code() + units[0] + annex_join(units.drop_first()));
    }
}

proof fn lemma_be_round_trip(v: nat, n: nat)
    requires
        v < pow256(n),
    ensures
        be_value(be_bytes(v, n)) == v,
        be_bytes(v, n).len() == n,
    decreases n,
{
    if n > 0 {
        let p = pow256((n - 1) as nat);
        assert(v / 256 < p) by (nonlinear_arith)
            requires
                v < 256 * p,
        ;
        lemma_be_round_trip(v / 256, (n - 1) as nat);
        let b = be_bytes(v, n);
        assert(b.drop_last() =~= be_bytes(v / 256, (n - 1) as nat));
    } else {
        assert(v == 0);
    }
}

proof fn lemma_ceiling_fits(n: nat)
    requires
        valid_length_size(n),
    ensures
        length_ceiling(n) < pow256(n),
{
    reveal_with_fuel(pow256, 5);
}

proof fn lemma_lp_decode_shift(p: Seq<u8>, d: Seq<u8>, c: int, n: nat)
    requires
        n > 0,
        c >= 0,
    ensures
        lp_decode(p + d, p.len() + c, n) == lp_decode(d, c, n),
    decreases d.len() - c,
{
    let whole = p + d;
    let at = p.len() + c;
    if c >= d.len() {
    } else if c + n > d.len() {
    } else {
        assert(whole.subrange(at, at + n) =~= d.subrange(c, c + n));
        let length = be_value(d.subrange(c, c + n));
        let start = c + n;
        if start + length <= d.len() {
            assert(whole.subrange(at + n, at + n + length) =~= d.subrange(start, start + length));
            lemma_lp_decode_shift(p, d, start + length, n);
        }
    }
}

proof fn lemma_lp_decode_join(units: Seq<Seq<u8>>, n: nat)
    requires
        valid_length_size(n),
        transportable(units, n),
    ensures
        lp_decode(lp_join(units, n), 0, n) == Ok::<Seq<u8>, Seq<char>>(annex_join(units)),
        lp_encode(units, n) == Ok::<Seq<u8>, Seq<char>>(lp_join(units, n)),
    decreases units.len(),
{
    if units.len() == 0 {
        assert(annex_join(units) =~= Seq::<u8>::empty());
    } else {
        let u = units[0];
        let rest = units.drop_first();
        assert(transportable(rest, n)) by {
            assert forall|i: int| 0 <= i < rest.len() implies #[trigger] rest[i].len() > 0
                && rest[i].len() <= length_ceiling(n) && free_of_start_codes(rest[i]) by {
                assert(rest[i] == units[i + 1]);
            }
        }
        lemma_lp_decode_join(rest, n);
        assert(u.len() > 0 && u.len() <= length_ceiling(n));
        lemma_ceiling_fits(n);
        lemma_be_round_trip(u.len(), n);
        let head = be_bytes(u.len(), n);
        let data = lp_join(units, n);
        let tail = lp_join(rest, n);
        assert(data == head + u + tail);
        assert(data.subrange(0, n as int) =~= head);
        assert(data.subrange(n as int, (n + u.len()) as int) =~= u);
        lemma_lp_decode_shift(head + u, tail, 0, n);
        assert((head + u) + tail =~= data);
        lemma_annex_join_front(units);
        assert(start_code() + u + annex_join(rest) =~= (start_code() + u) + annex_join(rest));
    }
}

proof fn lemma_scan_skip(data: Seq<u8>, a: int, b: int)
    requires
        0 <= a <= b,
        forall|j: int| a <= j < b ==> !#[trigger] start_code_at(data, j),
    ensures
        scan_starts(data, a) == scan_starts(data, b),
    decreases b - a,
{
    if a < b {
        assert(!start_code_at(data, a));
        lemma_scan_skip(data, a + 1, b);
        if a + 3 > data.len() {
            assert(scan_starts(data, a) =~= Seq::<int>::empty());
            assert(scan_starts(data, b) =~= Seq::<int>::empty());
        }
    }
}

proof fn lemma_scan_shift(p: Seq<u8>, d: Seq<u8>, c: int)
    requires
        c >= 0,
    ensures
        scan_starts(p + d, p.len() + c) == scan_starts(d, c).map_values(|x: int| x + p.len()),
    decreases d.len() - c,
{
    let whole = p + d;
    let at = p.len() + c;
    if c + 3 > d.len() {
        assert(scan_starts(d, c).map_values(|x: int| x + p.len()) =~= Seq::<int>::empty());
    } else {
        assert(whole[at] == d[c] && whole[at + 1] == d[c + 1] && whole[at + 2] == d[c + 2]);
        if start_code_at(d, c) {
            lemma_scan_shift(p, d, c + 3);
            assert(scan_starts(d, c).map_values(|x: int| x + p.len()) =~= seq![at + 3]
                + scan_starts(d, c + 3).map_values(|x: int| x + p.len()));
        } else {
            lemma_scan_shift(p, d, c + 1);
        }
    }
}

proof fn lemma_join_starts_bounds(units: Seq<Seq<u8>>)
    ensures
        forall|i: int|
            0 <= i < join_starts(units).len() ==> #[trigger] join_starts(units)[i] >= 4,
        join_starts(units).len() == units.len(),
    decreases units.len(),
{
    if units.len() > 0 {
        lemma_join_starts_bounds(units.drop_first());
        let js = join_starts(units);
        let rest = join_starts(units.drop_first());
        assert forall|i: int| 0 <= i < js.len() implies #[trigger] js[i] >= 4 by {
            if i > 0 {
                assert(js[i] == rest[i - 1] + 4 + units[0].len());
            }
        }
    }
}

proof fn lemma_scan_join(units: Seq<Seq<u8>>)
    requires
        forall|i: int|
            0 <= i < units.len() ==> #[trigger] units[i].len() > 0 && free_of_start_codes(units[i]),
    ensures
        scan_starts(annex_join(units), 0) == join_starts(units),
    decreases units.len(),
{
    let data = annex_join(units);
    if units.len() == 0 {
        assert(scan_starts(data, 0) =~= Seq::<int>::empty());
    } else {
        let u = units[0];
        let rest = units.drop_first();
        assert forall|i: int| 0 <= i < rest.len() implies #[trigger] rest[i].len() > 0
            && free_of_start_codes(rest[i]) by {
            assert(rest[i] == units[i + 1]);
        }
        lemma_scan_join(rest);
        lemma_annex_join_front(units);
        let tail = annex_join(rest);
        let head = start_code() + u;
        assert(data =~= head + tail);
        let d = (4 + u.len()) as int;
        // The four-byte code: nothing at 0, a match at 1.
        assert(!start_code_at(data, 0));
        assert(start_code_at(data, 1));
        assert(scan_starts(data, 1) == seq![4int] + scan_starts(data, 4));
        assert(scan_starts(data, 0) == scan_starts(data, 1));
        // Through the unit: no start code begins inside it.
        assert forall|j: int| 4 <= j < d implies !#[trigger] start_code_at(data, j) by {
            if j + 3 <= d {
                assert(data[j] == u[j - 4] && data[j + 1] == u[j - 3] && data[j + 2] == u[j - 2]);
                assert(!start_code_at(u, j - 4));
            } else if j + 3 <= data.len() {
                if rest.len() > 0 {
                    lemma_annex_join_front(rest);
                    assert(tail[0] == 0 && tail[1] == 0);
                    assert(data[j + 2] == tail[j + 2 - d]);
                }
            }
        }
        lemma_scan_skip(data, 4, d);
        lemma_scan_shift(head, tail, 0);
        assert(scan_starts(data, 0) =~= join_starts(units));
    }
}

proof fn lemma_units_shift(p: Seq<u8>, d: Seq<u8>, s: Seq<int>, t: Seq<int>, k: int)
    requires
        0 <= k,
        t.len() == s.len() + 1,
        forall|i: int| 0 <= i < s.len() ==> #[trigger] t[i + 1] == s[i] + p.len(),
        forall|i: int| 0 <= i < s.len() ==> 4 <= #[trigger] s[i] <= d.len(),
    ensures
        units_from(p + d, t, k + 1) == units_from(d, s, k),
    decreases s.len() - k,
{
    let whole = p + d;
    if k < s.len() {
        lemma_units_shift(p, d, s, t, k + 1);
        assert(t[k + 1] == s[k] + p.len());
        if k + 1 < s.len() {
            assert(t[k + 2] == s[k + 1] + p.len());
            let code = s[k + 1] - 3;
            assert(whole[p.len() + code - 1] == d[code - 1]);
            assert(unit_end(whole, t, k + 1) == unit_end(d, s, k) + p.len());
        } else {
            assert(unit_end(whole, t, k + 1) == unit_end(d, s, k) + p.len());
        }
        if unit_end(d, s, k) > s[k] {
            assert(whole.subrange(t[k + 1], unit_end(whole, t, k + 1)) =~= d.subrange(
                s[k],
                unit_end(d, s, k),
            ));
        }
    }
}

proof fn lemma_units_join(units: Seq<Seq<u8>>)
    requires
        forall|i: int|
            0 <= i < units.len() ==> #[trigger] units[i].len() > 0 && free_of_start_codes(units[i]),
    ensures
        units_from(annex_join(units), join_starts(units), 0) == units,
    decreases units.len(),
{
    let data = annex_join(units);
    if units.len() == 0 {
        assert(units_from(data, join_starts(units), 0) =~= units);
    } else {
        let u = units[0];
        let rest = units.drop_first();
        assert forall|i: int| 0 <= i < rest.len() implies #[trigger] rest[i].len() > 0
            && free_of_start_codes(rest[i]) by {
            assert(rest[i] == units[i + 1]);
        }
        lemma_units_join(rest);
        lemma_annex_join_front(units);
        let tail = annex_join(rest);
        let head = start_code() + u;
        assert(data =~= head + tail);
        let js = join_starts(units);
        let rs = join_starts(rest);
        lemma_join_starts_bounds(rest);
        lemma_scan_join(rest);
        lemma_scan_starts(tail, 0);
        assert forall|i: int| 0 <= i < rs.len() implies 4 <= #[trigger] rs[i] <= tail.len() by {
            assert(rs[i] == scan_starts(tail, 0)[i]);
        }
        assert forall|i: int| 0 <= i < rs.len() implies #[trigger] js[i + 1] == rs[i] + head.len() by {}
        lemma_units_shift(head, tail, rs, js, 0);
        let d = head.len() as int;
        if rest.len() > 0 {
            lemma_annex_join_front(rest);
            assert(js[1] == rs[0] + d);
            assert(data[d] == tail[0]);
            assert(unit_end(data, js, 0) == d);
        } else {
            assert(unit_end(data, js, 0) == d);
        }
        assert(data.subrange(4, d) =~= u);
        assert(units_from(data, js, 0) =~= units);
    }
}

/// A scan misses no start code: every one at or past `from` is where some unit
/// the scan finds begins, less the code's three bytes.
proof fn lemma_scan_complete(data: Seq<u8>, from: int, j: int)
    requires
        0 <= from <= j,
        start_code_at(data, j),
    ensures
        exists|i: int|
            0 <= i < scan_starts(data, from).len() && #[trigger] scan_starts(data, from)[i] == j + 3,
    decreases data.len() - from,
{
    let s = scan_starts(data, from);
    if start_code_at(data, from) {
        let rest = scan_starts(data, from + 3);
        assert(s == seq![from + 3] + rest);
        if j == from {
            assert(s[0] == j + 3);
        } else {
            // No start code begins inside another.
            assert(j >= from + 3);
            lemma_scan_complete(data, from + 3, j);
            let i = choose|i: int| 0 <= i < rest.len() && #[trigger] rest[i] == j + 3;
            assert(s[i + 1] == rest[i]);
        }
    } else {
        lemma_scan_complete(data, from + 1, j);
        assert(s == scan_starts(data, from + 1));
    }
}

/// Each unit `units_from` gives is the stretch from some start to its end, and
/// not an empty one.
proof fn lemma_units_from_shape(data: Seq<u8>, starts: Seq<int>, k: int)
    requires
        0 <= k,
    ensures
        forall|i: int|
            0 <= i < units_from(data, starts, k).len() ==> exists|kk: int|
                k <= kk < starts.len() && unit_end(data, starts, kk) > starts[kk]
                    && #[trigger] units_from(data, starts, k)[i] == data.subrange(
                    starts[kk],
                    unit_end(data, starts, kk),
                ),
    decreases starts.len() - k,
{
    if k < starts.len() {
        lemma_units_from_shape(data, starts, k + 1);
        let rest = units_from(data, starts, k + 1);
        let here = units_from(data, starts, k);
        if unit_end(data, starts, k) > starts[k] {
            let unit = data.subrange(starts[k], unit_end(data, starts, k));
            assert(here == seq![unit] + rest);
            assert forall|i: int| 0 <= i < here.len() implies exists|kk: int|
                k <= kk < starts.len() && unit_end(data, starts, kk) > starts[kk]
                    && #[trigger] here[i] == data.subrange(starts[kk], unit_end(data, starts, kk)) by {
                if i == 0 {
                    assert(here[0] == unit);
                } else {
                    assert(here[i] == rest[i - 1]);
                }
            }
        } else {
            assert(here == rest);
        }
    }
}

/// Whatever the input, every unit found in it is non-empty and holds no start
/// code.
pub proof fn lemma_units_are_clean(data: Seq<u8>)
    ensures
        forall|i: int|
            0 <= i < spec_annex_b_units(data).len() ==> #[trigger] spec_annex_b_units(data)[i].len()
                > 0 && free_of_start_codes(spec_annex_b_units(data)[i]),
{
    let starts = scan_starts(data, 0);
    let units = spec_annex_b_units(data);
    lemma_scan_starts(data, 0);
    lemma_units_from_shape(data, starts, 0);
    assert forall|i: int| 0 <= i < units.len() implies #[trigger] units[i].len() > 0
        && free_of_start_codes(units[i]) by {
        let k = choose|kk: int|
            0 <= kk < starts.len() && unit_end(data, starts, kk) > starts[kk]
                && #[trigger] units[i] == data.subrange(starts[kk], unit_end(data, starts, kk));
        let end = unit_end(data, starts, k);
        if k + 1 < starts.len() {
            assert(starts[k] + 3 <= starts[k + 1]);
            assert(end <= starts[k + 1] - 3);
        }
        assert(end <= data.len());
        let u = units[i];
        assert(u.len() == end - starts[k]);
        assert forall|j: int| !#[trigger] start_code_at(u, j) by {
            if start_code_at(u, j) {
                let p = starts[k] + j;
                assert(data[p] == u[j] && data[p + 1] == u[j + 1] && data[p + 2] == u[j + 2]);
                assert(start_code_at(data, p));
                lemma_scan_complete(data, 0, p);
                let m = choose|m: int| 0 <= m < starts.len() && #[trigger] starts[m] == p + 3;
                if m < k {
                    assert(starts[m] + 3 <= starts[k]);
                } else if m == k {
                } else {
                    if m > k + 1 {
                        assert(starts[k + 1] + 3 <= starts[m]);
                    }
                    assert(starts[k + 1] <= starts[m]);
                }
            }
        }
    }
}

/// Splitting an Annex B stream finds exactly the units that were joined into
/// it: start codes come off whole, and nothing else is dropped, split or
/// merged, for any units that are non-empty and hold no start code, however
/// long. (A unit's own trailing zero bytes stay with it.)
pub proof fn lemma_annex_b_split_round_trip(units: Seq<Seq<u8>>)
    requires
        forall|i: int|
            0 <= i < units.len() ==> #[trigger] units[i].len() > 0 && free_of_start_codes(units[i]),
    ensures
        spec_annex_b_units(annex_join(units)) == units,
{
    lemma_scan_join(units);
    lemma_units_join(units);
}

/// Length-prefixed units survive the trip to Annex B and back: converting the
/// length-prefixed stream gives the units behind start codes, the units read
/// back out of that stream are the same units, and converting it back gives
/// the length-prefixed stream it started as. The units must be non-empty,
/// free of start codes and short enough for the length field.
pub proof fn lemma_bitstream_round_trip(units: Seq<Seq<u8>>, n: nat)
    requires
        valid_length_size(n),
        transportable(units, n),
    ensures
        lp_encode(units, n) == Ok::<Seq<u8>, Seq<char>>(lp_join(units, n)),
        spec_length_prefixed_to_annex_b(lp_join(units, n), n) == Ok::<Seq<u8>, Seq<char>>(
            annex_join(units),
        ),
        spec_annex_b_units(annex_join(units)) == units,
        spec_annex_b_to_length_prefixed(annex_join(units), n) == Ok::<Seq<u8>, Seq<char>>(
            lp_join(units, n),
        ),
{
    lemma_lp_decode_join(units, n);
    assert forall|i: int| 0 <= i < units.len() implies #[trigger] units[i].len() > 0
        && free_of_start_codes(units[i]) by {}
    lemma_scan_join(units);
    lemma_units_join(units);
}

/// The parameter sets written out as Annex B come back out of it one for one,
/// provided none is empty and none holds a start code.
pub proof fn lemma_parameter_sets_come_back(config: AvcConfig)
    requires
        forall|i: int|
            0 <= i < config.model().1.len() + config.model().2.len() ==> #[trigger] (config.model().1
                + config.model().2)[i].len() > 0 && free_of_start_codes(
                (config.model().1 + config.model().2)[i],
            ),
    ensures
        spec_annex_b_units(annex_join(config.model().1 + config.model().2)) == config.model().1
            + config.model().2,
{
    let all = config.model().1 + config.model().2;
    lemma_scan_join(all);
    lemma_units_join(all);
}

/// The start code a unit is written behind: four bytes, or three.
pub open spec fn code_of(four: bool) -> Seq<u8> {
    if four {
        start_code()
    } else {
        seq![0u8, 0u8, 1u8]
    }
}

/// Units joined into one Annex B stream, each behind the start code its flag
/// names: `true` for the four-byte code, `false` for the three-byte one.
pub open spec fn mixed_join(units: Seq<(bool, Seq<u8>)>) -> Seq<u8>
    decreases units.len(),
{
    if units.len() == 0 {
        Seq::empty()
    } else {
        code_of(units[0].0) + units[0].1 + mixed_join(units.drop_first())
    }
}

/// Units that come back out of a stream with both kinds of start code: none
/// empty, none holding a start code, and none that ends in a zero byte right
/// before a three-byte code, where that zero would read as the first byte of
/// a four-byte one.
pub open spec fn separable(units: Seq<(bool, Seq<u8>)>) -> bool {
    forall|i: int|
        0 <= i < units.len() ==> #[trigger] units[i].1.len() > 0 && free_of_start_codes(units[i].1) && (
        i + 1 < units.len() && !units[i + 1].0 ==> units[i].1.last() != 0)
}

/// Where the units of a mixed stream begin.
spec fn mixed_starts(units: Seq<(bool, Seq<u8>)>) -> Seq<int>
    decreases units.len(),
{
    if units.len() == 0 {
        Seq::empty()
    } else {
        let head = code_of(units[0].0).len() as int;
        seq![head] + mixed_starts(units.drop_first()).map_values(
            |x: int| x + head + units[0].1.len(),
        )
    }
}

proof fn lemma_separable_rest(units: Seq<(bool, Seq<u8>)>)
    requires
        units.len() > 0,
        separable(units),
    ensures
        separable(units.drop_first()),
{
    let rest = units.drop_first();
    assert forall|i: int| 0 <= i < rest.len() implies #[trigger] rest[i].1.len() > 0
        && free_of_start_codes(rest[i].1) && (i + 1 < rest.len() && !rest[i + 1].0
        ==> rest[i].1.last() != 0) by {
        assert(rest[i] == units[i + 1]);
        if i + 1 < rest.len() {
            assert(rest[i + 1] == units[i + 2]);
        }
    }
}

proof fn lemma_mixed_starts_bounds(units: Seq<(bool, Seq<u8>)>)
    ensures
        forall|i: int|
            0 <= i < mixed_starts(units).len() ==> #[trigger] mixed_starts(units)[i] >= 3,
        mixed_starts(units).len() == units.len(),
    decreases units.len(),
{
    if units.len() > 0 {
        lemma_mixed_starts_bounds(units.drop_first());
        let ms = mixed_starts(units);
        let rest = mixed_starts(units.drop_first());
        let head = code_of(units[0].0).len() as int;
        assert forall|i: int| 0 <= i < ms.len() implies #[trigger] ms[i] >= 3 by {
            if i > 0 {
                assert(ms[i] == rest[i - 1] + head + units[0].1.len());
            }
        }
    }
}

proof fn lemma_scan_mixed(units: Seq<(bool, Seq<u8>)>)
    requires
        separable(units),
    ensures
        scan_starts(mixed_join(units), 0) == mixed_starts(units),
    decreases units.len(),
{
    let data = mixed_join(units);
    if units.len() == 0 {
        assert(scan_starts(data, 0) =~= Seq::<int>::empty());
    } else {
        let four = units[0].0;
        let u = units[0].1;
        let rest = units.drop_first();
        lemma_separable_rest(units);
        lemma_scan_mixed(rest);
        let tail = mixed_join(rest);
        let head = code_of(four) + u;
        assert(data =~= head + tail);
        let c = code_of(four).len() as int;
        let d = c + u.len();
        if four {
            assert(!start_code_at(data, 0));
            assert(start_code_at(data, 1));
            assert(scan_starts(data, 1) == seq![4int] + scan_starts(data, 4));
            assert(scan_starts(data, 0) == scan_starts(data, 1));
        } else {
            assert(start_code_at(data, 0));
            assert(scan_starts(data, 0) == seq![3int] + scan_starts(data, 3));
        }
        assert forall|j: int| c <= j < d implies !#[trigger] start_code_at(data, j) by {
            if j + 3 <= d {
                assert(data[j] == u[j - c] && data[j + 1] == u[j - c + 1] && data[j + 2] == u[j - c
                    + 2]);
                assert(!start_code_at(u, j - c));
            } else if j + 3 <= data.len() {
                assert(rest.len() > 0);
                assert(tail =~= code_of(rest[0].0) + rest[0].1 + mixed_join(rest.drop_first()));
                assert(tail[0] == 0 && tail[1] == 0);
                assert(data[j + 2] == tail[j + 2 - d]);
            }
        }
        lemma_scan_skip(data, c, d);
        lemma_scan_shift(head, tail, 0);
        assert(scan_starts(data, 0) =~= mixed_starts(units));
    }
}

proof fn lemma_units_mixed(units: Seq<(bool, Seq<u8>)>)
    requires
        separable(units),
    ensures
        units_from(mixed_join(units), mixed_starts(units), 0) == units.map_values(
            |p: (bool, Seq<u8>)| p.1,
        ),
    decreases units.len(),
{
    let data = mixed_join(units);
    let bodies = units.map_values(|p: (bool, Seq<u8>)| p.1);
    if units.len() == 0 {
        assert(units_from(data, mixed_starts(units), 0) =~= bodies);
    } else {
        let four = units[0].0;
        let u = units[0].1;
        let rest = units.drop_first();
        lemma_separable_rest(units);
        lemma_units_mixed(rest);
        let tail = mixed_join(rest);
        let head = code_of(four) + u;
        assert(data =~= head + tail);
        let ms = mixed_starts(units);
        let rs = mixed_starts(rest);
        let c = code_of(four).len() as int;
        let d = head.len() as int;
        lemma_mixed_starts_bounds(rest);
        lemma_scan_mixed(rest);
        lemma_scan_starts(tail, 0);
        assert forall|i: int| 0 <= i < rs.len() implies 4 <= #[trigger] rs[i] + 1 && rs[i]
            <= tail.len() by {
            assert(rs[i] == scan_starts(tail, 0)[i]);
        }
        assert forall|i: int| 0 <= i < rs.len() implies #[trigger] ms[i + 1] == rs[i] + head.len() by {
        }
        lemma_units_shift_mixed(head, tail, rs, ms, 0);
        if rest.len() > 0 {
            assert(tail =~= code_of(rest[0].0) + rest[0].1 + mixed_join(rest.drop_first()));
            assert(ms[1] == rs[0] + d);
            if rest[0].0 {
                assert(rs[0] == 4);
                assert(data[d] == tail[0]);
                assert(unit_end(data, ms, 0) == d);
            } else {
                assert(rs[0] == 3);
                assert(u.last() != 0);
                assert(data[d - 1] == u.last());
                assert(unit_end(data, ms, 0) == d);
            }
        } else {
            assert(unit_end(data, ms, 0) == d);
        }
        assert(data.subrange(c, d) =~= u);
        assert(units_from(data, ms, 0) =~= bodies);
    }
}

proof fn lemma_units_shift_mixed(p: Seq<u8>, d: Seq<u8>, s: Seq<int>, t: Seq<int>, k: int)
    requires
        0 <= k,
        p.len() >= 3,
        t.len() == s.len() + 1,
        forall|i: int| 0 <= i < s.len() ==> #[trigger] t[i + 1] == s[i] + p.len(),
        forall|i: int| 0 <= i < s.len() ==> 4 <= #[trigger] s[i] + 1 && s[i] <= d.len(),
    ensures
        units_from(p + d, t, k + 1) == units_from(d, s, k),
    decreases s.len() - k,
{
    let whole = p + d;
    if k < s.len() {
        lemma_units_shift_mixed(p, d, s, t, k + 1);
        assert(t[k + 1] == s[k] + p.len());
        if k + 1 < s.len() {
            assert(t[k + 2] == s[k + 1] + p.len());
            let code = s[k + 1] - 3;
            if code > 0 {
                assert(whole[p.len() + code - 1] == d[code - 1]);
            } else {
                assert(whole[p.len() + code - 1] == p[p.len() - 1]);
            }
            assert(unit_end(whole, t, k + 1) == unit_end(d, s, k) + p.len() || (code == 0));
        }
        if unit_end(d, s, k) > s[k] {
            assert(whole.subrange(t[k + 1], unit_end(whole, t, k + 1)) =~= d.subrange(
                s[k],
                unit_end(d, s, k),
            ));
        }
    }
}

/// Both kinds of start code are understood, in the same stream: units joined
/// behind any mix of three- and four-byte codes come back one for one, provided
/// none is empty, none holds a start code, and none ends in a zero byte just
/// before a three-byte code (that zero is read as the first byte of a
/// four-byte code).
pub proof fn lemma_mixed_start_codes_come_back(units: Seq<(bool, Seq<u8>)>)
    requires
        separable(units),
    ensures
        spec_annex_b_units(mixed_join(units)) == units.map_values(|p: (bool, Seq<u8>)| p.1),
{
    lemma_scan_mixed(units);
    lemma_units_mixed(units);
}

} // verus!
