//! The binary container of the VSOP2013 series coefficients.
//!
//! The container starts with a 24-byte header: the magic `PKVSOP13`, the
//! format version `1` as a little-endian `u32` at offset 8 and the number of
//! series groups `54` at offset 20. Groups follow until the end of the data;
//! each has an 8-byte header (planet `1..=9`, variable `1..=6`, power of time
//! `alpha`, one unused byte and the little-endian `u32` term count) followed by
//! that many 40-byte encoded terms.
use vstd::prelude::*;

use crate::error::{PykepError, Result};

verus! {

/// Size of the container header.
pub const HEADER_SIZE: usize = 24;
/// Size of a group header.
pub const GROUP_HEADER_SIZE: usize = 8;
/// Size of an encoded term.
pub const ENCODED_TERM_SIZE: usize = 40;

/// The little-endian unsigned 32-bit integer at `start`.
pub open spec fn le_u32(data: Seq<u8>, start: int) -> int {
    data[start] + 256 * data[start + 1] + 65536 * data[start + 2] + 16777216 * data[start + 3]
}

/// The two's-complement value of a little-endian integer of `width` bytes
/// whose unsigned value is `unsigned`.
pub open spec fn signed(unsigned: int, width: nat) -> int {
    let modulus = if width == 1 { 256int } else if width == 2 { 65536int } else { 4294967296int };
    if unsigned >= modulus / 2 { unsigned - modulus } else { unsigned }
}

/// A group of encoded terms of one planet, variable and power of time.
#[derive(Clone, Copy, Debug, PartialEq, Eq, Structural)]
pub struct CoefficientGroup {
    /// Variable index `1..=6`.
    pub variable: u8,
    /// Power of time that multiplies the group's terms.
    pub alpha: u8,
    /// Offset of the group's first encoded term.
    pub first_term: usize,
    /// Number of encoded terms.
    pub term_count: usize,
}

/// Whether `error` is the data error for `dataset`.
pub open spec fn is_data_error(error: PykepError, dataset: Seq<char>) -> bool {
    error matches PykepError::DataUnavailable { dataset: d } && d@ == dataset
}

/// The groups of `planet` among the groups that start at `cursor`, in
/// container order, or the dataset name of the first defect found.
pub open spec fn planet_groups(data: Seq<u8>, cursor: int, planet: int) -> core::result::Result<
    Seq<CoefficientGroup>,
    Seq<char>,
>
    decreases data.len() - cursor,
{
    if cursor < 0 || cursor >= data.len() {
        Ok(Seq::empty())
    } else if cursor + 8 > data.len() {
        Err("VSOP2013 embedded coefficient range"@)
    } else {
        let group_planet = data[cursor];
        let variable = data[cursor + 1];
        let count = le_u32(data, cursor + 4);
        let next = cursor + 8 + count * 40;
        if !(1 <= group_planet <= 9 && 1 <= variable <= 6) {
            Err("VSOP2013 embedded coefficient group"@)
        } else if next > data.len() {
            Err("VSOP2013 embedded coefficient range"@)
        } else {
            match planet_groups(data, next, planet) {
                Err(defect) => Err(defect),
                Ok(rest) => if group_planet == planet {
                    Ok(
                        seq![
                            CoefficientGroup {
                                variable: variable,
                                alpha: data[cursor + 2],
                                first_term: (cursor + 8) as usize,
                                term_count: count as usize,
                            },
                        ] + rest,
                    )
                } else {
                    Ok(rest)
                },
            }
        }
    }
}

/// Whether the container header is present and names format version 1 with 54 groups.
pub open spec fn has_valid_header(data: Seq<u8>) -> bool {
    &&& data.len() >= 24
    &&& data.subrange(0, 8) == seq![80u8, 75u8, 86u8, 83u8, 79u8, 80u8, 49u8, 51u8]
    &&& le_u32(data, 8) == 1
    &&& le_u32(data, 20) == 54
}

/// Whether some group belongs to `variable`.
pub open spec fn has_variable(groups: Seq<CoefficientGroup>, variable: int) -> bool {
    exists|i: int| 0 <= i < groups.len() && groups[i].variable == variable
}

/// Whether every one of the six variables has at least one group.
pub open spec fn covers_all_variables(groups: Seq<CoefficientGroup>) -> bool {
    &&& has_variable(groups, 1)
    &&& has_variable(groups, 2)
    &&& has_variable(groups, 3)
    &&& has_variable(groups, 4)
    &&& has_variable(groups, 5)
    &&& has_variable(groups, 6)
}

/// The groups of `planet` in the container, or the dataset name of its first defect.
pub open spec fn decoded_planet(data: Seq<u8>, planet: int) -> core::result::Result<
    Seq<CoefficientGroup>,
    Seq<char>,
> {
    if !has_valid_header(data) {
        Err("VSOP2013 embedded coefficient header"@)
    } else {
        match planet_groups(data, 24, planet) {
            Err(defect) => Err(defect),
            Ok(groups) => if covers_all_variables(groups) {
                Ok(groups)
            } else {
                Err("VSOP2013 embedded coefficients"@)
            },
        }
    }
}

/// The bytes `data[start..start + length]`.
pub fn slice(data: &[u8], start: usize, length: usize) -> (result: Result<&[u8]>)
    requires
        start + length <= usize::MAX,
    ensures
        start + length <= data@.len() ==> result is Ok && result->Ok_0@ == data@.subrange(
            start as int,
            start + length,
        ),
        start + length > data@.len() ==> result is Err && is_data_error(
            result->Err_0,
            "VSOP2013 embedded coefficient range"@,
        ),
{
    if start + length <= data.len() {
        Ok(vstd::slice::slice_subrange(data, start, start + length))
    } else {
        Err(PykepError::DataUnavailable { dataset: "VSOP2013 embedded coefficient range" })
    }
}

/// The little-endian unsigned 32-bit integer at `start`.
pub fn read_u32(data: &[u8], start: usize) -> (result: Result<u32>)
    requires
        start + 4 <= usize::MAX,
    ensures
        start + 4 <= data@.len() ==> result is Ok && result->Ok_0 == le_u32(data@, start as int),
        start + 4 > data@.len() ==> result is Err && is_data_error(
            result->Err_0,
            "VSOP2013 embedded coefficient range"@,
        ),
{
    let bytes = slice(data, start, 4)?;
    Ok(bytes[0] as u32 + 256 * bytes[1] as u32 + 65536 * bytes[2] as u32 + 16777216 * bytes[3] as u32)
}

/// Offset of encoded term `index` of `group`: `first_term + 40 * index`.
///
/// # Errors
///
/// Returns the range error when the term would end beyond `usize::MAX`.
pub fn term_start(group: &CoefficientGroup, index: usize) -> (result: Result<usize>)
    ensures
        ({
            let start = group.first_term + 40 * index;
            &&& start + 40 <= usize::MAX ==> result == Ok::<usize, PykepError>(start as usize)
            &&& start + 40 > usize::MAX ==> result is Err && is_data_error(
                result->Err_0,
                "VSOP2013 embedded coefficient range"@,
            )
        }),
{
    let offset = match index.checked_mul(ENCODED_TERM_SIZE) {
        Some(offset) => offset,
        None => return Err(data_error("VSOP2013 embedded coefficient range")),
    };
    let start = match offset.checked_add(group.first_term) {
        Some(start) => start,
        None => return Err(data_error("VSOP2013 embedded coefficient range")),
    };
    if start > usize::MAX - ENCODED_TERM_SIZE {
        return Err(data_error("VSOP2013 embedded coefficient range"));
    }
    Ok(start)
}

/// `groups` followed by the outcome `rest` of the remaining container.
pub open spec fn after_groups(
    groups: Seq<CoefficientGroup>,
    rest: core::result::Result<Seq<CoefficientGroup>, Seq<char>>,
) -> core::result::Result<Seq<CoefficientGroup>, Seq<char>> {
    match rest {
        Ok(tail) => Ok(groups + tail),
        Err(defect) => Err(defect),
    }
}

fn data_error(dataset: &'static str) -> (error: PykepError)
    ensures
        is_data_error(error, dataset@),
{
    PykepError::DataUnavailable { dataset }
}

/// Locates the coefficient groups of planet `planet_index` (1 = Mercury, ...,
/// 9 = Pluto) in a VSOP2013 container, validating the header and the layout
/// of every group.
pub fn decode_planet(data: &[u8], planet_index: u8) -> (result: Result<Vec<CoefficientGroup>>)
    ensures
        match decoded_planet(data@, planet_index as int) {
            Ok(groups) => result is Ok && result->Ok_0@ == groups,
            Err(defect) => result is Err && is_data_error(result->Err_0, defect),
        },
{
    let length = data.len();
    if length < HEADER_SIZE || !(data[0] == 80 && data[1] == 75 && data[2] == 86 && data[3] == 83
        && data[4] == 79 && data[5] == 80 && data[6] == 49 && data[7] == 51) {
        proof {
            if length >= HEADER_SIZE && data@.subrange(0, 8) == seq![80u8, 75u8, 86u8, 83u8, 79u8, 80u8, 49u8, 51u8] {
                assert(data@[0] == data@.subrange(0, 8)[0]);
                assert(data@[1] == data@.subrange(0, 8)[1]);
                assert(data@[2] == data@.subrange(0, 8)[2]);
                assert(data@[3] == data@.subrange(0, 8)[3]);
                assert(data@[4] == data@.subrange(0, 8)[4]);
                assert(data@[5] == data@.subrange(0, 8)[5]);
                assert(data@[6] == data@.subrange(0, 8)[6]);
                assert(data@[7] == data@.subrange(0, 8)[7]);
            }
        }
        return Err(data_error("VSOP2013 embedded coefficient header"));
    }
    proof {
        assert(data@.subrange(0, 8) =~= seq![80u8, 75u8, 86u8, 83u8, 79u8, 80u8, 49u8, 51u8]);
    }
    if read_u32(data, 8)? != 1 || read_u32(data, 20)? != 54 {
        return Err(data_error("VSOP2013 embedded coefficient header"));
    }
    let mut groups: Vec<CoefficientGroup> = Vec::new();
    let mut seen = [false, false, false, false, false, false];
    let mut cursor = HEADER_SIZE;
    while cursor < length
        invariant
            HEADER_SIZE <= cursor <= length == data@.len(),
            has_valid_header(data@),
            planet_groups(data@, 24, planet_index as int) == after_groups(
                groups@,
                planet_groups(data@, cursor as int, planet_index as int),
            ),
            forall|k: int| 0 <= k < 6 ==> seen[k] == has_variable(groups@, k + 1),
        decreases length - cursor,
    {
        if length - cursor < GROUP_HEADER_SIZE {
            return Err(data_error("VSOP2013 embedded coefficient range"));
        }
        let planet = data[cursor];
        let variable = data[cursor + 1];
        let alpha = data[cursor + 2];
        let count = read_u32(data, cursor + 4)?;
        if !(1 <= planet && planet <= 9) || !(1 <= variable && variable <= 6) {
            return Err(data_error("VSOP2013 embedded coefficient group"));
        }
        let next = cursor as u128 + GROUP_HEADER_SIZE as u128 + count as u128 * ENCODED_TERM_SIZE as u128;
        if next > length as u128 {
            return Err(data_error("VSOP2013 embedded coefficient range"));
        }
        let ghost previous = groups@;
        if planet == planet_index {
            let group = CoefficientGroup {
                variable,
                alpha,
                first_term: cursor + GROUP_HEADER_SIZE,
                term_count: count as usize,
            };
            groups.push(group);
            let index = (variable - 1) as usize;
            seen[index] = true;
            proof {
                assert(groups@ == previous + seq![group]);
                assert forall|k: int| 0 <= k < 6 implies seen[k] == has_variable(groups@, k + 1) by {
                    if k == variable - 1 {
                        assert(groups@[previous.len() as int].variable == k + 1);
                    } else if has_variable(groups@, k + 1) {
                        let i = choose|i: int| 0 <= i < groups@.len() && groups@[i].variable == k + 1;
                        assert(i < previous.len());
                        assert(previous[i].variable == k + 1);
                    }
                    if has_variable(previous, k + 1) {
                        let i = choose|i: int| 0 <= i < previous.len() && previous[i].variable == k + 1;
                        assert(groups@[i].variable == k + 1);
                    }
                }
                assert(previous + (seq![group] + planet_groups(data@, next as int, planet_index as int)->Ok_0)
                    =~= groups@ + planet_groups(data@, next as int, planet_index as int)->Ok_0);
            }
        }
        cursor = next as usize;
    }
    proof {
        assert(planet_groups(data@, cursor as int, planet_index as int) == Ok::<Seq<CoefficientGroup>, Seq<char>>(Seq::empty()));
        assert(groups@ + Seq::<CoefficientGroup>::empty() =~= groups@);
    }
    if !(seen[0] && seen[1] && seen[2] && seen[3] && seen[4] && seen[5]) {
        return Err(data_error("VSOP2013 embedded coefficients"));
    }
    Ok(groups)
}

/// The 17 integer multipliers of the fundamental arguments of an encoded term:
/// nine `i8` (Mercury to Neptune), four little-endian `i16`, one little-endian
/// `i32`, and three `i8` (the lunar and precession arguments).
pub open spec fn term_multipliers(encoded: Seq<u8>) -> Seq<int> {
    let byte = |i: int| signed(encoded[i] as int, 1);
    let short = |i: int| signed(encoded[i] + 256 * encoded[i + 1], 2);
    seq![
        byte(0),
        byte(1),
        byte(2),
        byte(3),
        byte(4),
        byte(5),
        byte(6),
        byte(7),
        byte(8),
        short(12),
        short(14),
        short(16),
        short(18),
        signed(le_u32(encoded, 20), 4),
        byte(9),
        byte(10),
        byte(11),
    ]
}

fn signed_byte(byte: u8) -> (value: i32)
    ensures
        value == signed(byte as int, 1),
{
    if byte >= 128 {
        byte as i32 - 256
    } else {
        byte as i32
    }
}

fn signed_short(low: u8, high: u8) -> (value: i32)
    ensures
        value == signed(low + 256 * high, 2),
{
    let unsigned = low as i32 + 256 * high as i32;
    if unsigned >= 32768 {
        unsigned - 65536
    } else {
        unsigned
    }
}

/// Decodes the integer multipliers of an encoded term.
pub fn decode_multipliers(encoded: &[u8]) -> (multipliers: [i32; 17])
    requires
        encoded@.len() >= 24,
    ensures
        forall|i: int| 0 <= i < 17 ==> multipliers@[i] == term_multipliers(encoded@)[i],
{
    let word = encoded[20] as i64 + 256 * encoded[21] as i64 + 65536 * encoded[22] as i64 + 16777216
        * encoded[23] as i64;
    let long: i32 = if word >= 2147483648 {
        (word - 4294967296) as i32
    } else {
        word as i32
    };
    let multipliers = [
        signed_byte(encoded[0]),
        signed_byte(encoded[1]),
        signed_byte(encoded[2]),
        signed_byte(encoded[3]),
        signed_byte(encoded[4]),
        signed_byte(encoded[5]),
        signed_byte(encoded[6]),
        signed_byte(encoded[7]),
        signed_byte(encoded[8]),
        signed_short(encoded[12], encoded[13]),
        signed_short(encoded[14], encoded[15]),
        signed_short(encoded[16], encoded[17]),
        signed_short(encoded[18], encoded[19]),
        long,
        signed_byte(encoded[9]),
        signed_byte(encoded[10]),
        signed_byte(encoded[11]),
    ];
    proof {
        let expected = term_multipliers(encoded@);
        assert forall|i: int| 0 <= i < 17 implies multipliers@[i] == expected[i] by {
        }
    }
    multipliers
}

/// Each multiplier of an encoded term is the two's-complement reading of its
/// little-endian bytes: bytes `0..9` and `9..12` are single signed bytes for
/// multipliers `0..9` and `14..17`, byte pairs `12..20` are the signed 16-bit
/// multipliers `9..13`, and bytes `20..24` are the signed 32-bit multiplier
/// `13`. Each value lies in its width's signed range and agrees with the
/// unsigned reading of its bytes modulo `2^width`.
pub proof fn law_multipliers_are_twos_complement(encoded: Seq<u8>)
    requires
        encoded.len() >= 24,
    ensures
        term_multipliers(encoded).len() == 17,
        forall|i: int|
            0 <= i < 9 ==> {
                let m = #[trigger] term_multipliers(encoded)[i];
                &&& -128 <= m < 128
                &&& (m - encoded[i]) % 256 == 0
            },
        forall|j: int|
            0 <= j < 3 ==> {
                let m = #[trigger] term_multipliers(encoded)[14 + j];
                &&& -128 <= m < 128
                &&& (m - encoded[9 + j]) % 256 == 0
            },
        forall|j: int|
            0 <= j < 4 ==> {
                let m = #[trigger] term_multipliers(encoded)[9 + j];
                &&& -32768 <= m < 32768
                &&& (m - (encoded[12 + 2 * j] + 256 * encoded[13 + 2 * j])) % 65536 == 0
            },
        ({
            let m = term_multipliers(encoded)[13];
            let word = encoded[20] + 256 * encoded[21] + 65536 * encoded[22] + 16777216
                * encoded[23];
            &&& -2147483648 <= m < 2147483648
            &&& (m - word) % 4294967296 == 0
        }),
{
    let t = term_multipliers(encoded);
    assert forall|j: int| 0 <= j < 4 implies {
        let m = #[trigger] t[9 + j];
        &&& -32768 <= m < 32768
        &&& (m - (encoded[12 + 2 * j] + 256 * encoded[13 + 2 * j])) % 65536 == 0
    } by {
        if j == 0 {
            assert(t[9] == signed(encoded[12] + 256 * encoded[13], 2));
        } else if j == 1 {
            assert(t[10] == signed(encoded[14] + 256 * encoded[15], 2));
        } else if j == 2 {
            assert(t[11] == signed(encoded[16] + 256 * encoded[17], 2));
        } else {
            assert(t[12] == signed(encoded[18] + 256 * encoded[19], 2));
        }
    }
    assert forall|j: int| 0 <= j < 3 implies {
        let m = #[trigger] t[14 + j];
        &&& -128 <= m < 128
        &&& (m - encoded[9 + j]) % 256 == 0
    } by {
        if j == 0 {
            assert(t[14] == signed(encoded[9] as int, 1));
        } else if j == 1 {
            assert(t[15] == signed(encoded[10] as int, 1));
        } else {
            assert(t[16] == signed(encoded[11] as int, 1));
        }
    }
}

/// Whether `group` is what the 8-byte group header just before its terms
/// says of a group of `planet`: the header names the planet, the variable and
/// the power of time, its little-endian count is the term count, and all the
/// terms lie within the data.
pub open spec fn group_matches_header(data: Seq<u8>, planet: int, group: CoefficientGroup) -> bool {
    let t = group.first_term as int;
    &&& 8 <= t
    &&& t + 40 * group.term_count <= data.len()
    &&& data[t - 8] == planet
    &&& data[t - 7] == group.variable
    &&& data[t - 6] == group.alpha
    &&& 1 <= group.variable <= 6
    &&& data[t - 4] + 256 * data[t - 3] + 65536 * data[t - 2] + 16777216 * data[t - 1]
        == group.term_count
}

/// Every group found from `cursor` on matches its own header, and the groups
/// come in container order without overlapping.
proof fn lemma_planet_groups_match_headers(data: Seq<u8>, cursor: int, planet: int)
    requires
        data.len() <= usize::MAX,
    ensures
        planet_groups(data, cursor, planet) is Ok ==> {
            let groups = planet_groups(data, cursor, planet)->Ok_0;
            &&& forall|i: int|
                0 <= i < groups.len() ==> group_matches_header(data, planet, #[trigger] groups[i])
                    && cursor + 8 <= groups[i].first_term
            &&& forall|i: int, j: int|
                0 <= i < j < groups.len() ==> #[trigger] groups[i].first_term + 40
                    * groups[i].term_count + 8 <= #[trigger] groups[j].first_term
        },
    decreases data.len() - cursor,
{
    if 0 <= cursor && cursor + 8 <= data.len() {
        let count = le_u32(data, cursor + 4);
        let next = cursor + 8 + count * 40;
        if next <= data.len() && 1 <= data[cursor] <= 9 && 1 <= data[cursor + 1] <= 6 {
            lemma_planet_groups_match_headers(data, next, planet);
            if planet_groups(data, cursor, planet) is Ok {
                let rest = planet_groups(data, next, planet)->Ok_0;
                let groups = planet_groups(data, cursor, planet)->Ok_0;
                if data[cursor] == planet {
                    let g = CoefficientGroup {
                        variable: data[cursor + 1],
                        alpha: data[cursor + 2],
                        first_term: (cursor + 8) as usize,
                        term_count: count as usize,
                    };
                    assert(groups == seq![g] + rest);
                    assert(group_matches_header(data, planet, g));
                    assert forall|i: int|
                        0 <= i < groups.len() implies group_matches_header(
                        data,
                        planet,
                        #[trigger] groups[i],
                    ) && cursor + 8 <= groups[i].first_term by {
                        if i > 0 {
                            assert(groups[i] == rest[i - 1]);
                        }
                    }
                    assert forall|i: int, j: int|
                        0 <= i < j < groups.len() implies #[trigger] groups[i].first_term + 40
                        * groups[i].term_count + 8 <= #[trigger] groups[j].first_term by {
                        assert(groups[j] == rest[j - 1]);
                        if i > 0 {
                            assert(groups[i] == rest[i - 1]);
                        }
                    }
                } else {
                    assert(groups == rest);
                }
            }
        }
    }
}

/// The groups that `decode_planet` reports for `planet` are those the container
/// headers describe: each group's planet, variable, power of time and term
/// count are the bytes of the 8-byte header just before its first term, its
/// terms lie within the data after the container header, and the groups come
/// in container order without overlapping.
pub proof fn law_decoded_groups_follow_their_headers(data: Seq<u8>, planet: int)
    requires
        data.len() <= usize::MAX,
        decoded_planet(data, planet) is Ok,
    ensures
        ({
            let groups = decoded_planet(data, planet)->Ok_0;
            &&& forall|i: int|
                0 <= i < groups.len() ==> group_matches_header(data, planet, #[trigger] groups[i])
                    && 32 <= groups[i].first_term
            &&& forall|i: int, j: int|
                0 <= i < j < groups.len() ==> #[trigger] groups[i].first_term + 40
                    * groups[i].term_count + 8 <= #[trigger] groups[j].first_term
        }),
{
    lemma_planet_groups_match_headers(data, 24, planet);
}

} // verus!
