use pykep_core::ephemeris::vsop2013::{
    decode_multipliers, decode_planet, read_u32, slice, term_start, CoefficientGroup, ENCODED_TERM_SIZE,
    GROUP_HEADER_SIZE, HEADER_SIZE,
};
use pykep_core::PykepError;

fn header() -> Vec<u8> {
    let mut data = b"PKVSOP13".to_vec();
    data.extend_from_slice(&1_u32.to_le_bytes());
    data.extend_from_slice(&[0; 8]);
    data.extend_from_slice(&54_u32.to_le_bytes());
    data
}

fn push_group(data: &mut Vec<u8>, planet: u8, variable: u8, alpha: u8, terms: u32) {
    data.extend_from_slice(&[planet, variable, alpha, 0]);
    data.extend_from_slice(&terms.to_le_bytes());
    data.extend(std::iter::repeat(0xAB).take(terms as usize * ENCODED_TERM_SIZE));
}

fn container() -> Vec<u8> {
    let mut data = header();
    push_group(&mut data, 1, 1, 0, 2);
    for variable in 1..=6 {
        push_group(&mut data, 3, variable, 0, 1);
    }
    push_group(&mut data, 3, 2, 1, 0);
    push_group(&mut data, 9, 6, 4, 3);
    data
}

fn data_error(dataset: &'static str) -> PykepError {
    PykepError::DataUnavailable { dataset }
}

#[test]
fn groups_of_one_planet_are_located_in_container_order() {
    let data = container();
    assert_eq!(HEADER_SIZE, 24);
    let groups = decode_planet(&data, 3).unwrap();
    let mut expected = Vec::new();
    let mut offset = HEADER_SIZE + GROUP_HEADER_SIZE + 2 * ENCODED_TERM_SIZE;
    for variable in 1..=6 {
        expected.push(CoefficientGroup {
            variable,
            alpha: 0,
            first_term: offset + GROUP_HEADER_SIZE,
            term_count: 1,
        });
        offset += GROUP_HEADER_SIZE + ENCODED_TERM_SIZE;
    }
    expected.push(CoefficientGroup {
        variable: 2,
        alpha: 1,
        first_term: offset + GROUP_HEADER_SIZE,
        term_count: 0,
    });
    assert_eq!(groups, expected);
}

#[test]
fn planets_without_every_variable_are_rejected() {
    let data = container();
    assert_eq!(decode_planet(&data, 1), Err(data_error("VSOP2013 embedded coefficients")));
    assert_eq!(decode_planet(&data, 9), Err(data_error("VSOP2013 embedded coefficients")));
    assert_eq!(decode_planet(&data, 5), Err(data_error("VSOP2013 embedded coefficients")));
}

#[test]
fn container_defects_are_reported() {
    let header_error = data_error("VSOP2013 embedded coefficient header");
    assert_eq!(decode_planet(&[], 3), Err(header_error.clone()));
    let mut bad_magic = container();
    bad_magic[0] = b'X';
    assert_eq!(decode_planet(&bad_magic, 3), Err(header_error.clone()));
    let mut bad_version = container();
    bad_version[8] = 2;
    assert_eq!(decode_planet(&bad_version, 3), Err(header_error.clone()));
    let mut bad_count = container();
    bad_count[20] = 53;
    assert_eq!(decode_planet(&bad_count, 3), Err(header_error));

    let mut bad_planet = container();
    push_group(&mut bad_planet, 10, 1, 0, 0);
    assert_eq!(
        decode_planet(&bad_planet, 3),
        Err(data_error("VSOP2013 embedded coefficient group"))
    );
    let mut bad_variable = container();
    push_group(&mut bad_variable, 3, 7, 0, 0);
    assert_eq!(
        decode_planet(&bad_variable, 3),
        Err(data_error("VSOP2013 embedded coefficient group"))
    );

    let range_error = data_error("VSOP2013 embedded coefficient range");
    let mut truncated = container();
    truncated.pop();
    assert_eq!(decode_planet(&truncated, 3), Err(range_error.clone()));
    let mut short_header = container();
    short_header.extend_from_slice(&[3, 1, 0]);
    assert_eq!(decode_planet(&short_header, 3), Err(range_error.clone()));
    let mut huge_count = header();
    huge_count.extend_from_slice(&[2, 1, 0, 0]);
    huge_count.extend_from_slice(&u32::MAX.to_le_bytes());
    assert_eq!(decode_planet(&huge_count, 3), Err(range_error));
}

#[test]
fn little_endian_words_and_slices() {
    let data = [1_u8, 2, 3, 4, 5];
    assert_eq!(read_u32(&data, 0), Ok(0x0403_0201));
    assert_eq!(read_u32(&data, 1), Ok(0x0504_0302));
    assert_eq!(
        read_u32(&data, 2),
        Err(data_error("VSOP2013 embedded coefficient range"))
    );
    assert_eq!(slice(&data, 1, 3), Ok(&data[1..4]));
    assert_eq!(slice(&data, 5, 0), Ok(&data[5..5]));
    assert_eq!(
        slice(&data, 3, 3),
        Err(data_error("VSOP2013 embedded coefficient range"))
    );
}

#[test]
fn term_multipliers_are_sign_extended() {
    let mut encoded = [0_u8; 40];
    for index in 0..9 {
        encoded[index] = (index as i8 - 4) as u8;
    }
    encoded[9] = 0x80;
    encoded[10] = 0x7F;
    encoded[11] = 0xFF;
    encoded[12..14].copy_from_slice(&(-2_i16).to_le_bytes());
    encoded[14..16].copy_from_slice(&i16::MAX.to_le_bytes());
    encoded[16..18].copy_from_slice(&i16::MIN.to_le_bytes());
    encoded[18..20].copy_from_slice(&300_i16.to_le_bytes());
    encoded[20..24].copy_from_slice(&(-123_456_789_i32).to_le_bytes());
    assert_eq!(
        decode_multipliers(&encoded),
        [
            -4, -3, -2, -1, 0, 1, 2, 3, 4, -2, 32_767, -32_768, 300, -123_456_789, -128, 127, -1
        ]
    );
}

#[test]
fn term_offsets_step_by_the_term_size() {
    let group = CoefficientGroup {
        variable: 1,
        alpha: 0,
        first_term: 32,
        term_count: 3,
    };
    assert_eq!(term_start(&group, 0), Ok(32));
    assert_eq!(term_start(&group, 2), Ok(112));
    let range_error = data_error("VSOP2013 embedded coefficient range");
    assert_eq!(term_start(&group, usize::MAX / 40 + 1), Err(range_error.clone()));
    let last = CoefficientGroup {
        first_term: usize::MAX - 40,
        ..group
    };
    assert_eq!(term_start(&last, 0), Ok(usize::MAX - 40));
    let beyond = CoefficientGroup {
        first_term: usize::MAX - 39,
        ..group
    };
    assert_eq!(term_start(&beyond, 0), Err(range_error));
}
