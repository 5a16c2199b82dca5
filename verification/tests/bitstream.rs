use vtome::bitstream::{
    annex_b_to_length_prefixed, annex_b_units, length_prefixed_to_annex_b, AvcConfig,
};
use vtome::Error;

const START_CODE: [u8; 4] = [0, 0, 0, 1];

fn avcc(nal_length_size: u8) -> Vec<u8> {
    let mut record = vec![
        1,                            // version
        0x64,                         // profile: high
        0x00,                         // compatibility
        0x28,                         // level 4.0
        0xFC | (nal_length_size - 1), // reserved ones + length size
        0xE0 | 1,                     // reserved ones + one SPS
    ];

    record.extend_from_slice(&4_u16.to_be_bytes());
    record.extend_from_slice(&[0x67, 0x64, 0x00, 0x28]);
    record.push(1); // one PPS
    record.extend_from_slice(&3_u16.to_be_bytes());
    record.extend_from_slice(&[0x68, 0xEE, 0x38]);

    record
}

#[test]
fn an_avcc_record_gives_up_its_parameter_sets() {
    let config = AvcConfig::parse(&avcc(4)).unwrap();

    assert_eq!(config.nal_length_size, 4);
    assert_eq!(config.sequence_parameter_sets.len(), 1);
    assert_eq!(config.picture_parameter_sets.len(), 1);
    assert_eq!(config.sequence_parameter_sets[0][0], 0x67);

    let annex_b = config.to_annex_b();
    assert_eq!(&annex_b[..4], &START_CODE);
    assert_eq!(annex_b.len(), 4 + 4 + 4 + 3);
}

#[test]
fn a_two_byte_length_size_is_read_from_the_low_bits() {
    let config = AvcConfig::parse(&avcc(2)).unwrap();

    assert_eq!(config.nal_length_size, 2);
}

#[test]
fn a_truncated_avcc_is_refused_rather_than_read_past() {
    assert!(AvcConfig::parse(&[1, 0x64, 0, 0x28]).is_err());

    let mut cut = avcc(4);
    cut.truncate(9);
    assert!(AvcConfig::parse(&cut).is_err());
}

/// A record claiming an SPS longer than the record: the hostile input this
/// parser exists to survive.
#[test]
fn a_parameter_set_claiming_more_than_it_has_is_refused() {
    let mut record = vec![1, 0x64, 0x00, 0x28, 0xFF, 0xE1];
    record.extend_from_slice(&9999_u16.to_be_bytes());
    record.extend_from_slice(&[0x67, 0x64]);

    let Err(Error::Decode { reason, .. }) = AvcConfig::parse(&record) else {
        panic!("that SPS runs off the end");
    };

    assert!(reason.contains("past the end"), "{reason}");
}

#[test]
fn the_two_bitstream_shapes_round_trip() {
    let mut length_prefixed = Vec::new();
    for unit in [vec![0x67, 0x42, 0x00], vec![0x68, 0xCE], vec![0x65; 40]] {
        length_prefixed.extend_from_slice(&(unit.len() as u32).to_be_bytes());
        length_prefixed.extend_from_slice(&unit);
    }

    let annex_b = length_prefixed_to_annex_b(&length_prefixed, 4).unwrap();
    assert_eq!(&annex_b[..4], &START_CODE);

    let back = annex_b_to_length_prefixed(&annex_b, 4).unwrap();
    assert_eq!(back, length_prefixed);
}

#[test]
fn three_and_four_byte_start_codes_are_both_understood() {
    let mut stream = vec![0, 0, 0, 1, 0x67, 0x42];
    stream.extend_from_slice(&[0, 0, 1, 0x68, 0xCE, 0x01]);
    stream.extend_from_slice(&[0, 0, 0, 1, 0x65, 0xAA]);

    let units: Vec<&[u8]> = annex_b_units(&stream);

    assert_eq!(units.len(), 3);
    assert_eq!(units[0], &[0x67, 0x42]);
    assert_eq!(units[1], &[0x68, 0xCE, 0x01]);
    assert_eq!(units[2], &[0x65, 0xAA]);
}

#[test]
fn a_length_running_past_the_data_is_refused() {
    let hostile = [0x00, 0x00, 0xFF, 0xFF, 0x67, 0x42];

    let Err(Error::Decode { reason, .. }) = length_prefixed_to_annex_b(&hostile, 4) else {
        panic!("that NAL claims 65535 bytes and has two");
    };

    assert!(reason.contains("claims"), "{reason}");
}

#[test]
fn a_nal_too_large_for_its_length_field_is_refused() {
    let mut stream = vec![0, 0, 0, 1];
    stream.extend(std::iter::repeat_n(0x65, 300));

    assert!(annex_b_to_length_prefixed(&stream, 1).is_err());
    assert!(annex_b_to_length_prefixed(&stream, 2).is_ok());
}

#[test]
fn zero_length_units_are_skipped_rather_than_written_as_bare_start_codes() {
    let mut stream = Vec::new();
    stream.extend_from_slice(&0_u32.to_be_bytes());
    stream.extend_from_slice(&2_u32.to_be_bytes());
    stream.extend_from_slice(&[0x67, 0x42]);

    let annex_b = length_prefixed_to_annex_b(&stream, 4).unwrap();

    assert_eq!(annex_b, vec![0, 0, 0, 1, 0x67, 0x42]);
}

#[test]
fn an_impossible_length_size_is_refused_both_ways() {
    assert!(length_prefixed_to_annex_b(&[0; 8], 3).is_err());
    assert!(annex_b_to_length_prefixed(&[0, 0, 1, 5], 3).is_err());
}

#[test]
fn every_refusal_says_exactly_what_was_wrong() {
    let Err(Error::Decode { reason, .. }) = AvcConfig::parse(&[1, 2, 3]) else {
        panic!("three bytes are not a record");
    };
    assert_eq!(reason, "an avcC record is at least 7 bytes; this one is 3");

    let mut three = avcc(4);
    three[4] = 0xFE;
    let Err(Error::Decode { reason, .. }) = AvcConfig::parse(&three) else {
        panic!("a three-byte length is refused");
    };
    assert_eq!(reason, "avcC claims a 3-byte NAL length, which is not 1, 2, or 4");

    let Err(Error::Decode { reason, .. }) = length_prefixed_to_annex_b(&[0, 0, 0], 4) else {
        panic!("three bytes are not a four-byte length");
    };
    assert_eq!(reason, "a NAL length field is cut short 3 bytes from the end");

    let Err(Error::Decode { reason, .. }) = length_prefixed_to_annex_b(&[0, 0, 0, 9, 1], 4) else {
        panic!("nine bytes are not there");
    };
    assert_eq!(reason, "a NAL unit claims 9 bytes with only 1 left");

    let Err(Error::Decode { reason, .. }) = length_prefixed_to_annex_b(&[], 3) else {
        panic!("three is not a length size");
    };
    assert_eq!(reason, "a NAL length field is 1, 2, or 4 bytes, not 3");

    let mut long = vec![0, 0, 1];
    long.extend(std::iter::repeat_n(0x65, 256));
    let Err(Error::Decode { reason, .. }) = annex_b_to_length_prefixed(&long, 1) else {
        panic!("256 bytes do not fit in one");
    };
    assert_eq!(reason, "a 256-byte NAL unit does not fit in a 1-byte length field");
}

#[test]
fn a_record_ending_before_its_pps_count_is_refused() {
    let mut record = avcc(4);
    record.truncate(12);
    let Err(Error::Decode { reason, .. }) = AvcConfig::parse(&record) else {
        panic!("the PPS count is missing");
    };
    assert_eq!(reason, "avcC ends before its PPS count");

    let mut record = avcc(4);
    record.truncate(14);
    let Err(Error::Decode { reason, .. }) = AvcConfig::parse(&record) else {
        panic!("the PPS length is cut");
    };
    assert_eq!(reason, "avcC ends inside PPS 0's length");
}

#[test]
fn one_and_two_byte_lengths_convert_too() {
    let lp = [2, 0xAA, 0xBB, 1, 0xCC];
    let annex_b = length_prefixed_to_annex_b(&lp, 1).unwrap();
    assert_eq!(annex_b, vec![0, 0, 0, 1, 0xAA, 0xBB, 0, 0, 0, 1, 0xCC]);
    assert_eq!(annex_b_to_length_prefixed(&annex_b, 1).unwrap(), lp.to_vec());

    let two = annex_b_to_length_prefixed(&annex_b, 2).unwrap();
    assert_eq!(two, vec![0, 2, 0xAA, 0xBB, 0, 1, 0xCC]);
    assert_eq!(length_prefixed_to_annex_b(&two, 2).unwrap(), annex_b);
}

#[test]
fn parameter_sets_come_back_out_of_their_annex_b_form() {
    let config = AvcConfig::parse(&avcc(4)).unwrap();
    let annex_b = config.to_annex_b();
    let units = annex_b_units(&annex_b);

    assert_eq!(units, vec![&[0x67, 0x64, 0x00, 0x28][..], &[0x68, 0xEE, 0x38][..]]);
}

#[test]
fn a_stream_with_no_start_code_has_no_units() {
    assert!(annex_b_units(&[0x65, 0x66, 0x67]).is_empty());
    assert!(annex_b_units(&[]).is_empty());
    assert!(annex_b_units(&[0, 0, 1]).is_empty());
}

#[test]
fn splitting_gives_back_the_units_joined() {
    // Trailing zeros belong to their unit; a long unit is not cut.
    let units: Vec<Vec<u8>> = vec![vec![0x67, 0x00], vec![0x68, 0x00, 0x00], vec![0x65; 300]];
    let mut stream = Vec::new();
    for unit in &units {
        stream.extend_from_slice(&[0, 0, 0, 1]);
        stream.extend_from_slice(unit);
    }

    let found: Vec<Vec<u8>> = annex_b_units(&stream).into_iter().map(|u| u.to_vec()).collect();
    assert_eq!(found, units);
}

#[test]
fn units_found_anywhere_are_clean() {
    let noise = [0, 0, 1, 0, 0, 1, 7, 0, 0, 0, 1, 0, 0, 1, 0, 1, 0, 0, 0, 0, 1, 9, 0];
    for unit in annex_b_units(&noise) {
        assert!(!unit.is_empty());
        assert!(!unit.windows(3).any(|w| w == [0, 0, 1]));
    }
}
