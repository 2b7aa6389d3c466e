use rle_codec::{compress, decompress, DecodeError};

fn assert_well_framed(framed: &[u8]) {
    let mut pos = 0;
    while framed[pos] != 0x00 {
        let length = (framed[pos] & 0x7F) as usize;
        assert!(1 <= length && length <= 127);
        if framed[pos] & 0x80 != 0 {
            pos += 1 + length;
        } else {
            assert!(length >= 3);
            pos += 2;
        }
    }
    assert_eq!(pos, framed.len() - 1);
}

fn round_trip(input: &[u8]) {
    let framed = compress(input);
    assert_well_framed(&framed);
    assert_eq!(decompress(&framed), Ok(input.to_vec()));
}

#[test]
fn empty_input_is_one_terminator() {
    assert_eq!(compress(&[]), vec![0x00]);
}

#[test]
fn three_equal_bytes_are_a_run() {
    assert_eq!(compress(&[0x41, 0x41, 0x41]), vec![0x03, 0x41, 0x00]);
}

#[test]
fn two_equal_bytes_are_a_literal() {
    assert_eq!(compress(&[0x41, 0x41]), vec![0x82, 0x41, 0x41, 0x00]);
}

#[test]
fn one_byte_is_a_literal() {
    assert_eq!(compress(&[0x07]), vec![0x81, 0x07, 0x00]);
}

#[test]
fn long_run_is_split_at_127() {
    let input = vec![0x58u8; 200];
    assert_eq!(compress(&input), vec![0x7F, 0x58, 0x49, 0x58, 0x00]);
    round_trip(&input);
}

#[test]
fn run_of_exactly_127() {
    let input = vec![9u8; 127];
    assert_eq!(compress(&input), vec![0x7F, 9, 0x00]);
    round_trip(&input);
}

#[test]
fn run_of_128_leaves_one_literal_byte() {
    let input = vec![9u8; 128];
    assert_eq!(compress(&input), vec![0x7F, 9, 0x81, 9, 0x00]);
    round_trip(&input);
}

#[test]
fn run_of_129_leaves_a_literal_pair() {
    let input = vec![9u8; 129];
    assert_eq!(compress(&input), vec![0x7F, 9, 0x82, 9, 9, 0x00]);
    round_trip(&input);
}

#[test]
fn run_of_130_leaves_a_second_run() {
    let input = vec![9u8; 130];
    assert_eq!(compress(&input), vec![0x7F, 9, 0x03, 9, 0x00]);
    round_trip(&input);
}

#[test]
fn long_literal_is_split_at_127() {
    let input: Vec<u8> = (0u8..130).collect();
    let mut expected = vec![0xFFu8];
    expected.extend_from_slice(&input[..127]);
    expected.push(0x83);
    expected.extend_from_slice(&input[127..]);
    expected.push(0x00);
    assert_eq!(compress(&input), expected);
    round_trip(&input);
}

#[test]
fn mixed_runs_and_literals() {
    let input = b"aaabbbbbccXYZ";
    let framed = compress(input);
    assert_eq!(
        framed,
        vec![0x03, b'a', 0x05, b'b', 0x85, b'c', b'c', b'X', b'Y', b'Z', 0x00]
    );
    let decoded = decompress(&framed).unwrap();
    assert_eq!(decoded.len(), 13);
    assert_eq!(decoded, input.to_vec());
}

#[test]
fn literal_stops_before_a_run() {
    assert_eq!(
        compress(&[1, 2, 2, 3, 3, 3, 4]),
        vec![0x83, 1, 2, 2, 0x03, 3, 0x81, 4, 0x00]
    );
    round_trip(&[1, 2, 2, 3, 3, 3, 4]);
}

#[test]
fn truncated_literal_fails() {
    assert_eq!(
        decompress(&[0x85, 0x01, 0x02]),
        Err(DecodeError::UnexpectedEof)
    );
}

#[test]
fn empty_stream_fails() {
    assert_eq!(decompress(&[]), Err(DecodeError::UnexpectedEof));
}

#[test]
fn run_without_value_fails() {
    assert_eq!(decompress(&[0x03]), Err(DecodeError::UnexpectedEof));
}

#[test]
fn missing_terminator_fails() {
    assert_eq!(decompress(&[0x03, 0x41]), Err(DecodeError::UnexpectedEof));
    assert_eq!(
        decompress(&[0x82, 0x41, 0x42]),
        Err(DecodeError::UnexpectedEof)
    );
}

#[test]
fn decoding_expands_runs_and_literals() {
    assert_eq!(
        decompress(&[0x03, 0x41, 0x82, 0x42, 0x43, 0x00]),
        Ok(vec![0x41, 0x41, 0x41, 0x42, 0x43])
    );
}

#[test]
fn decoding_takes_short_runs_as_they_come() {
    assert_eq!(decompress(&[0x01, 0x41, 0x02, 0x42, 0x00]), Ok(vec![0x41, 0x42, 0x42]));
}

#[test]
fn decoding_stops_at_the_terminator() {
    assert_eq!(
        decompress(&[0x02, 0x41, 0x00, 0x85, 0x01]),
        Ok(vec![0x41, 0x41])
    );
}

#[test]
fn flagged_zero_length_ends_the_stream() {
    assert_eq!(decompress(&[0x81, 0x07, 0x80, 0x81, 0x08, 0x00]), Ok(vec![0x07]));
}

#[test]
fn longest_records_decode() {
    let mut framed = vec![0x7Fu8, 0x11, 0xFF];
    let body: Vec<u8> = (0u8..127).collect();
    framed.extend_from_slice(&body);
    framed.push(0x00);
    let mut expected = vec![0x11u8; 127];
    expected.extend_from_slice(&body);
    assert_eq!(decompress(&framed), Ok(expected));
}

#[test]
fn round_trip_of_the_empty_sequence() {
    round_trip(&[]);
}

#[test]
fn round_trip_of_short_inputs() {
    round_trip(&[0]);
    round_trip(&[0, 0]);
    round_trip(&[0, 0, 0]);
    round_trip(&[0, 0, 0, 0]);
    round_trip(&[0x80, 0x80, 0x80, 0x00, 0x00, 0xFF]);
    round_trip(b"the quick brown fox jumps over the lazy dog");
}

#[test]
fn round_trip_of_every_short_two_valued_input() {
    for len in 0usize..=10 {
        for bits in 0u32..(1 << len) {
            let input: Vec<u8> = (0..len).map(|k| ((bits >> k) & 1) as u8).collect();
            round_trip(&input);
        }
    }
}

#[test]
fn round_trip_of_a_long_mixed_input() {
    let mut input: Vec<u8> = Vec::new();
    for k in 0u32..2000 {
        let byte = (k.wrapping_mul(2654435761) >> 24) as u8;
        let repeat = 1 + (k % 7) as usize;
        for _ in 0..repeat {
            input.push(byte);
        }
    }
    round_trip(&input);
}

#[test]
fn second_round_trip_gives_the_same() {
    let input = b"aaabbbbbccXYZ".to_vec();
    let once = decompress(&compress(&input)).unwrap();
    assert_eq!(once, input);
    let twice = decompress(&compress(&once)).unwrap();
    assert_eq!(twice, input);
}

#[test]
fn literal_of_127_then_pair() {
    let mut input: Vec<u8> = (0u8..127).collect();
    input.push(200);
    input.push(200);
    let mut expected = vec![0xFFu8];
    expected.extend_from_slice(&input[..127]);
    expected.extend_from_slice(&[0x82, 200, 200, 0x00]);
    assert_eq!(compress(&input), expected);
    round_trip(&input);
}

#[test]
fn literal_takes_one_byte_of_a_pair_at_the_cap() {
    let mut input: Vec<u8> = (0u8..126).collect();
    input.push(200);
    input.push(200);
    input.push(7);
    let mut expected = vec![0xFFu8];
    expected.extend_from_slice(&input[..127]);
    expected.extend_from_slice(&[0x82, 200, 7, 0x00]);
    assert_eq!(compress(&input), expected);
    round_trip(&input);
}

#[test]
fn pair_across_the_literal_cap_round_trips() {
    let mut input: Vec<u8> = (0u8..126).collect();
    input.push(200);
    input.push(200);
    let framed = compress(&input);
    let mut expected = vec![0xFFu8];
    expected.extend_from_slice(&input[..127]);
    expected.extend_from_slice(&[0x81, 200, 0x00]);
    assert_eq!(framed, expected);
    assert_eq!(framed.len(), 131);
    assert_ne!(framed[0] & 0x7F, 0);
    let once = decompress(&framed).unwrap();
    assert_eq!(once, input);
    assert_eq!(compress(&once), framed);
    assert_eq!(decompress(&compress(&once)), Ok(input));
}

#[test]
fn pair_across_the_cap_after_a_run() {
    let mut input: Vec<u8> = vec![1, 1, 1];
    input.extend(0u8..126);
    input.push(200);
    input.push(200);
    let framed = compress(&input);
    assert_eq!(framed[..3], [0x03, 1, 0xFF]);
    assert_eq!(framed[130..], [0x81, 200, 0x00]);
    round_trip(&input);
}

#[test]
fn every_encoding_ends_with_the_terminator() {
    let inputs: [&[u8]; 4] = [&[], &[0], &[0, 0, 0], &[1, 2, 3, 3, 3, 3]];
    for input in inputs {
        assert_eq!(compress(input).last(), Some(&0x00));
    }
}

#[test]
fn round_trip_of_pairs_at_every_offset() {
    for lead in 0usize..300 {
        let mut input: Vec<u8> = (0..lead).map(|k| (k % 251) as u8).collect();
        input.extend_from_slice(&[252, 252, 253, 253, 253, 254]);
        round_trip(&input);
    }
}
