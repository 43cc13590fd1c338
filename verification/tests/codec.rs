use a6_tools::codec::{decode_7bit, encode_7bit};

#[test]
fn test_encode_7bit() {
    let data8 = [
        0xF1, 0xE2, 0xD3, 0xC4, 0xB5, 0xA6, 0x97, 0x88, 0x79, 0x6A,
    ];
    let mut data7 = vec![];

    encode_7bit(&data8, &mut data7);

    assert_eq!(data7.len(), 12);
    //                       always 0
    //                       | new bits
    //                       | |    leftover bits
    //                       | |    |
    //                    0b_x_xxxx_xxx
    assert_eq!(data7[0], 0b_0_1110001_);
    assert_eq!(data7[1], 0b_0_100010_1);
    assert_eq!(data7[2], 0b_0_10011_11);
    assert_eq!(data7[3], 0b_0_0100_110);
    assert_eq!(data7[4], 0b_0_101_1100);
    assert_eq!(data7[5], 0b_0_10_10110);
    assert_eq!(data7[6], 0b_0_1_101001);
    assert_eq!(data7[7], 0b_0__1001011);
    assert_eq!(data7[8], 0b_0_0001000_);
    assert_eq!(data7[9], 0b_0_111001_1);
    assert_eq!(data7[10], 0b_0_01010_01);
    assert_eq!(data7[11], 0b_0_0000_011);
    //                         |    |
    //                         |    final leftover bits
    //                         0-padding
}

#[test]
fn test_decode_7bit() {
    let data7 = [
        //  don't care
        //  | leftover bits
        //  | |    new bits
        //  | |    |
        // 0b_x_xxxx_xxx
        0b_1_1110001_,
        0b_0_100010_1,
        0b_1_10011_11,
        0b_0_0100_110,
        0b_1_101_1100,
        0b_0_10_10110,
        0b_1_1_101001,
        0b_0__1001011,
        0b_1_0001000_,
        0b_0_111001_1,
        0b_1_01010_01,
        0b_0_1111_011,
    ];
    let mut data8 = vec![];

    decode_7bit(&data7, &mut data8);

    assert_eq!(data8.len(), 10);
    assert_eq!(data8[0], 0xF1);
    assert_eq!(data8[1], 0xE2);
    assert_eq!(data8[2], 0xD3);
    assert_eq!(data8[3], 0xC4);
    assert_eq!(data8[4], 0xB5);
    assert_eq!(data8[5], 0xA6);
    assert_eq!(data8[6], 0x97);
    assert_eq!(data8[7], 0x88);
    assert_eq!(data8[8], 0x79);
    assert_eq!(data8[9], 0x6A);
    // Final leftover 4 bits go unused.
}

#[test]
fn round_trip_restores_octets() {
    let data8 = [
        0xF1, 0xE2, 0xD3, 0xC4, 0xB5, 0xA6, 0x97, 0x88, 0x79, 0x6A,
    ];
    let mut data7 = vec![];
    let mut back = vec![];

    encode_7bit(&data8, &mut data7);
    decode_7bit(&data7, &mut back);

    assert_eq!(back.as_slice(), &data8[..]);
}

#[test]
fn round_trip_every_length_up_to_two_blocks() {
    let source: Vec<u8> = (0..600u32).map(|x| (x.wrapping_mul(37) >> 2) as u8).collect();
    for n in 0..source.len() {
        let mut encoded = vec![];
        let mut decoded = vec![];
        encode_7bit(&source[..n], &mut encoded);
        decode_7bit(&encoded, &mut decoded);
        assert_eq!(decoded.as_slice(), &source[..n]);
        assert_eq!(encoded.len(), (8 * n + 6) / 7);
        assert!(encoded.iter().all(|&b| b < 0x80));
    }
}

#[test]
fn encode_empty_is_empty() {
    let mut data7 = vec![];
    encode_7bit(&[], &mut data7);
    assert_eq!(data7.len(), 0);

    let mut data8 = vec![];
    decode_7bit(&[], &mut data8);
    assert_eq!(data8.len(), 0);
}

#[test]
fn whole_block_encodes_to_message_size() {
    // One 272-byte block becomes exactly 311 septets, and back.
    let block = [0x5Au8; 272];
    let mut encoded = vec![];
    encode_7bit(&block, &mut encoded);
    assert_eq!(encoded.len(), 311);

    let mut decoded = vec![];
    decode_7bit(&encoded, &mut decoded);
    assert_eq!(decoded.as_slice(), &block[..]);
}

#[test]
fn encode_appends_after_existing_bytes() {
    let mut out = vec![0x11, 0x22];
    encode_7bit(&[0xFF], &mut out);
    assert_eq!(out[0], 0x11);
    assert_eq!(out[1], 0x22);
    assert_eq!(out.len(), 4);
    assert_eq!(out[2], 0x7F);
    assert_eq!(out[3], 0x01);
}

#[test]
fn re_encode_restores_septets_in_whole_groups() {
    // A septet sequence whose length is a multiple of 8 carries no padding,
    // so decoding and re-encoding reproduces it exactly.
    let septets: Vec<u8> = (0..16u8).map(|x| x.wrapping_mul(0x1F) & 0x7F).collect();
    let mut octets = vec![];
    let mut back = vec![];

    decode_7bit(&septets, &mut octets);
    assert_eq!(octets.len(), 14);
    encode_7bit(&octets, &mut back);

    assert_eq!(back, septets);
}

#[test]
fn decode_ignores_high_bit() {
    let mut plain = vec![];
    decode_7bit(&[0x01, 0x00], &mut plain);

    let mut high = vec![];
    decode_7bit(&[0x81, 0x80], &mut high);

    assert_eq!(plain, high);
    assert_eq!(plain, vec![0x01]);
}
