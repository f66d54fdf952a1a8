use sdmmc::words::{
    from_be, from_be_pair, from_bytes, from_words, status_from_be, to_bytes, DataBlock,
};

#[test]
fn a_received_word_has_its_first_byte_on_top() {
    assert_eq!(from_be(0x0102_0304), 0x0403_0201);
    assert_eq!(from_be(0x0000_00FF), 0xFF00_0000);
}

#[test]
fn turning_a_word_round_twice_changes_nothing() {
    for w in [0u32, 1, 0x8000_0000, 0x1234_5678, u32::MAX] {
        assert_eq!(from_be(from_be(w)), w);
    }
}

#[test]
fn a_word_and_its_bytes() {
    assert_eq!(to_bytes(0x0403_0201), [1, 2, 3, 4]);
    assert_eq!(from_bytes(1, 2, 3, 4), 0x0403_0201);
    for w in [0u32, 0xDEAD_BEEF, u32::MAX] {
        let b = to_bytes(w);
        assert_eq!(from_bytes(b[0], b[1], b[2], b[3]), w);
    }
}

#[test]
fn a_pair_of_words() {
    // Received as the bytes 02 35 80 00 01 00 00 00
    assert_eq!(from_be_pair(0x0080_3502, 0x0000_0001), 0x0235_8000_0100_0000);
}

#[test]
fn a_long_number() {
    assert_eq!(from_words(1, 2, 3, 4), 0x0000_0001_0000_0002_0000_0003_0000_0004);
    assert_eq!(from_words(u32::MAX, u32::MAX, u32::MAX, u32::MAX), u128::MAX);
}

#[test]
fn a_status_is_turned_round_word_by_word() {
    let mut words = [0u32; 16];
    words[0] = 0x0000_0080;
    words[15] = 0x0102_0304;
    let status = status_from_be(words);
    assert_eq!(status[0], 0x8000_0000);
    assert_eq!(status[1], 0);
    assert_eq!(status[15], 0x0403_0201);
}

#[test]
fn a_block_read_back_is_the_block_written() {
    let mut bytes = [0u8; 512];
    for i in 0..512 {
        bytes[i] = (i * 7 % 251) as u8;
    }
    let block = DataBlock(bytes);
    let words = block.to_words();
    assert_eq!(words[0], u32::from_le_bytes([bytes[0], bytes[1], bytes[2], bytes[3]]));
    assert_eq!(words[127], u32::from_le_bytes([bytes[508], bytes[509], bytes[510], bytes[511]]));
    assert_eq!(DataBlock::from_words(&words).0, bytes);
}

#[test]
fn the_words_of_a_block_made_of_words() {
    let mut words = [0u32; 128];
    for i in 0..128 {
        words[i] = 0x0101_0101u32.wrapping_mul(i as u32) ^ 0xA5A5_0000;
    }
    assert_eq!(DataBlock::from_words(&words).to_words(), words);
}
