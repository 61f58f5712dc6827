use shepherd::dbms::storage::integrity;
use shepherd::dbms::storage::page;
use shepherd::dbms::storage::page::slot::{
    read_blocks, verify_checksum, write_blocks, write_checksum, Block, CRC_POLY,
};

#[test]
fn read_blocks_when_partially_filled() {
    let mut page = [0u8; page::SIZE];
    // Medium sized values.
    page[3..5].copy_from_slice(&1265u16.to_le_bytes());
    page[5..7].copy_from_slice(&4032u16.to_le_bytes());
    // Small sized values.
    page[7..9].copy_from_slice(&45u16.to_le_bytes());
    page[9..11].copy_from_slice(&128u16.to_le_bytes());
    // Max sized values.
    page[11..13].copy_from_slice(&u16::MAX.to_le_bytes());
    page[13..15].copy_from_slice(&u16::MAX.to_le_bytes());

    let blocks = read_blocks(&page);
    assert_eq!(blocks[0].size, 1265);
    assert_eq!(blocks[0].offset, 4032);

    assert_eq!(blocks[1].size, 45);
    assert_eq!(blocks[1].offset, 128);

    assert_eq!(blocks[2].size, u16::MAX);
    assert_eq!(blocks[2].offset, u16::MAX);

    // Remaining blocks should be zero'ed out.
    for block in blocks[3..].iter() {
        assert_eq!(block.size, 0);
        assert_eq!(block.offset, 0);
    }

    // Single block.
    let mut page = [0u8; page::SIZE];
    page[3..5].copy_from_slice(&1265u16.to_le_bytes());
    page[5..7].copy_from_slice(&4032u16.to_le_bytes());

    let blocks = read_blocks(&page);
    assert_eq!(blocks[0].size, 1265);
    assert_eq!(blocks[0].offset, 4032);

    // Remaining blocks should be zero'ed out.
    for block in blocks[1..].iter() {
        assert_eq!(block.size, 0);
        assert_eq!(block.offset, 0);
    }
}

#[test]
fn read_blocks_when_filled() {
    let mut page = [0u8; page::SIZE];

    page[3..5].copy_from_slice(&1265u16.to_le_bytes());
    page[5..7].copy_from_slice(&4032u16.to_le_bytes());

    page[7..9].copy_from_slice(&45u16.to_le_bytes());
    page[9..11].copy_from_slice(&128u16.to_le_bytes());

    page[11..13].copy_from_slice(&u16::MAX.to_le_bytes());
    page[13..15].copy_from_slice(&u16::MAX.to_le_bytes());

    page[15..17].copy_from_slice(&34444u16.to_le_bytes());
    page[17..19].copy_from_slice(&12334u16.to_le_bytes());

    page[19..21].copy_from_slice(&21123u16.to_le_bytes());
    page[21..23].copy_from_slice(&0u16.to_le_bytes());

    let blocks = read_blocks(&page);
    assert_eq!(blocks[0].size, 1265);
    assert_eq!(blocks[0].offset, 4032);

    assert_eq!(blocks[1].size, 45);
    assert_eq!(blocks[1].offset, 128);

    assert_eq!(blocks[2].size, u16::MAX);
    assert_eq!(blocks[2].offset, u16::MAX);

    assert_eq!(blocks[3].size, 34444);
    assert_eq!(blocks[3].offset, 12334);

    assert_eq!(blocks[4].size, 21123);
    assert_eq!(blocks[4].offset, 0);
}

#[test]
fn read_blocks_when_empty() {
    let page = [0u8; page::SIZE];
    for block in read_blocks(&page) {
        assert_eq!(block.size, 0);
        assert_eq!(block.offset, 0);
    }
}

#[test]
fn write_blocks_when_partially_filled() {
    let mut blocks = [Block::default(); 5];
    blocks[0].offset = 1234;
    blocks[0].size = 1034;
    let mut page = [0u8; page::SIZE];
    write_blocks(&mut page, &blocks);
    assert_eq!(page[0], integrity::crc(CRC_POLY, &page[1..]));
    assert_eq!(page[3..5], 1034u16.to_le_bytes());
    assert_eq!(page[5..7], 1234u16.to_le_bytes());
    assert_eq!(page[7..], [0u8; page::SIZE - 7]);

    blocks[2].offset = u16::MAX;
    blocks[2].size = u16::MAX;
    write_blocks(&mut page, &blocks);
    assert_eq!(page[0], integrity::crc(CRC_POLY, &page[1..]));
    assert_eq!(page[3..5], 1034u16.to_le_bytes());
    assert_eq!(page[5..7], 1234u16.to_le_bytes());
    assert_eq!(page[7..9], 0u16.to_le_bytes());
    assert_eq!(page[9..11], 0u16.to_le_bytes());
    assert_eq!(page[11..13], u16::MAX.to_le_bytes());
    assert_eq!(page[13..15], u16::MAX.to_le_bytes());
}

#[test]
fn write_blocks_when_filled() {
    let mut blocks = [Block::default(); 5];
    for (index, block) in blocks.iter_mut().enumerate() {
        block.size = (index as u16 + 1) * 100;
        block.offset = (index as u16 + 1) * 100;
    }
    let mut page = [0u8; page::SIZE];
    write_blocks(&mut page, &blocks);
    assert_eq!(page[0], integrity::crc(CRC_POLY, &page[1..]));
    for (index, block) in blocks.iter_mut().enumerate() {
        let mut offset = 3 + index * 4;
        assert_eq!(page[offset..offset + 2], block.size.to_le_bytes());
        offset += 2;
        assert_eq!(page[offset..offset + 2], block.offset.to_le_bytes());
    }
    assert_eq!(page[3 + 4 * 5..], [0u8; page::SIZE - (3 + 4 * 5)]);
}

#[test]
fn write_blocks_when_empty() {
    let blocks = [Block::default(); 5];
    let mut page = [0u8; page::SIZE];
    write_blocks(&mut page, &blocks);
    // At this point all bytes should be zero'd out, which gives a
    // checksum of zero as well.
    assert_eq!([0u8; page::SIZE], page);
}

#[test]
fn default_block_is_blank() {
    assert_eq!(Block::default(), Block { offset: 0, size: 0 });
    assert_eq!(Block::SIZE, 4);
}

#[test]
fn written_blocks_are_read_back() {
    let blocks = [
        Block { offset: 0x0102, size: 0x0304 },
        Block { offset: 0xFFFF, size: 0 },
        Block { offset: 0, size: 0xFFFF },
        Block { offset: 0x00FF, size: 0xFF00 },
        Block { offset: 8191, size: 1 },
    ];
    let mut page = [0xA5u8; page::SIZE];
    write_blocks(&mut page, &blocks);
    assert_eq!(read_blocks(&page), blocks);
    // Low byte first, size before offset.
    assert_eq!(page[3..7], [0x04, 0x03, 0x02, 0x01]);
    // Bytes between the checksum and the directory, and behind the directory,
    // are left alone.
    assert_eq!(page[1..3], [0xA5, 0xA5]);
    assert_eq!(page[23..], [0xA5u8; page::SIZE - 23]);
    assert_eq!(page[0], integrity::crc(0x07, &page[1..]));
}

#[test]
fn write_checksum_stamps_byte_zero() {
    let mut page = [0u8; page::SIZE];
    page[1] = 0xAB;
    page[page::SIZE - 1] = 0xCD;
    let before = page;
    write_checksum(&mut page);
    assert_eq!(page[0], integrity::crc(0x07, &before[1..]));
    assert_eq!(page[1..], before[1..]);
    assert_ne!(page[0], 0);
}

#[test]
fn verify_checksum_after_write_blocks() {
    let mut blocks = [Block::default(); 5];
    blocks[1].offset = 77;
    blocks[4].size = 9000;
    let mut page = [0x3Cu8; page::SIZE];
    assert_eq!(Err(integrity::Error::BadChecksum), verify_checksum(&page));
    write_blocks(&mut page, &blocks);
    assert_eq!(Ok(()), verify_checksum(&page));
}

#[test]
fn verify_checksum_finds_every_flipped_bit() {
    let mut blocks = [Block::default(); 5];
    blocks[0].offset = 1234;
    blocks[0].size = 1034;
    let mut page = [0u8; page::SIZE];
    page[4000] = 0x5A;
    write_blocks(&mut page, &blocks);
    assert_eq!(Ok(()), verify_checksum(&page));
    for place in [1usize, 2, 3, 4, 22, 23, 100, 4000, 4095, 4096, 8190, 8191] {
        for bit in 0..8 {
            let mut damaged = page;
            damaged[place] ^= 1 << bit;
            assert_eq!(
                Err(integrity::Error::BadChecksum),
                verify_checksum(&damaged)
            );
        }
    }
    // A changed checksum no longer fits the bytes either.
    let mut damaged = page;
    damaged[0] ^= 0x10;
    assert_eq!(Err(integrity::Error::BadChecksum), verify_checksum(&damaged));
}

#[test]
fn verify_checksum_of_blank_page() {
    assert_eq!(Ok(()), verify_checksum(&[0u8; page::SIZE]));
}
