//! The slot directory of a page.
//!
//! Byte 0 of the page holds the checksum of all the bytes behind it. Five
//! blocks follow from byte 3 on, four bytes each: the size of a record and
//! then its offset, both as 16-bit numbers with the low byte first.

use crate::dbms::storage::integrity;
use crate::dbms::storage::page::SIZE;
use vstd::prelude::*;

verus! {

/// A place within a page.
pub type Index = u16;

/// The polynomial of the page checksum.
pub const CRC_POLY: u8 = 0x07;

/// The place of the first block in the page.
pub const OFFSET: usize = 3;

/// Where a record lies in the page, and how long it is.
#[derive(Copy, Clone, Debug, PartialEq, Eq, Structural)]
pub struct Block {
    /// Where in the page the record begins.
    pub offset: Index,
    /// The number of bytes of the record.
    pub size: u16,
}

impl Block {
    /// The number of bytes that a block takes up in the page.
    pub const SIZE: usize = 4;
}

impl Default for Block {
    fn default() -> (block: Self)
        ensures
            block == (Block { offset: 0, size: 0 }),
    {
        Block { offset: 0, size: 0 }
    }
}

/// The number that the bytes `low` and `high` spell, low byte first.
pub open spec fn word(low: u8, high: u8) -> u16 {
    (low + 256 * high) as u16
}

/// The low byte of `n`.
pub open spec fn low(n: u16) -> u8 {
    (n % 256) as u8
}

/// The high byte of `n`.
pub open spec fn high(n: u16) -> u8 {
    (n / 256) as u8
}

/// The block that `page` holds at `index`.
pub open spec fn block_at(page: Seq<u8>, index: int) -> Block {
    let base = OFFSET + Block::SIZE * index;
    Block { size: word(page[base], page[base + 1]), offset: word(page[base + 2], page[base + 3]) }
}

/// The byte that stands at `place` of a page whose directory holds `blocks`,
/// for a place inside the directory.
pub open spec fn directory_byte(blocks: Seq<Block>, place: int) -> u8 {
    let block = blocks[(place - OFFSET) / (Block::SIZE as int)];
    let part = (place - OFFSET) % (Block::SIZE as int);
    if part == 0 {
        low(block.size)
    } else if part == 1 {
        high(block.size)
    } else if part == 2 {
        low(block.offset)
    } else {
        high(block.offset)
    }
}

/// `page` with the first `count` of `blocks` written into its directory and
/// every other byte as it was.
pub open spec fn inscribed(page: Seq<u8>, blocks: Seq<Block>, count: int) -> Seq<u8> {
    Seq::new(
        page.len(),
        |place: int|
            if OFFSET <= place < OFFSET + Block::SIZE * count {
                directory_byte(blocks, place)
            } else {
                page[place]
            },
    )
}

/// Whether byte 0 of `page` is the checksum of the bytes behind it.
pub open spec fn is_sealed(page: Seq<u8>) -> bool {
    page[0] == integrity::checksum(CRC_POLY, page.skip(1))
}

/// `page` with the checksum of the bytes behind byte 0 in byte 0.
pub open spec fn sealed(page: Seq<u8>) -> Seq<u8> {
    page.update(0, integrity::checksum(CRC_POLY, page.skip(1)))
}

/// The five blocks of the directory of `page`. Nothing is checked: the page
/// may hold anything.
pub fn read_blocks(page: &[u8; SIZE]) -> (blocks: [Block; 5])
    ensures
        forall|index: int| 0 <= index < 5 ==> blocks@[index] == block_at(page@, index),
{
    let mut blocks = [Block { offset: 0, size: 0 }; 5];
    let mut index: usize = 0;
    while index < 5
        invariant
            index <= 5,
            forall|i: int| 0 <= i < index ==> blocks@[i] == block_at(page@, i),
        decreases 5 - index,
    {
        let base = OFFSET + Block::SIZE * index;
        let size: u16 = page[base] as u16 + 256 * (page[base + 1] as u16);
        let offset: u16 = page[base + 2] as u16 + 256 * (page[base + 3] as u16);
        blocks[index] = Block { offset, size };
        index += 1;
    }
    blocks
}

/// Writes `blocks` into the directory of `page` and renews the checksum in
/// byte 0. Every byte outside the directory and byte 0 stays as it was.
pub fn write_blocks(page: &mut [u8; SIZE], blocks: &[Block; 5])
    ensures
        final(page)@ == sealed(inscribed(old(page)@, blocks@, 5)),
{
    let mut index: usize = 0;
    while index < 5
        invariant
            index <= 5,
            page@ =~= inscribed(old(page)@, blocks@, index as int),
        decreases 5 - index,
    {
        let base = OFFSET + Block::SIZE * index;
        let block = blocks[index];
        page[base] = (block.size % 256) as u8;
        page[base + 1] = (block.size / 256) as u8;
        page[base + 2] = (block.offset % 256) as u8;
        page[base + 3] = (block.offset / 256) as u8;
        index += 1;
    }
    write_checksum(page);
}

/// Renews the checksum in byte 0 of `page`.
pub fn write_checksum(page: &mut [u8; SIZE])
    ensures
        final(page)@ == sealed(old(page)@),
{
    let sum = integrity::crc(CRC_POLY, &page[1..SIZE]);
    page[0] = sum;
}

/// Whether byte 0 of `page` is the checksum of the bytes behind it.
pub fn verify_checksum(page: &[u8; SIZE]) -> (outcome: Result<(), integrity::Error>)
    ensures
        is_sealed(page@) ==> outcome == Ok::<(), integrity::Error>(()),
        !is_sealed(page@) ==> outcome == Err::<(), integrity::Error>(integrity::Error::BadChecksum),
{
    if page[0] == integrity::crc(CRC_POLY, &page[1..SIZE]) {
        Ok(())
    } else {
        Err(integrity::Error::BadChecksum)
    }
}

/// A page that has just been sealed passes the check of its checksum.
pub proof fn lemma_sealed_page_verifies(page: Seq<u8>)
    requires
        page.len() >= 1,
    ensures
        is_sealed(sealed(page)),
{
    assert(sealed(page).skip(1) =~= page.skip(1));
}

/// A page whose directory has just been written passes the check of its
/// checksum, whatever the page held and whatever was written.
pub proof fn lemma_written_page_verifies(page: Seq<u8>, blocks: Seq<Block>)
    requires
        page.len() == SIZE,
        blocks.len() == 5,
    ensures
        is_sealed(sealed(inscribed(page, blocks, 5))),
{
    lemma_sealed_page_verifies(inscribed(page, blocks, 5));
}

/// The directory that was written is the directory that is read.
pub proof fn lemma_written_blocks_read_back(page: Seq<u8>, blocks: Seq<Block>, index: int)
    requires
        page.len() == SIZE,
        blocks.len() == 5,
        0 <= index < 5,
    ensures
        block_at(sealed(inscribed(page, blocks, 5)), index) == blocks[index],
{
    let written = sealed(inscribed(page, blocks, 5));
    let base = OFFSET + Block::SIZE * index;
    assert(written[base] == low(blocks[index].size));
    assert(written[base + 1] == high(blocks[index].size));
    assert(written[base + 2] == low(blocks[index].offset));
    assert(written[base + 3] == high(blocks[index].offset));
}

/// Writing a directory leaves every byte alone but those of the directory
/// and the checksum.
pub proof fn lemma_written_blocks_keep_the_rest(page: Seq<u8>, blocks: Seq<Block>, place: int)
    requires
        page.len() == SIZE,
        blocks.len() == 5,
        1 <= place < OFFSET || OFFSET + Block::SIZE * 5 <= place < SIZE,
    ensures
        sealed(inscribed(page, blocks, 5))[place] == page[place],
{
}

/// A page of zero bytes holds five blocks of size zero at offset zero.
pub proof fn lemma_blank_page_holds_blank_blocks(page: Seq<u8>, index: int)
    requires
        page.len() == SIZE,
        forall|place: int| 0 <= place < SIZE ==> page[place] == 0,
        0 <= index < 5,
    ensures
        block_at(page, index) == (Block { offset: 0, size: 0 }),
{
}

/// A sealed page in which one bit behind byte 0 is turned over is sealed no
/// more.
pub proof fn lemma_flip_breaks_seal(page: Seq<u8>, index: nat)
    requires
        page.len() == SIZE,
        is_sealed(page),
        8 <= index < 8 * SIZE,
    ensures
        !is_sealed(integrity::flipped(page, index)),
{
    let behind = (index - 8) as nat;
    assert(integrity::flipped(page, index).skip(1) =~= integrity::flipped(page.skip(1), behind));
    assert(CRC_POLY & 1 == 1) by (bit_vector);
    integrity::lemma_odd_polynomial_detects_flip(CRC_POLY, page.skip(1), behind);
}

} // verus!
