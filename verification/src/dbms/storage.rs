//! The storage layer: pages over one backing file, the checksum that guards
//! them, the pair of pages that carries a record through a crash, and the
//! slot directory of a page.
//!
//! The functions of this module start the page and record operations of
//! `page` and `meta` under names that say what they work on.

use vstd::prelude::*;

pub mod integrity;
pub mod medium;
pub mod meta;
pub mod page;

verus! {

/// The number of bytes in a page.
pub const PAGE_SIZE: usize = page::SIZE;

/// Starts the read of page `page`, as `page::read` does.
pub fn read_page(page: u64) -> (progress: medium::Progress<page::Reading, [u8; PAGE_SIZE]>)
    ensures
        progress == page::Reading::start(page),
{
    page::read(page)
}

/// Starts the write of `buf` to page `page`, as `page::write` does.
pub fn write_page(page: u64, buf: &[u8; PAGE_SIZE]) -> (progress: medium::Progress<
    page::Writing,
    (),
>)
    ensures
        progress == page::Writing::start(page, *buf),
{
    page::write(page, buf)
}

/// Starts the copy of page `src` to page `dst`, as `page::copy` does.
pub fn copy_page(src: u64, dst: u64) -> (progress: medium::Progress<page::Copying, ()>)
    ensures
        progress == page::Copying::start(src, dst),
{
    page::copy(src, dst)
}

/// Starts the write of the payload `buf` to the pair `pair` of main and
/// backup page, as `meta::write` does.
pub fn write_meta(pair: (u64, u64), buf: &[u8; meta::PAYLOAD]) -> (progress: medium::Progress<
    meta::Writing,
    (),
>)
    ensures
        progress == meta::Writing::start(pair, *buf),
{
    meta::write(pair, buf)
}

} // verus!
