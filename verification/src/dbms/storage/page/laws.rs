//! What the page operations come to on a file that serves their requests.

use crate::dbms::storage::medium::{
    array_of, asked, lemma_array_of, overwritten, page_at, page_count, run, Progress, Request,
};
use crate::dbms::storage::page::{Copying, Error, Reading, Writing, SIZE};
use vstd::prelude::*;

verus! {

/// What the read of page `page` of `file` comes to.
pub open spec fn read_outcome(file: Seq<u8>, page: u64) -> Result<[u8; SIZE], Error> {
    if page + 1 <= page_count(file.len()) {
        Ok(array_of(page_at(file, page as int)))
    } else {
        Err(Error::ReadOutOfRange)
    }
}

/// What the write of `data` to page `page` of `file` comes to, and what the
/// file holds then.
pub open spec fn write_outcome(file: Seq<u8>, page: u64, data: Seq<u8>) -> (
    Seq<u8>,
    Result<(), Error>,
) {
    if page <= page_count(file.len()) {
        (overwritten(file, page * SIZE, data), Ok(()))
    } else {
        (file, Err(Error::WriteOutOfRange))
    }
}

/// What the copy of page `src` of `file` to page `dst` comes to, and what the
/// file holds then.
pub open spec fn copy_outcome(file: Seq<u8>, src: u64, dst: u64) -> (Seq<u8>, Result<(), Error>) {
    if src == dst {
        (file, Err(Error::SelfCopy))
    } else if src + 1 > page_count(file.len()) {
        (file, Err(Error::ReadOutOfRange))
    } else {
        write_outcome(file, dst, page_at(file, src as int))
    }
}

/// On a sound file a read takes two requests, leaves the file as it was, and
/// yields the bytes of the page, or `ReadOutOfRange` where the file does not
/// hold the page in full.
pub proof fn lemma_read_runs(file: Seq<u8>, page: u64, healthy: nat, torn: Seq<u8>)
    requires
        file.len() <= u64::MAX,
        healthy >= 2,
    ensures
        run(Reading::start(page), file, healthy, torn) == (
            file,
            Progress::<Reading, [u8; SIZE]>::Finished(read_outcome(file, page)),
        ),
{
    reveal_with_fuel(run, 3);
}

/// On a sound file a write takes two requests and puts the bytes where the
/// page lies, or fails with `WriteOutOfRange` and leaves the file as it was
/// where the page lies behind the one that an append would add.
pub proof fn lemma_write_runs(
    file: Seq<u8>,
    page: u64,
    data: [u8; SIZE],
    healthy: nat,
    torn: Seq<u8>,
)
    requires
        file.len() <= u64::MAX,
        healthy >= 2,
    ensures
        run(Writing::start(page, data), file, healthy, torn) == (
            write_outcome(file, page, data@).0,
            Progress::<Writing, ()>::Finished(write_outcome(file, page, data@).1),
        ),
{
    reveal_with_fuel(run, 3);
}

/// On a sound file a copy takes four requests at most. It fails with
/// `SelfCopy` where source and target are one page, else with what stops the
/// read of the source, else with what stops the write of the target, and
/// leaves the file as it was whenever it fails.
pub proof fn lemma_copy_runs(file: Seq<u8>, src: u64, dst: u64, healthy: nat, torn: Seq<u8>)
    requires
        file.len() <= u64::MAX,
        healthy >= 4,
    ensures
        run(Copying::start(src, dst), file, healthy, torn) == (
            copy_outcome(file, src, dst).0,
            Progress::<Copying, ()>::Finished(copy_outcome(file, src, dst).1),
        ),
{
    reveal_with_fuel(run, 5);
    if src != dst && src + 1 <= page_count(file.len()) {
        lemma_array_of::<SIZE>(page_at(file, src as int));
    }
}

/// The bytes of a page of `SIZE` bytes, written to page `page`, are the
/// bytes of page `page` afterwards; where the page was there before, the file
/// is as long as it was.
pub proof fn lemma_page_of_overwritten(file: Seq<u8>, page: int, data: Seq<u8>)
    requires
        0 <= page <= page_count(file.len()),
        data.len() == SIZE,
    ensures
        page_at(overwritten(file, page * SIZE, data), page) == data,
        page + 1 <= page_count(overwritten(file, page * SIZE, data).len()),
        page + 1 <= page_count(file.len()) ==> overwritten(file, page * SIZE, data).len()
            == file.len(),
{
    assert(page_at(overwritten(file, page * SIZE, data), page) =~= data);
}

/// A write to a page, whole or cut short, leaves every other page as it was.
pub proof fn lemma_other_page_of_overwritten(file: Seq<u8>, page: int, data: Seq<u8>, other: int)
    requires
        0 <= page <= page_count(file.len()),
        0 <= other < page_count(file.len()),
        other != page,
        data.len() <= SIZE,
    ensures
        page_at(overwritten(file, page * SIZE, data), other) == page_at(file, other),
{
    assert(page_at(overwritten(file, page * SIZE, data), other) =~= page_at(file, other));
}

/// What was written to a page is what is read from it: for every page that
/// the file holds, and for the page that an append adds.
pub proof fn lemma_written_page_is_read(
    file: Seq<u8>,
    page: u64,
    data: [u8; SIZE],
    healthy: nat,
    torn: Seq<u8>,
)
    requires
        file.len() + SIZE <= u64::MAX,
        page <= page_count(file.len()),
        healthy >= 2,
    ensures
        ({
            let (written, outcome) = run(Writing::start(page, data), file, healthy, torn);
            &&& outcome == Progress::<Writing, ()>::Finished(Ok(()))
            &&& run(Reading::start(page), written, healthy, torn) == (
                written,
                Progress::<Reading, [u8; SIZE]>::Finished(Ok(data)),
            )
        }),
{
    lemma_write_runs(file, page, data, healthy, torn);
    let written = overwritten(file, page * SIZE, data@);
    lemma_page_of_overwritten(file, page as int, data@);
    lemma_read_runs(written, page, healthy, torn);
    lemma_array_of::<SIZE>(data@);
    assert(array_of::<SIZE>(data@) =~= data);
}

/// A read is refused with `ReadOutOfRange` exactly where the page lies behind
/// the last page of the file, and a write with `WriteOutOfRange` exactly
/// where it lies behind the page that follows the last: the write alone may
/// name that page.
pub proof fn lemma_bounds(file: Seq<u8>, page: u64, data: [u8; SIZE], healthy: nat, torn: Seq<u8>)
    requires
        file.len() <= u64::MAX,
        healthy >= 2,
    ensures
        run(Reading::start(page), file, healthy, torn).1 == Progress::<
            Reading,
            [u8; SIZE],
        >::Finished(Err(Error::ReadOutOfRange)) <==> page >= page_count(file.len()),
        run(Writing::start(page, data), file, healthy, torn).1 == Progress::<
            Writing,
            (),
        >::Finished(Err(Error::WriteOutOfRange)) <==> page > page_count(file.len()),
        run(Writing::start(page, data), file, healthy, torn).1 == Progress::<
            Writing,
            (),
        >::Finished(Ok(())) <==> page <= page_count(file.len()),
{
    lemma_read_runs(file, page, healthy, torn);
    lemma_write_runs(file, page, data, healthy, torn);
}

/// A copy is refused with `ReadOutOfRange` where its source lies behind the
/// last page of the file, and with `WriteOutOfRange` where its source is
/// there and its target lies behind the page that follows the last.
pub proof fn lemma_copy_bounds(file: Seq<u8>, src: u64, dst: u64, healthy: nat, torn: Seq<u8>)
    requires
        file.len() <= u64::MAX,
        healthy >= 4,
        src != dst,
    ensures
        run(Copying::start(src, dst), file, healthy, torn).1 == Progress::<
            Copying,
            (),
        >::Finished(Err(Error::ReadOutOfRange)) <==> src >= page_count(file.len()),
        run(Copying::start(src, dst), file, healthy, torn).1 == Progress::<
            Copying,
            (),
        >::Finished(Err(Error::WriteOutOfRange)) <==> src < page_count(file.len()) && dst
            > page_count(file.len()),
{
    lemma_copy_runs(file, src, dst, healthy, torn);
}

/// A copy of a page to itself fails with `SelfCopy` before anything is asked
/// of the file.
pub proof fn lemma_self_copy_fails(file: Seq<u8>, page: u64, healthy: nat, torn: Seq<u8>)
    ensures
        Copying::start(page, page) == Progress::<Copying, ()>::Finished(Err(Error::SelfCopy)),
        run(Copying::start(page, page), file, healthy, torn) == (
            file,
            Progress::<Copying, ()>::Finished(Err(Error::SelfCopy)),
        ),
{
}

/// A write to the page that follows the last page of a file made of whole
/// pages adds exactly that page: the file grows by one page, and every page
/// that it held stays as it was.
pub proof fn lemma_append(file: Seq<u8>, data: Seq<u8>)
    requires
        file.len() % (SIZE as nat) == 0,
        data.len() == SIZE,
    ensures
        overwritten(file, page_count(file.len()) * SIZE, data) == file + data,
{
    assert(overwritten(file, page_count(file.len()) * SIZE, data) =~= file + data);
}

/// A write to a page that is there, or comes next, in a file made of whole
/// pages leaves a file made of whole pages, as long as it was or one page
/// longer: no write leaves a gap.
pub proof fn lemma_overwritten_keeps_whole_pages(file: Seq<u8>, page: int, data: Seq<u8>)
    requires
        file.len() % (SIZE as nat) == 0,
        0 <= page <= page_count(file.len()),
        data.len() == SIZE,
    ensures
        overwritten(file, page * SIZE, data).len() % (SIZE as nat) == 0,
        page < page_count(file.len()) ==> overwritten(file, page * SIZE, data).len()
            == file.len(),
        page == page_count(file.len()) ==> overwritten(file, page * SIZE, data).len()
            == file.len() + SIZE,
{
}

/// What a copy asks of a file on which it can succeed, in this order: the
/// length, the bytes of the source, the length again, and the write of those
/// bytes to the target.
pub open spec fn copy_requests(file: Seq<u8>, src: u64, dst: u64) -> Seq<Request> {
    seq![
        Request::Length,
        Request::Read { offset: (src * SIZE) as u64 },
        Request::Length,
        Request::Write {
            offset: (dst * SIZE) as u64,
            page: array_of(page_at(file, src as int)),
        },
    ]
}

/// A copy reads before it writes, whatever fails: what it has asked of the
/// file when it ends are the first of the requests of `copy_requests`, up to
/// the one that failed, or all four of them.
pub proof fn lemma_copy_asks(file: Seq<u8>, src: u64, dst: u64, healthy: nat)
    requires
        file.len() <= u64::MAX,
        copy_outcome(file, src, dst).1 is Ok,
    ensures
        asked(Copying::start(src, dst), file, healthy) == copy_requests(file, src, dst).take(
            if healthy < 4 { healthy as int + 1 } else { 4 },
        ),
{
    reveal_with_fuel(asked, 5);
    lemma_array_of::<SIZE>(page_at(file, src as int));
    assert(asked(Copying::start(src, dst), file, healthy) =~= copy_requests(file, src, dst).take(
        if healthy < 4 { healthy as int + 1 } else { 4 },
    ));
}

} // verus!
