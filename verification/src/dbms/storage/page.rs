//! Pages: the fixed-size blocks that the backing file is made of.

use crate::dbms::storage::medium::{Operation, Progress, Reply, Request};
use vstd::prelude::*;

pub mod laws;
pub mod slot;

verus! {

/// The number of bytes in a page.
pub const SIZE: usize = 8192;

/// Why an operation on pages came to nothing.
#[derive(Debug, Clone, Copy, PartialEq, Eq, Structural)]
pub enum Error {
    /// The page to read lies behind the last page of the file.
    ReadOutOfRange,
    /// The page to write lies behind the page that would be appended next.
    WriteOutOfRange,
    /// The page to copy from is the page to copy to.
    SelfCopy,
    /// The backing file failed a request; its holder knows the cause.
    Io,
}

impl Error {
    /// The words that name the error.
    pub open spec fn message(self) -> Seq<char> {
        match self {
            Error::ReadOutOfRange => "tried to read distant page"@,
            Error::WriteOutOfRange => "tried to write distant page"@,
            Error::SelfCopy => "tried to copy page to itself"@,
            Error::Io => "the backing file failed a request"@,
        }
    }

    /// The words that name the error.
    pub fn to_string(&self) -> (text: String)
        ensures
            text@ == self.message(),
    {
        match self {
            Error::ReadOutOfRange => "tried to read distant page".to_owned(),
            Error::WriteOutOfRange => "tried to write distant page".to_owned(),
            Error::SelfCopy => "tried to copy page to itself".to_owned(),
            Error::Io => "the backing file failed a request".to_owned(),
        }
    }
}

/// Whether page `page` can be read from a file of `length` bytes: the page
/// is there in full.
pub open spec fn readable(length: u64, page: u64) -> bool {
    page + 1 <= length / (SIZE as u64)
}

/// Whether page `page` can be written to a file of `length` bytes: the page
/// is there, or it is the one that comes next.
pub open spec fn writable(length: u64, page: u64) -> bool {
    page <= length / (SIZE as u64)
}

/// The offset of a page that a file of `length` bytes holds, or that comes
/// next, lies within the file or at its end.
proof fn lemma_offset_fits(length: u64, page: u64)
    requires
        writable(length, page),
    ensures
        page * SIZE <= length,
{
    assert(page * 8192 <= length) by (nonlinear_arith)
        requires
            page <= length / 8192,
    ;
}

/// The read of a page, in flight.
#[derive(Debug, Clone, Copy, PartialEq, Eq)]
pub enum Reading {
    /// The length of the file has been asked for.
    Measuring { page: u64 },
    /// The bytes of the page have been asked for.
    Fetching,
}

impl Reading {
    /// The read of page `page`, before its first reply.
    pub open spec fn start(page: u64) -> Progress<Reading, [u8; SIZE]> {
        Progress::Pending(Reading::Measuring { page }, Request::Length)
    }
}

impl Operation for Reading {
    type Output = [u8; SIZE];

    /// The length decides whether the page is asked for, at its offset, or
    /// refused; the bytes of the page end the read. Any other reply is a
    /// failure of the file.
    open spec fn after(self, reply: Reply) -> Progress<Reading, [u8; SIZE]> {
        match (self, reply) {
            (Reading::Measuring { page }, Reply::Length(length)) => if readable(length, page) {
                Progress::Pending(Reading::Fetching, Request::Read { offset: (page * SIZE) as u64 })
            } else {
                Progress::Finished(Err(Error::ReadOutOfRange))
            },
            (Reading::Fetching, Reply::Page(data)) => Progress::Finished(Ok(data)),
            _ => Progress::Finished(Err(Error::Io)),
        }
    }

    proof fn lemma_failure_ends(self) {
    }

    fn resume(self, reply: Reply) -> (next: Progress<Reading, [u8; SIZE]>) {
        match self {
            Reading::Measuring { page } => match reply {
                Reply::Length(length) => {
                    let max = length / SIZE as u64;
                    if page >= max {
                        Progress::Finished(Err(Error::ReadOutOfRange))
                    } else {
                        proof {
                            lemma_offset_fits(length, page);
                        }
                        Progress::Pending(
                            Reading::Fetching,
                            Request::Read { offset: page * SIZE as u64 },
                        )
                    }
                },
                _ => Progress::Finished(Err(Error::Io)),
            },
            Reading::Fetching => match reply {
                Reply::Page(data) => Progress::Finished(Ok(data)),
                _ => Progress::Finished(Err(Error::Io)),
            },
        }
    }
}

/// Starts the read of page `page`. It fails with `ReadOutOfRange` unless the
/// file holds the page in full, and yields the bytes of the page otherwise.
pub fn read(page: u64) -> (progress: Progress<Reading, [u8; SIZE]>)
    ensures
        progress == Reading::start(page),
{
    Progress::Pending(Reading::Measuring { page }, Request::Length)
}

/// The write of a page, in flight.
#[derive(Debug, Clone, Copy, PartialEq, Eq)]
pub enum Writing {
    /// The length of the file has been asked for.
    Measuring { page: u64, data: [u8; SIZE] },
    /// The write of the bytes has been asked for.
    Storing,
}

impl Writing {
    /// The write of `data` to page `page`, before its first reply.
    pub open spec fn start(page: u64, data: [u8; SIZE]) -> Progress<Writing, ()> {
        Progress::Pending(Writing::Measuring { page, data }, Request::Length)
    }
}

impl Operation for Writing {
    type Output = ();

    /// The length decides whether the bytes are sent to the offset of the
    /// page or the write is refused; the word that they are written ends the
    /// write. Any other reply is a failure of the file.
    open spec fn after(self, reply: Reply) -> Progress<Writing, ()> {
        match (self, reply) {
            (Writing::Measuring { page, data }, Reply::Length(length)) => if writable(
                length,
                page,
            ) {
                Progress::Pending(
                    Writing::Storing,
                    Request::Write { offset: (page * SIZE) as u64, page: data },
                )
            } else {
                Progress::Finished(Err(Error::WriteOutOfRange))
            },
            (Writing::Storing, Reply::Done) => Progress::Finished(Ok(())),
            _ => Progress::Finished(Err(Error::Io)),
        }
    }

    proof fn lemma_failure_ends(self) {
    }

    fn resume(self, reply: Reply) -> (next: Progress<Writing, ()>) {
        match self {
            Writing::Measuring { page, data } => match reply {
                Reply::Length(length) => {
                    let max = length / SIZE as u64;
                    if page > max {
                        Progress::Finished(Err(Error::WriteOutOfRange))
                    } else {
                        proof {
                            lemma_offset_fits(length, page);
                        }
                        Progress::Pending(
                            Writing::Storing,
                            Request::Write { offset: page * SIZE as u64, page: data },
                        )
                    }
                },
                _ => Progress::Finished(Err(Error::Io)),
            },
            Writing::Storing => match reply {
                Reply::Done => Progress::Finished(Ok(())),
                _ => Progress::Finished(Err(Error::Io)),
            },
        }
    }
}

/// Starts the write of `buf` to page `page`. It fails with `WriteOutOfRange`
/// when the page lies behind the one that an append would add.
pub fn write(page: u64, buf: &[u8; SIZE]) -> (progress: Progress<Writing, ()>)
    ensures
        progress == Writing::start(page, *buf),
{
    Progress::Pending(Writing::Measuring { page, data: *buf }, Request::Length)
}

/// The copy of one page to another, in flight.
#[derive(Debug, Clone, Copy, PartialEq, Eq)]
pub enum Copying {
    /// The source is being read.
    Loading { read: Reading, dst: u64 },
    /// The target is being written.
    Storing { write: Writing },
}

impl Copying {
    /// The copy of page `src` to page `dst`, before its first reply.
    pub open spec fn start(src: u64, dst: u64) -> Progress<Copying, ()> {
        if src == dst {
            Progress::Finished(Err(Error::SelfCopy))
        } else {
            Copying::loading(Reading::start(src), dst)
        }
    }

    /// The copy while its read stands at `read`.
    pub open spec fn loading(read: Progress<Reading, [u8; SIZE]>, dst: u64) -> Progress<
        Copying,
        (),
    > {
        match read {
            Progress::Pending(state, request) => Progress::Pending(
                Copying::Loading { read: state, dst },
                request,
            ),
            Progress::Finished(Err(error)) => Progress::Finished(Err(error)),
            Progress::Finished(Ok(data)) => Copying::storing(Writing::start(dst, data)),
        }
    }

    /// The copy while its write stands at `write`.
    pub open spec fn storing(write: Progress<Writing, ()>) -> Progress<Copying, ()> {
        match write {
            Progress::Pending(state, request) => Progress::Pending(
                Copying::Storing { write: state },
                request,
            ),
            Progress::Finished(outcome) => Progress::Finished(outcome),
        }
    }

    fn go_on_loading(read: Progress<Reading, [u8; SIZE]>, dst: u64) -> (next: Progress<
        Copying,
        (),
    >)
        ensures
            next == Copying::loading(read, dst),
    {
        match read {
            Progress::Pending(state, request) => Progress::Pending(
                Copying::Loading { read: state, dst },
                request,
            ),
            Progress::Finished(Err(error)) => Progress::Finished(Err(error)),
            Progress::Finished(Ok(data)) => Copying::go_on_storing(write(dst, &data)),
        }
    }

    fn go_on_storing(write: Progress<Writing, ()>) -> (next: Progress<Copying, ()>)
        ensures
            next == Copying::storing(write),
    {
        match write {
            Progress::Pending(state, request) => Progress::Pending(
                Copying::Storing { write: state },
                request,
            ),
            Progress::Finished(outcome) => Progress::Finished(outcome),
        }
    }
}

impl Operation for Copying {
    type Output = ();

    /// The reply goes to the read or to the write, whichever is under way;
    /// the write starts with the bytes that the read yields.
    open spec fn after(self, reply: Reply) -> Progress<Copying, ()> {
        match self {
            Copying::Loading { read, dst } => Copying::loading(read.after(reply), dst),
            Copying::Storing { write } => Copying::storing(write.after(reply)),
        }
    }

    proof fn lemma_failure_ends(self) {
    }

    fn resume(self, reply: Reply) -> (next: Progress<Copying, ()>) {
        match self {
            Copying::Loading { read, dst } => Copying::go_on_loading(read.resume(reply), dst),
            Copying::Storing { write } => Copying::go_on_storing(write.resume(reply)),
        }
    }
}

/// Starts the copy of page `src` to page `dst`. It fails with `SelfCopy` when
/// the two are one page; otherwise the source is read and then written to
/// the target, and what stops the read stops the copy before anything is
/// written.
pub fn copy(src: u64, dst: u64) -> (progress: Progress<Copying, ()>)
    ensures
        progress == Copying::start(src, dst),
{
    if src == dst {
        return Progress::Finished(Err(Error::SelfCopy));
    }
    Copying::go_on_loading(read(src), dst)
}

} // verus!
