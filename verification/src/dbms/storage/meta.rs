//! A record that survives a crash: one payload, kept in a main page and a
//! backup page.
//!
//! Each of the two pages holds a payload and, in its last byte, the checksum
//! of that payload. The backup is brought up to date and flushed before the
//! main page is overwritten, so at every moment one of the two is whole. A
//! read that finds the main page damaged takes the payload of the backup and
//! mends the main page with it.

use crate::dbms::storage::integrity;
use crate::dbms::storage::medium::{array_of, lemma_array_of, Operation, Progress, Reply, Request};
use crate::dbms::storage::page;
use crate::dbms::storage::page::{Error, SIZE};
use vstd::prelude::*;

pub mod laws;

verus! {

/// The polynomial of the checksum of a payload.
pub const CRC_POLY: u8 = 0xB0;

/// The number of bytes in a payload.
pub const PAYLOAD: usize = SIZE - 1;

/// The page that stores `payload`: the payload, then its checksum.
pub open spec fn sealed(payload: Seq<u8>) -> Seq<u8> {
    payload.push(integrity::checksum(CRC_POLY, payload))
}

/// The payload that `page` stores.
pub open spec fn payload_of(page: Seq<u8>) -> Seq<u8> {
    page.take(PAYLOAD as int)
}

/// Whether the last byte of `page` is the checksum of the payload before it.
pub open spec fn is_sealed(page: Seq<u8>) -> bool {
    page[PAYLOAD as int] == integrity::checksum(CRC_POLY, payload_of(page))
}

/// The page that stores `payload`.
pub fn seal(payload: &[u8; PAYLOAD]) -> (stored: [u8; SIZE])
    ensures
        stored@ == sealed(payload@),
        stored == array_of::<SIZE>(sealed(payload@)),
{
    let mut stored = [0u8; SIZE];
    let mut place: usize = 0;
    while place < PAYLOAD
        invariant
            place <= PAYLOAD,
            forall|i: int| 0 <= i < place ==> stored@[i] == payload@[i],
        decreases PAYLOAD - place,
    {
        stored[place] = payload[place];
        place += 1;
    }
    stored[PAYLOAD] = integrity::crc(CRC_POLY, payload);
    proof {
        assert(stored@ =~= sealed(payload@));
        lemma_array_of::<SIZE>(sealed(payload@));
        assert(stored =~= array_of::<SIZE>(sealed(payload@)));
    }
    stored
}

/// The payload that `stored` holds.
pub fn payload(stored: &[u8; SIZE]) -> (out: [u8; PAYLOAD])
    ensures
        out@ == payload_of(stored@),
        out == array_of::<PAYLOAD>(payload_of(stored@)),
{
    let mut out = [0u8; PAYLOAD];
    let mut place: usize = 0;
    while place < PAYLOAD
        invariant
            place <= PAYLOAD,
            forall|i: int| 0 <= i < place ==> out@[i] == stored@[i],
        decreases PAYLOAD - place,
    {
        out[place] = stored[place];
        place += 1;
    }
    proof {
        assert(out@ =~= payload_of(stored@));
        lemma_array_of::<PAYLOAD>(payload_of(stored@));
        assert(out =~= array_of::<PAYLOAD>(payload_of(stored@)));
    }
    out
}

/// The payload of all zero bytes.
pub open spec fn blank() -> Seq<u8> {
    Seq::new(PAYLOAD as nat, |place: int| 0u8)
}

/// The write of a payload, in flight.
#[derive(Debug, Clone, Copy, PartialEq, Eq)]
pub enum Writing {
    /// The main page is being copied to the backup page.
    Saving { copy: page::Copying, main: u64, payload: [u8; PAYLOAD] },
    /// The flush of the backup has been asked for.
    Flushing { main: u64, payload: [u8; PAYLOAD] },
    /// The main page is being overwritten.
    Storing { write: page::Writing },
}

impl Writing {
    /// The write of `payload` to the pair `pair` of main and backup page,
    /// before its first reply.
    pub open spec fn start(pair: (u64, u64), payload: [u8; PAYLOAD]) -> Progress<Writing, ()> {
        Writing::saving(page::Copying::start(pair.0, pair.1), pair.0, payload)
    }

    /// The write while its copy stands at `copy`.
    pub open spec fn saving(
        copy: Progress<page::Copying, ()>,
        main: u64,
        payload: [u8; PAYLOAD],
    ) -> Progress<Writing, ()> {
        match copy {
            Progress::Pending(state, request) => Progress::Pending(
                Writing::Saving { copy: state, main, payload },
                request,
            ),
            Progress::Finished(Err(error)) => Progress::Finished(Err(error)),
            Progress::Finished(Ok(())) => Progress::Pending(
                Writing::Flushing { main, payload },
                Request::Sync,
            ),
        }
    }

    /// The write while the overwrite of the main page stands at `write`.
    pub open spec fn storing(write: Progress<page::Writing, ()>) -> Progress<Writing, ()> {
        match write {
            Progress::Pending(state, request) => Progress::Pending(
                Writing::Storing { write: state },
                request,
            ),
            Progress::Finished(outcome) => Progress::Finished(outcome),
        }
    }

    fn go_on_saving(copy: Progress<page::Copying, ()>, main: u64, payload: [u8; PAYLOAD]) -> (next:
        Progress<Writing, ()>)
        ensures
            next == Writing::saving(copy, main, payload),
    {
        match copy {
            Progress::Pending(state, request) => Progress::Pending(
                Writing::Saving { copy: state, main, payload },
                request,
            ),
            Progress::Finished(Err(error)) => Progress::Finished(Err(error)),
            Progress::Finished(Ok(())) => Progress::Pending(
                Writing::Flushing { main, payload },
                Request::Sync,
            ),
        }
    }

    fn go_on_storing(write: Progress<page::Writing, ()>) -> (next: Progress<Writing, ()>)
        ensures
            next == Writing::storing(write),
    {
        match write {
            Progress::Pending(state, request) => Progress::Pending(
                Writing::Storing { write: state },
                request,
            ),
            Progress::Finished(outcome) => Progress::Finished(outcome),
        }
    }
}

impl Operation for Writing {
    type Output = ();

    /// The reply goes to the copy or to the overwrite, whichever is under
    /// way. The flush is asked for when the copy has succeeded, and the
    /// overwrite starts when the flush is complete.
    open spec fn after(self, reply: Reply) -> Progress<Writing, ()> {
        match self {
            Writing::Saving { copy, main, payload } => Writing::saving(
                copy.after(reply),
                main,
                payload,
            ),
            Writing::Flushing { main, payload } => match reply {
                Reply::Done => Writing::storing(
                    page::Writing::start(main, array_of(sealed(payload@))),
                ),
                _ => Progress::Finished(Err(Error::Io)),
            },
            Writing::Storing { write } => Writing::storing(write.after(reply)),
        }
    }

    proof fn lemma_failure_ends(self) {
    }

    fn resume(self, reply: Reply) -> (next: Progress<Writing, ()>) {
        match self {
            Writing::Saving { copy, main, payload } => Writing::go_on_saving(
                copy.resume(reply),
                main,
                payload,
            ),
            Writing::Flushing { main, payload } => match reply {
                Reply::Done => {
                    let stored = seal(&payload);
                    Writing::go_on_storing(page::write(main, &stored))
                },
                _ => Progress::Finished(Err(Error::Io)),
            },
            Writing::Storing { write } => Writing::go_on_storing(write.resume(reply)),
        }
    }
}

/// Starts the write of the payload `buf` to the pair `pair` of main and
/// backup page. The main page is first copied to the backup page and the file
/// flushed; only then is the main page overwritten with the payload and its
/// checksum.
pub fn write(pair: (u64, u64), buf: &[u8; PAYLOAD]) -> (progress: Progress<Writing, ()>)
    ensures
        progress == Writing::start(pair, *buf),
{
    Writing::go_on_saving(page::copy(pair.0, pair.1), pair.0, *buf)
}

/// The read of a payload, in flight.
#[derive(Debug, Clone, Copy, PartialEq, Eq)]
pub enum Reading {
    /// The main page is being read.
    Main { read: page::Reading, pair: (u64, u64) },
    /// The main page was damaged, and the backup page is being read.
    Backup { read: page::Reading, main: u64 },
    /// The main page is being overwritten with what the backup page held.
    Mending { write: page::Writing, payload: [u8; PAYLOAD] },
}

impl Reading {
    /// The read of the payload of the pair `pair` of main and backup page,
    /// before its first reply.
    pub open spec fn start(pair: (u64, u64)) -> Progress<Reading, [u8; PAYLOAD]> {
        Reading::at_main(page::Reading::start(pair.0), pair)
    }

    /// The read while the read of the main page stands at `read`.
    pub open spec fn at_main(read: Progress<page::Reading, [u8; SIZE]>, pair: (u64, u64)) -> Progress<
        Reading,
        [u8; PAYLOAD],
    > {
        match read {
            Progress::Pending(state, request) => Progress::Pending(
                Reading::Main { read: state, pair },
                request,
            ),
            Progress::Finished(Err(error)) => Progress::Finished(Err(error)),
            Progress::Finished(Ok(stored)) => if is_sealed(stored@) {
                Progress::Finished(Ok(array_of(payload_of(stored@))))
            } else {
                Reading::at_backup(page::Reading::start(pair.1), pair.0)
            },
        }
    }

    /// The read while the read of the backup page stands at `read`.
    pub open spec fn at_backup(read: Progress<page::Reading, [u8; SIZE]>, main: u64) -> Progress<
        Reading,
        [u8; PAYLOAD],
    > {
        match read {
            Progress::Pending(state, request) => Progress::Pending(
                Reading::Backup { read: state, main },
                request,
            ),
            Progress::Finished(Err(error)) => Progress::Finished(Err(error)),
            Progress::Finished(Ok(stored)) => Reading::at_mending(
                page::Writing::start(main, array_of(sealed(payload_of(stored@)))),
                array_of(payload_of(stored@)),
            ),
        }
    }

    /// The read while the overwrite of the main page stands at `write`.
    pub open spec fn at_mending(write: Progress<page::Writing, ()>, payload: [u8; PAYLOAD]) -> Progress<
        Reading,
        [u8; PAYLOAD],
    > {
        match write {
            Progress::Pending(state, request) => Progress::Pending(
                Reading::Mending { write: state, payload },
                request,
            ),
            Progress::Finished(Err(error)) => Progress::Finished(Err(error)),
            Progress::Finished(Ok(())) => Progress::Finished(Ok(payload)),
        }
    }

    fn go_on_main(read: Progress<page::Reading, [u8; SIZE]>, pair: (u64, u64)) -> (next: Progress<
        Reading,
        [u8; PAYLOAD],
    >)
        ensures
            next == Reading::at_main(read, pair),
    {
        match read {
            Progress::Pending(state, request) => Progress::Pending(
                Reading::Main { read: state, pair },
                request,
            ),
            Progress::Finished(Err(error)) => Progress::Finished(Err(error)),
            Progress::Finished(Ok(stored)) => {
                let found = payload(&stored);
                if stored[PAYLOAD] != integrity::crc(CRC_POLY, &found) {
                    // Whatever went wrong with the main page, what the backup
                    // page holds takes its place.
                    Reading::go_on_backup(page::read(pair.1), pair.0)
                } else {
                    Progress::Finished(Ok(found))
                }
            },
        }
    }

    fn go_on_backup(read: Progress<page::Reading, [u8; SIZE]>, main: u64) -> (next: Progress<
        Reading,
        [u8; PAYLOAD],
    >)
        ensures
            next == Reading::at_backup(read, main),
    {
        match read {
            Progress::Pending(state, request) => Progress::Pending(
                Reading::Backup { read: state, main },
                request,
            ),
            Progress::Finished(Err(error)) => Progress::Finished(Err(error)),
            Progress::Finished(Ok(stored)) => {
                let found = payload(&stored);
                let mended = seal(&found);
                Reading::go_on_mending(page::write(main, &mended), found)
            },
        }
    }

    fn go_on_mending(write: Progress<page::Writing, ()>, payload: [u8; PAYLOAD]) -> (next: Progress<
        Reading,
        [u8; PAYLOAD],
    >)
        ensures
            next == Reading::at_mending(write, payload),
    {
        match write {
            Progress::Pending(state, request) => Progress::Pending(
                Reading::Mending { write: state, payload },
                request,
            ),
            Progress::Finished(Err(error)) => Progress::Finished(Err(error)),
            Progress::Finished(Ok(())) => Progress::Finished(Ok(payload)),
        }
    }
}

impl Operation for Reading {
    type Output = [u8; PAYLOAD];

    /// The reply goes to the read or to the write that is under way. A main
    /// page whose checksum holds ends the read; any other has the backup page
    /// read, and what that holds written to the main page.
    open spec fn after(self, reply: Reply) -> Progress<Reading, [u8; PAYLOAD]> {
        match self {
            Reading::Main { read, pair } => Reading::at_main(read.after(reply), pair),
            Reading::Backup { read, main } => Reading::at_backup(read.after(reply), main),
            Reading::Mending { write, payload } => Reading::at_mending(write.after(reply), payload),
        }
    }

    proof fn lemma_failure_ends(self) {
    }

    fn resume(self, reply: Reply) -> (next: Progress<Reading, [u8; PAYLOAD]>) {
        match self {
            Reading::Main { read, pair } => Reading::go_on_main(read.resume(reply), pair),
            Reading::Backup { read, main } => Reading::go_on_backup(read.resume(reply), main),
            Reading::Mending { write, payload } => Reading::go_on_mending(
                write.resume(reply),
                payload,
            ),
        }
    }
}

/// Starts the read of the payload of the pair `pair` of main and backup page.
/// A main page whose checksum holds yields its payload. Otherwise the backup
/// page yields its payload, whatever its checksum, and the main page is
/// overwritten with that payload and its checksum before the read ends.
pub fn read(pair: (u64, u64)) -> (progress: Progress<Reading, [u8; PAYLOAD]>)
    ensures
        progress == Reading::start(pair),
{
    Reading::go_on_main(page::read(pair.0), pair)
}

/// The first write to a pair of pages, in flight.
#[derive(Debug, Clone, Copy, PartialEq, Eq)]
pub enum Initializing {
    /// The backup page is being written.
    Backup { write: page::Writing, main: u64, stored: [u8; SIZE] },
    /// The flush of the backup has been asked for.
    Flushing { main: u64, stored: [u8; SIZE] },
    /// The main page is being written.
    Main { write: page::Writing },
}

impl Initializing {
    /// The first write to the pair `pair` of main and backup page, before its
    /// first reply.
    pub open spec fn start(pair: (u64, u64)) -> Progress<Initializing, ()> {
        let stored = array_of::<SIZE>(sealed(blank()));
        Initializing::at_backup(page::Writing::start(pair.1, stored), pair.0, stored)
    }

    /// The first write while the write of the backup page stands at `write`.
    pub open spec fn at_backup(write: Progress<page::Writing, ()>, main: u64, stored: [u8; SIZE])
        -> Progress<Initializing, ()> {
        match write {
            Progress::Pending(state, request) => Progress::Pending(
                Initializing::Backup { write: state, main, stored },
                request,
            ),
            Progress::Finished(Err(error)) => Progress::Finished(Err(error)),
            Progress::Finished(Ok(())) => Progress::Pending(
                Initializing::Flushing { main, stored },
                Request::Sync,
            ),
        }
    }

    /// The first write while the write of the main page stands at `write`.
    pub open spec fn at_main(write: Progress<page::Writing, ()>) -> Progress<Initializing, ()> {
        match write {
            Progress::Pending(state, request) => Progress::Pending(
                Initializing::Main { write: state },
                request,
            ),
            Progress::Finished(outcome) => Progress::Finished(outcome),
        }
    }

    fn go_on_backup(write: Progress<page::Writing, ()>, main: u64, stored: [u8; SIZE]) -> (next:
        Progress<Initializing, ()>)
        ensures
            next == Initializing::at_backup(write, main, stored),
    {
        match write {
            Progress::Pending(state, request) => Progress::Pending(
                Initializing::Backup { write: state, main, stored },
                request,
            ),
            Progress::Finished(Err(error)) => Progress::Finished(Err(error)),
            Progress::Finished(Ok(())) => Progress::Pending(
                Initializing::Flushing { main, stored },
                Request::Sync,
            ),
        }
    }

    fn go_on_main(write: Progress<page::Writing, ()>) -> (next: Progress<Initializing, ()>)
        ensures
            next == Initializing::at_main(write),
    {
        match write {
            Progress::Pending(state, request) => Progress::Pending(
                Initializing::Main { write: state },
                request,
            ),
            Progress::Finished(outcome) => Progress::Finished(outcome),
        }
    }
}

impl Operation for Initializing {
    type Output = ();

    /// The reply goes to the write that is under way. The flush is asked for
    /// when the backup page has been written, and the write of the main page
    /// starts when the flush is complete.
    open spec fn after(self, reply: Reply) -> Progress<Initializing, ()> {
        match self {
            Initializing::Backup { write, main, stored } => Initializing::at_backup(
                write.after(reply),
                main,
                stored,
            ),
            Initializing::Flushing { main, stored } => match reply {
                Reply::Done => Initializing::at_main(page::Writing::start(main, stored)),
                _ => Progress::Finished(Err(Error::Io)),
            },
            Initializing::Main { write } => Initializing::at_main(write.after(reply)),
        }
    }

    proof fn lemma_failure_ends(self) {
    }

    fn resume(self, reply: Reply) -> (next: Progress<Initializing, ()>) {
        match self {
            Initializing::Backup { write, main, stored } => Initializing::go_on_backup(
                write.resume(reply),
                main,
                stored,
            ),
            Initializing::Flushing { main, stored } => match reply {
                Reply::Done => Initializing::go_on_main(page::write(main, &stored)),
                _ => Progress::Finished(Err(Error::Io)),
            },
            Initializing::Main { write } => Initializing::go_on_main(write.resume(reply)),
        }
    }
}

/// Starts the first write to the pair `pair` of main and backup page: the
/// payload of all zero bytes, with its checksum, goes to the backup page, the
/// file is flushed, and the same page goes to the main page.
pub fn init(pair: (u64, u64)) -> (progress: Progress<Initializing, ()>)
    ensures
        progress == Initializing::start(pair),
{
    let empty = [0u8; PAYLOAD];
    assert(empty@ =~= blank());
    let stored = seal(&empty);
    Initializing::go_on_backup(page::write(pair.1, &stored), pair.0, stored)
}

} // verus!
