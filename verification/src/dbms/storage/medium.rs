//! The conversation between an operation of this layer and the backing file.
//!
//! No operation touches the file. It says what it wants of the file next, one
//! request at a time, is handed the reply and goes on from there, until it is
//! finished. Whoever holds the file serves the requests.
//!
//! The file itself appears here as the sequence of its bytes: [`serve`] says
//! how a sound file answers a request, and [`run`] what becomes of the file
//! and of the operation when every request is served that way. What has been
//! written is not on the storage medium until a flush: [`unflushed`] follows
//! the pages that a crash may still take, and [`may_survive`] says what a
//! crash leaves.

use crate::dbms::storage::page::{Error, SIZE};
use vstd::prelude::*;

verus! {

/// What an operation wants of the backing file.
#[derive(Debug, Clone, Copy, PartialEq, Eq)]
pub enum Request {
    /// The length of the file in bytes, as it is now.
    Length,
    /// The `SIZE` bytes that start at `offset`, in full.
    Read { offset: u64 },
    /// The bytes of `page` written at `offset`, in full.
    Write { offset: u64, page: [u8; SIZE] },
    /// Everything written so far brought to the storage medium.
    Sync,
}

/// What the backing file answered.
#[derive(Debug, Clone, Copy, PartialEq, Eq)]
pub enum Reply {
    /// The length of the file in bytes.
    Length(u64),
    /// The bytes that were read.
    Page([u8; SIZE]),
    /// The write or the flush is complete.
    Done,
    /// The request could not be carried out.
    Failed,
}

/// Where an operation stands: waiting for the reply to a request, or finished.
#[derive(Debug, PartialEq, Eq)]
pub enum Progress<S, T> {
    /// The operation stands at the state given and waits for the reply to the
    /// request given.
    Pending(S, Request),
    /// The operation is over, with what it yields or with why it failed.
    Finished(Result<T, Error>),
}

/// An operation in flight.
pub trait Operation: Sized {
    /// What the operation yields when it succeeds.
    type Output;

    /// Where the operation stands once `reply` has come in.
    spec fn after(self, reply: Reply) -> Progress<Self, Self::Output>;

    /// A request that failed ends the operation.
    proof fn lemma_failure_ends(self)
        ensures
            self.after(Reply::Failed) == Progress::<Self, Self::Output>::Finished(Err(Error::Io)),
    ;

    /// Takes the reply to the pending request and goes on.
    fn resume(self, reply: Reply) -> (next: Progress<Self, Self::Output>)
        ensures
            next == self.after(reply),
    ;
}

/// The array that holds `bytes`.
pub open spec fn array_of<const N: usize>(bytes: Seq<u8>) -> [u8; N] {
    choose|array: [u8; N]| array@ == bytes
}

/// An array whose first `count` bytes are those of `bytes`.
proof fn array_with_prefix<const N: usize>(bytes: Seq<u8>, count: nat) -> (array: [u8; N])
    requires
        bytes.len() == N,
        count <= N,
    ensures
        forall|i: int| 0 <= i < count ==> array@[i] == bytes[i],
    decreases count,
{
    if count == 0 {
        vstd::array::spec_array_fill_for_copy_type::<u8, N>(0u8)
    } else {
        let shorter = array_with_prefix::<N>(bytes, (count - 1) as nat);
        vstd::array::axiom_spec_array_update(shorter, count - 1, bytes[count - 1]);
        vstd::array::spec_array_update(shorter, count - 1, bytes[count - 1])
    }
}

/// There is an array for every sequence of its length.
pub proof fn lemma_array_of<const N: usize>(bytes: Seq<u8>)
    requires
        bytes.len() == N,
    ensures
        array_of::<N>(bytes)@ == bytes,
{
    let array = array_with_prefix::<N>(bytes, N as nat);
    assert(array@ =~= bytes);
}

/// The number of whole pages in a file of `length` bytes.
pub open spec fn page_count(length: nat) -> nat {
    length / (SIZE as nat)
}

/// The bytes of page `page` of `file`.
pub open spec fn page_at(file: Seq<u8>, page: int) -> Seq<u8> {
    file.subrange(page * SIZE, page * SIZE + SIZE)
}

/// `file` once `bytes` have been written at `offset`. A write that starts
/// behind the end leaves zero bytes in between.
pub open spec fn overwritten(file: Seq<u8>, offset: int, bytes: Seq<u8>) -> Seq<u8> {
    Seq::new(
        if file.len() >= offset + bytes.len() {
            file.len()
        } else {
            (offset + bytes.len()) as nat
        },
        |place: int|
            if offset <= place < offset + bytes.len() {
                bytes[place - offset]
            } else if place < file.len() {
                file[place]
            } else {
                0u8
            },
    )
}

/// What a sound file that holds `file` answers to `request`, and what it
/// holds then.
pub open spec fn serve(file: Seq<u8>, request: Request) -> (Seq<u8>, Reply) {
    match request {
        Request::Length => (file, Reply::Length(file.len() as u64)),
        Request::Read { offset } => if offset + SIZE <= file.len() {
            (file, Reply::Page(array_of(file.subrange(offset as int, offset + SIZE))))
        } else {
            (file, Reply::Failed)
        },
        Request::Write { offset, page } => (overwritten(file, offset as int, page@), Reply::Done),
        Request::Sync => (file, Reply::Done),
    }
}

/// What a file that held `file` may hold when `request` has failed: a write
/// may have left any bytes `torn`, up to a page of them, where it was to
/// write; any other request leaves the file as it was.
pub open spec fn fail(file: Seq<u8>, request: Request, torn: Seq<u8>) -> Seq<u8> {
    match request {
        Request::Write { offset, page } => overwritten(file, offset as int, torn),
        _ => file,
    }
}

/// What becomes of `file` and of an operation that stands at `progress` when
/// the file serves `healthy` requests soundly and fails the one after them,
/// leaving `torn` behind where that one was a write.
pub open spec fn run<O: Operation>(
    progress: Progress<O, O::Output>,
    file: Seq<u8>,
    healthy: nat,
    torn: Seq<u8>,
) -> (Seq<u8>, Progress<O, O::Output>)
    decreases healthy,
{
    match progress {
        Progress::Finished(_) => (file, progress),
        Progress::Pending(state, request) => if healthy == 0 {
            (fail(file, request, torn), state.after(Reply::Failed))
        } else {
            let (next, reply) = serve(file, request);
            run(state.after(reply), next, (healthy - 1) as nat, torn)
        },
    }
}

/// However many requests the file serves, an operation comes to its end: at
/// the latest with the request that fails.
pub proof fn lemma_run_ends<O: Operation>(
    progress: Progress<O, O::Output>,
    file: Seq<u8>,
    healthy: nat,
    torn: Seq<u8>,
)
    ensures
        run(progress, file, healthy, torn).1 is Finished,
    decreases healthy,
{
    match progress {
        Progress::Finished(_) => {},
        Progress::Pending(state, request) => {
            if healthy == 0 {
                state.lemma_failure_ends();
            } else {
                let (next, reply) = serve(file, request);
                lemma_run_ends(state.after(reply), next, (healthy - 1) as nat, torn);
            }
        },
    }
}

/// The requests that an operation which stands at `progress` makes of `file`,
/// in their order, when the file serves `healthy` requests soundly and fails
/// the one after them.
pub open spec fn asked<O: Operation>(
    progress: Progress<O, O::Output>,
    file: Seq<u8>,
    healthy: nat,
) -> Seq<Request>
    decreases healthy,
{
    match progress {
        Progress::Finished(_) => Seq::empty(),
        Progress::Pending(state, request) => if healthy == 0 {
            seq![request]
        } else {
            let (next, reply) = serve(file, request);
            seq![request] + asked(state.after(reply), next, (healthy - 1) as nat)
        },
    }
}

/// The pages that have been written and not flushed once `request` has been
/// served, where `dirty` were those before: a write adds the pages that it
/// touches, and a flush leaves none.
pub open spec fn touched(dirty: Set<int>, request: Request) -> Set<int> {
    match request {
        Request::Write { offset, page } => dirty.insert(offset as int / SIZE as int).insert(
            (offset + SIZE - 1) / SIZE as int,
        ),
        Request::Sync => Set::empty(),
        _ => dirty,
    }
}

/// What `file` holds, and which of its pages have been written and not
/// flushed, when an operation that stood at `progress` has had `served`
/// requests served, or has finished before that; `dirty` are the pages that
/// were not flushed when it started.
pub open spec fn unflushed<O: Operation>(
    progress: Progress<O, O::Output>,
    file: Seq<u8>,
    dirty: Set<int>,
    served: nat,
) -> (Seq<u8>, Set<int>)
    decreases served,
{
    match progress {
        Progress::Finished(_) => (file, dirty),
        Progress::Pending(state, request) => if served == 0 {
            (file, dirty)
        } else {
            let (next, reply) = serve(file, request);
            unflushed(state.after(reply), next, touched(dirty, request), (served - 1) as nat)
        },
    }
}

/// Whether `survivor` may be what the storage medium holds after a crash that
/// struck when the file held `file` and the pages `dirty` of it had not been
/// flushed: every other page is there as it was. Nothing is known of the
/// pages that had not been flushed.
pub open spec fn may_survive(file: Seq<u8>, dirty: Set<int>, survivor: Seq<u8>) -> bool {
    forall|page: int|
        0 <= page < page_count(file.len()) && !dirty.contains(page) ==> {
            &&& page < page_count(survivor.len())
            &&& #[trigger] page_at(survivor, page) == page_at(file, page)
        }
}

} // verus!
