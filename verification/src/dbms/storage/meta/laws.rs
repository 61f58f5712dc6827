//! What the operations on a pair of pages come to on a file that serves their
//! requests, on one that fails a request, and on one that a crash strikes.

use crate::dbms::storage::integrity;
use crate::dbms::storage::medium::{
    array_of, asked, lemma_array_of, may_survive, overwritten, page_at, page_count, run,
    unflushed, Progress, Request,
};
use crate::dbms::storage::meta::{
    blank, is_sealed, payload_of, sealed, Initializing, Reading, Writing, CRC_POLY, PAYLOAD,
};
use crate::dbms::storage::page::laws::{
    lemma_other_page_of_overwritten, lemma_page_of_overwritten,
};
use crate::dbms::storage::page::{Error, SIZE};
use vstd::prelude::*;

verus! {

/// What the write of `payload` to the pair `pair` of `file` comes to, and
/// what the file holds then: the backup page holds what the main page held,
/// and the main page holds the payload and its checksum.
pub open spec fn write_outcome(file: Seq<u8>, pair: (u64, u64), payload: Seq<u8>) -> (
    Seq<u8>,
    Result<(), Error>,
) {
    if pair.0 == pair.1 {
        (file, Err(Error::SelfCopy))
    } else if pair.0 + 1 > page_count(file.len()) {
        (file, Err(Error::ReadOutOfRange))
    } else if pair.1 > page_count(file.len()) {
        (file, Err(Error::WriteOutOfRange))
    } else {
        let saved = overwritten(file, pair.1 * SIZE, page_at(file, pair.0 as int));
        (overwritten(saved, pair.0 * SIZE, sealed(payload)), Ok(()))
    }
}

/// What the read of the payload of the pair `pair` of `file` comes to, and
/// what the file holds then.
pub open spec fn read_outcome(file: Seq<u8>, pair: (u64, u64)) -> (
    Seq<u8>,
    Result<[u8; PAYLOAD], Error>,
) {
    if pair.0 + 1 > page_count(file.len()) {
        (file, Err(Error::ReadOutOfRange))
    } else if is_sealed(page_at(file, pair.0 as int)) {
        (file, Ok(array_of(payload_of(page_at(file, pair.0 as int)))))
    } else if pair.1 + 1 > page_count(file.len()) {
        (file, Err(Error::ReadOutOfRange))
    } else {
        let found = payload_of(page_at(file, pair.1 as int));
        (overwritten(file, pair.0 * SIZE, sealed(found)), Ok(array_of(found)))
    }
}

/// What the first write to the pair `pair` of `file` comes to, and what the
/// file holds then.
pub open spec fn init_outcome(file: Seq<u8>, pair: (u64, u64)) -> (Seq<u8>, Result<(), Error>) {
    if pair.1 > page_count(file.len()) {
        (file, Err(Error::WriteOutOfRange))
    } else {
        let saved = overwritten(file, pair.1 * SIZE, sealed(blank()));
        if pair.0 > page_count(saved.len()) {
            (saved, Err(Error::WriteOutOfRange))
        } else {
            (overwritten(saved, pair.0 * SIZE, sealed(blank())), Ok(()))
        }
    }
}

/// On a sound file the write of a payload takes seven requests at most and
/// comes to what `write_outcome` says.
pub proof fn lemma_write_runs(
    file: Seq<u8>,
    pair: (u64, u64),
    payload: [u8; PAYLOAD],
    healthy: nat,
    torn: Seq<u8>,
)
    requires
        file.len() + SIZE <= u64::MAX,
        healthy >= 7,
    ensures
        run(Writing::start(pair, payload), file, healthy, torn) == (
            write_outcome(file, pair, payload@).0,
            Progress::<Writing, ()>::Finished(write_outcome(file, pair, payload@).1),
        ),
{
    reveal_with_fuel(run, 8);
    lemma_array_of::<SIZE>(sealed(payload@));
    if pair.0 != pair.1 && pair.0 + 1 <= page_count(file.len()) {
        lemma_array_of::<SIZE>(page_at(file, pair.0 as int));
    }
}

/// On a sound file the read of a payload takes six requests at most and
/// comes to what `read_outcome` says.
pub proof fn lemma_read_runs(file: Seq<u8>, pair: (u64, u64), healthy: nat, torn: Seq<u8>)
    requires
        file.len() <= u64::MAX,
        healthy >= 6,
    ensures
        run(Reading::start(pair), file, healthy, torn) == (
            read_outcome(file, pair).0,
            Progress::<Reading, [u8; PAYLOAD]>::Finished(read_outcome(file, pair).1),
        ),
{
    reveal_with_fuel(run, 7);
    if pair.0 + 1 <= page_count(file.len()) {
        lemma_array_of::<SIZE>(page_at(file, pair.0 as int));
        if pair.1 + 1 <= page_count(file.len()) {
            let found = payload_of(page_at(file, pair.1 as int));
            lemma_array_of::<SIZE>(page_at(file, pair.1 as int));
            lemma_array_of::<SIZE>(sealed(found));
        }
    }
}

/// On a sound file the first write to a pair takes five requests at most and
/// comes to what `init_outcome` says.
pub proof fn lemma_init_runs(file: Seq<u8>, pair: (u64, u64), healthy: nat, torn: Seq<u8>)
    requires
        file.len() + SIZE <= u64::MAX,
        healthy >= 5,
    ensures
        run(Initializing::start(pair), file, healthy, torn) == (
            init_outcome(file, pair).0,
            Progress::<Initializing, ()>::Finished(init_outcome(file, pair).1),
        ),
{
    reveal_with_fuel(run, 6);
    lemma_array_of::<SIZE>(sealed(blank()));
}

/// A payload with its checksum behind it is a sealed page, and the payload
/// of that page.
pub proof fn lemma_sealed(payload: Seq<u8>)
    requires
        payload.len() == PAYLOAD,
    ensures
        sealed(payload).len() == SIZE,
        payload_of(sealed(payload)) == payload,
        is_sealed(sealed(payload)),
{
    assert(payload_of(sealed(payload)) =~= payload);
}

/// After the first write to a pair, the read of the pair yields the payload
/// of all zero bytes.
pub proof fn lemma_init_then_read(file: Seq<u8>, pair: (u64, u64), healthy: nat, torn: Seq<u8>)
    requires
        file.len() + 2 * SIZE <= u64::MAX,
        healthy >= 6,
        init_outcome(file, pair).1 is Ok,
    ensures
        ({
            let (stamped, outcome) = run(Initializing::start(pair), file, healthy, torn);
            &&& outcome == Progress::<Initializing, ()>::Finished(Ok(()))
            &&& run(Reading::start(pair), stamped, healthy, torn) == (
                stamped,
                Progress::<Reading, [u8; PAYLOAD]>::Finished(Ok(array_of(blank()))),
            )
            &&& array_of::<PAYLOAD>(blank())@ == blank()
        }),
{
    lemma_init_runs(file, pair, healthy, torn);
    lemma_sealed(blank());
    let saved = overwritten(file, pair.1 * SIZE, sealed(blank()));
    let stamped = overwritten(saved, pair.0 * SIZE, sealed(blank()));
    lemma_page_of_overwritten(saved, pair.0 as int, sealed(blank()));
    lemma_read_runs(stamped, pair, healthy, torn);
    lemma_array_of::<PAYLOAD>(blank());
}

/// After the write of a payload to a pair, the read of the pair yields that
/// payload.
pub proof fn lemma_write_then_read(
    file: Seq<u8>,
    pair: (u64, u64),
    payload: [u8; PAYLOAD],
    healthy: nat,
    torn: Seq<u8>,
)
    requires
        file.len() + SIZE <= u64::MAX,
        healthy >= 7,
        write_outcome(file, pair, payload@).1 is Ok,
    ensures
        ({
            let (written, outcome) = run(Writing::start(pair, payload), file, healthy, torn);
            &&& outcome == Progress::<Writing, ()>::Finished(Ok(()))
            &&& run(Reading::start(pair), written, healthy, torn) == (
                written,
                Progress::<Reading, [u8; PAYLOAD]>::Finished(Ok(payload)),
            )
        }),
{
    lemma_write_runs(file, pair, payload, healthy, torn);
    lemma_sealed(payload@);
    let saved = overwritten(file, pair.1 * SIZE, page_at(file, pair.0 as int));
    let written = overwritten(saved, pair.0 * SIZE, sealed(payload@));
    lemma_page_of_overwritten(saved, pair.0 as int, sealed(payload@));
    lemma_read_runs(written, pair, healthy, torn);
    lemma_array_of::<PAYLOAD>(payload@);
    assert(array_of::<PAYLOAD>(payload@) =~= payload);
}

/// The write of a payload succeeds exactly where main and backup page are
/// two pages, the file holds the main page, and the backup page is there or
/// comes next. It then leaves in the backup page what the main page held.
pub proof fn lemma_write_saves_main(file: Seq<u8>, pair: (u64, u64), payload: Seq<u8>)
    requires
        payload.len() == PAYLOAD,
    ensures
        write_outcome(file, pair, payload).1 is Ok <==> pair.0 != pair.1 && pair.0 < page_count(
            file.len(),
        ) && pair.1 <= page_count(file.len()),
        write_outcome(file, pair, payload).1 is Ok ==> {
            &&& page_at(write_outcome(file, pair, payload).0, pair.1 as int) == page_at(
                file,
                pair.0 as int,
            )
            &&& page_at(write_outcome(file, pair, payload).0, pair.0 as int) == sealed(payload)
        },
{
    if write_outcome(file, pair, payload).1 is Ok {
        let held = page_at(file, pair.0 as int);
        let saved = overwritten(file, pair.1 * SIZE, held);
        lemma_page_of_overwritten(file, pair.1 as int, held);
        lemma_page_of_overwritten(saved, pair.0 as int, sealed(payload));
        lemma_other_page_of_overwritten(saved, pair.0 as int, sealed(payload), pair.1 as int);
    }
}

/// Where the write of a payload fails because the backup page lies too far
/// behind the end of the file, the file is as it was, main page and all.
pub proof fn lemma_write_with_distant_backup(
    file: Seq<u8>,
    pair: (u64, u64),
    payload: [u8; PAYLOAD],
    healthy: nat,
    torn: Seq<u8>,
)
    requires
        file.len() + SIZE <= u64::MAX,
        healthy >= 7,
        pair.0 < page_count(file.len()),
        pair.1 > page_count(file.len()),
    ensures
        run(Writing::start(pair, payload), file, healthy, torn) == (
            file,
            Progress::<Writing, ()>::Finished(Err(Error::WriteOutOfRange)),
        ),
{
    lemma_write_runs(file, pair, payload, healthy, torn);
}

/// Where the write of a payload fails because the file does not hold the
/// main page, the file is as it was, backup page and all.
pub proof fn lemma_write_with_distant_main(
    file: Seq<u8>,
    pair: (u64, u64),
    payload: [u8; PAYLOAD],
    healthy: nat,
    torn: Seq<u8>,
)
    requires
        file.len() + SIZE <= u64::MAX,
        healthy >= 7,
        pair.0 != pair.1,
        pair.0 >= page_count(file.len()),
    ensures
        run(Writing::start(pair, payload), file, healthy, torn) == (
            file,
            Progress::<Writing, ()>::Finished(Err(Error::ReadOutOfRange)),
        ),
{
    lemma_write_runs(file, pair, payload, healthy, torn);
}

/// The registers that a lone bit passes through under the polynomial of the
/// payload checksum.
pub open spec fn on_the_path_of_a_lone_bit(register: u8) -> bool {
    ||| register == 0x01
    ||| register == 0x02
    ||| register == 0x04
    ||| register == 0x08
    ||| register == 0x10
    ||| register == 0x20
    ||| register == 0x40
    ||| register == 0x80
    ||| register == 0xB0
    ||| register == 0xD0
}

/// Under the polynomial of the payload checksum a lone bit never vanishes
/// from the register.
pub proof fn lemma_power_of_polynomial(exponent: nat)
    ensures
        on_the_path_of_a_lone_bit(integrity::power(CRC_POLY, exponent)),
        integrity::power(CRC_POLY, exponent) != 0,
    decreases exponent,
{
    if exponent > 0 {
        lemma_power_of_polynomial((exponent - 1) as nat);
        let x = integrity::power(CRC_POLY, (exponent - 1) as nat);
        assert(on_the_path_of_a_lone_bit(integrity::divide(0xB0, x, false))) by (bit_vector)
            requires
                on_the_path_of_a_lone_bit(x),
        ;
    }
}

/// A sealed page in which one bit is turned over, in the payload or in the
/// checksum, is sealed no more.
pub proof fn lemma_flip_breaks_seal(stored: Seq<u8>, index: nat)
    requires
        stored.len() == SIZE,
        is_sealed(stored),
        index < 8 * SIZE,
    ensures
        !is_sealed(integrity::flipped(stored, index)),
{
    let turned = integrity::flipped(stored, index);
    if index < 8 * PAYLOAD {
        assert(payload_of(turned) =~= integrity::flipped(payload_of(stored), index));
        integrity::lemma_checksum_of_flipped(CRC_POLY, payload_of(stored), index);
        let exponent = (8 * payload_of(stored).len() + 7 - index) as nat;
        lemma_power_of_polynomial(exponent);
        let change = integrity::power(CRC_POLY, exponent);
        let sum = integrity::checksum(CRC_POLY, payload_of(stored));
        assert(sum ^ change != sum) by (bit_vector)
            requires
                change != 0,
        ;
    } else {
        assert(payload_of(turned) =~= payload_of(stored));
        let sum = stored[PAYLOAD as int];
        let place = (index % 8) as u8;
        assert(sum ^ (0x80u8 >> place) != sum) by (bit_vector)
            requires
                place <= 7,
        ;
    }
}

/// Where one bit of a sealed main page has been turned over, the read of the
/// pair yields the payload of the backup page, and leaves in the main page
/// that payload with its checksum: a sealed page again.
pub proof fn lemma_damaged_main_is_mended(
    file: Seq<u8>,
    pair: (u64, u64),
    index: nat,
    healthy: nat,
    torn: Seq<u8>,
)
    requires
        file.len() <= u64::MAX,
        healthy >= 6,
        pair.0 != pair.1,
        pair.0 < page_count(file.len()),
        pair.1 < page_count(file.len()),
        is_sealed(page_at(file, pair.0 as int)),
        index < 8 * SIZE,
    ensures
        ({
            let damaged = overwritten(
                file,
                pair.0 * SIZE,
                integrity::flipped(page_at(file, pair.0 as int), index),
            );
            let found = payload_of(page_at(file, pair.1 as int));
            let (mended, outcome) = run(Reading::start(pair), damaged, healthy, torn);
            &&& outcome == Progress::<Reading, [u8; PAYLOAD]>::Finished(Ok(array_of(found)))
            &&& array_of::<PAYLOAD>(found)@ == found
            &&& mended == overwritten(file, pair.0 * SIZE, sealed(found))
            &&& page_at(mended, pair.0 as int) == sealed(found)
            &&& is_sealed(page_at(mended, pair.0 as int))
            &&& page_at(mended, pair.1 as int) == page_at(file, pair.1 as int)
        }),
{
    let held = page_at(file, pair.0 as int);
    let turned = integrity::flipped(held, index);
    let damaged = overwritten(file, pair.0 * SIZE, turned);
    let found = payload_of(page_at(file, pair.1 as int));
    lemma_flip_breaks_seal(held, index);
    lemma_page_of_overwritten(file, pair.0 as int, turned);
    lemma_other_page_of_overwritten(file, pair.0 as int, turned, pair.1 as int);
    lemma_read_runs(damaged, pair, healthy, torn);
    lemma_array_of::<PAYLOAD>(found);
    lemma_sealed(found);
    assert(overwritten(damaged, pair.0 * SIZE, sealed(found)) =~= overwritten(
        file,
        pair.0 * SIZE,
        sealed(found),
    ));
    lemma_page_of_overwritten(file, pair.0 as int, sealed(found));
    lemma_other_page_of_overwritten(file, pair.0 as int, sealed(found), pair.1 as int);
}

/// Where the file fails a request during the write of a payload, one of the
/// two pages holds what the main page held before: the main page itself until
/// its overwrite is under way, and the backup page as soon as it has been
/// written in full. `torn` is what a write that failed has left behind.
pub proof fn lemma_failed_write_keeps_a_copy(
    file: Seq<u8>,
    pair: (u64, u64),
    payload: [u8; PAYLOAD],
    healthy: nat,
    torn: Seq<u8>,
)
    requires
        file.len() + SIZE <= u64::MAX,
        pair.0 != pair.1,
        pair.0 < page_count(file.len()),
        pair.1 <= page_count(file.len()),
        torn.len() <= SIZE,
        healthy < 7,
    ensures
        ({
            let (left, outcome) = run(Writing::start(pair, payload), file, healthy, torn);
            &&& outcome == Progress::<Writing, ()>::Finished(Err(Error::Io))
            &&& healthy <= 5 ==> page_at(left, pair.0 as int) == page_at(file, pair.0 as int)
            &&& healthy >= 4 ==> page_at(left, pair.1 as int) == page_at(file, pair.0 as int)
        }),
{
    reveal_with_fuel(run, 8);
    let held = page_at(file, pair.0 as int);
    let saved = overwritten(file, pair.1 * SIZE, held);
    lemma_array_of::<SIZE>(held);
    lemma_array_of::<SIZE>(sealed(payload@));
    lemma_other_page_of_overwritten(file, pair.1 as int, torn, pair.0 as int);
    lemma_page_of_overwritten(file, pair.1 as int, held);
    lemma_other_page_of_overwritten(saved, pair.0 as int, torn, pair.1 as int);
}

/// Where the file fails a request during the first write to a pair, the main
/// page is as it was until its write is under way, and the backup page holds
/// the payload of all zero bytes with its checksum as soon as it has been
/// written in full. `torn` is what a write that failed has left behind.
pub proof fn lemma_failed_init_keeps_a_copy(
    file: Seq<u8>,
    pair: (u64, u64),
    healthy: nat,
    torn: Seq<u8>,
)
    requires
        file.len() + SIZE <= u64::MAX,
        pair.0 != pair.1,
        init_outcome(file, pair).1 is Ok,
        torn.len() <= SIZE,
        healthy < 5,
    ensures
        ({
            let (left, outcome) = run(Initializing::start(pair), file, healthy, torn);
            &&& outcome == Progress::<Initializing, ()>::Finished(Err(Error::Io))
            &&& healthy <= 3 && pair.0 < page_count(file.len()) ==> page_at(left, pair.0 as int)
                == page_at(file, pair.0 as int)
            &&& healthy >= 2 ==> page_at(left, pair.1 as int) == sealed(blank())
        }),
{
    reveal_with_fuel(run, 6);
    let saved = overwritten(file, pair.1 * SIZE, sealed(blank()));
    lemma_array_of::<SIZE>(sealed(blank()));
    lemma_sealed(blank());
    if pair.0 < page_count(file.len()) {
        lemma_other_page_of_overwritten(file, pair.1 as int, torn, pair.0 as int);
    }
    lemma_page_of_overwritten(file, pair.1 as int, sealed(blank()));
    lemma_other_page_of_overwritten(saved, pair.0 as int, torn, pair.1 as int);
}

/// What the write of a payload asks of a file on which it can succeed, in
/// this order: the length and the main page, the length and the write of what
/// the main page held to the backup page, the flush, and only then the length
/// and the write of the payload and its checksum to the main page.
pub open spec fn write_requests(file: Seq<u8>, pair: (u64, u64), payload: Seq<u8>) -> Seq<
    Request,
> {
    seq![
        Request::Length,
        Request::Read { offset: (pair.0 * SIZE) as u64 },
        Request::Length,
        Request::Write {
            offset: (pair.1 * SIZE) as u64,
            page: array_of(page_at(file, pair.0 as int)),
        },
        Request::Sync,
        Request::Length,
        Request::Write { offset: (pair.0 * SIZE) as u64, page: array_of(sealed(payload)) },
    ]
}

/// What the first write to a pair asks of a file on which it can succeed, in
/// this order: the length and the write of the backup page, the flush, and
/// only then the length and the write of the same page to the main page.
pub open spec fn init_requests(pair: (u64, u64)) -> Seq<Request> {
    seq![
        Request::Length,
        Request::Write { offset: (pair.1 * SIZE) as u64, page: array_of(sealed(blank())) },
        Request::Sync,
        Request::Length,
        Request::Write { offset: (pair.0 * SIZE) as u64, page: array_of(sealed(blank())) },
    ]
}

/// The write of a payload saves, flushes and overwrites, in this order and
/// whatever fails: what it has asked of the file when it ends are the first
/// of the requests of `write_requests`, up to the one that failed, or all
/// seven of them.
pub proof fn lemma_write_asks(
    file: Seq<u8>,
    pair: (u64, u64),
    payload: [u8; PAYLOAD],
    healthy: nat,
)
    requires
        file.len() + SIZE <= u64::MAX,
        write_outcome(file, pair, payload@).1 is Ok,
    ensures
        asked(Writing::start(pair, payload), file, healthy) == write_requests(
            file,
            pair,
            payload@,
        ).take(if healthy < 7 { healthy as int + 1 } else { 7 }),
{
    reveal_with_fuel(asked, 8);
    lemma_array_of::<SIZE>(page_at(file, pair.0 as int));
    lemma_array_of::<SIZE>(sealed(payload@));
    assert(asked(Writing::start(pair, payload), file, healthy) =~= write_requests(
        file,
        pair,
        payload@,
    ).take(if healthy < 7 { healthy as int + 1 } else { 7 }));
}

/// The first write to a pair writes the backup page, flushes and writes the
/// main page, in this order and whatever fails: what it has asked of the file
/// when it ends are the first of the requests of `init_requests`, up to the
/// one that failed, or all five of them.
pub proof fn lemma_init_asks(file: Seq<u8>, pair: (u64, u64), healthy: nat)
    requires
        file.len() + SIZE <= u64::MAX,
        init_outcome(file, pair).1 is Ok,
    ensures
        asked(Initializing::start(pair), file, healthy) == init_requests(pair).take(
            if healthy < 5 { healthy as int + 1 } else { 5 },
        ),
{
    reveal_with_fuel(asked, 6);
    lemma_array_of::<SIZE>(sealed(blank()));
    assert(asked(Initializing::start(pair), file, healthy) =~= init_requests(pair).take(
        if healthy < 5 { healthy as int + 1 } else { 5 },
    ));
}

/// As long as one of the two pages is sealed, the read of the pair yields the
/// payload of a sealed page: that of the main page where it is sealed, and
/// that of the backup page otherwise.
pub proof fn lemma_read_yields_a_sealed_payload(
    file: Seq<u8>,
    pair: (u64, u64),
    healthy: nat,
    torn: Seq<u8>,
)
    requires
        file.len() <= u64::MAX,
        healthy >= 6,
        pair.0 < page_count(file.len()),
        pair.1 < page_count(file.len()),
        is_sealed(page_at(file, pair.0 as int)) || is_sealed(page_at(file, pair.1 as int)),
    ensures
        ({
            let whole = if is_sealed(page_at(file, pair.0 as int)) {
                page_at(file, pair.0 as int)
            } else {
                page_at(file, pair.1 as int)
            };
            &&& is_sealed(whole)
            &&& run(Reading::start(pair), file, healthy, torn).1 == Progress::<
                Reading,
                [u8; PAYLOAD],
            >::Finished(Ok(array_of(payload_of(whole))))
            &&& array_of::<PAYLOAD>(payload_of(whole))@ == payload_of(whole)
        }),
{
    lemma_read_runs(file, pair, healthy, torn);
    lemma_array_of::<PAYLOAD>(payload_of(page_at(file, pair.0 as int)));
    lemma_array_of::<PAYLOAD>(payload_of(page_at(file, pair.1 as int)));
}

/// A crash at any moment of the write of a payload leaves what the main page
/// held before in one of the two pages, where everything had been flushed
/// when the write began: until the flush the main page has not been touched,
/// and from the flush on the backup page holds what the main page held and is
/// not touched again.
pub proof fn lemma_crash_during_write_keeps_a_copy(
    file: Seq<u8>,
    pair: (u64, u64),
    payload: [u8; PAYLOAD],
    served: nat,
    survivor: Seq<u8>,
)
    requires
        file.len() + SIZE <= u64::MAX,
        pair.0 != pair.1,
        pair.0 < page_count(file.len()),
        pair.1 < page_count(file.len()),
        ({
            let (left, dirty) = unflushed(
                Writing::start(pair, payload),
                file,
                Set::empty(),
                served,
            );
            may_survive(left, dirty, survivor)
        }),
    ensures
        page_at(survivor, pair.0 as int) == page_at(file, pair.0 as int) || page_at(
            survivor,
            pair.1 as int,
        ) == page_at(file, pair.0 as int),
{
    reveal_with_fuel(unflushed, 8);
    let held = page_at(file, pair.0 as int);
    let saved = overwritten(file, pair.1 * SIZE, held);
    let stored = overwritten(saved, pair.0 * SIZE, sealed(payload@));
    lemma_array_of::<SIZE>(held);
    lemma_array_of::<SIZE>(sealed(payload@));
    lemma_sealed(payload@);
    lemma_page_of_overwritten(file, pair.1 as int, held);
    lemma_other_page_of_overwritten(file, pair.1 as int, held, pair.0 as int);
    lemma_page_of_overwritten(saved, pair.0 as int, sealed(payload@));
    lemma_other_page_of_overwritten(saved, pair.0 as int, sealed(payload@), pair.1 as int);
    let (left, dirty) = unflushed(Writing::start(pair, payload), file, Set::empty(), served);
    if served <= 3 {
        assert(left == file && !dirty.contains(pair.0 as int));
        assert(page_at(survivor, pair.0 as int) == page_at(left, pair.0 as int));
    } else if served == 4 {
        assert(left == saved && !dirty.contains(pair.0 as int));
        assert(page_at(survivor, pair.0 as int) == page_at(left, pair.0 as int));
    } else if served <= 6 {
        assert(left == saved && !dirty.contains(pair.1 as int));
        assert(page_at(survivor, pair.1 as int) == page_at(left, pair.1 as int));
    } else {
        assert(left == stored && !dirty.contains(pair.1 as int));
        assert(page_at(survivor, pair.1 as int) == page_at(left, pair.1 as int));
    }
}

/// A crash at any moment of the first write to a pair leaves the main page as
/// it was or the backup page with the payload of all zero bytes and its
/// checksum, where everything had been flushed when the write began.
pub proof fn lemma_crash_during_init_keeps_a_copy(
    file: Seq<u8>,
    pair: (u64, u64),
    served: nat,
    survivor: Seq<u8>,
)
    requires
        file.len() + SIZE <= u64::MAX,
        pair.0 != pair.1,
        pair.0 < page_count(file.len()),
        pair.1 < page_count(file.len()),
        ({
            let (left, dirty) = unflushed(Initializing::start(pair), file, Set::empty(), served);
            may_survive(left, dirty, survivor)
        }),
    ensures
        page_at(survivor, pair.0 as int) == page_at(file, pair.0 as int) || page_at(
            survivor,
            pair.1 as int,
        ) == sealed(blank()),
{
    reveal_with_fuel(unflushed, 6);
    let saved = overwritten(file, pair.1 * SIZE, sealed(blank()));
    let stored = overwritten(saved, pair.0 * SIZE, sealed(blank()));
    lemma_array_of::<SIZE>(sealed(blank()));
    lemma_sealed(blank());
    lemma_page_of_overwritten(file, pair.1 as int, sealed(blank()));
    lemma_other_page_of_overwritten(file, pair.1 as int, sealed(blank()), pair.0 as int);
    lemma_page_of_overwritten(saved, pair.0 as int, sealed(blank()));
    lemma_other_page_of_overwritten(saved, pair.0 as int, sealed(blank()), pair.1 as int);
    let (left, dirty) = unflushed(Initializing::start(pair), file, Set::empty(), served);
    if served <= 1 {
        assert(left == file && !dirty.contains(pair.0 as int));
        assert(page_at(survivor, pair.0 as int) == page_at(left, pair.0 as int));
    } else if served == 2 {
        assert(left == saved && !dirty.contains(pair.0 as int));
        assert(page_at(survivor, pair.0 as int) == page_at(left, pair.0 as int));
    } else if served <= 4 {
        assert(left == saved && !dirty.contains(pair.1 as int));
        assert(page_at(survivor, pair.1 as int) == page_at(left, pair.1 as int));
    } else {
        assert(left == stored && !dirty.contains(pair.1 as int));
        assert(page_at(survivor, pair.1 as int) == page_at(left, pair.1 as int));
    }
}

} // verus!
