use shepherd::dbms::storage::medium::{Operation, Progress, Reply, Request};
use shepherd::dbms::storage::page;
use shepherd::dbms::storage::page::{Error, SIZE};

/// Serves one request on a file that lives in memory.
fn serve(file: &mut Vec<u8>, request: Request) -> Reply {
    match request {
        Request::Length => Reply::Length(file.len() as u64),
        Request::Read { offset } => {
            let start = offset as usize;
            if start + SIZE > file.len() {
                return Reply::Failed;
            }
            let mut page = [0u8; SIZE];
            page.copy_from_slice(&file[start..start + SIZE]);
            Reply::Page(page)
        }
        Request::Write { offset, page } => {
            let start = offset as usize;
            if file.len() < start + SIZE {
                file.resize(start + SIZE, 0);
            }
            file[start..start + SIZE].copy_from_slice(&page);
            Reply::Done
        }
        Request::Sync => Reply::Done,
    }
}

/// Runs an operation to its end; the file fails the request that comes after
/// `healthy` of them.
fn drive_until<O: Operation>(
    file: &mut Vec<u8>,
    mut progress: Progress<O, O::Output>,
    healthy: usize,
    seen: &mut Vec<Request>,
) -> Result<O::Output, Error> {
    loop {
        match progress {
            Progress::Finished(outcome) => return outcome,
            Progress::Pending(state, request) => {
                let reply = if seen.len() < healthy {
                    serve(file, request)
                } else {
                    Reply::Failed
                };
                seen.push(request);
                progress = state.resume(reply);
            }
        }
    }
}

fn drive<O: Operation>(
    file: &mut Vec<u8>,
    progress: Progress<O, O::Output>,
) -> Result<O::Output, Error> {
    drive_until(file, progress, usize::MAX, &mut Vec::new())
}

fn read(file: &mut Vec<u8>, page: u64, buf: &mut [u8; SIZE]) -> Result<(), Error> {
    *buf = drive(file, page::read(page))?;
    Ok(())
}

fn write(file: &mut Vec<u8>, page: u64, buf: &[u8; SIZE]) -> Result<(), Error> {
    drive(file, page::write(page, buf))
}

fn copy(file: &mut Vec<u8>, src: u64, dst: u64) -> Result<(), Error> {
    drive(file, page::copy(src, dst))
}

#[test]
fn read_seeks_multiple_of_page_size() {
    let mut tmp: Vec<u8> = Vec::new();
    let mut write_buffer = [0u8; SIZE * 2];
    write_buffer[0..SIZE].copy_from_slice(&[5u8; SIZE]);
    write_buffer[SIZE..SIZE * 2].copy_from_slice(&[9u8; SIZE]);
    tmp.extend_from_slice(&write_buffer);

    let mut read_buffer = [0u8; SIZE];
    read(&mut tmp, 0, &mut read_buffer).unwrap();
    assert_eq!(read_buffer, [5u8; SIZE]);
    read(&mut tmp, 1, &mut read_buffer).unwrap();
    assert_eq!(read_buffer, [9u8; SIZE]);
}

#[test]
fn read_given_distant_page() {
    {
        let mut tmp: Vec<u8> = Vec::new();
        let mut read_buffer = [0u8; SIZE];
        match read(&mut tmp, 0, &mut read_buffer) {
            Ok(_) => panic!("allowed reading distant page"),
            Err(error) => assert_eq!("tried to read distant page", error.to_string()),
        }
    }
    {
        let mut tmp: Vec<u8> = Vec::new();
        write(&mut tmp, 0, &[0u8; SIZE]).unwrap();
        let mut read_buffer = [0u8; SIZE];
        match read(&mut tmp, 1, &mut read_buffer) {
            Ok(_) => panic!("allowed reading distant page"),
            Err(error) => assert_eq!("tried to read distant page", error.to_string()),
        }
    }
    {
        let mut tmp: Vec<u8> = Vec::new();
        write(&mut tmp, 0, &[0u8; SIZE]).unwrap();
        let mut read_buffer = [0u8; SIZE];
        match read(&mut tmp, 4, &mut read_buffer) {
            Ok(_) => panic!("allowed reading distant page"),
            Err(error) => assert_eq!("tried to read distant page", error.to_string()),
        }
    }
}

#[test]
fn write_seeks_multiple_of_page_size() {
    let mut tmp: Vec<u8> = Vec::new();
    let write_buffer = [1u8; SIZE];
    assert!(write(&mut tmp, 0, &write_buffer).is_ok());

    let write_buffer = [2u8; SIZE];
    assert!(write(&mut tmp, 1, &write_buffer).is_ok());

    let mut read_buffer = [0u8; SIZE * 2];
    read_buffer.copy_from_slice(&tmp[0..SIZE * 2]);
    assert_eq!(read_buffer[0..SIZE], [1u8; SIZE]);
    assert_eq!(read_buffer[SIZE..SIZE * 2], [2u8; SIZE]);
}

#[test]
fn write_given_distant_page() {
    {
        let mut tmp: Vec<u8> = Vec::new();
        let write_buffer = [1u8; SIZE];
        match write(&mut tmp, 1, &write_buffer) {
            Ok(_) => panic!("allowed writing distant page"),
            Err(error) => assert_eq!("tried to write distant page", error.to_string()),
        }
    }
    {
        let mut tmp: Vec<u8> = Vec::new();
        let write_buffer = [1u8; SIZE];
        match write(&mut tmp, 4, &write_buffer) {
            Ok(_) => panic!("allowed writing distant page"),
            Err(error) => assert_eq!("tried to write distant page", error.to_string()),
        }
    }
}

#[test]
fn copy_given_invalid_page_combination() {
    {
        let mut tmp: Vec<u8> = Vec::new();
        write(&mut tmp, 0, &[0u8; SIZE]).unwrap();
        match copy(&mut tmp, 0, 0) {
            Ok(_) => panic!("allowed copying page to itself"),
            Err(error) => assert_eq!("tried to copy page to itself", error.to_string()),
        }
    }
    {
        let mut tmp: Vec<u8> = Vec::new();
        write(&mut tmp, 0, &[0u8; SIZE]).unwrap();
        match copy(&mut tmp, 1, 0) {
            Ok(_) => panic!("allowed copying from distant page"),
            Err(error) => assert_eq!("tried to read distant page", error.to_string()),
        }
    }
    {
        let mut tmp: Vec<u8> = Vec::new();
        write(&mut tmp, 0, &[0u8; SIZE]).unwrap();
        match copy(&mut tmp, 4, 0) {
            Ok(_) => panic!("allowed copying from distant page"),
            Err(error) => assert_eq!("tried to read distant page", error.to_string()),
        }
    }
    {
        let mut tmp: Vec<u8> = Vec::new();
        write(&mut tmp, 0, &[0u8; SIZE]).unwrap();
        match copy(&mut tmp, 0, 2) {
            Ok(_) => panic!("allowed copying from distant page"),
            Err(error) => assert_eq!("tried to write distant page", error.to_string()),
        }
    }
    {
        let mut tmp: Vec<u8> = Vec::new();
        write(&mut tmp, 0, &[0u8; SIZE]).unwrap();
        match copy(&mut tmp, 0, 4) {
            Ok(_) => panic!("allowed copying from distant page"),
            Err(error) => assert_eq!("tried to write distant page", error.to_string()),
        }
    }
}

#[test]
fn copy_copies_from_src_to_dst() {
    let mut tmp: Vec<u8> = Vec::new();
    write(&mut tmp, 0, &[1u8; SIZE]).unwrap();
    write(&mut tmp, 1, &[2u8; SIZE]).unwrap();

    let mut buf = [0u8; SIZE];
    read(&mut tmp, 1, &mut buf).unwrap();
    assert_eq!([2u8; SIZE], buf);

    copy(&mut tmp, 0, 1).unwrap();

    read(&mut tmp, 1, &mut buf).unwrap();
    assert_eq!([1u8; SIZE], buf);
}

#[test]
fn written_page_is_read_back() {
    let mut tmp: Vec<u8> = Vec::new();
    let mut pattern = [0u8; SIZE];
    for (place, byte) in pattern.iter_mut().enumerate() {
        *byte = (place % 251) as u8;
    }
    for page in 0..3u64 {
        pattern[0] = page as u8;
        write(&mut tmp, page, &pattern).unwrap();
        let mut buf = [0u8; SIZE];
        read(&mut tmp, page, &mut buf).unwrap();
        assert_eq!(pattern, buf);
    }
    // Overwriting a page in the middle leaves its neighbours alone.
    write(&mut tmp, 1, &[7u8; SIZE]).unwrap();
    let mut buf = [0u8; SIZE];
    read(&mut tmp, 1, &mut buf).unwrap();
    assert_eq!([7u8; SIZE], buf);
    read(&mut tmp, 0, &mut buf).unwrap();
    assert_eq!(0, buf[0]);
    assert_eq!(1, buf[1]);
    read(&mut tmp, 2, &mut buf).unwrap();
    assert_eq!(2, buf[0]);
    assert_eq!(tmp.len(), 3 * SIZE);
}

#[test]
fn write_appends_exactly_one_page() {
    let mut tmp: Vec<u8> = Vec::new();
    for page in 0..4u64 {
        assert_eq!(tmp.len(), page as usize * SIZE);
        write(&mut tmp, page, &[page as u8; SIZE]).unwrap();
        assert_eq!(tmp.len(), (page as usize + 1) * SIZE);
    }
    assert_eq!(Err(Error::WriteOutOfRange), write(&mut tmp, 5, &[0u8; SIZE]));
    assert_eq!(tmp.len(), 4 * SIZE);
    assert_eq!(Err(Error::ReadOutOfRange), read(&mut tmp, 4, &mut [0u8; SIZE]));
}

#[test]
fn bound_follows_whole_pages_only() {
    // A file that ends in the middle of a page holds one page.
    let mut tmp: Vec<u8> = vec![3u8; SIZE + 100];
    let mut buf = [0u8; SIZE];
    read(&mut tmp, 0, &mut buf).unwrap();
    assert_eq!([3u8; SIZE], buf);
    assert_eq!(Err(Error::ReadOutOfRange), read(&mut tmp, 1, &mut buf));
    assert_eq!(Err(Error::WriteOutOfRange), write(&mut tmp, 2, &buf));
    write(&mut tmp, 1, &[4u8; SIZE]).unwrap();
    assert_eq!(tmp.len(), 2 * SIZE);
    read(&mut tmp, 1, &mut buf).unwrap();
    assert_eq!([4u8; SIZE], buf);
}

#[test]
fn read_asks_for_length_then_bytes() {
    let mut tmp: Vec<u8> = vec![0u8; 3 * SIZE];
    let mut seen = Vec::new();
    drive_until(&mut tmp, page::read(2), usize::MAX, &mut seen).unwrap();
    assert_eq!(
        seen,
        vec![
            Request::Length,
            Request::Read {
                offset: 2 * SIZE as u64
            }
        ]
    );
}

#[test]
fn write_asks_for_length_then_stores() {
    let mut tmp: Vec<u8> = vec![0u8; 3 * SIZE];
    let mut seen = Vec::new();
    drive_until(&mut tmp, page::write(3, &[8u8; SIZE]), usize::MAX, &mut seen).unwrap();
    assert_eq!(
        seen,
        vec![
            Request::Length,
            Request::Write {
                offset: 3 * SIZE as u64,
                page: [8u8; SIZE]
            }
        ]
    );
}

#[test]
fn copy_reads_before_it_writes() {
    let mut tmp: Vec<u8> = vec![6u8; 2 * SIZE];
    let mut seen = Vec::new();
    drive_until(&mut tmp, page::copy(1, 2), usize::MAX, &mut seen).unwrap();
    assert_eq!(
        seen,
        vec![
            Request::Length,
            Request::Read {
                offset: SIZE as u64
            },
            Request::Length,
            Request::Write {
                offset: 2 * SIZE as u64,
                page: [6u8; SIZE]
            }
        ]
    );
    assert_eq!(tmp, vec![6u8; 3 * SIZE]);
}

#[test]
fn copy_to_itself_asks_nothing() {
    assert_eq!(page::copy(3, 3), Progress::Finished(Err(Error::SelfCopy)));
    let mut tmp: Vec<u8> = Vec::new();
    let mut seen = Vec::new();
    assert_eq!(
        Err(Error::SelfCopy),
        drive_until(&mut tmp, page::copy(0, 0), usize::MAX, &mut seen)
    );
    assert!(seen.is_empty());
}

#[test]
fn copy_from_distant_page_writes_nothing() {
    let mut tmp: Vec<u8> = vec![1u8; SIZE];
    let mut seen = Vec::new();
    assert_eq!(
        Err(Error::ReadOutOfRange),
        drive_until(&mut tmp, page::copy(1, 0), usize::MAX, &mut seen)
    );
    assert_eq!(seen, vec![Request::Length]);
    assert_eq!(tmp, vec![1u8; SIZE]);
}

#[test]
fn failed_request_ends_the_operation() {
    for healthy in 0..2 {
        let mut tmp: Vec<u8> = vec![1u8; SIZE];
        let mut seen = Vec::new();
        assert_eq!(
            Err(Error::Io),
            drive_until(&mut tmp, page::read(0), healthy, &mut seen)
        );
        assert_eq!(seen.len(), healthy + 1);
        let mut seen = Vec::new();
        assert_eq!(
            Err(Error::Io),
            drive_until(&mut tmp, page::write(0, &[2u8; SIZE]), healthy, &mut seen)
        );
        assert_eq!(seen.len(), healthy + 1);
        assert_eq!(tmp, vec![1u8; SIZE]);
    }
    for healthy in 0..4 {
        let mut tmp: Vec<u8> = vec![1u8; SIZE];
        let mut seen = Vec::new();
        assert_eq!(
            Err(Error::Io),
            drive_until(&mut tmp, page::copy(0, 1), healthy, &mut seen)
        );
        assert_eq!(seen.len(), healthy + 1);
        assert_eq!(tmp, vec![1u8; SIZE]);
    }
}

#[test]
fn unexpected_reply_ends_the_operation() {
    match page::read(0) {
        Progress::Pending(state, request) => {
            assert_eq!(request, Request::Length);
            assert_eq!(
                state.resume(Reply::Done),
                Progress::Finished(Err(Error::Io))
            );
        }
        Progress::Finished(_) => panic!("a read asks for the length first"),
    }
    match page::write(0, &[0u8; SIZE]) {
        Progress::Pending(state, _) => match state.resume(Reply::Length(0)) {
            Progress::Pending(state, _) => assert_eq!(
                state.resume(Reply::Page([0u8; SIZE])),
                Progress::Finished(Err(Error::Io))
            ),
            Progress::Finished(_) => panic!("page 0 of an empty file can be written"),
        },
        Progress::Finished(_) => panic!("a write asks for the length first"),
    }
}

#[test]
fn errors_are_named() {
    assert_eq!("tried to read distant page", Error::ReadOutOfRange.to_string());
    assert_eq!("tried to write distant page", Error::WriteOutOfRange.to_string());
    assert_eq!("tried to copy page to itself", Error::SelfCopy.to_string());
    assert_eq!("the backing file failed a request", Error::Io.to_string());
}

#[test]
fn largest_page_number_is_out_of_range() {
    let mut tmp: Vec<u8> = vec![1u8; SIZE];
    assert_eq!(
        Err(Error::ReadOutOfRange),
        read(&mut tmp, u64::MAX, &mut [0u8; SIZE])
    );
    assert_eq!(
        Err(Error::WriteOutOfRange),
        write(&mut tmp, u64::MAX, &[0u8; SIZE])
    );
}
