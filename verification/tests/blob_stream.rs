use opendal::services::Memory;
use opendal::Operator;
use paimon::blob_descriptor::BlobDescriptor;
use paimon::blob_reader::BlobReaderRegistry;
use paimon::blob_stream::{
    BlobInputStream, BlobStreamError, OpenError, RawValue, ReadPlan, SeekStep,
};

fn descriptor(offset: i64, length: i64) -> BlobDescriptor {
    BlobDescriptor::new("file:/blob".to_string(), offset, length)
}

fn stream(offset: i64, length: i64) -> BlobInputStream<u32> {
    BlobInputStream::new(3, descriptor(offset, length)).unwrap()
}

/// Reads from `file` as a reader of files would.
fn read(stream: &mut BlobInputStream<u32>, file: &[u8], size: isize) -> Vec<u8> {
    let plan = match stream.read_bytes(size).unwrap() {
        ReadPlan::Stat => stream.read_bytes_in(size, file.len() as u64).unwrap(),
        plan => plan,
    };
    match plan {
        ReadPlan::Fetch { start, end } => {
            stream
                .take_bytes(file[start as usize..end as usize].to_vec())
                .unwrap()
        }
        ReadPlan::Empty => Vec::new(),
        ReadPlan::Stat => panic!("the size of the file is known"),
    }
}

#[test]
fn resolves_file_blob_descriptor_with_file_io() {
    let directory = "/tmp/blobs";
    let blob_path = format!("{directory}/blob.bin");
    let file_io = Operator::new(Memory::default()).unwrap().finish();
    let runtime = tokio::runtime::Builder::new_current_thread()
        .build()
        .unwrap();
    let content: &'static [u8] = b"prefixpayloadsuffix";
    runtime
        .block_on(file_io.write(&blob_path, content))
        .unwrap();

    let descriptor = BlobDescriptor::new(blob_path, 6, "payload".len() as i64);
    let mut registry = BlobReaderRegistry::default();
    registry.register(directory.to_string(), file_io);

    assert!(
        registry.resolve(descriptor.uri()).is_some(),
        "file blob descriptor should resolve to registered FileIO"
    );
    let value: RawValue<String> = RawValue::Descriptor(descriptor);
    let mut stream = match registry.open_blob_descriptor_stream(value) {
        Ok(Some(stream)) => stream,
        _ => panic!("the blob does not open"),
    };
    let bytes = match stream.read_bytes(-1).unwrap() {
        ReadPlan::Fetch { start, end } => {
            let read = stream
                .file_io()
                .read_with(stream.uri())
                .range(start..end);
            runtime.block_on(async { read.await }).unwrap().to_vec()
        }
        _ => panic!("nothing is to be fetched"),
    };
    let bytes = stream.take_bytes(bytes).unwrap();

    assert_eq!(&bytes[..], b"payload");
    assert_eq!(stream.tell(), 7);
}

#[test]
fn descriptors_are_checked() {
    let negative = BlobInputStream::new(0, descriptor(-5, -9)).err().unwrap();
    assert_eq!(negative, BlobStreamError::NegativeOffset(-5));
    assert_eq!(negative.message(), "BlobDescriptor has negative offset: -5");
    let invalid = BlobInputStream::new(0, descriptor(5, -2)).err().unwrap();
    assert_eq!(invalid, BlobStreamError::InvalidLength(-2));
    assert_eq!(invalid.message(), "BlobDescriptor has invalid length: -2");
    let least = BlobInputStream::new(0, descriptor(i64::MIN, 0)).err().unwrap();
    assert_eq!(
        least.message(),
        "BlobDescriptor has negative offset: -9223372036854775808"
    );
    assert_eq!(stream(5, -1).stream_length(), None);
    assert_eq!(stream(5, 0).stream_length(), Some(0));
    assert_eq!(*stream(5, 0).file_io(), 3);
    assert_eq!(stream(5, 0).uri(), "file:/blob");
}

#[test]
fn reads_follow_each_other() {
    let file = b"prefixpayloadsuffix";
    let mut stream = stream(6, 7);
    assert!(stream.readable() && stream.seekable());
    assert_eq!(read(&mut stream, file, 3), b"pay");
    assert_eq!(stream.tell(), 3);
    assert_eq!(read(&mut stream, file, 0), b"");
    assert_eq!(read(&mut stream, file, 100), b"load");
    assert_eq!(stream.tell(), 7);
    assert_eq!(read(&mut stream, file, -1), b"");
}

#[test]
fn a_blob_without_a_length_reaches_to_the_end() {
    let file = b"prefixpayloadsuffix";
    let mut stream = stream(6, -1);
    assert_eq!(stream.read_bytes(0), Ok(ReadPlan::Stat));
    assert_eq!(stream.stream_length_in(19), 13);
    assert_eq!(stream.stream_length_in(5), 0);
    assert_eq!(read(&mut stream, file, -1), b"payloadsuffix");
    assert_eq!(stream.read_bytes_in(-1, 5), Ok(ReadPlan::Empty));
}

#[test]
fn plans_reach_the_largest_numbers() {
    let mut known = stream(i64::MAX, i64::MAX);
    assert_eq!(
        known.read_bytes(-1),
        Ok(ReadPlan::Fetch {
            start: i64::MAX as u64,
            end: u64::MAX - 1
        })
    );
    assert_eq!(
        known.seek(i64::MAX, 0),
        Ok(SeekStep::Done(i64::MAX as u64))
    );
    assert_eq!(known.read_bytes(1), Ok(ReadPlan::Empty));
    let open = stream(1, -1);
    assert_eq!(
        open.read_bytes_in(isize::MAX, u64::MAX),
        Ok(ReadPlan::Fetch {
            start: 1,
            end: isize::MAX as u64 + 1
        })
    );
    assert_eq!(
        open.read_bytes_in(-1, u64::MAX),
        Ok(ReadPlan::Fetch {
            start: 1,
            end: u64::MAX
        })
    );
}

#[test]
fn seeks_from_each_origin() {
    let mut stream = stream(6, 7);
    assert_eq!(stream.seek(4, 0), Ok(SeekStep::Done(4)));
    assert_eq!(stream.seek(-1, 1), Ok(SeekStep::Done(3)));
    assert_eq!(stream.seek(0, 1), Ok(SeekStep::Done(3)));
    assert_eq!(stream.seek(-2, 2), Ok(SeekStep::Done(5)));
    assert_eq!(stream.tell(), 5);
    assert_eq!(stream.seek(100, 2), Ok(SeekStep::Done(107)));
    assert_eq!(stream.read_bytes(-1), Ok(ReadPlan::Empty));
}

#[test]
fn a_seek_from_the_end_may_need_the_size() {
    let mut stream = stream(6, -1);
    assert_eq!(stream.seek(-3, 2), Ok(SeekStep::Stat));
    assert_eq!(stream.tell(), 0);
    assert_eq!(stream.seek_in(-3, 19), Ok(10));
    assert_eq!(
        stream.seek_in(-3, 6),
        Err(BlobStreamError::NegativeSeek(-3))
    );
    assert_eq!(stream.tell(), 10);
}

#[test]
fn a_position_beyond_the_signed_numbers_counts_as_negative() {
    let mut stream = stream(0, -1);
    assert_eq!(
        stream.seek_in(0, u64::MAX),
        Err(BlobStreamError::NegativeSeek(-1))
    );
    assert_eq!(stream.seek_in(5, u64::MAX), Ok(4));
}

#[test]
fn refused_seeks_leave_the_position() {
    let mut stream = stream(6, 7);
    assert_eq!(stream.seek(2, 0), Ok(SeekStep::Done(2)));
    let whence = stream.seek(0, 3).unwrap_err();
    assert_eq!(whence, BlobStreamError::InvalidWhence(3));
    assert_eq!(whence.message(), "Invalid whence: 3");
    let overflow = stream.seek(i64::MAX, 1).unwrap_err();
    assert_eq!(overflow, BlobStreamError::SeekOverflow);
    assert_eq!(overflow.message(), "Seek position overflow");
    let negative = stream.seek(-10, 1).unwrap_err();
    assert_eq!(negative, BlobStreamError::NegativeSeek(-8));
    assert_eq!(negative.message(), "Negative seek position: -8");
    assert_eq!(stream.tell(), 2);
}

#[test]
fn a_closed_stream_refuses_reads_and_seeks() {
    let mut stream = stream(6, 7);
    assert_eq!(stream.seek(2, 0), Ok(SeekStep::Done(2)));
    assert_eq!(stream.ensure_open(), Ok(()));
    assert!(!stream.closed());
    assert!(!stream.exit());
    assert!(stream.closed());
    stream.close();
    assert_eq!(stream.ensure_open(), Err(BlobStreamError::Closed));
    assert_eq!(stream.read_bytes(1), Err(BlobStreamError::Closed));
    assert_eq!(stream.seek(0, 9), Err(BlobStreamError::Closed));
    assert_eq!(stream.tell(), 2);
    assert_eq!(
        BlobStreamError::Closed.message(),
        "I/O operation on closed file."
    );
}

#[test]
fn only_registered_descriptors_open() {
    let mut registry: BlobReaderRegistry<u32> = BlobReaderRegistry::default();
    let value: RawValue<&str> = RawValue::Descriptor(descriptor(-1, 0));
    assert!(matches!(
        registry.open_blob_descriptor_stream(value),
        Ok(None)
    ));
    registry.register("file:".to_string(), 8);
    let value: RawValue<&str> = RawValue::Descriptor(descriptor(-1, 0));
    assert!(matches!(
        registry.open_blob_descriptor_stream(value),
        Err(OpenError::Invalid(BlobStreamError::NegativeOffset(-1)))
    ));
    let value: RawValue<&str> = RawValue::Descriptor(descriptor(1, 2));
    let opened = match registry.open_blob_descriptor_stream(value) {
        Ok(Some(stream)) => stream,
        _ => panic!("the blob does not open"),
    };
    assert_eq!(*opened.file_io(), 8);
    let value: RawValue<&str> = RawValue::Other;
    assert!(matches!(
        registry.open_blob_descriptor_stream(value),
        Ok(None)
    ));
    let value: RawValue<&str> = RawValue::Malformed("short");
    assert!(matches!(
        registry.open_blob_descriptor_stream(value),
        Err(OpenError::Malformed("short"))
    ));
}

#[test]
fn reads_of_any_sizes_give_the_whole_blob() {
    let file = b"prefixpayloadsuffix";
    for sizes in [[1, 2, 3, -1], [7, 1, 1, 1], [0, 0, 100, 5], [-1, -1, 2, 0]] {
        let mut stream = stream(6, 7);
        let mut bytes: Vec<u8> = Vec::new();
        for size in sizes {
            bytes.extend(read(&mut stream, file, size));
        }
        assert_eq!(bytes, b"payload");
        assert_eq!(stream.tell(), 7);
    }
}

#[test]
fn seeks_from_the_position_add_up() {
    let mut once = stream(6, 7);
    let mut twice = stream(6, 7);
    assert_eq!(once.seek(4, 1), Ok(SeekStep::Done(4)));
    assert_eq!(twice.seek(6, 1), Ok(SeekStep::Done(6)));
    assert_eq!(twice.seek(-2, 1), Ok(SeekStep::Done(4)));
    assert_eq!(
        read(&mut once, b"prefixpayloadsuffix", 2),
        read(&mut twice, b"prefixpayloadsuffix", 2)
    );
}

#[test]
fn nothing_is_left_at_the_end() {
    let mut known = stream(6, 7);
    assert_eq!(known.seek(0, 2), Ok(SeekStep::Done(7)));
    assert_eq!(known.read_bytes(-1), Ok(ReadPlan::Empty));
    let mut open = stream(6, -1);
    assert_eq!(open.seek_in(0, 19), Ok(13));
    assert_eq!(open.read_bytes_in(-1, 19), Ok(ReadPlan::Empty));
}

#[test]
fn a_blob_after_the_end_of_its_file_is_empty() {
    let open = stream(20, -1);
    assert_eq!(open.read_bytes_in(-1, 19), Ok(ReadPlan::Empty));
    assert_eq!(open.read_bytes_in(5, 20), Ok(ReadPlan::Empty));
    assert_eq!(
        open.read_bytes_in(5, 21),
        Ok(ReadPlan::Fetch { start: 20, end: 21 })
    );
}

#[test]
fn a_closed_stream_keeps_its_position() {
    let mut stream = stream(6, -1);
    assert_eq!(stream.seek(3, 0), Ok(SeekStep::Done(3)));
    stream.close();
    assert_eq!(stream.seek(1, 1), Err(BlobStreamError::Closed));
    assert_eq!(stream.seek(0, 2), Err(BlobStreamError::Closed));
    assert_eq!(stream.seek_in(-2, 12), Err(BlobStreamError::Closed));
    assert_eq!(stream.read_bytes_in(1, 12), Err(BlobStreamError::Closed));
    assert_eq!(stream.take_bytes(vec![1, 2]), Err(BlobStreamError::Closed));
    stream.close();
    assert!(stream.closed());
    assert_eq!(stream.tell(), 3);
    assert_eq!(stream.uri(), "file:/blob");
    assert_eq!(stream.stream_length_in(12), 6);
}

#[test]
fn reads_past_the_end_give_nothing_and_stay() {
    let file = b"prefixpayloadsuffix";
    for mut stream in [stream(6, 7), stream(6, -1), stream(30, -1)] {
        assert_eq!(stream.seek(20, 0), Ok(SeekStep::Done(20)));
        for size in [5, -1, 0, 100] {
            assert_eq!(read(&mut stream, file, size), b"");
        }
        assert_eq!(stream.tell(), 20);
    }
}

#[test]
fn a_registered_blob_is_read_whole() {
    let file = b"prefixpayloadsuffix";
    let mut registry: BlobReaderRegistry<u32> = BlobReaderRegistry::default();
    registry.register("file:".to_string(), 8);
    let blobs: [(i64, i64, &[u8]); 5] = [
        (6, 7, b"payload"),
        (6, 0, b""),
        (6, -1, b"payloadsuffix"),
        (19, -1, b""),
        (25, -1, b""),
    ];
    for (offset, length, expected) in blobs {
        let value: RawValue<&str> = RawValue::Descriptor(descriptor(offset, length));
        let mut stream = match registry.open_blob_descriptor_stream(value) {
            Ok(Some(stream)) => stream,
            _ => panic!("the blob does not open"),
        };
        assert_eq!(*stream.file_io(), 8);
        assert_eq!(read(&mut stream, file, -1), expected);
        assert_eq!(stream.tell(), expected.len() as u64);
    }
}

#[test]
fn an_empty_read_leaves_the_next_one_in_place() {
    let mut stream = stream(6, 7);
    assert_eq!(read(&mut stream, b"prefixpayloadsuffix", 2), b"pa");
    assert_eq!(stream.read_bytes(0), Ok(ReadPlan::Empty));
    assert_eq!(
        stream.read_bytes(3),
        Ok(ReadPlan::Fetch { start: 8, end: 11 })
    );
}
