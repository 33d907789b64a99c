use gvdb::read::error::{GvdbReaderError, TransmuteError};
use gvdb::read::hash_item::{GvdbHashHeader, GvdbHashItem};
use gvdb::read::header::GvdbHeader;
use gvdb::read::pointer::GvdbPointer;
use safe_transmute::{transmute_one_pedantic, transmute_vec};

fn plain<S, T>(err: safe_transmute::Error<S, T>) -> TransmuteError {
    match err {
        safe_transmute::Error::Guard(guard_err) => TransmuteError::Guard {
            required: guard_err.required,
            actual: guard_err.actual,
        },
        safe_transmute::Error::Unaligned(..) => TransmuteError::Unaligned,
        _ => TransmuteError::Incompatible,
    }
}

fn header_bytes() -> Vec<u8> {
    let mut bytes = Vec::new();
    GvdbHeader::new(0, GvdbPointer::null()).write(&mut bytes);
    bytes
}

#[test]
fn error_from() {
    let utf8_err = String::from_utf8([0xC3, 0x28].to_vec()).unwrap_err();
    let err = GvdbReaderError::Utf8(utf8_err);
    assert!(err.message().contains("UTF-8"));

    let err = GvdbReaderError::DataOffset;
    assert!(matches!(err, GvdbReaderError::DataOffset));
    assert!(err.message().contains("data offset"));

    let err = GvdbReaderError::DataError("my data error".to_string());
    assert!(err.message().contains("my data error"));

    let err = GvdbReaderError::KeyError("test".to_string());
    assert!(err.message().contains("test"));

    let err = GvdbReaderError::ZVariant(zvariant::Error::Message("test".to_string()).to_string());
    assert!(err.message().contains("test"));

    let mut bytes = header_bytes();
    bytes.extend_from_slice(b"fail");
    let res = transmute_one_pedantic::<[u8; 32]>(&bytes);
    let err = GvdbReaderError::from_transmute_error(plain(res.unwrap_err()));
    assert!(matches!(err, GvdbReaderError::DataError(_)));
    assert!(err.message().contains("unexpected trailing bytes"));
    assert!(matches!(GvdbHeader::from_bytes(&bytes), Err(GvdbReaderError::DataError(_))));

    let mut bytes = header_bytes();
    bytes.remove(bytes.len() - 1);
    let res = transmute_one_pedantic::<[u8; 32]>(&bytes);
    let err = GvdbReaderError::from_transmute_error(plain(res.unwrap_err()));
    assert!(matches!(err, GvdbReaderError::DataError(_)));
    assert!(err.message().contains("Missing 1 bytes"));
    assert!(GvdbHeader::from_bytes(&bytes)
        .unwrap_err()
        .message()
        .contains("Missing 1 bytes"));

    // words cannot start at an odd address
    let mut bytes = vec![0u8; 40];
    let odd = if bytes.as_ptr() as usize % 2 == 0 { 1 } else { 0 };
    bytes[odd..odd + 32].copy_from_slice(&header_bytes());
    let res = transmute_one_pedantic::<[u32; 8]>(&bytes[odd..odd + 32]);
    let err = GvdbReaderError::from_transmute_error(plain(res.unwrap_err()));
    assert!(matches!(err, GvdbReaderError::DataError(_)));
    assert!(err.message().contains("Unaligned"));
    // the header is read byte by byte and may start anywhere
    assert_eq!(
        GvdbHeader::from_bytes(&bytes[odd..odd + 32]).unwrap(),
        GvdbHeader::new(0, GvdbPointer::null())
    );

    let bytes = vec![0u8; 5];
    let res = transmute_vec::<u8, [u32; 8]>(bytes);
    let err = GvdbReaderError::from_transmute_error(plain(res.unwrap_err()));
    assert!(matches!(err, GvdbReaderError::InvalidData));
}

#[test]
fn error_derives() {
    let err = GvdbReaderError::InvalidData;
    assert!(format!("{:?}", err).contains("InvalidData"));
    assert!(err.message().contains("Unexpected data"));
}

#[test]
fn error_messages() {
    let utf8_err = String::from_utf8([0xC3, 0x28].to_vec()).unwrap_err();
    let text = utf8_err.to_string();
    let err = GvdbReaderError::Utf8(utf8_err);
    assert!(err.message().contains("UTF-8"));
    assert_eq!(err.message(), format!("Error converting string to UTF-8: {}", text));

    let err = GvdbReaderError::Io("no such file".to_string(), None);
    assert_eq!(err.message(), "I/O error: no such file");
    let err = GvdbReaderError::Io("no such file".to_string(), Some("a.gvdb".to_string()));
    assert_eq!(err.message(), "I/O error while reading file 'a.gvdb': no such file");

    let err = GvdbReaderError::ZVariant("test".to_string());
    assert_eq!(err.message(), "Error parsing ZVariant data: test");

    assert!(GvdbReaderError::DataOffset.message().contains("data offset"));
    assert!(GvdbReaderError::DataAlignment.message().contains("unaligned data"));

    let err = GvdbReaderError::DataError("my data error".to_string());
    assert!(err.message().contains("my data error"));
    assert_eq!(
        err.message(),
        "A data inconsistency error occured while reading gvdb file: my data error"
    );

    let err = GvdbReaderError::KeyError("test".to_string());
    assert_eq!(err.message(), "The item with the key 'test' does not exist");
}

#[test]
fn error_from_transmute_error() {
    let err = GvdbReaderError::from_transmute_error(TransmuteError::Guard {
        required: 24,
        actual: 28,
    });
    assert!(matches!(err, GvdbReaderError::DataError(_)));
    assert!(err.message().contains("Found 4 unexpected trailing bytes"));

    let err = GvdbReaderError::from_transmute_error(TransmuteError::Guard {
        required: 24,
        actual: 23,
    });
    assert!(matches!(err, GvdbReaderError::DataError(_)));
    assert!(err.message().contains("Missing 1 bytes"));

    let err = GvdbReaderError::from_transmute_error(TransmuteError::Unaligned);
    assert!(matches!(err, GvdbReaderError::DataError(_)));
    assert!(err.message().contains("Unaligned"));

    let err = GvdbReaderError::from_transmute_error(TransmuteError::Incompatible);
    assert!(matches!(err, GvdbReaderError::InvalidData));
}

#[test]
fn records_of_the_wrong_size() {
    let mut bytes = vec![0u8; 24];
    bytes.extend_from_slice(b"fail");
    let err = GvdbHashItem::from_bytes(&bytes).unwrap_err();
    assert!(matches!(err, GvdbReaderError::DataError(_)));
    assert!(err.message().contains("Found 4 unexpected trailing bytes"));

    let bytes = vec![0u8; 23];
    let err = GvdbHashItem::from_bytes(&bytes).unwrap_err();
    assert!(err.message().contains("Missing 1 bytes"));

    let err = GvdbPointer::from_bytes(&[1, 2, 3]).unwrap_err();
    assert!(err.message().contains("Missing 5 bytes"));

    let err = GvdbHashHeader::from_bytes(&[0; 7]).unwrap_err();
    assert!(err.message().contains("Missing 1 bytes"));
    // a header is read from the start of a longer slice
    let header = GvdbHashHeader::from_bytes(&[1, 0, 0, 0, 2, 0, 0, 0, 9, 9]).unwrap();
    assert_eq!(header, GvdbHashHeader::new(1, 2));
}

#[test]
fn records_read_back() {
    let item = GvdbHashItem::new(0x0102_0304, 0xffff_ffff, 0x20, 5, b'v', GvdbPointer::new(40, 48));
    let mut bytes = Vec::new();
    item.write(&mut bytes);
    assert_eq!(
        bytes,
        vec![
            4, 3, 2, 1, 0xff, 0xff, 0xff, 0xff, 0x20, 0, 0, 0, 5, 0, b'v', 0, 40, 0, 0, 0, 48, 0,
            0, 0
        ]
    );
    // read through an unaligned slice: the record may start anywhere
    let mut shifted = vec![7u8];
    shifted.extend_from_slice(&bytes);
    let back = GvdbHashItem::from_bytes(&shifted[1..]).unwrap();
    assert_eq!(back, item);
    assert_eq!(back.hash_value(), 0x0102_0304);
    assert_eq!(back.parent(), 0xffff_ffff);
    assert_eq!(back.key_start(), 0x20);
    assert_eq!(back.key_size(), 5);
    assert_eq!(back.typ(), 'v');
    assert_eq!(back.value_ptr(), &GvdbPointer::new(40, 48));

    let header = GvdbHashHeader::new(0xf800_0003, 7);
    assert_eq!(header.n_bloom_words(), 3);
    assert_eq!(header.n_buckets(), 7);
    let mut bytes = Vec::new();
    header.write(&mut bytes);
    assert_eq!(GvdbHashHeader::from_bytes(&bytes).unwrap(), header);

    let pointer = GvdbPointer::new(8, 24);
    assert_eq!(pointer.start(), 8);
    assert_eq!(pointer.end(), 24);
    assert_eq!(pointer.size(), 16);
    assert_eq!(GvdbPointer::new(24, 8).size(), 0);
    let mut bytes = Vec::new();
    pointer.write(&mut bytes);
    assert_eq!(GvdbPointer::from_bytes(&bytes).unwrap(), pointer);
    assert_eq!(GvdbPointer::null(), GvdbPointer::new(0, 0));
}
