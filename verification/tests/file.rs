use byteorder::LE;
use gvdb::read::error::GvdbReaderError;
use gvdb::read::file::GvdbFile;
use gvdb::read::hash::GvdbHashTable;
use gvdb::read::hash_item::{GvdbHashHeader, GvdbHashItem, NO_PARENT};
use gvdb::read::header::GvdbHeader;
use gvdb::read::names::resolve_names;
use gvdb::read::pointer::GvdbPointer;
use gvdb::util::djb_hash;
use gvdb::write::error::GvdbWriterError;
use gvdb::write::file::GvdbFileWriter;
use gvdb::write::hash::SimpleHashTable;
use gvdb::write::item::GvdbBuilderItemValue;
use zvariant::{from_slice, to_bytes, EncodingContext, Value};

fn variant(value: Value) -> Vec<u8> {
    to_bytes(EncodingContext::<LE>::new_gvariant(0), &value).unwrap()
}

fn decode(bytes: &[u8]) -> Value<'_> {
    from_slice(bytes, EncodingContext::<LE>::new_gvariant(0)).unwrap()
}

fn table_of(n_buckets: usize, entries: &[(&str, Value)]) -> SimpleHashTable {
    let mut table = SimpleHashTable::with_n_buckets(n_buckets);
    for (key, value) in entries {
        table.insert(key, GvdbBuilderItemValue::Value(variant(value.clone())));
    }
    table
}

fn sorted(mut names: Vec<String>) -> Vec<String> {
    names.sort();
    names
}

/// A file made by hand: the header, a table with one bucket and these items,
/// then the keys.
fn file_of_items(items: &[(u32, &str, u8)]) -> Vec<u8> {
    let table_end = 32 + 8 + 4 + 24 * items.len();
    let mut data = Vec::new();
    GvdbHeader::new(0, GvdbPointer::new(32, table_end as u32)).write(&mut data);
    GvdbHashHeader::new(0, 1).write(&mut data);
    data.extend_from_slice(&0u32.to_le_bytes());
    let mut key_start = table_end;
    for (parent, key, typ) in items {
        GvdbHashItem::new(
            djb_hash(key),
            *parent,
            key_start as u32,
            key.len() as u16,
            *typ,
            GvdbPointer::new(0, 0),
        )
        .write(&mut data);
        key_start += key.len();
    }
    for (_, key, _) in items {
        data.extend_from_slice(key.as_bytes());
    }
    data
}

#[test]
fn empty_file() {
    let table = SimpleHashTable::with_n_buckets(0);
    let data = GvdbFileWriter::new().write_to_vec(&table).unwrap();
    assert_eq!(&data[0..8], b"GVariant");
    assert_eq!(data.len(), 40);
    let file = GvdbFile::open(&data).unwrap();
    assert_eq!(file.list().unwrap(), Vec::<String>::new());
    assert!(file.get("x").is_none());
    assert!(matches!(file.require("x"), Err(GvdbReaderError::KeyError(key)) if key == "x"));
    assert_eq!(file.hash_table().n_hash_items(), 0);
}

#[test]
fn single_key() {
    let table = table_of(3, &[("hello", Value::new("world"))]);
    let data = GvdbFileWriter::new().write_to_vec(&table).unwrap();
    let file = GvdbFile::open(&data).unwrap();
    assert_eq!(decode(file.get("hello").unwrap()), Value::new("world"));
    assert!(file.get("hellox").is_none());
    assert!(file.get("hell").is_none());
    assert!(file.get("").is_none());
    assert_eq!(file.list().unwrap(), vec!["hello".to_string()]);
}

#[test]
fn single_key_file_is_laid_out_byte_by_byte() {
    let mut table = SimpleHashTable::with_n_buckets(1);
    table.insert("hello", GvdbBuilderItemValue::Value(vec![1, 2, 3]));
    let data = GvdbFileWriter::with_bloom_words(1, true).write_to_vec(&table).unwrap();
    let mut expected = Vec::new();
    expected.extend_from_slice(b"GVariant");
    expected.extend_from_slice(&[0, 0, 0, 0]); // byte order
    expected.extend_from_slice(&[1, 0, 0, 0]); // options
    expected.extend_from_slice(&[32, 0, 0, 0, 72, 0, 0, 0]); // root table
    expected.extend_from_slice(&[0; 8]); // reserved
    expected.extend_from_slice(&[1, 0, 0, 0, 1, 0, 0, 0]); // one bloom word, one bucket
    // djb_hash("hello") is 0x0f923099: bit 25 of the only word
    expected.extend_from_slice(&[0, 0, 0, 2]);
    expected.extend_from_slice(&[0, 0, 0, 0]); // bucket 0 starts at item 0
    expected.extend_from_slice(&[0x99, 0x30, 0x92, 0x0f]); // hash
    expected.extend_from_slice(&[0xff, 0xff, 0xff, 0xff]); // no parent
    expected.extend_from_slice(&[72, 0, 0, 0, 5, 0, b'v', 0]); // key at 72, 5 bytes
    expected.extend_from_slice(&[80, 0, 0, 0, 83, 0, 0, 0]); // value at 80..83
    expected.extend_from_slice(b"hello");
    expected.extend_from_slice(&[0, 0, 0]); // padding to 80
    expected.extend_from_slice(&[1, 2, 3]);
    assert_eq!(data, expected);
    assert!(GvdbFile::open(&data).unwrap().header().is_bundle());
}

#[test]
fn collisions_are_all_found() {
    let table = table_of(
        1,
        &[("a", Value::new(1i32)), ("b", Value::new(2i32)), ("c", Value::new(3i32))],
    );
    let data = GvdbFileWriter::new().write_to_vec(&table).unwrap();
    let file = GvdbFile::open(&data).unwrap();
    assert_eq!(decode(file.get("a").unwrap()), Value::new(1i32));
    assert_eq!(decode(file.get("b").unwrap()), Value::new(2i32));
    assert_eq!(decode(file.get("c").unwrap()), Value::new(3i32));
    assert_eq!(
        sorted(file.list().unwrap()),
        vec!["a".to_string(), "b".to_string(), "c".to_string()]
    );
}

#[test]
fn overwritten_value_is_the_one_written() {
    let table = table_of(5, &[("k", Value::new(1i32)), ("k", Value::new(2i32))]);
    assert_eq!(table.n_items(), 1);
    let data = GvdbFileWriter::new().write_to_vec(&table).unwrap();
    let file = GvdbFile::open(&data).unwrap();
    assert_eq!(decode(file.get("k").unwrap()), Value::new(2i32));
    assert_eq!(file.hash_table().n_hash_items(), 1);
}

#[test]
fn every_written_key_reads_back() {
    for n_buckets in [1usize, 2, 7, 64] {
        for n_bloom_words in [0u32, 1, 4] {
            let mut table = SimpleHashTable::with_n_buckets(n_buckets);
            let mut keys = Vec::new();
            for index in 0..50u32 {
                let key = format!("/org/example/key-{}", index * 7919);
                let value = variant(Value::new(format!("value {}", index)));
                table.insert(&key, GvdbBuilderItemValue::Value(value.clone()));
                keys.push((key, value));
            }
            let data =
                GvdbFileWriter::with_bloom_words(n_bloom_words, false).write_to_vec(&table).unwrap();
            let file = GvdbFile::open(&data).unwrap();
            for (key, value) in &keys {
                let bytes = file.get(key).unwrap();
                assert_eq!(bytes, &value[..]);
                assert_eq!(bytes.as_ptr() as usize % 8, data.as_ptr() as usize % 8);
                assert_eq!(variant(decode(bytes)), *value);
                assert!(file.hash_table().bloom_filter(djb_hash(key)));
            }
            assert!(file.get("/org/example/absent").is_none());
            let listed = file.list().unwrap();
            assert_eq!(
                sorted(listed.clone()),
                sorted(keys.iter().map(|entry| entry.0.clone()).collect())
            );
            for key in &listed {
                assert!(file.get(key).is_some());
            }
            let mut written = Vec::new();
            let mut iter = table.iter();
            while let Some((_, item)) = iter.next() {
                written.push(item.key().to_string());
            }
            assert_eq!(listed, written);
        }
    }
}

#[test]
fn bad_signature_is_invalid_data() {
    let table = table_of(3, &[("hello", Value::new("world"))]);
    let mut data = GvdbFileWriter::new().write_to_vec(&table).unwrap();
    data[0] = 0;
    assert!(matches!(GvdbFile::open(&data), Err(GvdbReaderError::InvalidData)));
    data[0] = b'G';
    data[7] = b'T';
    assert!(matches!(GvdbFile::open(&data), Err(GvdbReaderError::InvalidData)));
    data[7] = b't';
    assert!(GvdbFile::open(&data).is_ok());
    data[8] = 1;
    assert!(matches!(GvdbFile::open(&data), Err(GvdbReaderError::DataError(_))));
    assert!(matches!(GvdbFile::open(&data[..31]), Err(GvdbReaderError::DataOffset)));
}

#[test]
fn parent_cycle_is_invalid_data() {
    let data = file_of_items(&[(1, "a", b'v'), (0, "b", b'v')]);
    let file = GvdbFile::open(&data).unwrap();
    assert!(matches!(file.list(), Err(GvdbReaderError::InvalidData)));
    assert!(file.get("a").is_none());
    assert!(file.get("b").is_none());
    assert!(file.get("ab").is_none());
    assert!(file.get("ba").is_none());
    assert!(file.get("abababab").is_none());
    // an item that is its own parent, with nothing of its own to add
    let data = file_of_items(&[(0, "", b'v')]);
    let file = GvdbFile::open(&data).unwrap();
    assert!(matches!(file.list(), Err(GvdbReaderError::InvalidData)));
    assert!(file.get("").is_none());
    assert!(file.get("x").is_none());
}

#[test]
fn names_resolve_in_rounds() {
    // children before their parents: three rounds are needed
    let entries = vec![
        (1u32, "c".to_string()),
        (2u32, "b/".to_string()),
        (NO_PARENT, "a/".to_string()),
    ];
    assert_eq!(
        resolve_names(&entries),
        Some(vec!["a/b/c".to_string(), "a/b/".to_string(), "a/".to_string()])
    );
    let entries = vec![(1u32, "x".to_string()), (0u32, "y".to_string())];
    assert_eq!(resolve_names(&entries), None);
    let entries = vec![(NO_PARENT, "x".to_string()), (7u32, "y".to_string())];
    assert_eq!(resolve_names(&entries), None);
    assert_eq!(resolve_names(&Vec::new()), Some(Vec::new()));
}

#[test]
fn keys_are_put_together_from_parents() {
    let data = file_of_items(&[(2, "b", b'v'), (NO_PARENT, "/x", b'v'), (1, "/a/", b'v')]);
    let file = GvdbFile::open(&data).unwrap();
    assert_eq!(
        file.list().unwrap(),
        vec!["/x/a/b".to_string(), "/x".to_string(), "/x/a/".to_string()]
    );
}

#[test]
fn lookup_follows_parents() {
    // the hash of an item is that of its full key
    let table_end = 32 + 8 + 4 + 24 * 2;
    let mut data = Vec::new();
    GvdbHeader::new(0, GvdbPointer::new(32, table_end)).write(&mut data);
    GvdbHashHeader::new(0, 1).write(&mut data);
    data.extend_from_slice(&0u32.to_le_bytes());
    GvdbHashItem::new(djb_hash("/a/"), NO_PARENT, table_end, 3, b'v', GvdbPointer::new(0, 0))
        .write(&mut data);
    GvdbHashItem::new(djb_hash("/a/b"), 0, table_end + 3, 1, b'v', GvdbPointer::new(0, 0))
        .write(&mut data);
    data.extend_from_slice(b"/a/b");
    let file = GvdbFile::open(&data).unwrap();
    assert!(file.get("/a/").is_some());
    assert!(file.get("/a/b").is_some());
    assert!(file.get("b").is_none());
    assert!(file.get("/a/bb").is_none());
    assert!(file.get("x/a/b").is_none());
    assert_eq!(file.list().unwrap(), vec!["/a/".to_string(), "/a/b".to_string()]);
}

#[test]
fn invalid_parent_is_a_data_error() {
    let data = file_of_items(&[(NO_PARENT, "a", b'v'), (2, "b", b'v')]);
    let file = GvdbFile::open(&data).unwrap();
    match file.list() {
        Err(GvdbReaderError::DataError(text)) => {
            assert_eq!(text, "Parent with invalid offset encountered: 2")
        }
        other => panic!("unexpected {:?}", other),
    }
    assert!(file.get("a").is_some());
    assert!(file.get("b").is_none());
}

#[test]
fn unreadable_keys_end_the_listing() {
    let mut data = file_of_items(&[(NO_PARENT, "a", b'v'), (NO_PARENT, "b", b'v')]);
    let key_of_b = data.len() - 1;
    data[key_of_b] = 0xff;
    let file = GvdbFile::open(&data).unwrap();
    assert!(matches!(file.list(), Err(GvdbReaderError::Utf8(_))));
    data.pop();
    let file = GvdbFile::open(&data).unwrap();
    assert!(matches!(file.list(), Err(GvdbReaderError::DataOffset)));
    assert!(file.get("a").is_some());
}

#[test]
fn bloom_filter_rejects_before_any_bucket_is_read() {
    let table = table_of(1, &[("a", Value::new(1i32))]);
    let data = GvdbFileWriter::with_bloom_words(1, false).write_to_vec(&table).unwrap();
    let file = GvdbFile::open(&data).unwrap();
    // "a" hashes to 177670, which sets bit 6; "zzz" sets another bit
    assert_eq!(file.hash_table().bloom_words(), Some(vec![1 << 6]));
    assert_ne!(djb_hash("zzz") & 31, 6);
    assert!(!file.hash_table().bloom_filter(djb_hash("zzz")));
    assert!(file.hash_table().bloom_filter(djb_hash("a")));
    assert!(file.get("zzz").is_none());
    assert!(file.get("a").is_some());

    // with the bits of "a" cleared, "a" is rejected although its item is there
    let mut cleared = data.clone();
    cleared[40] = 0;
    let file = GvdbFile::open(&cleared).unwrap();
    assert!(!file.hash_table().bloom_filter(djb_hash("a")));
    assert!(file.get("a").is_none());
    assert_eq!(file.list().unwrap(), vec!["a".to_string()]);
}

#[test]
fn tables_that_are_not_tables() {
    let table = table_of(2, &[("a", Value::new(1i32))]);
    let data = GvdbFileWriter::new().write_to_vec(&table).unwrap();
    let root = *GvdbFile::open(&data).unwrap().header().root();
    assert_eq!(root, GvdbPointer::new(32, 32 + 8 + 8 + 24));
    assert!(GvdbHashTable::for_bytes(&data, root).is_ok());
    // the end before the start
    assert!(matches!(
        GvdbHashTable::for_bytes(&data, GvdbPointer::new(32, 8)),
        Err(GvdbReaderError::DataOffset)
    ));
    // a start that is no multiple of 4
    assert!(matches!(
        GvdbHashTable::for_bytes(&data, GvdbPointer::new(33, root.end())),
        Err(GvdbReaderError::DataAlignment)
    ));
    // an end outside the data
    assert!(matches!(
        GvdbHashTable::for_bytes(&data, GvdbPointer::new(32, data.len() as u32 + 1)),
        Err(GvdbReaderError::DataOffset)
    ));
    // a header outside the data
    assert!(matches!(
        GvdbHashTable::for_bytes(&data, GvdbPointer::new(data.len() as u32 - 4, data.len() as u32)),
        Err(GvdbReaderError::DataOffset)
    ));
    // buckets that reach behind the end
    assert!(matches!(
        GvdbHashTable::for_bytes(&data, GvdbPointer::new(32, 44)),
        Err(GvdbReaderError::DataOffset)
    ));
    // items that do not fill the rest
    match GvdbHashTable::for_bytes(&data, GvdbPointer::new(32, root.end() - 4)) {
        Err(GvdbReaderError::DataError(text)) => {
            assert_eq!(text, "Remaining size invalid: Expected a multiple of 24, got 36")
        }
        other => panic!("unexpected {:?}", other.map(|_| ())),
    }
}

#[test]
fn values_must_be_aligned_and_inside() {
    let mut data = file_of_items(&[(NO_PARENT, "a", b'v')]);
    let file = GvdbFile::open(&data).unwrap();
    assert_eq!(file.get("a"), Some(&[][..]));
    // value pointer of the item: bytes 16..24 of the item at 44
    data[44 + 16] = 4;
    data[44 + 20] = 8;
    let file = GvdbFile::open(&data).unwrap();
    assert!(file.get("a").is_none());
    assert!(matches!(file.require("a"), Err(GvdbReaderError::DataAlignment)));
    data[44 + 16] = 8;
    data[44 + 20] = 4;
    let file = GvdbFile::open(&data).unwrap();
    assert!(matches!(file.require("a"), Err(GvdbReaderError::DataOffset)));
    data[44 + 16] = 8;
    data[44 + 20] = 200;
    let file = GvdbFile::open(&data).unwrap();
    assert!(matches!(file.require("a"), Err(GvdbReaderError::DataOffset)));
    data[44 + 20] = 16;
    let file = GvdbFile::open(&data).unwrap();
    assert_eq!(file.require("a").unwrap(), &data[8..16]);
}

#[test]
fn subtables_open_by_kind() {
    let inner = table_of(1, &[("x", Value::new(5i32))]);
    let inner_file = GvdbFileWriter::new().write_to_vec(&inner).unwrap();
    // an outer table with one item of kind 'L' that points at the root table
    // of the inner file, which is appended at a multiple of 8
    let mut data = file_of_items(&[(NO_PARENT, "sub", b'L'), (NO_PARENT, "val", b'v')]);
    while data.len() % 8 != 0 {
        data.push(0);
    }
    let shift = data.len() as u32;
    let mut moved = inner_file.clone();
    // absolute offsets of the inner item: its key and its value
    let key_start = u32::from_le_bytes(moved[44 + 8..44 + 12].try_into().unwrap()) + shift;
    moved[44 + 8..44 + 12].copy_from_slice(&key_start.to_le_bytes());
    let start = u32::from_le_bytes(moved[44 + 16..44 + 20].try_into().unwrap()) + shift;
    let end = u32::from_le_bytes(moved[44 + 20..44 + 24].try_into().unwrap()) + shift;
    moved[44 + 16..44 + 20].copy_from_slice(&start.to_le_bytes());
    moved[44 + 20..44 + 24].copy_from_slice(&end.to_le_bytes());
    data.extend_from_slice(&moved);
    data[44 + 16..44 + 20].copy_from_slice(&(shift + 32).to_le_bytes());
    data[44 + 20..44 + 24].copy_from_slice(&(shift + 68).to_le_bytes());

    let file = GvdbFile::open(&data).unwrap();
    let sub = file.open_subtable("sub").unwrap();
    assert_eq!(sub.get_names().unwrap(), vec!["x".to_string()]);
    assert_eq!(decode(sub.get_value("x").unwrap()), Value::new(5i32));
    assert!(file.get("sub").is_none());
    assert!(matches!(file.open_subtable("val"), Err(GvdbReaderError::KeyError(_))));
    assert!(matches!(file.open_subtable("nothing"), Err(GvdbReaderError::KeyError(_))));
}

#[test]
fn tables_that_cannot_be_stored() {
    let mut table = SimpleHashTable::with_n_buckets(1);
    let long_key = "k".repeat(0x1_0000);
    table.insert(&long_key, GvdbBuilderItemValue::Value(vec![]));
    match GvdbFileWriter::new().write_to_vec(&table) {
        Err(GvdbWriterError::Consistency(text)) => assert_eq!(text, "Key is too long"),
        other => panic!("unexpected {:?}", other),
    }
    let table = SimpleHashTable::with_n_buckets(1);
    match GvdbFileWriter::with_bloom_words(0x800_0000, false).write_to_vec(&table) {
        Err(GvdbWriterError::Consistency(text)) => {
            assert_eq!(text, "Too many bloom filter words")
        }
        other => panic!("unexpected {:?}", other),
    }
    let mut table = SimpleHashTable::with_n_buckets(1);
    table.insert(&"k".repeat(0xffff), GvdbBuilderItemValue::Value(vec![7]));
    let data = GvdbFileWriter::new().write_to_vec(&table).unwrap();
    assert_eq!(GvdbFile::open(&data).unwrap().get(&"k".repeat(0xffff)), Some(&[7u8][..]));
}
