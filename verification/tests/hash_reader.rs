use gvdb::read::error::GvdbReaderError;
use gvdb::read::file::GvdbFile;
use gvdb::read::hash::GvdbHashTable;
use gvdb::read::hash_item::{GvdbHashHeader, GvdbHashItem, NO_PARENT};
use gvdb::read::pointer::{read_pointer, GvdbPointer};
use gvdb::util::djb_hash;
use gvdb::write::file::GvdbFileWriter;
use gvdb::write::hash::SimpleHashTable;
use gvdb::write::item::GvdbBuilderItemValue;

fn two_key_file() -> Vec<u8> {
    let mut table = SimpleHashTable::with_n_buckets(3);
    table.insert("first", GvdbBuilderItemValue::Value(vec![1, 2, 3, 4, 5]));
    table.insert("second", GvdbBuilderItemValue::Value(vec![6, 7]));
    GvdbFileWriter::with_bloom_words(2, false).write_to_vec(&table).unwrap()
}

#[test]
fn regions_of_a_table() {
    let data = two_key_file();
    let file = GvdbFile::open(&data).unwrap();
    let table = file.hash_table();
    assert_eq!(table.header(), GvdbHashHeader::new(2, 3));
    assert_eq!(table.data_offset(), 32);
    assert_eq!(table.bloom_words_offset(), 40);
    assert_eq!(table.bloom_words_end(), 48);
    assert_eq!(table.hash_buckets_offset(), 48);
    assert_eq!(table.hash_buckets_end(), 60);
    assert_eq!(table.hash_items_offset(), 60);
    assert_eq!(table.n_hash_items(), 2);
    assert_eq!(table.hash_items_end(), data.len());
    assert_eq!(table.bloom_shift(), 0);
    assert_eq!(read_pointer(&data, 16), Some(GvdbPointer::new(32, 108)));
    assert_eq!(read_pointer(&data, data.len() - 7), None);
    assert_eq!(
        GvdbHashTable::hash_header(&data, &GvdbPointer::new(32, 108)).unwrap(),
        GvdbHashHeader::new(2, 3)
    );
    assert!(matches!(
        GvdbHashTable::hash_header(&data, &GvdbPointer::new(data.len() as u32 - 7, 0)),
        Err(GvdbReaderError::DataOffset)
    ));
}

#[test]
fn words_buckets_and_items_of_a_table() {
    let data = two_key_file();
    let file = GvdbFile::open(&data).unwrap();
    let table = file.hash_table();
    // the word of a hash is (hash / 32) mod 2, its bit is hash mod 32
    let mut words = vec![0u32; 2];
    for key in ["first", "second"] {
        let hash = djb_hash(key);
        words[((hash / 32) % 2) as usize] |= 1 << (hash & 31);
    }
    assert_eq!(table.bloom_words(), Some(words.clone()));
    assert_eq!(table.get_bloom_word(0), Some(words[0]));
    assert_eq!(table.get_bloom_word(1), Some(words[1]));
    assert_eq!(table.get_u32(40), Some(words[0]));
    assert_eq!(table.get_u32(data.len() - 3), None);
    assert_eq!(table.get_bloom_word(usize::MAX), None);
    assert_eq!(table.get_hash(usize::MAX), None);

    // the items stand in the order of their buckets
    let bucket_of = |key: &str| (djb_hash(key) % 3) as usize;
    let mut keys = vec!["first", "second"];
    keys.sort_by_key(|key| bucket_of(key));
    let mut starts = [0u32; 3];
    for bucket in 0..3 {
        starts[bucket] = keys.iter().filter(|key| bucket_of(key) < bucket).count() as u32;
        assert_eq!(table.get_hash(bucket), Some(starts[bucket]));
    }
    for (index, key) in keys.iter().enumerate() {
        let item = table.get_hash_item(index).unwrap();
        assert_eq!(item.hash_value(), djb_hash(key));
        assert_eq!(item.parent(), NO_PARENT);
        assert_eq!(item.typ(), 'v');
        assert_eq!(item.key_size() as usize, key.len());
        assert_eq!(table.get_key(&item).unwrap(), *key);
        assert!(table.check_name(&item, key));
        assert!(!table.check_name(&item, "other"));
        assert!(!table.check_name(&item, &format!("x{}", key)));
        assert!(!table.check_name(&item, &key[1..]));
        assert_eq!(table.table_lookup(key, 'v'), Some(item));
        assert_eq!(table.table_lookup(key, 'L'), None);
        assert_eq!(item.value_ptr().start() % 8, 0);
    }
    assert!(matches!(
        table.get_hash_item(data.len()),
        Err(GvdbReaderError::DataOffset)
    ));
    let first = table.table_lookup("first", 'v').unwrap();
    assert_eq!(table.value_from_item(&first), Some(&[1u8, 2, 3, 4, 5][..]));
    assert_eq!(table.get_value("second"), Some(&[6u8, 7][..]));
}

#[test]
fn pointers_are_dereferenced_with_alignment() {
    let data = two_key_file();
    let table = GvdbFile::open(&data).unwrap().hash_table();
    assert_eq!(table.deref_pointer(&GvdbPointer::new(4, 8), 4).unwrap(), b"iant");
    assert_eq!(table.deref_pointer(&GvdbPointer::new(3, 8), 1).unwrap(), b"riant");
    assert!(matches!(
        table.deref_pointer(&GvdbPointer::new(4, 8), 8),
        Err(GvdbReaderError::DataAlignment)
    ));
    assert!(matches!(
        table.deref_pointer(&GvdbPointer::new(8, 4), 4),
        Err(GvdbReaderError::DataOffset)
    ));
    assert!(matches!(
        table.deref_pointer(&GvdbPointer::new(8, data.len() as u32 + 1), 8),
        Err(GvdbReaderError::DataOffset)
    ));
    assert_eq!(
        table.deref_pointer(&GvdbPointer::new(8, data.len() as u32), 8).unwrap().len(),
        data.len() - 8
    );
}

#[test]
fn keys_outside_the_data_or_not_text() {
    let data = two_key_file();
    let table = GvdbFile::open(&data).unwrap().hash_table();
    let item = GvdbHashItem::new(0, NO_PARENT, data.len() as u32 - 1, 2, b'v', GvdbPointer::null());
    assert!(matches!(table.get_key(&item), Err(GvdbReaderError::DataOffset)));
    assert!(!table.check_name(&item, ""));
    // the four bytes of the root pointer's end are no text: 108, 0, 0, 0 is, 0xff is not
    let mut broken = data.clone();
    broken[2] = 0xff;
    let table = GvdbHashTable::for_bytes(&broken, GvdbPointer::new(32, 108)).unwrap();
    let item = GvdbHashItem::new(0, NO_PARENT, 0, 4, b'v', GvdbPointer::null());
    assert!(matches!(table.get_key(&item), Err(GvdbReaderError::Utf8(_))));
    assert!(!table.check_name(&item, "GV\u{fffd}r"));
    let item = GvdbHashItem::new(0, NO_PARENT, 4, 4, b'v', GvdbPointer::null());
    assert_eq!(table.get_key(&item).unwrap(), "iant");
    assert!(table.check_name(&item, "iant"));
}

#[test]
fn reserved_bits_of_the_bloom_word_count_are_ignored() {
    // a table without bloom words and buckets whose header sets reserved bits
    let mut data = GvdbFileWriter::new()
        .write_to_vec(&SimpleHashTable::with_n_buckets(0))
        .unwrap();
    data[35] = 0xf8;
    let file = GvdbFile::open(&data).unwrap();
    assert_eq!(file.hash_table().header().n_bloom_words(), 0);
    assert!(file.hash_table().bloom_filter(12345));
    assert_eq!(file.hash_table().bloom_words(), Some(vec![]));
    assert!(file.get("anything").is_none());
}
