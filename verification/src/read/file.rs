//! A whole GVDB file: the header and the root hash table it points to.

use crate::read::error::{GvdbReaderError, GvdbReaderErrorView};
use crate::read::hash::{
    spec_deref_pointer, spec_full_name, spec_n_hash_items, spec_names_error, spec_table_error,
    spec_table_lookup, GvdbHashTable,
};
use crate::read::header::GvdbHeader;
use vstd::prelude::*;
use vstd::slice::slice_subrange;
use vstd::string::StringSliceAdditionalSpecFns;

verus! {

/// The header stored at the start of a file.
pub open spec fn spec_file_header(data: Seq<u8>) -> GvdbHeader {
    GvdbHeader::spec_from_bytes(data.subrange(0, 32))
}

/// Why `data` cannot be opened as a file, or `None` where it can: the header
/// must lie inside the data and be accepted, and its root pointer must
/// delimit a hash table.
pub open spec fn spec_file_error(data: Seq<u8>) -> Option<GvdbReaderErrorView> {
    if data.len() < 32 {
        Some(GvdbReaderErrorView::DataOffset)
    } else {
        match spec_file_header(data).spec_error() {
            Some(error) => Some(error),
            None => spec_table_error(data, spec_file_header(data).root),
        }
    }
}

/// The bytes of the variant stored under `key`, or why there are none: no
/// item of kind `'v'` for the key, or one whose value cannot be reached.
pub open spec fn spec_file_require(data: Seq<u8>, key: Seq<char>) -> Result<
    Seq<u8>,
    GvdbReaderErrorView,
> {
    match spec_table_lookup(data, spec_file_header(data).root, vstd::utf8::encode_utf8(key), 'v') {
        None => Err(GvdbReaderErrorView::KeyError(key)),
        Some(item) => spec_deref_pointer(data, item.value, 8),
    }
}

/// The bytes of the variant stored under `key`, where there are any.
pub open spec fn spec_file_get(data: Seq<u8>, key: Seq<char>) -> Option<Seq<u8>> {
    match spec_file_require(data, key) {
        Ok(bytes) => Some(bytes),
        Err(_) => None,
    }
}

/// The table stored under `key`, or why there is none: no item of kind `'L'`
/// for the key, or one whose value does not delimit a hash table.
pub open spec fn spec_file_subtable_error(data: Seq<u8>, key: Seq<char>) -> Option<
    GvdbReaderErrorView,
> {
    match spec_table_lookup(data, spec_file_header(data).root, vstd::utf8::encode_utf8(key), 'L') {
        None => Some(GvdbReaderErrorView::KeyError(key)),
        Some(item) => spec_table_error(data, item.value),
    }
}

/// A GVDB file that lies in a byte buffer.
#[derive(Clone, Copy)]
pub struct GvdbFile<'a> {
    data: &'a [u8],
    header: GvdbHeader,
    root_table: GvdbHashTable<'a>,
}

impl<'a> GvdbFile<'a> {
    /// The bytes of the file.
    pub closed spec fn spec_data(&self) -> Seq<u8> {
        self.data@
    }

    /// The header was accepted and the root table is the one it points to.
    pub closed spec fn wf(&self) -> bool {
        &&& spec_file_error(self.data@) is None
        &&& self.header == spec_file_header(self.data@)
        &&& self.root_table.wf()
        &&& self.root_table.spec_data() == self.data@
        &&& self.root_table.spec_table_ptr() == self.header.root
    }

    /// Opens the file that `data` holds.
    pub fn open(data: &'a [u8]) -> (r: Result<GvdbFile<'a>, GvdbReaderError>)
        ensures
            match spec_file_error(data@) {
                Some(error) => r matches Err(e) && e@ == error,
                None => r matches Ok(file) && file.wf() && file.spec_data() == data@,
            },
    {
        if data.len() < 32 {
            return Err(GvdbReaderError::DataOffset);
        }
        let header = match GvdbHeader::from_bytes(slice_subrange(data, 0, 32)) {
            Ok(header) => header,
            Err(e) => {
                return Err(GvdbReaderError::DataOffset);
            },
        };
        match header.check() {
            Ok(()) => {},
            Err(e) => {
                return Err(e);
            },
        }
        match GvdbHashTable::for_bytes(data, header.root) {
            Ok(root_table) => Ok(GvdbFile { data, header, root_table }),
            Err(e) => Err(e),
        }
    }

    /// The header of the file.
    pub fn header(&self) -> (header: GvdbHeader)
        requires
            self.wf(),
        ensures
            header == spec_file_header(self.spec_data()),
    {
        self.header
    }

    /// The root hash table.
    pub fn hash_table(&self) -> (table: GvdbHashTable<'a>)
        requires
            self.wf(),
        ensures
            table.wf(),
            table.spec_data() == self.spec_data(),
            table.spec_table_ptr() == spec_file_header(self.spec_data()).root,
    {
        self.root_table
    }

    /// The bytes of the variant stored under `key`, where the file holds the
    /// key with a value that can be reached.
    pub fn get(&self, key: &str) -> (value: Option<&'a [u8]>)
        requires
            self.wf(),
        ensures
            match spec_file_get(self.spec_data(), key@) {
                Some(bytes) => value matches Some(slice) && slice@ == bytes,
                None => value is None,
            },
    {
        self.root_table.get_value(key)
    }

    /// The bytes of the variant stored under `key`, or the reason why there
    /// are none.
    pub fn require(&self, key: &str) -> (r: Result<&'a [u8], GvdbReaderError>)
        requires
            self.wf(),
        ensures
            match spec_file_require(self.spec_data(), key@) {
                Ok(bytes) => r matches Ok(slice) && slice@ == bytes,
                Err(error) => r matches Err(e) && e@ == error,
            },
    {
        match self.root_table.table_lookup(key, 'v') {
            Some(item) => self.root_table.deref_pointer(item.value_ptr(), 8),
            None => Err(GvdbReaderError::KeyError(key.to_owned())),
        }
    }

    /// The full key of every item of the root table, in the order of the
    /// items.
    pub fn list(&self) -> (r: Result<Vec<String>, GvdbReaderError>)
        requires
            self.wf(),
        ensures
            match spec_names_error(self.spec_data(), spec_file_header(self.spec_data()).root) {
                Some(error) => r matches Err(e) && e@ == error,
                None => r matches Ok(names) && names@.len() == spec_n_hash_items(
                    self.spec_data(),
                    spec_file_header(self.spec_data()).root,
                ) && forall|i: int|
                    0 <= i < names@.len() ==> spec_full_name(
                        self.spec_data(),
                        spec_file_header(self.spec_data()).root,
                        i,
                        names@.len(),
                    ) == Some((#[trigger] names@[i])@),
            },
    {
        self.root_table.get_names()
    }

    /// The hash table stored under `key`.
    pub fn open_subtable(&self, key: &str) -> (r: Result<GvdbHashTable<'a>, GvdbReaderError>)
        requires
            self.wf(),
        ensures
            match spec_file_subtable_error(self.spec_data(), key@) {
                Some(error) => r matches Err(e) && e@ == error,
                None => r matches Ok(table) && table.wf() && table.spec_data() == self.spec_data()
                    && Some(table.spec_table_ptr()) == (match spec_table_lookup(
                    self.spec_data(),
                    spec_file_header(self.spec_data()).root,
                    key.spec_bytes(),
                    'L',
                ) {
                    Some(item) => Some(item.value),
                    None => None,
                }),
            },
    {
        match self.root_table.table_lookup(key, 'L') {
            Some(item) => GvdbHashTable::for_bytes(self.data, item.value),
            None => Err(GvdbReaderError::KeyError(key.to_owned())),
        }
    }
}

} // verus!
