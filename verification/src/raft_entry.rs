//! Entries of a raft log, and their encoding as protocol buffers.

use protobuf::Message;
use protobuf::ProtobufError;
use vstd::prelude::*;

use crate::bytes;

verus! {

/// What an entry is for.
#[derive(Clone, Copy, Debug, PartialEq, Eq, Structural)]
pub enum EntryType {
    EntryNormal,
    EntryConfChange,
    EntryConfChangeV2,
}

/// An entry of a raft log.
#[derive(Debug)]
pub struct Entry {
    pub entry_type: EntryType,
    pub term: u64,
    pub index: u64,
    pub data: Vec<u8>,
    pub context: Vec<u8>,
    pub sync_log: bool,
}

#[verifier::ext_equal]
pub struct EntryView {
    pub entry_type: EntryType,
    pub term: u64,
    pub index: u64,
    pub data: Seq<u8>,
    pub context: Seq<u8>,
    pub sync_log: bool,
}

impl View for Entry {
    type V = EntryView;

    open spec fn view(&self) -> EntryView {
        EntryView {
            entry_type: self.entry_type,
            term: self.term,
            index: self.index,
            data: self.data@,
            context: self.context@,
            sync_log: self.sync_log,
        }
    }
}

impl Clone for Entry {
    fn clone(&self) -> (r: Self)
        ensures
            r@ == self@,
    {
        Entry {
            entry_type: self.entry_type,
            term: self.term,
            index: self.index,
            data: bytes::copy_of(&self.data),
            context: bytes::copy_of(&self.context),
            sync_log: self.sync_log,
        }
    }
}

/// The views of a list of entries.
pub open spec fn entry_views(v: Seq<Entry>) -> Seq<EntryView> {
    Seq::new(v.len(), |i: int| v[i]@)
}

/// How many bytes a number takes: seven of its bits go into each.
pub open spec fn varint_len(v: nat) -> nat
    decreases v,
{
    if v < 128 {
        1
    } else {
        1 + varint_len(v / 128)
    }
}

/// How many bytes a field with a number takes: none where it is 0, else a tag and the number.
pub open spec fn number_field_len(v: u64) -> nat {
    if v == 0 {
        0
    } else {
        1 + varint_len(v as nat)
    }
}

/// How many bytes a field with bytes takes: none where there are none, else a tag, their number
/// and the bytes.
pub open spec fn bytes_field_len(b: Seq<u8>) -> nat {
    if b.len() == 0 {
        0
    } else {
        1 + varint_len(b.len()) + b.len()
    }
}

/// How many bytes an entry takes. The kind of an entry and its flag take a tag and a byte, where
/// they are not the first one and not unset.
pub open spec fn encoded_len(e: EntryView) -> nat {
    let kind: nat = if e.entry_type == EntryType::EntryNormal {
        0
    } else {
        2
    };
    let flag: nat = if e.sync_log {
        2
    } else {
        0
    };
    kind + number_field_len(e.term) + number_field_len(e.index) + bytes_field_len(e.data)
        + bytes_field_len(e.context) + flag
}

/// An entry whose encoding has a length that fits in 32 bits, in which the encoding counts.
pub open spec fn can_encode(e: EntryView) -> bool {
    encoded_len(e) <= u32::MAX
}

/// How many bytes a number takes.
fn varint_size(v: u64) -> (r: u128)
    ensures
        r == varint_len(v as nat),
        r <= v + 1,
{
    let mut x: u64 = v;
    let mut n: u128 = 1;
    while x >= 128
        invariant
            n + varint_len(x as nat) == 1 + varint_len(v as nat),
            n + x <= v + 1,
        decreases x,
    {
        x = x / 128;
        n = n + 1;
    }
    n
}

fn number_field_size(v: u64) -> (r: u128)
    ensures
        r == number_field_len(v),
        r <= v + 2,
{
    if v == 0 {
        0
    } else {
        1 + varint_size(v)
    }
}

fn bytes_field_size(b: &[u8]) -> (r: u128)
    ensures
        r == bytes_field_len(b@),
        r <= 2 * usize::MAX + 2,
{
    let n: usize = b.len();
    if n == 0 {
        0
    } else {
        1 + varint_size(n as u64) + n as u128
    }
}

impl Entry {
    /// Whether the encoding of the entry has a length that fits in 32 bits.
    pub fn fits(&self) -> (r: bool)
        ensures
            r == can_encode(self@),
    {
        let mut n: u128 = match self.entry_type {
            EntryType::EntryNormal => 0,
            EntryType::EntryConfChange => 2,
            EntryType::EntryConfChangeV2 => 2,
        };
        n = n + number_field_size(self.term);
        n = n + number_field_size(self.index);
        n = n + bytes_field_size(&self.data);
        n = n + bytes_field_size(&self.context);
        if self.sync_log {
            n = n + 2;
        }
        n <= u32::MAX as u128
    }
}

/// The error of the protocol buffer library.
#[verifier::external_type_specification]
#[verifier::external_body]
pub struct ExProtobufError(ProtobufError);

/// The bytes that the protocol buffer library writes for a log entry of the raft library.
pub uninterp spec fn entry_bytes(e: EntryView) -> Seq<u8>;

/// The log entry that the protocol buffer library reads from some bytes; nothing where it
/// fails. Fields that the raft library does not know are left out.
pub uninterp spec fn entry_of_bytes(b: Seq<u8>) -> Option<EntryView>;

/// `protobuf::Message::write_to_vec` on `raft::eraftpb::Entry`: the bytes depend on the
/// entry alone, reading them gives the entry back, and there are as many as the fields that are
/// set take. The library counts them in 32 bits.
#[verifier::external_body]
pub(crate) fn encode_entry(entry: &Entry) -> (r: Vec<u8>)
    requires
        can_encode(entry@),
    ensures
        r@ == entry_bytes(entry@),
        entry_of_bytes(r@) == Some(entry@),
        r@.len() == encoded_len(entry@),
{
    let mut e = raft::eraftpb::Entry::default();
    e.set_entry_type(match entry.entry_type {
        EntryType::EntryNormal => raft::eraftpb::EntryType::EntryNormal,
        EntryType::EntryConfChange => raft::eraftpb::EntryType::EntryConfChange,
        EntryType::EntryConfChangeV2 => raft::eraftpb::EntryType::EntryConfChangeV2,
    });
    e.set_term(entry.term);
    e.set_index(entry.index);
    e.set_data(entry.data.clone().into());
    e.set_context(entry.context.clone().into());
    e.set_sync_log(entry.sync_log);
    let mut buf = Vec::new();
    e.write_to_vec(&mut buf).unwrap();
    buf
}

/// `protobuf::Message::merge_from_bytes` on an empty `raft::eraftpb::Entry`: what is read, and
/// whether it fails, depends on the bytes alone.
#[verifier::external_body]
pub(crate) fn decode_entry(page: &[u8]) -> (r: Result<Entry, ProtobufError>)
    ensures
        match r {
            Ok(e) => entry_of_bytes(page@) == Some(e@),
            Err(_) => entry_of_bytes(page@) is None,
        },
{
    let mut e = raft::eraftpb::Entry::default();
    e.merge_from_bytes(page)?;
    let entry_type = match e.get_entry_type() {
        raft::eraftpb::EntryType::EntryNormal => EntryType::EntryNormal,
        raft::eraftpb::EntryType::EntryConfChange => EntryType::EntryConfChange,
        raft::eraftpb::EntryType::EntryConfChangeV2 => EntryType::EntryConfChangeV2,
    };
    let (data, context) = (e.get_data().to_vec(), e.get_context().to_vec());
    let (term, index, sync_log) = (e.get_term(), e.get_index(), e.get_sync_log());
    Ok(Entry { entry_type, term, index, data, context, sync_log })
}

} // verus!
