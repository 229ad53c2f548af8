//! What a peer that was added the fast way brings along in a serverless cluster.

use vstd::prelude::*;

use crate::bytes;
use crate::ffi::BaseBuffView;

verus! {

/// The serverless part of the answer to a request to add a peer.
pub struct FastAddPeerExtra<'a> {
    pub shard_ver: u64,
    pub inner_key: BaseBuffView<'a>,
    pub enc_key: BaseBuffView<'a>,
    pub txn_file_ref: BaseBuffView<'a>,
}

/// The properties of a shard.
#[derive(Debug)]
pub struct Properties {
    pub shard_id: u64,
    pub encryption_key: Vec<u8>,
    pub txn_file_ref: Vec<u8>,
}

/// The snapshot in a change of a shard.
#[derive(Debug)]
pub struct ShardSnapshot {
    pub properties: Properties,
    pub inner_key_off: u32,
}

/// A change of a shard.
#[derive(Debug)]
pub struct ChangeSet {
    pub shard_ver: u64,
    pub snapshot: ShardSnapshot,
}

/// What a peer that was added the fast way brings along.
#[derive(Debug)]
pub struct ServerlessExtra {
    shard_ver: u64,
    inner_key: Vec<u8>,
    enc_key: Vec<u8>,
    txn_file_ref: Vec<u8>,
}

#[verifier::ext_equal]
pub struct ServerlessExtraView {
    pub shard_ver: u64,
    pub inner_key: Seq<u8>,
    pub enc_key: Seq<u8>,
    pub txn_file_ref: Seq<u8>,
}

impl View for ServerlessExtra {
    type V = ServerlessExtraView;

    closed spec fn view(&self) -> ServerlessExtraView {
        ServerlessExtraView {
            shard_ver: self.shard_ver,
            inner_key: self.inner_key@,
            enc_key: self.enc_key@,
            txn_file_ref: self.txn_file_ref@,
        }
    }
}

/// The number that the first four bytes of a key stand for, the most significant one first; 0
/// where the key is shorter.
pub open spec fn leading_u32(key: Seq<u8>) -> int {
    if key.len() < 4 {
        0
    } else {
        key[0] * 0x100_0000 + key[1] * 0x1_0000 + key[2] * 0x100 + key[3]
    }
}

impl ServerlessExtra {
    pub fn new(res: &FastAddPeerExtra) -> (r: Self)
        requires
            !res.inner_key.spec_is_null(),
            !res.enc_key.spec_is_null(),
            !res.txn_file_ref.spec_is_null(),
        ensures
            r@ == (ServerlessExtraView {
                shard_ver: res.shard_ver,
                inner_key: res.inner_key@,
                enc_key: res.enc_key@,
                txn_file_ref: res.txn_file_ref@,
            }),
    {
        ServerlessExtra {
            shard_ver: res.shard_ver,
            inner_key: bytes::copy_of(res.inner_key.to_slice()),
            enc_key: bytes::copy_of(res.enc_key.to_slice()),
            txn_file_ref: bytes::copy_of(res.txn_file_ref.to_slice()),
        }
    }

    /// Puts what was brought along into a change of a shard.
    pub fn mutate_snap(&self, shard_id: u64, changeset: &mut ChangeSet)
        ensures
            final(changeset).shard_ver == self@.shard_ver,
            final(changeset).snapshot.inner_key_off == leading_u32(self@.inner_key),
            final(changeset).snapshot.properties.shard_id == shard_id,
            final(changeset).snapshot.properties.encryption_key@ == self@.enc_key,
            final(changeset).snapshot.properties.txn_file_ref@ == self@.txn_file_ref,
    {
        changeset.snapshot.properties = Properties {
            shard_id,
            encryption_key: bytes::copy_of(self.get_enc_key()),
            txn_file_ref: bytes::copy_of(self.get_txn_file_ref()),
        };
        changeset.snapshot.inner_key_off = self.get_inner_key_off();
        changeset.shard_ver = self.get_shard_ver();
    }

    pub fn get_shard_ver(&self) -> (r: u64)
        ensures
            r == self@.shard_ver,
    {
        self.shard_ver
    }

    /// Where the inner key starts.
    pub fn get_inner_key_off(&self) -> (r: u32)
        ensures
            r == leading_u32(self@.inner_key),
    {
        if self.inner_key.len() < 4 {
            return 0;
        }
        let k = &self.inner_key;
        k[0] as u32 * 0x100_0000 + k[1] as u32 * 0x1_0000 + k[2] as u32 * 0x100 + k[3] as u32
    }

    pub fn get_enc_key(&self) -> (r: &[u8])
        ensures
            r@ == self@.enc_key,
    {
        self.enc_key.as_slice()
    }

    pub fn get_txn_file_ref(&self) -> (r: &[u8])
        ensures
            r@ == self@.txn_file_ref,
    {
        self.txn_file_ref.as_slice()
    }
}

} // verus!
