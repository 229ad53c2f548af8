//! The layout of keys in the engines.
//!
//! Keys of users carry a one-byte data prefix. Keys of the raft machinery start with
//! a local prefix; those of a region hold its number in big-endian order, so that the
//! keys of a region's log stand in the order of their indexes.

use vstd::prelude::*;
use vstd::slice::slice_subrange;

use crate::bytes;

verus! {

/// The first byte of every key that belongs to the raft machinery.
pub const LOCAL_PREFIX: u8 = 0x01;

/// The first byte of every data key: the letter `z`.
pub const DATA_PREFIX: u8 = 0x7a;

/// The second byte of the keys of a region's raft data.
pub const REGION_RAFT_PREFIX: u8 = 0x02;

/// The second byte of the keys of a region's metadata.
pub const REGION_META_PREFIX: u8 = 0x03;

pub const RAFT_LOG_SUFFIX: u8 = 0x01;

pub const RAFT_STATE_SUFFIX: u8 = 0x02;

pub const APPLY_STATE_SUFFIX: u8 = 0x03;

pub const REGION_STATE_SUFFIX: u8 = 0x01;

/// The key under which a store keeps its identity.
pub open spec fn store_ident() -> Seq<u8> {
    seq![LOCAL_PREFIX, 0x01]
}

/// The key under which a store keeps the region that it prepares to bootstrap with.
pub open spec fn prepare_bootstrap() -> Seq<u8> {
    seq![LOCAL_PREFIX, 0x02]
}

/// No key stands before this one.
pub open spec fn min_key() -> Seq<u8> {
    Seq::empty()
}

/// A key after all keys of users and of the raft machinery.
pub open spec fn max_key() -> Seq<u8> {
    seq![0xff]
}

/// A number as eight bytes, the most significant one first.
pub open spec fn be8(x: u64) -> Seq<u8> {
    seq![
        (x >> 56) as u8,
        (x >> 48) as u8,
        (x >> 40) as u8,
        (x >> 32) as u8,
        (x >> 24) as u8,
        (x >> 16) as u8,
        (x >> 8) as u8,
        x as u8,
    ]
}

pub open spec fn spec_region_raft_prefix(region_id: u64) -> Seq<u8> {
    seq![LOCAL_PREFIX, REGION_RAFT_PREFIX] + be8(region_id)
}

pub open spec fn spec_region_meta_prefix(region_id: u64) -> Seq<u8> {
    seq![LOCAL_PREFIX, REGION_META_PREFIX] + be8(region_id)
}

/// The key of one entry of a region's log.
pub open spec fn spec_raft_log_key(region_id: u64, log_index: u64) -> Seq<u8> {
    spec_region_raft_prefix(region_id) + seq![RAFT_LOG_SUFFIX] + be8(log_index)
}

pub open spec fn spec_raft_state_key(region_id: u64) -> Seq<u8> {
    spec_region_raft_prefix(region_id) + seq![RAFT_STATE_SUFFIX]
}

pub open spec fn spec_apply_state_key(region_id: u64) -> Seq<u8> {
    spec_region_raft_prefix(region_id) + seq![APPLY_STATE_SUFFIX]
}

pub open spec fn spec_region_state_key(region_id: u64) -> Seq<u8> {
    spec_region_meta_prefix(region_id) + seq![REGION_STATE_SUFFIX]
}

/// A user's key as it stands in the data column families.
pub open spec fn spec_data_key(key: Seq<u8>) -> Seq<u8> {
    seq![DATA_PREFIX] + key
}

/// Whether a key carries the data prefix.
pub open spec fn is_data_key(key: Seq<u8>) -> bool {
    key.len() > 0 && key[0] == DATA_PREFIX
}

/// The user's key inside a data key.
pub open spec fn spec_origin_key(key: Seq<u8>) -> Seq<u8> {
    key.skip(1)
}

fn push_be8(v: &mut Vec<u8>, x: u64)
    ensures
        final(v)@ == old(v)@ + be8(x),
{
    v.push(#[verifier::truncate] ((x >> 56) as u8));
    v.push(#[verifier::truncate] ((x >> 48) as u8));
    v.push(#[verifier::truncate] ((x >> 40) as u8));
    v.push(#[verifier::truncate] ((x >> 32) as u8));
    v.push(#[verifier::truncate] ((x >> 24) as u8));
    v.push(#[verifier::truncate] ((x >> 16) as u8));
    v.push(#[verifier::truncate] ((x >> 8) as u8));
    v.push(#[verifier::truncate] (x as u8));
}

fn region_key(prefix: u8, region_id: u64, suffix: u8) -> (r: Vec<u8>)
    ensures
        r@ == seq![LOCAL_PREFIX, prefix] + be8(region_id) + seq![suffix],
{
    let mut v: Vec<u8> = Vec::new();
    v.push(LOCAL_PREFIX);
    v.push(prefix);
    assert(v@ =~= seq![LOCAL_PREFIX, prefix]);
    push_be8(&mut v, region_id);
    v.push(suffix);
    v
}

/// The key of one entry of a region's log.
pub fn raft_log_key(region_id: u64, log_index: u64) -> (r: Vec<u8>)
    ensures
        r@ == spec_raft_log_key(region_id, log_index),
{
    let mut v = region_key(REGION_RAFT_PREFIX, region_id, RAFT_LOG_SUFFIX);
    push_be8(&mut v, log_index);
    v
}

/// The key of a region's raft state.
pub fn raft_state_key(region_id: u64) -> (r: Vec<u8>)
    ensures
        r@ == spec_raft_state_key(region_id),
{
    region_key(REGION_RAFT_PREFIX, region_id, RAFT_STATE_SUFFIX)
}

/// The key of a region's apply state.
pub fn apply_state_key(region_id: u64) -> (r: Vec<u8>)
    ensures
        r@ == spec_apply_state_key(region_id),
{
    region_key(REGION_RAFT_PREFIX, region_id, APPLY_STATE_SUFFIX)
}

/// The key of a region's local state.
pub fn region_state_key(region_id: u64) -> (r: Vec<u8>)
    ensures
        r@ == spec_region_state_key(region_id),
{
    region_key(REGION_META_PREFIX, region_id, REGION_STATE_SUFFIX)
}

/// The key under which a store keeps its identity.
pub fn store_ident_key() -> (r: Vec<u8>)
    ensures
        r@ == store_ident(),
{
    let mut v: Vec<u8> = Vec::new();
    v.push(LOCAL_PREFIX);
    v.push(0x01);
    v
}

/// The key under which a store keeps the region that it prepares to bootstrap with.
pub fn prepare_bootstrap_key() -> (r: Vec<u8>)
    ensures
        r@ == prepare_bootstrap(),
{
    let mut v: Vec<u8> = Vec::new();
    v.push(LOCAL_PREFIX);
    v.push(0x02);
    v
}

/// Puts the data prefix before a user's key.
pub fn data_key(key: &[u8]) -> (r: Vec<u8>)
    ensures
        r@ == spec_data_key(key@),
{
    let mut v: Vec<u8> = Vec::new();
    v.push(DATA_PREFIX);
    let mut k = bytes::copy_of(key);
    v.append(&mut k);
    v
}

/// Whether a key carries the data prefix.
pub fn validate_data_key(key: &[u8]) -> (r: bool)
    ensures
        r == is_data_key(key@),
{
    key.len() > 0 && key[0] == DATA_PREFIX
}

/// The user's key inside a data key.
pub fn origin_key(key: &[u8]) -> (r: &[u8])
    requires
        is_data_key(key@),
    ensures
        r@ == spec_origin_key(key@),
{
    let r = slice_subrange(key, 1, key.len());
    assert(r@ =~= key@.skip(1));
    r
}

/// The eight bytes of a smaller number come first in the lexicographic order.
pub proof fn be8_rises(x: u64, y: u64)
    ensures
        bytes::lex_lt(be8(x), be8(y)) == (x < y),
        be8(x) == be8(y) <==> x == y,
{
    broadcast use bytes::lex_lt_asym;

    if x < y {
        be8_less(x, y);
    } else if y < x {
        be8_less(y, x);
    }
}

proof fn be8_less(x: u64, y: u64)
    requires
        x < y,
    ensures
        bytes::lex_lt(be8(x), be8(y)),
{
    let a = be8(x);
    let b = be8(y);
    assert({
        ||| ((x >> 56) as u8) < ((y >> 56) as u8)
        ||| ((x >> 56) as u8) == ((y >> 56) as u8) && {
            ||| ((x >> 48) as u8) < ((y >> 48) as u8)
            ||| ((x >> 48) as u8) == ((y >> 48) as u8) && {
                ||| ((x >> 40) as u8) < ((y >> 40) as u8)
                ||| ((x >> 40) as u8) == ((y >> 40) as u8) && {
                    ||| ((x >> 32) as u8) < ((y >> 32) as u8)
                    ||| ((x >> 32) as u8) == ((y >> 32) as u8) && {
                        ||| ((x >> 24) as u8) < ((y >> 24) as u8)
                        ||| ((x >> 24) as u8) == ((y >> 24) as u8) && {
                            ||| ((x >> 16) as u8) < ((y >> 16) as u8)
                            ||| ((x >> 16) as u8) == ((y >> 16) as u8) && {
                                ||| ((x >> 8) as u8) < ((y >> 8) as u8)
                                ||| ((x >> 8) as u8) == ((y >> 8) as u8) && (x as u8) < (y as u8)
                            }
                        }
                    }
                }
            }
        }
    }) by (bit_vector)
        requires
            x < y,
    ;
    if a[0] < b[0] {
        assert(bytes::smaller_at(a, b, 0));
    } else if a[1] < b[1] {
        assert(bytes::smaller_at(a, b, 1));
    } else if a[2] < b[2] {
        assert(bytes::smaller_at(a, b, 2));
    } else if a[3] < b[3] {
        assert(bytes::smaller_at(a, b, 3));
    } else if a[4] < b[4] {
        assert(bytes::smaller_at(a, b, 4));
    } else if a[5] < b[5] {
        assert(bytes::smaller_at(a, b, 5));
    } else if a[6] < b[6] {
        assert(bytes::smaller_at(a, b, 6));
    } else {
        assert(bytes::smaller_at(a, b, 7));
    }
}

/// The keys of a region's log stand in the order of their indexes, and no two
/// indexes share a key.
pub proof fn raft_log_keys_rise(region_id: u64, x: u64, y: u64)
    ensures
        bytes::lex_lt(spec_raft_log_key(region_id, x), spec_raft_log_key(region_id, y)) == (x < y),
        spec_raft_log_key(region_id, x) == spec_raft_log_key(region_id, y) <==> x == y,
{
    let p = spec_region_raft_prefix(region_id) + seq![RAFT_LOG_SUFFIX];
    bytes::lex_lt_prefix(p, be8(x), be8(y));
    be8_rises(x, y);
    if spec_raft_log_key(region_id, x) == spec_raft_log_key(region_id, y) {
        assert(be8(x) =~= spec_raft_log_key(region_id, x).skip(p.len() as int));
        assert(be8(y) =~= spec_raft_log_key(region_id, y).skip(p.len() as int));
    }
}

/// No two regions share a log key.
pub proof fn raft_log_keys_apart(r1: u64, x: u64, r2: u64, y: u64)
    ensures
        spec_raft_log_key(r1, x) == spec_raft_log_key(r2, y) <==> r1 == r2 && x == y,
{
    raft_log_keys_rise(r1, x, y);
    be8_rises(r1, r2);
    if spec_raft_log_key(r1, x) == spec_raft_log_key(r2, y) {
        assert(be8(r1) =~= spec_raft_log_key(r1, x).subrange(2, 10));
        assert(be8(r2) =~= spec_raft_log_key(r2, y).subrange(2, 10));
    }
}

/// The states of a region and the entries of its log have keys of their own.
pub proof fn state_keys_apart(region_id: u64, other: u64, index: u64)
    ensures
        spec_raft_state_key(region_id) != spec_apply_state_key(other),
        spec_raft_state_key(region_id) != spec_raft_log_key(other, index),
        spec_apply_state_key(region_id) != spec_raft_log_key(other, index),
        spec_region_state_key(region_id) != spec_raft_state_key(other),
        spec_region_state_key(region_id) != spec_apply_state_key(other),
        spec_region_state_key(region_id) != spec_raft_log_key(other, index),
        spec_raft_state_key(region_id) == spec_raft_state_key(other) <==> region_id == other,
        spec_apply_state_key(region_id) == spec_apply_state_key(other) <==> region_id == other,
        spec_region_state_key(region_id) == spec_region_state_key(other) <==> region_id == other,
{
    be8_rises(region_id, other);
    assert(spec_raft_state_key(region_id)[10] == RAFT_STATE_SUFFIX);
    assert(spec_apply_state_key(other)[10] == APPLY_STATE_SUFFIX);
    assert(spec_region_state_key(region_id)[1] == REGION_META_PREFIX);
    assert(spec_raft_state_key(other)[1] == REGION_RAFT_PREFIX);
    assert(spec_apply_state_key(other)[1] == REGION_RAFT_PREFIX);
    assert(spec_raft_log_key(other, index)[1] == REGION_RAFT_PREFIX);
    assert(spec_raft_log_key(other, index).len() == 19);
    assert(be8(region_id) =~= spec_raft_state_key(region_id).subrange(2, 10));
    assert(be8(other) =~= spec_raft_state_key(other).subrange(2, 10));
    assert(be8(region_id) =~= spec_apply_state_key(region_id).subrange(2, 10));
    assert(be8(other) =~= spec_apply_state_key(other).subrange(2, 10));
    assert(be8(region_id) =~= spec_region_state_key(region_id).subrange(2, 10));
    assert(be8(other) =~= spec_region_state_key(other).subrange(2, 10));
}

/// Taking the prefix off a data key gives the user's key back, and data keys stand in
/// the order of the users' keys.
pub proof fn data_key_round_trip(key: Seq<u8>, other: Seq<u8>)
    ensures
        is_data_key(spec_data_key(key)),
        spec_origin_key(spec_data_key(key)) == key,
        is_data_key(key) ==> spec_data_key(spec_origin_key(key)) == key,
        bytes::lex_lt(spec_data_key(key), spec_data_key(other)) == bytes::lex_lt(key, other),
{
    assert(spec_origin_key(spec_data_key(key)) =~= key);
    if is_data_key(key) {
        assert(spec_data_key(spec_origin_key(key)) =~= key);
    }
    bytes::lex_lt_prefix(seq![DATA_PREFIX], key, other);
}

} // verus!
