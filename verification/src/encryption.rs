//! What the proxy tells the engine store about encrypted files.

use vstd::prelude::*;
use vstd::string::StringExecFns;

verus! {

/// The number of the encryption method that is not known.
pub const METHOD_UNKNOWN: u8 = 0;

/// The number of the encryption method that leaves files as they are.
pub const METHOD_PLAINTEXT: u8 = 1;

/// Whether a file could be looked up.
#[derive(Clone, Copy, Debug, PartialEq, Eq, Structural)]
pub enum FileEncryptionRes {
    Disabled,
    Found,
    Error,
}

impl FileEncryptionRes {
    pub open spec fn code(self) -> u8 {
        match self {
            FileEncryptionRes::Disabled => 0,
            FileEncryptionRes::Found => 1,
            FileEncryptionRes::Error => 2,
        }
    }

    /// The number of a result.
    pub fn into(self) -> (r: u8)
        ensures
            r == self.code(),
    {
        match self {
            FileEncryptionRes::Disabled => 0,
            FileEncryptionRes::Found => 1,
            FileEncryptionRes::Error => 2,
        }
    }
}

/// How a file is encrypted.
#[derive(Debug)]
pub struct FileEncryptionInfo {
    pub method: u8,
    pub key: Vec<u8>,
    pub iv: Vec<u8>,
}

/// What the engine store is told about a file; what is not there is a null string.
#[derive(Debug)]
pub struct FileEncryptionInfoRes {
    pub res: u8,
    pub method: u8,
    pub key: Option<Vec<u8>>,
    pub iv: Option<Vec<u8>>,
    pub erro_msg: Option<String>,
}

impl FileEncryptionInfoRes {
    /// A result without anything else.
    pub open spec fn is_bare(self, res: FileEncryptionRes) -> bool {
        &&& self.res == res.code()
        &&& self.method == METHOD_UNKNOWN
        &&& self.key is None
        &&& self.iv is None
        &&& self.erro_msg is None
    }

    /// An error with a message.
    pub open spec fn is_error(self, message: Seq<char>) -> bool {
        &&& self.res == FileEncryptionRes::Error.code()
        &&& self.method == METHOD_UNKNOWN
        &&& self.key is None
        &&& self.iv is None
        &&& self.erro_msg is Some
        &&& self.erro_msg->0@ == message
    }

    /// How a file is encrypted.
    pub open spec fn is_info(self, f: FileEncryptionInfo) -> bool {
        &&& self.res == FileEncryptionRes::Found.code()
        &&& self.method == f.method
        &&& self.key == Some(f.key)
        &&& self.iv == Some(f.iv)
        &&& self.erro_msg is None
    }

    pub fn new(res: FileEncryptionRes) -> (r: Self)
        ensures
            r.is_bare(res),
    {
        FileEncryptionInfoRes {
            res: res.into(),
            method: METHOD_UNKNOWN,
            key: None,
            iv: None,
            erro_msg: None,
        }
    }

    pub fn error(erro_msg: String) -> (r: Self)
        ensures
            r.is_error(erro_msg@),
    {
        FileEncryptionInfoRes {
            res: FileEncryptionRes::Error.into(),
            method: METHOD_UNKNOWN,
            key: None,
            iv: None,
            erro_msg: Some(erro_msg),
        }
    }

    pub fn from(f: FileEncryptionInfo) -> (r: Self)
        ensures
            r.is_info(f),
    {
        FileEncryptionInfoRes {
            res: FileEncryptionRes::Found.into(),
            method: f.method,
            key: Some(f.key),
            iv: Some(f.iv),
            erro_msg: None,
        }
    }
}

/// What the engine store is told where the key manager was asked for the encryption of a file;
/// nothing came back where there is no key manager.
pub open spec fn tells_info(
    r: FileEncryptionInfoRes,
    reply: Option<Result<FileEncryptionInfo, String>>,
    failure: Seq<char>,
) -> bool {
    match reply {
        None => r.is_bare(FileEncryptionRes::Disabled),
        Some(Ok(f)) => r.is_info(f),
        Some(Err(e)) => r.is_error(failure + e@),
    }
}

/// What the engine store is told where the key manager was asked to do something with a file.
pub open spec fn tells_done(
    r: FileEncryptionInfoRes,
    reply: Option<Result<(), String>>,
    failure: Seq<char>,
) -> bool {
    match reply {
        None => r.is_bare(FileEncryptionRes::Disabled),
        Some(Ok(_)) => r.is_bare(FileEncryptionRes::Found),
        Some(Err(e)) => r.is_error(failure + e@),
    }
}

fn tell_error(failure: &str, e: &String) -> (r: FileEncryptionInfoRes)
    ensures
        r.is_error(failure@ + e@),
{
    let mut msg: String = failure.to_owned();
    msg.append(e.as_str());
    FileEncryptionInfoRes::error(msg)
}

fn tell_info(reply: Option<Result<FileEncryptionInfo, String>>, failure: &str) -> (r:
    FileEncryptionInfoRes)
    ensures
        tells_info(r, reply, failure@),
{
    match reply {
        None => FileEncryptionInfoRes::new(FileEncryptionRes::Disabled),
        Some(Ok(f)) => FileEncryptionInfoRes::from(f),
        Some(Err(e)) => tell_error(failure, &e),
    }
}

fn tell_done(reply: Option<Result<(), String>>, failure: &str) -> (r: FileEncryptionInfoRes)
    ensures
        tells_done(r, reply, failure@),
{
    match reply {
        None => FileEncryptionInfoRes::new(FileEncryptionRes::Disabled),
        Some(Ok(_)) => FileEncryptionInfoRes::new(FileEncryptionRes::Found),
        Some(Err(e)) => tell_error(failure, &e),
    }
}

/// Tells how a file is encrypted.
pub fn ffi_handle_get_file(reply: Option<Result<FileEncryptionInfo, String>>) -> (r:
    FileEncryptionInfoRes)
    ensures
        tells_info(r, reply, "Encryption key manager get file failure: "@),
{
    tell_info(reply, "Encryption key manager get file failure: ")
}

/// Tells how a new file is to be encrypted.
pub fn ffi_handle_new_file(reply: Option<Result<FileEncryptionInfo, String>>) -> (r:
    FileEncryptionInfoRes)
    ensures
        tells_info(r, reply, "Encryption key manager new file failure: "@),
{
    tell_info(reply, "Encryption key manager new file failure: ")
}

/// Tells whether a file was forgotten.
pub fn ffi_handle_delete_file(reply: Option<Result<(), String>>) -> (r: FileEncryptionInfoRes)
    ensures
        tells_done(r, reply, "Encryption key manager delete file failure: "@),
{
    tell_done(reply, "Encryption key manager delete file failure: ")
}

/// Tells whether a file was linked.
pub fn ffi_handle_link_file(reply: Option<Result<(), String>>) -> (r: FileEncryptionInfoRes)
    ensures
        tells_done(r, reply, "Encryption key manager link file failure: "@),
{
    tell_done(reply, "Encryption key manager link file failure: ")
}

/// Tells whether a file was renamed.
pub fn ffi_handle_rename_file(reply: Option<Result<(), String>>) -> (r: FileEncryptionInfoRes)
    ensures
        tells_done(r, reply, "Encryption key manager rename file failure: "@),
{
    tell_done(reply, "Encryption key manager rename file failure: ")
}

/// The proxy as the engine store sees it.
#[derive(Clone, Copy, Debug, PartialEq, Eq, Structural)]
pub struct TiFlashRaftProxy {
    pub stopped: bool,
    /// The encryption method of the key manager, where there is one.
    pub key_manager: Option<u8>,
}

/// 1 where the proxy has stopped, 0 otherwise.
pub fn ffi_handle_check_stopped(proxy: &TiFlashRaftProxy) -> (r: u8)
    ensures
        r == (if proxy.stopped {
            1u8
        } else {
            0u8
        }),
{
    if proxy.stopped {
        1
    } else {
        0
    }
}

/// 1 where files are encrypted, 0 otherwise.
pub fn ffi_is_encryption_enabled(proxy: &TiFlashRaftProxy) -> (r: u8)
    ensures
        r == (if proxy.key_manager is Some {
            1u8
        } else {
            0u8
        }),
{
    if proxy.key_manager.is_some() {
        1
    } else {
        0
    }
}

/// The number of the encryption method; without a key manager files are left as they are.
pub fn ffi_encryption_method(proxy: &TiFlashRaftProxy) -> (r: u8)
    ensures
        r == (match proxy.key_manager {
            Some(m) => m,
            None => METHOD_PLAINTEXT,
        }),
{
    match proxy.key_manager {
        Some(m) => m,
        None => METHOD_PLAINTEXT,
    }
}

} // verus!
