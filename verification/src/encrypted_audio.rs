//! Opening a recording whose bytes on disk may be encrypted.
//!
//! The decision is made by what the file starts with, not by its name: what was recorded
//! without a password, and what was imported, has to keep opening.

use crate::bytes::push_bytes;
use crate::digest::all_bytes;
use crate::text::joined;
use vstd::prelude::*;

verus! {

/// A recording open for reading, in whichever form it is stored, with the length of the
/// audio it holds.
#[derive(Clone, Copy, Debug, PartialEq, Eq, Structural)]
pub enum AudioSource {
    Plain(u64),
    Encrypted(u64),
}

impl AudioSource {
    pub open spec fn length(self) -> u64 {
        match self {
            AudioSource::Plain(length) => length,
            AudioSource::Encrypted(length) => length,
        }
    }

    /// Length of the audio, which for an encrypted file is not the length of the file.
    pub fn len(&self) -> (length: u64)
        ensures
            length == self.length(),
    {
        match self {
            AudioSource::Plain(length) => *length,
            AudioSource::Encrypted(length) => *length,
        }
    }

    pub fn is_empty(&self) -> (empty: bool)
        ensures
            empty == (self.length() == 0),
    {
        self.len() == 0
    }

    /// Whether the bytes on disk were encrypted.
    pub fn was_encrypted(&self) -> (encrypted: bool)
        ensures
            encrypted == (self is Encrypted),
    {
        match self {
            AudioSource::Plain(_) => false,
            AudioSource::Encrypted(_) => true,
        }
    }
}

/// Whether a recording is decrypted when it is opened. An encrypted one is refused while
/// the archive is locked, with a reason that can be shown.
pub fn open(path: &str, looks_encrypted: bool, unlocked: bool) -> (decrypt: Result<bool, String>)
    ensures
        match decrypt {
            Ok(decrypted) => decrypted == looks_encrypted && (looks_encrypted ==> unlocked),
            Err(reason) => looks_encrypted && !unlocked && reason@ == path@
                + " is encrypted and the archive is locked \u{2014} unlock it to open this recording"@,
        },
{
    if !looks_encrypted {
        return Ok(false);
    }
    if unlocked {
        return Ok(true);
    }
    Err(
        joined(
            path,
            " is encrypted and the archive is locked \u{2014} unlock it to open this recording",
        ),
    )
}

/// Whether a new file is encrypted: whenever the archive is open, and never otherwise.
/// `key_held` says whether the key could still be had.
pub fn into_file(archive_open: bool, key_held: bool) -> (encrypted: Result<bool, String>)
    ensures
        match encrypted {
            Ok(sealed) => sealed == archive_open && (archive_open ==> key_held),
            Err(reason) => archive_open && !key_held && reason@
                == "the archive was locked while a file was being opened"@,
        },
{
    if !archive_open {
        return Ok(false);
    }
    if key_held {
        Ok(true)
    } else {
        Err("the archive was locked while a file was being opened".to_owned())
    }
}

/// The whole of a recording in memory, from the pieces it was read in.
pub fn read_all(pieces: &Vec<Vec<u8>>) -> (bytes: Vec<u8>)
    ensures
        bytes@ == all_bytes(pieces@, pieces@.len() as int),
{
    let mut bytes: Vec<u8> = Vec::new();
    let mut index: usize = 0;
    assert(bytes@ =~= all_bytes(pieces@, 0));
    while index < pieces.len()
        invariant
            index <= pieces@.len(),
            bytes@ == all_bytes(pieces@, index as int),
        decreases pieces@.len() - index,
    {
        push_bytes(&mut bytes, pieces[index].as_slice());
        index += 1;
    }
    bytes
}

} // verus!
