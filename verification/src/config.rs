//! Persisted app settings.
//!
//! Only non-secret values live here. Tokens stay in the OS keychain; the
//! client ID is not a secret under PKCE, which is the point of PKCE.

use vstd::prelude::*;
use vstd::utf8::encode_utf8;

use crate::auth::{random_bytes, AuthError};
use crate::text::{clone_opt, opt_view};

verus! {

#[derive(Debug)]
pub struct Config {
    /// Spotify app client ID. Not a secret in the PKCE flow.
    pub spotify_client_id: Option<String>,
    /// The folder new downloads land in.
    pub watch_folder: Option<String>,
    /// Push the shorter cut when the extended mix isn't on the platform.
    pub accept_shorter: bool,
    /// Playlist the last push went to, offered as the default next time.
    pub last_playlist: Option<String>,
    /// Identifies this machine to the token service, for trial metering and
    /// seat counting. Not a secret — it is an identifier.
    pub device_id: Option<String>,
}

impl Default for Config {
    fn default() -> (r: Self)
        ensures
            r.spotify_client_id is None,
            r.watch_folder is None,
            !r.accept_shorter,
            r.last_playlist is None,
            r.device_id is None,
    {
        Config {
            spotify_client_id: None,
            watch_folder: None,
            accept_shorter: false,
            last_playlist: None,
            device_id: None,
        }
    }
}

/// The small hexadecimal digit of a number.
pub open spec fn hex_small(d: int) -> char {
    if d < 10 {
        (48 + d) as u8 as char
    } else {
        (87 + d) as u8 as char
    }
}

/// Bytes in hexadecimal, two digits each.
pub open spec fn hex_text(bytes: Seq<u8>) -> Seq<char>
    decreases bytes.len(),
{
    if bytes.len() == 0 {
        Seq::empty()
    } else {
        hex_text(bytes.drop_last()).push(hex_small(bytes.last() as int / 16)).push(
            hex_small(bytes.last() as int % 16),
        )
    }
}

fn hex_digit(d: u8) -> (r: char)
    requires
        d < 16,
    ensures
        r == hex_small(d as int),
{
    if d < 10 {
        (48 + d) as char
    } else {
        (87 + d) as char
    }
}

/// Bytes in hexadecimal, two digits each.
pub fn to_hex(bytes: &[u8]) -> (r: String)
    ensures
        r@ == hex_text(bytes@),
{
    let mut out = String::new();
    let mut i: usize = 0;
    while i < bytes.len()
        invariant
            i <= bytes.len(),
            out@ == hex_text(bytes@.take(i as int)),
        decreases bytes.len() - i,
    {
        let b: u8 = bytes[i];
        assert(bytes@.take(i + 1).drop_last() =~= bytes@.take(i as int));
        out.push(hex_digit(b / 16));
        out.push(hex_digit(b % 16));
        i = i + 1;
    }
    assert(bytes@.take(bytes@.len() as int) =~= bytes@);
    out
}

/// An id is usable from this many bytes on.
pub const MIN_DEVICE_ID: usize = 8;

/// Whether a stored id is good enough to keep.
pub open spec fn is_usable_id(id: Option<Seq<char>>) -> bool {
    id matches Some(s) && encode_utf8(s).len() >= MIN_DEVICE_ID
}

/// This machine's id, and whether it is new and has to be stored.
#[derive(Debug)]
pub struct DeviceId {
    pub id: String,
    pub is_new: bool,
}

impl Config {
    /// This machine's id, if there is a usable one.
    pub fn known_device_id(&self) -> (r: Option<String>)
        ensures
            opt_view(r) == if is_usable_id(opt_view(self.device_id)) {
                opt_view(self.device_id)
            } else {
                None
            },
    {
        match &self.device_id {
            Some(id) => {
                if id.as_str().as_bytes().len() >= MIN_DEVICE_ID {
                    Some(id.clone())
                } else {
                    None
                }
            },
            None => None,
        }
    }

    /// Takes the id that random bytes make.
    pub fn adopt_device_id(&mut self, bytes: &[u8]) -> (r: String)
        ensures
            r@ == hex_text(bytes@),
            opt_view(final(self).device_id) == Some(r@),
            final(self).spotify_client_id == old(self).spotify_client_id,
            final(self).watch_folder == old(self).watch_folder,
            final(self).accept_shorter == old(self).accept_shorter,
            final(self).last_playlist == old(self).last_playlist,
    {
        let id = to_hex(bytes);
        self.device_id = Some(id.clone());
        id
    }

    /// This machine's id, generating one on first use. The caller stores the
    /// settings when the id is new.
    pub fn device_id_or_create(&mut self) -> (r: Result<DeviceId, AuthError>)
        ensures
            is_usable_id(opt_view(old(self).device_id)) ==> {
                &&& r matches Ok(d)
                &&& Some(d.id@) == opt_view(old(self).device_id)
                &&& !d.is_new
                &&& *final(self) == *old(self)
            },
            !is_usable_id(opt_view(old(self).device_id)) ==> match r {
                Ok(d) => {
                    &&& d.is_new
                    &&& d.id@.len() == 32
                    &&& exists|bytes: Seq<u8>|
                        bytes.len() == 16 && d.id@ == #[trigger] hex_text(bytes)
                    &&& opt_view(final(self).device_id) == Some(d.id@)
                    &&& final(self).spotify_client_id == old(self).spotify_client_id
                    &&& final(self).watch_folder == old(self).watch_folder
                    &&& final(self).accept_shorter == old(self).accept_shorter
                    &&& final(self).last_playlist == old(self).last_playlist
                },
                Err(e) => e is NoRandomness && *final(self) == *old(self),
            },
    {
        if let Some(id) = self.known_device_id() {
            return Ok(DeviceId { id, is_new: false });
        }
        match random_bytes(16) {
            Ok(bytes) => {
                proof {
                    lemma_hex_len(bytes@);
                }
                assert(bytes@.len() == 16);
                let id = self.adopt_device_id(bytes.as_slice());
                Ok(DeviceId { id, is_new: true })
            },
            Err(_) => Err(AuthError::NoRandomness),
        }
    }

    /// The environment wins over the stored value, so a developer running from
    /// a shell with `.env` loaded does not have to re-enter anything.
    pub fn client_id(&self, from_environment: Option<String>) -> (r: Option<String>)
        ensures
            opt_view(r) == match from_environment {
                Some(id) => if id@.len() > 0 {
                    Some(id@)
                } else {
                    opt_view(self.spotify_client_id)
                },
                None => opt_view(self.spotify_client_id),
            },
    {
        match from_environment {
            Some(id) => {
                if id.as_str().is_empty() {
                    clone_opt(&self.spotify_client_id)
                } else {
                    Some(id)
                }
            },
            None => clone_opt(&self.spotify_client_id),
        }
    }
}

proof fn lemma_hex_len(bytes: Seq<u8>)
    ensures
        hex_text(bytes).len() == 2 * bytes.len(),
    decreases bytes.len(),
{
    if bytes.len() > 0 {
        lemma_hex_len(bytes.drop_last());
    }
}

proof fn lemma_hex_is_ascii(bytes: Seq<u8>)
    ensures
        vstd::utf8::is_ascii_chars(hex_text(bytes)),
    decreases bytes.len(),
{
    if bytes.len() > 0 {
        lemma_hex_is_ascii(bytes.drop_last());
    }
}

/// An id made here is usable: asked again, the settings give the same one.
pub proof fn law_created_id_is_kept(bytes: Seq<u8>)
    requires
        bytes.len() == 16,
    ensures
        is_usable_id(Some(hex_text(bytes))),
{
    lemma_hex_len(bytes);
    lemma_hex_is_ascii(bytes);
    vstd::utf8::is_ascii_chars_encode_utf8(hex_text(bytes));
}

} // verus!
