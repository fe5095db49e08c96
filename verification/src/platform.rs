//! The music-platform abstraction.
//!
//! The distinction that matters commercially is [`CredentialModel`]. Spotify
//! forbids one developer serving many users (Development Mode caps at five,
//! and extended quota is organizations-only), so Spotify can only ever work
//! with credentials the user supplies themselves. Platforms that allow a
//! hosted developer account can be offered with one-click sign-in instead.

use vstd::prelude::*;

use crate::spotify::{Playlist, PlaylistEntry, SpotifyTrack, SpotifyUser};

verus! {

/// A track in a streaming catalogue. Named for the role, not the vendor —
/// Spotify was simply the first implementation.
pub type PlatformTrack = SpotifyTrack;

pub type PlatformUser = SpotifyUser;

pub type PlatformPlaylist = Playlist;

pub type PlatformEntry = PlaylistEntry;

/// Who owns the API credentials, which decides whether a platform can be
/// offered to an unlimited number of users.
#[derive(Debug, Clone, Copy, PartialEq, Eq, Structural)]
pub enum CredentialModel {
    /// Each user registers their own developer app and supplies the client ID.
    /// The only compliant way to offer Spotify beyond five people — and the
    /// reason Spotify has to be the free tier: it costs the vendor nothing and
    /// cannot be scaled by them anyway.
    UserProvided,
    /// One developer account serves every user, so sign-in is a single click.
    /// This is what can carry a paid tier.
    Hosted,
}

/// Static facts about a platform, for the connect screen and for billing.
#[derive(Debug, Clone, Copy)]
pub struct PlatformInfo {
    pub id: &'static str,
    pub display_name: &'static str,
    pub credentials: CredentialModel,
    /// Whether usage counts against a paid quota.
    pub metered: bool,
    /// Whether it can be connected yet.
    pub available: bool,
}

impl PlatformInfo {
    pub fn spotify() -> (r: PlatformInfo)
        ensures
            r.id@ == "spotify"@,
            r.display_name@ == "Spotify"@,
            r.credentials == CredentialModel::UserProvided,
            !r.metered,
            r.available,
    {
        PlatformInfo {
            id: "spotify",
            display_name: "Spotify",
            credentials: CredentialModel::UserProvided,
            metered: false,
            available: true,
        }
    }

    pub fn apple_music() -> (r: PlatformInfo)
        ensures
            r.id@ == "apple_music"@,
            r.display_name@ == "Apple Music"@,
            r.credentials == CredentialModel::Hosted,
            r.metered,
            r.available,
    {
        PlatformInfo {
            id: "apple_music",
            display_name: "Apple Music",
            credentials: CredentialModel::Hosted,
            metered: true,
            available: true,
        }
    }
}

/// Every platform, in the order they are offered.
pub fn all_platforms() -> (r: Vec<PlatformInfo>)
    ensures
        r@.len() == 2,
        r@[0].id@ == "spotify"@,
        r@[1].id@ == "apple_music"@,
        r@[0].credentials == CredentialModel::UserProvided,
        r@[1].credentials == CredentialModel::Hosted,
        forall|i: int| 0 <= i < r@.len() ==> (#[trigger] r@[i]).available,
{
    let mut r: Vec<PlatformInfo> = Vec::new();
    r.push(PlatformInfo::spotify());
    r.push(PlatformInfo::apple_music());
    r
}

} // verus!
