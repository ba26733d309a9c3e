//! The data that the remote interface gives: users, tracks, artists, albums
//! and playlists.

use vstd::prelude::*;

verus! {

/// A user of the service.
#[derive(Debug, Clone, PartialEq)]
pub struct User {
    pub display_name: Option<String>,
    pub id: String,
    pub email: Option<String>,
    pub images: Vec<Image>,
    pub followers: Followers,
    pub country: Option<String>,
}

/// A picture, by its address and size.
#[derive(Debug, Clone, PartialEq)]
pub struct Image {
    pub url: String,
    pub height: Option<u32>,
    pub width: Option<u32>,
}

/// How many follow a user or an artist.
#[derive(Debug, Clone, PartialEq)]
pub struct Followers {
    pub total: u32,
}

/// A track.
#[derive(Debug, Clone, PartialEq)]
pub struct Track {
    pub id: String,
    pub name: String,
    pub artists: Vec<Artist>,
    pub album: Album,
    pub duration_ms: u32,
    pub external_urls: ExternalUrls,
    pub popularity: Option<u32>,
    pub explicit: bool,
}

/// An artist.
#[derive(Debug, Clone, PartialEq)]
pub struct Artist {
    pub id: String,
    pub name: String,
    pub genres: Option<Vec<String>>,
    pub images: Option<Vec<Image>>,
    pub external_urls: ExternalUrls,
    pub followers: Option<Followers>,
    pub popularity: Option<u32>,
}

/// An album.
#[derive(Debug, Clone, PartialEq)]
pub struct Album {
    pub id: String,
    pub name: String,
    pub images: Vec<Image>,
    pub release_date: String,
}

/// Where an item is found on the service's site.
#[derive(Debug, Clone, PartialEq)]
pub struct ExternalUrls {
    pub spotify: String,
}

/// A playlist.
#[derive(Debug, Clone, PartialEq)]
pub struct Playlist {
    pub id: String,
    pub name: String,
    pub description: Option<String>,
    pub images: Vec<Image>,
    pub tracks: PlaylistTracks,
    pub external_urls: ExternalUrls,
    pub owner: PlaylistOwner,
    pub public: Option<bool>,
    pub collaborative: Option<bool>,
    pub href: Option<String>,
    pub primary_color: Option<String>,
    pub snapshot_id: Option<String>,
    pub playlist_type: Option<String>,
    pub uri: Option<String>,
}

impl Default for Playlist {
    /// The playlist without a name, tracks or owner.
    fn default() -> (playlist: Self)
        ensures
            playlist.id@.len() == 0,
            playlist.name@.len() == 0,
            playlist.description is None,
            playlist.images@.len() == 0,
            playlist.tracks.total == 0,
            playlist.tracks.href is None,
            playlist.external_urls.spotify@.len() == 0,
            playlist.owner.is_unknown(),
            playlist.public is None,
            playlist.collaborative is None,
            playlist.href is None,
            playlist.primary_color is None,
            playlist.snapshot_id is None,
            playlist.playlist_type is None,
            playlist.uri is None,
    {
        Playlist {
            id: String::new(),
            name: String::new(),
            description: None,
            images: Vec::new(),
            tracks: PlaylistTracks::default(),
            external_urls: ExternalUrls { spotify: String::new() },
            owner: PlaylistOwner::default(),
            public: None,
            collaborative: None,
            href: None,
            primary_color: None,
            snapshot_id: None,
            playlist_type: None,
            uri: None,
        }
    }
}

/// The number of tracks of a playlist, and where they are listed.
#[derive(Debug, Clone, PartialEq)]
pub struct PlaylistTracks {
    pub total: u32,
    pub href: Option<String>,
}

impl Default for PlaylistTracks {
    /// No tracks.
    fn default() -> (tracks: Self)
        ensures
            tracks.total == 0,
            tracks.href is None,
    {
        PlaylistTracks { total: 0, href: None }
    }
}

/// The owner of a playlist.
#[derive(Debug, Clone, PartialEq)]
pub struct PlaylistOwner {
    pub display_name: Option<String>,
    pub id: String,
    pub external_urls: Option<ExternalUrls>,
    pub href: Option<String>,
    pub uri: Option<String>,
    pub owner_type: Option<String>,
}

impl PlaylistOwner {
    /// Nothing is known of the owner.
    pub open spec fn is_unknown(&self) -> bool {
        &&& self.display_name is None
        &&& self.id@.len() == 0
        &&& self.external_urls is None
        &&& self.href is None
        &&& self.uri is None
        &&& self.owner_type is None
    }
}

impl Default for PlaylistOwner {
    /// The owner of whom nothing is known.
    fn default() -> (owner: Self)
        ensures
            owner.is_unknown(),
    {
        PlaylistOwner {
            display_name: None,
            id: String::new(),
            external_urls: None,
            href: None,
            uri: None,
            owner_type: None,
        }
    }
}

/// The answer that lists the user's top tracks.
#[derive(Debug, Clone)]
pub struct TopTracksResponse {
    pub items: Vec<Track>,
}

/// The answer that lists the user's top artists.
#[derive(Debug, Clone)]
pub struct TopArtistsResponse {
    pub items: Vec<Artist>,
}

/// The answer that lists the user's playlists.
#[derive(Debug, Clone)]
pub struct PlaylistsResponse {
    pub items: Vec<Playlist>,
}

/// The answer that lists the tracks of a playlist.
#[derive(Debug, Clone)]
pub struct PlaylistTracksResponse {
    pub items: Vec<PlaylistTrackItem>,
    pub total: u32,
}

/// A track in a playlist, and when it was added.
#[derive(Debug, Clone)]
pub struct PlaylistTrackItem {
    pub added_at: String,
    pub track: Track,
}

/// The answer that lists the tracks played last.
#[derive(Debug, Clone)]
pub struct RecentlyPlayedResponse {
    pub items: Vec<RecentlyPlayedItem>,
}

/// A track that was played, and when.
#[derive(Debug, Clone)]
pub struct RecentlyPlayedItem {
    pub track: Track,
    pub played_at: String,
}

/// The identities of the tracks of a playlist, in playlist order.
pub fn track_ids(items: &Vec<PlaylistTrackItem>) -> (ids: Vec<String>)
    ensures
        ids.len() == items.len(),
        forall|i: int| 0 <= i < items.len() ==> (#[trigger] ids[i])@ == items[i].track.id@,
{
    let mut ids: Vec<String> = Vec::new();
    let mut i: usize = 0;
    while i < items.len()
        invariant
            i <= items.len(),
            ids.len() == i,
            forall|j: int| 0 <= j < i ==> (#[trigger] ids[j])@ == items[j].track.id@,
        decreases items.len() - i,
    {
        ids.push(items[i].track.id.clone());
        i += 1;
    }
    ids
}

} // verus!
