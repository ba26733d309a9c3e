//! The data that the application shows in demo mode, without a connection
//! to the service.

use crate::models::{
    Album, Artist, ExternalUrls, Followers, Playlist, PlaylistOwner, PlaylistTracks,
    RecentlyPlayedItem, Track, User,
};
use vstd::prelude::*;
use vstd::string::StringExecFns;

verus! {

/// The address that every demo item gives as its place on the site.
pub open spec fn site() -> Seq<char> {
    "https://open.spotify.com"@
}

/// The string is there and reads `text`.
pub open spec fn reads(s: Option<String>, text: Seq<char>) -> bool {
    s is Some && s->0@ == text
}

/// The demo user.
pub open spec fn is_mock_user(user: User) -> bool {
    &&& reads(user.display_name, "Demo User"@)
    &&& user.id@ == "demo_user_123"@
    &&& reads(user.email, "demo@example.com"@)
    &&& user.images@.len() == 0
    &&& user.followers.total == 42
    &&& reads(user.country, "US"@)
}

/// The user of the demo mode.
pub fn get_mock_user() -> (user: User)
    ensures
        is_mock_user(user),
{
    User {
        display_name: Some(String::from_str("Demo User")),
        id: String::from_str("demo_user_123"),
        email: Some(String::from_str("demo@example.com")),
        images: Vec::new(),
        followers: Followers { total: 42 },
        country: Some(String::from_str("US")),
    }
}

/// An artist of whom only identity and name are given.
pub open spec fn is_named_artist(artist: Artist, id: Seq<char>, name: Seq<char>) -> bool {
    &&& artist.id@ == id
    &&& artist.name@ == name
    &&& artist.genres is None
    &&& artist.images is None
    &&& artist.external_urls.spotify@ == site()
    &&& artist.followers is None
    &&& artist.popularity is None
}

/// What a demo track is made of.
pub struct TrackFacts {
    pub id: Seq<char>,
    pub name: Seq<char>,
    pub artist_id: Seq<char>,
    pub artist_name: Seq<char>,
    pub album_id: Seq<char>,
    pub album_name: Seq<char>,
    pub release_date: Seq<char>,
    pub duration_ms: u32,
    pub popularity: u32,
}

/// The track is the demo track with these facts: one artist, an album
/// without pictures, not explicit.
pub open spec fn is_mock_track(track: Track, facts: TrackFacts) -> bool {
    &&& track.id@ == facts.id
    &&& track.name@ == facts.name
    &&& track.artists@.len() == 1
    &&& is_named_artist(track.artists@[0], facts.artist_id, facts.artist_name)
    &&& track.album.id@ == facts.album_id
    &&& track.album.name@ == facts.album_name
    &&& track.album.images@.len() == 0
    &&& track.album.release_date@ == facts.release_date
    &&& track.duration_ms == facts.duration_ms
    &&& track.external_urls.spotify@ == site()
    &&& track.popularity == Some(facts.popularity)
    &&& !track.explicit
}

/// The first demo track.
pub open spec fn first_track() -> TrackFacts {
    TrackFacts {
        id: "track1"@,
        name: "Bohemian Rhapsody"@,
        artist_id: "artist1"@,
        artist_name: "Queen"@,
        album_id: "album1"@,
        album_name: "A Night at the Opera"@,
        release_date: "1975-11-21"@,
        duration_ms: 354000,
        popularity: 92,
    }
}

/// The second demo track.
pub open spec fn second_track() -> TrackFacts {
    TrackFacts {
        id: "track2"@,
        name: "Stairway to Heaven"@,
        artist_id: "artist2"@,
        artist_name: "Led Zeppelin"@,
        album_id: "album2"@,
        album_name: "Led Zeppelin IV"@,
        release_date: "1971-11-08"@,
        duration_ms: 482000,
        popularity: 88,
    }
}

/// The third demo track.
pub open spec fn third_track() -> TrackFacts {
    TrackFacts {
        id: "track3"@,
        name: "Hotel California"@,
        artist_id: "artist3"@,
        artist_name: "Eagles"@,
        album_id: "album3"@,
        album_name: "Hotel California"@,
        release_date: "1976-12-08"@,
        duration_ms: 391000,
        popularity: 90,
    }
}

/// A demo track of one artist.
fn mock_track(
    id: &str,
    name: &str,
    artist_id: &str,
    artist_name: &str,
    album_id: &str,
    album_name: &str,
    release_date: &str,
    duration_ms: u32,
    popularity: u32,
) -> (track: Track)
    ensures
        is_mock_track(
            track,
            TrackFacts {
                id: id@,
                name: name@,
                artist_id: artist_id@,
                artist_name: artist_name@,
                album_id: album_id@,
                album_name: album_name@,
                release_date: release_date@,
                duration_ms,
                popularity,
            },
        ),
{
    let mut artists: Vec<Artist> = Vec::new();
    artists.push(
        Artist {
            id: String::from_str(artist_id),
            name: String::from_str(artist_name),
            genres: None,
            images: None,
            external_urls: ExternalUrls { spotify: String::from_str("https://open.spotify.com") },
            followers: None,
            popularity: None,
        },
    );
    Track {
        id: String::from_str(id),
        name: String::from_str(name),
        artists,
        album: Album {
            id: String::from_str(album_id),
            name: String::from_str(album_name),
            images: Vec::new(),
            release_date: String::from_str(release_date),
        },
        duration_ms,
        external_urls: ExternalUrls { spotify: String::from_str("https://open.spotify.com") },
        popularity: Some(popularity),
        explicit: false,
    }
}

/// The first demo track.
fn track_one() -> (track: Track)
    ensures
        is_mock_track(track, first_track()),
{
    mock_track(
        "track1",
        "Bohemian Rhapsody",
        "artist1",
        "Queen",
        "album1",
        "A Night at the Opera",
        "1975-11-21",
        354000,
        92,
    )
}

/// The second demo track.
fn track_two() -> (track: Track)
    ensures
        is_mock_track(track, second_track()),
{
    mock_track(
        "track2",
        "Stairway to Heaven",
        "artist2",
        "Led Zeppelin",
        "album2",
        "Led Zeppelin IV",
        "1971-11-08",
        482000,
        88,
    )
}

/// The third demo track.
fn track_three() -> (track: Track)
    ensures
        is_mock_track(track, third_track()),
{
    mock_track(
        "track3",
        "Hotel California",
        "artist3",
        "Eagles",
        "album3",
        "Hotel California",
        "1976-12-08",
        391000,
        90,
    )
}

/// The top tracks of the demo mode: the three demo tracks.
pub fn get_mock_top_tracks() -> (tracks: Vec<Track>)
    ensures
        tracks@.len() == 3,
        is_mock_track(tracks@[0], first_track()),
        is_mock_track(tracks@[1], second_track()),
        is_mock_track(tracks@[2], third_track()),
{
    let mut tracks: Vec<Track> = Vec::new();
    tracks.push(track_one());
    tracks.push(track_two());
    tracks.push(track_three());
    tracks
}

/// The artist is a demo artist: two genres, no pictures, a number of
/// followers, popularity 85.
pub open spec fn is_mock_artist(
    artist: Artist,
    id: Seq<char>,
    name: Seq<char>,
    genre: Seq<char>,
    other_genre: Seq<char>,
    followers: u32,
) -> bool {
    &&& artist.id@ == id
    &&& artist.name@ == name
    &&& artist.genres is Some
    &&& artist.genres->0@.len() == 2
    &&& artist.genres->0@[0]@ == genre
    &&& artist.genres->0@[1]@ == other_genre
    &&& artist.images is Some
    &&& artist.images->0@.len() == 0
    &&& artist.external_urls.spotify@ == site()
    &&& artist.followers is Some
    &&& artist.followers->0.total == followers
    &&& artist.popularity == Some(85u32)
}

/// A demo artist.
fn mock_artist(id: &str, name: &str, genre: &str, other_genre: &str, followers: u32) -> (artist:
    Artist)
    ensures
        is_mock_artist(artist, id@, name@, genre@, other_genre@, followers),
{
    let mut genres: Vec<String> = Vec::new();
    genres.push(String::from_str(genre));
    genres.push(String::from_str(other_genre));
    Artist {
        id: String::from_str(id),
        name: String::from_str(name),
        genres: Some(genres),
        images: Some(Vec::new()),
        external_urls: ExternalUrls { spotify: String::from_str("https://open.spotify.com") },
        followers: Some(Followers { total: followers }),
        popularity: Some(85),
    }
}

/// The top artists of the demo mode.
pub fn get_mock_top_artists() -> (artists: Vec<Artist>)
    ensures
        artists@.len() == 3,
        is_mock_artist(
            artists@[0],
            "artist1"@,
            "Queen"@,
            "classic rock"@,
            "glam rock"@,
            35000000,
        ),
        is_mock_artist(
            artists@[1],
            "artist2"@,
            "Led Zeppelin"@,
            "hard rock"@,
            "classic rock"@,
            28000000,
        ),
        is_mock_artist(
            artists@[2],
            "artist3"@,
            "Eagles"@,
            "classic rock"@,
            "soft rock"@,
            15000000,
        ),
{
    let mut artists: Vec<Artist> = Vec::new();
    artists.push(mock_artist("artist1", "Queen", "classic rock", "glam rock", 35000000));
    artists.push(mock_artist("artist2", "Led Zeppelin", "hard rock", "classic rock", 28000000));
    artists.push(mock_artist("artist3", "Eagles", "classic rock", "soft rock", 15000000));
    artists
}

/// The playlist is a demo playlist of the demo user: no pictures, and
/// nothing known beyond what is given here.
pub open spec fn is_mock_playlist(
    playlist: Playlist,
    id: Seq<char>,
    name: Seq<char>,
    description: Seq<char>,
    total: u32,
    public: bool,
) -> bool {
    &&& playlist.id@ == id
    &&& playlist.name@ == name
    &&& reads(playlist.description, description)
    &&& playlist.images@.len() == 0
    &&& playlist.tracks.total == total
    &&& playlist.tracks.href is None
    &&& playlist.external_urls.spotify@ == site()
    &&& reads(playlist.owner.display_name, "Demo User"@)
    &&& playlist.owner.id@ == "demo_user_123"@
    &&& playlist.owner.external_urls is None
    &&& playlist.owner.href is None
    &&& playlist.owner.uri is None
    &&& playlist.owner.owner_type is None
    &&& playlist.public == Some(public)
    &&& playlist.collaborative is None
    &&& playlist.href is None
    &&& playlist.primary_color is None
    &&& playlist.snapshot_id is None
    &&& playlist.playlist_type is None
    &&& playlist.uri is None
}

/// A demo playlist.
fn mock_playlist(id: &str, name: &str, description: &str, total: u32, public: bool) -> (playlist:
    Playlist)
    ensures
        is_mock_playlist(playlist, id@, name@, description@, total, public),
{
    Playlist {
        id: String::from_str(id),
        name: String::from_str(name),
        description: Some(String::from_str(description)),
        images: Vec::new(),
        tracks: PlaylistTracks { total, href: None },
        external_urls: ExternalUrls { spotify: String::from_str("https://open.spotify.com") },
        owner: PlaylistOwner {
            display_name: Some(String::from_str("Demo User")),
            id: String::from_str("demo_user_123"),
            external_urls: None,
            href: None,
            uri: None,
            owner_type: None,
        },
        public: Some(public),
        collaborative: None,
        href: None,
        primary_color: None,
        snapshot_id: None,
        playlist_type: None,
        uri: None,
    }
}

/// The playlists of the demo mode.
pub fn get_mock_playlists() -> (playlists: Vec<Playlist>)
    ensures
        playlists@.len() == 2,
        is_mock_playlist(
            playlists@[0],
            "playlist1"@,
            "Classic Rock Favorites"@,
            "The best of classic rock"@,
            25,
            true,
        ),
        is_mock_playlist(
            playlists@[1],
            "playlist2"@,
            "Road Trip Mix"@,
            "Perfect songs for long drives"@,
            40,
            false,
        ),
{
    let mut playlists: Vec<Playlist> = Vec::new();
    playlists.push(
        mock_playlist(
            "playlist1",
            "Classic Rock Favorites",
            "The best of classic rock",
            25,
            true,
        ),
    );
    playlists.push(
        mock_playlist("playlist2", "Road Trip Mix", "Perfect songs for long drives", 40, false),
    );
    playlists
}

/// The tracks played last in the demo mode: the first two demo tracks.
pub fn get_mock_recently_played() -> (items: Vec<RecentlyPlayedItem>)
    ensures
        items@.len() == 2,
        is_mock_track(items@[0].track, first_track()),
        items@[0].played_at@ == "2024-12-26T10:30:00Z"@,
        is_mock_track(items@[1].track, second_track()),
        items@[1].played_at@ == "2024-12-26T09:15:00Z"@,
{
    let mut items: Vec<RecentlyPlayedItem> = Vec::new();
    items.push(
        RecentlyPlayedItem {
            track: track_one(),
            played_at: String::from_str("2024-12-26T10:30:00Z"),
        },
    );
    items.push(
        RecentlyPlayedItem {
            track: track_two(),
            played_at: String::from_str("2024-12-26T09:15:00Z"),
        },
    );
    items
}

} // verus!
