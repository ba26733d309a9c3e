use infospot::apply::{is_success, BatchRun};
use infospot::client::{
    bearer, check_response, chunk_strings, decimal_string, default_redirect_uri, join_found,
    present, scopes,
    ApiRequest, ClientError, Method, Payload, SpotifyClient, ADD_TRACKS_LIMIT,
    TRACK_LOOKUP_LIMIT,
};
use infospot::duplicates::find_duplicates;
use infospot::mock_data::{
    get_mock_playlists, get_mock_recently_played, get_mock_top_artists, get_mock_top_tracks,
    get_mock_user,
};
use infospot::models::{track_ids, PlaylistTrackItem};
use infospot::removal::build_removal_plan;
use infospot::snapshot::snapshot_of;

fn logged_in() -> SpotifyClient {
    let mut client =
        SpotifyClient::new("id".to_string(), "secret".to_string(), default_redirect_uri());
    client.set_token("tok".to_string());
    client
}

fn assert_get(request: Result<ApiRequest, ClientError>, url: &str) {
    let request = request.unwrap();
    assert_eq!(request.method, Method::Get);
    assert_eq!(request.url, url);
    assert_eq!(request.authorization, "Bearer tok");
    assert!(matches!(request.payload, Payload::Empty));
}

#[test]
fn requests_need_a_token() {
    let client = SpotifyClient::new("id".to_string(), "secret".to_string(), "uri".to_string());
    assert_eq!(client.get_current_user().err(), Some(ClientError::NoToken));
    assert_eq!(client.get_top_tracks(20, "short_term").err(), Some(ClientError::NoToken));
    assert_eq!(client.get_top_artists(20, "short_term").err(), Some(ClientError::NoToken));
    assert_eq!(client.get_playlists(50).err(), Some(ClientError::NoToken));
    assert_eq!(client.get_playlist("p").err(), Some(ClientError::NoToken));
    assert_eq!(client.get_recently_played(50).err(), Some(ClientError::NoToken));
    assert_eq!(client.get_playlist_tracks("p").err(), Some(ClientError::NoToken));
    assert_eq!(client.create_playlist("u", "n", "d", false).err(), Some(ClientError::NoToken));
    assert_eq!(client.get_tracks(&Vec::new()).err(), Some(ClientError::NoToken));
    assert_eq!(client.add_tracks_to_playlist("p", &Vec::new()).err(), Some(ClientError::NoToken));
    assert!(client.exchange_code("c").is_ok());
    let mut client = logged_in();
    client.clear_token();
    assert_eq!(client.get_current_user().err(), Some(ClientError::NoToken));
}

#[test]
fn credentials_must_both_be_there() {
    let with = |id: &str, secret: &str| {
        SpotifyClient::new(id.to_string(), secret.to_string(), "uri".to_string()).has_credentials()
    };
    assert!(with("id", "secret"));
    assert!(!with("", "secret"));
    assert!(!with("id", ""));
    assert!(!with("", ""));
    assert_eq!(default_redirect_uri(), "http://127.0.0.1:8888/callback");
    assert_eq!(logged_in().redirect_uri_str(), "http://127.0.0.1:8888/callback");
}

#[test]
fn reading_requests_name_their_urls() {
    let client = logged_in();
    assert_get(client.get_current_user(), "https://api.spotify.com/v1/me");
    assert_get(
        client.get_top_tracks(20, "short_term"),
        "https://api.spotify.com/v1/me/top/tracks?limit=20&time_range=short_term",
    );
    assert_get(
        client.get_top_artists(50, "long_term"),
        "https://api.spotify.com/v1/me/top/artists?limit=50&time_range=long_term",
    );
    assert_get(client.get_playlists(50), "https://api.spotify.com/v1/me/playlists?limit=50");
    assert_get(client.get_playlists(0), "https://api.spotify.com/v1/me/playlists?limit=0");
    assert_get(
        client.get_playlists(u32::MAX),
        "https://api.spotify.com/v1/me/playlists?limit=4294967295",
    );
    assert_get(client.get_playlist("abc"), "https://api.spotify.com/v1/playlists/abc");
    assert_get(
        client.get_recently_played(50),
        "https://api.spotify.com/v1/me/player/recently-played?limit=50",
    );
    assert_get(
        client.get_playlist_tracks("abc"),
        "https://api.spotify.com/v1/playlists/abc/tracks",
    );
}

#[test]
fn playlist_is_created_for_a_user() {
    let request = logged_in().create_playlist("user1", "Mix", "about", true).unwrap();
    assert_eq!(request.method, Method::Post);
    assert_eq!(request.url, "https://api.spotify.com/v1/users/user1/playlists");
    assert_eq!(request.authorization, "Bearer tok");
    match request.payload {
        Payload::NewPlaylist { name, description, public } => {
            assert_eq!(name, "Mix");
            assert_eq!(description, "about");
            assert!(public);
        }
        _ => panic!("the request describes a playlist"),
    }
}

fn numbered(n: usize) -> Vec<String> {
    (0..n).map(|i| format!("uri{}", i)).collect()
}

#[test]
fn tracks_are_added_by_the_hundred() {
    assert_eq!(ADD_TRACKS_LIMIT, 100);
    let client = logged_in();
    for (count, sizes) in [
        (0usize, vec![]),
        (1, vec![1usize]),
        (100, vec![100]),
        (101, vec![100, 1]),
        (250, vec![100, 100, 50]),
    ] {
        let uris = numbered(count);
        let requests = client.add_tracks_to_playlist("pl", &uris).unwrap();
        let mut sent: Vec<String> = Vec::new();
        let mut lengths = Vec::new();
        for request in requests {
            assert_eq!(request.method, Method::Post);
            assert_eq!(request.url, "https://api.spotify.com/v1/playlists/pl/tracks");
            assert_eq!(request.authorization, "Bearer tok");
            match request.payload {
                Payload::Uris(list) => {
                    lengths.push(list.len());
                    sent.extend(list);
                }
                _ => panic!("the request lists URIs"),
            }
        }
        assert_eq!(lengths, sizes);
        assert_eq!(sent, uris);
    }
}

#[test]
fn tracks_are_looked_up_by_the_fifty() {
    assert_eq!(TRACK_LOOKUP_LIMIT, 50);
    let client = logged_in();
    let requests = client.get_tracks(&numbered(51)).unwrap();
    assert_eq!(requests.len(), 2);
    let first: Vec<String> = numbered(50);
    assert_eq!(
        requests[0].url,
        format!("https://api.spotify.com/v1/tracks?ids={}", first.join(","))
    );
    assert_eq!(requests[1].url, "https://api.spotify.com/v1/tracks?ids=uri50");
    assert_eq!(requests[1].method, Method::Get);
    assert!(client.get_tracks(&Vec::new()).unwrap().is_empty());
}

#[test]
fn removal_sends_one_request_for_each_uri() {
    let ids: Vec<String> = ["a", "b", "a", "c", "b", "a"].iter().map(|s| s.to_string()).collect();
    let plan = build_removal_plan(&find_duplicates(&snapshot_of(&ids)));
    let requests = logged_in().remove_tracks_from_playlist("pl", &plan).unwrap();
    let mut sent = Vec::new();
    for request in requests {
        assert_eq!(request.method, Method::Delete);
        assert_eq!(request.url, "https://api.spotify.com/v1/playlists/pl/tracks");
        assert_eq!(request.authorization, "Bearer tok");
        match request.payload {
            Payload::Removal { uri, positions } => sent.push((uri, positions)),
            _ => panic!("the request names a track and positions"),
        }
    }
    assert_eq!(
        sent,
        vec![
            ("spotify:track:a".to_string(), vec![5, 2]),
            ("spotify:track:b".to_string(), vec![4]),
        ]
    );
    let nothing = build_removal_plan(&Vec::new());
    assert!(logged_in().remove_tracks_from_playlist("pl", &nothing).unwrap().is_empty());
}

#[test]
fn chunks_put_together_give_the_list() {
    let items = numbered(7);
    let pieces = chunk_strings(&items, 3);
    let lengths: Vec<usize> = pieces.iter().map(|p| p.len()).collect();
    assert_eq!(lengths, vec![3, 3, 1]);
    assert_eq!(pieces.concat(), items);
    assert_eq!(chunk_strings(&items, 7).len(), 1);
    assert_eq!(chunk_strings(&items, 1).len(), 7);
    assert!(chunk_strings(&Vec::new(), 4).is_empty());
}

#[test]
fn missing_items_are_passed_over() {
    assert_eq!(present(vec![Some(1), None, Some(3), None]), vec![1, 3]);
    assert_eq!(present(Vec::<Option<u8>>::new()), Vec::<u8>::new());
    assert_eq!(present(vec![None::<u8>]), Vec::<u8>::new());
}

#[test]
fn answers_are_checked_by_status() {
    assert!(is_success(200));
    assert!(is_success(204));
    assert!(is_success(299));
    assert!(!is_success(199));
    assert!(!is_success(300));
    assert!(!is_success(404));
    assert!(check_response(201, "ignored").is_ok());
    let error = check_response(429, "slow down").unwrap_err();
    assert_eq!(error.status, 429);
    assert_eq!(error.body, "slow down");
}

#[test]
fn headers_and_scopes() {
    assert_eq!(bearer("abc"), "Bearer abc");
    assert_eq!(decimal_string(0), "0");
    assert_eq!(decimal_string(4096), "4096");
    assert_eq!(
        scopes(),
        vec![
            "user-read-private",
            "user-read-email",
            "user-top-read",
            "user-read-recently-played",
            "playlist-read-private",
            "playlist-read-collaborative",
            "playlist-modify-public",
            "playlist-modify-private",
        ]
    );
}

#[test]
fn demo_user_is_the_demo_user() {
    let user = get_mock_user();
    assert_eq!(user.display_name, Some("Demo User".to_string()));
    assert_eq!(user.id, "demo_user_123");
    assert_eq!(user.email, Some("demo@example.com".to_string()));
    assert!(user.images.is_empty());
    assert_eq!(user.followers.total, 42);
    assert_eq!(user.country, Some("US".to_string()));
}

#[test]
fn demo_tracks_are_three_classics() {
    let tracks = get_mock_top_tracks();
    let summary: Vec<(&str, &str, &str, &str, u32, Option<u32>)> = tracks
        .iter()
        .map(|t| {
            (
                t.id.as_str(),
                t.name.as_str(),
                t.artists[0].name.as_str(),
                t.album.release_date.as_str(),
                t.duration_ms,
                t.popularity,
            )
        })
        .collect();
    assert_eq!(
        summary,
        vec![
            ("track1", "Bohemian Rhapsody", "Queen", "1975-11-21", 354000, Some(92)),
            ("track2", "Stairway to Heaven", "Led Zeppelin", "1971-11-08", 482000, Some(88)),
            ("track3", "Hotel California", "Eagles", "1976-12-08", 391000, Some(90)),
        ]
    );
    for track in &tracks {
        assert_eq!(track.artists.len(), 1);
        assert_eq!(track.artists[0].genres, None);
        assert_eq!(track.external_urls.spotify, "https://open.spotify.com");
        assert!(track.album.images.is_empty());
        assert!(!track.explicit);
    }
    assert_eq!(tracks[0].album.name, "A Night at the Opera");
    assert_eq!(tracks[1].album.id, "album2");
    assert_eq!(tracks[2].artists[0].id, "artist3");
}

#[test]
fn demo_artists_and_playlists() {
    let artists = get_mock_top_artists();
    let names: Vec<&str> = artists.iter().map(|a| a.name.as_str()).collect();
    assert_eq!(names, vec!["Queen", "Led Zeppelin", "Eagles"]);
    assert_eq!(
        artists[1].genres,
        Some(vec!["hard rock".to_string(), "classic rock".to_string()])
    );
    assert_eq!(artists[0].followers.as_ref().map(|f| f.total), Some(35000000));
    assert_eq!(artists[2].followers.as_ref().map(|f| f.total), Some(15000000));
    assert!(artists.iter().all(|a| a.popularity == Some(85)));
    assert!(artists.iter().all(|a| a.images == Some(Vec::new())));
    let playlists = get_mock_playlists();
    assert_eq!(playlists.len(), 2);
    assert_eq!(playlists[0].id, "playlist1");
    assert_eq!(playlists[0].name, "Classic Rock Favorites");
    assert_eq!(playlists[0].description, Some("The best of classic rock".to_string()));
    assert_eq!(playlists[0].tracks.total, 25);
    assert_eq!(playlists[0].public, Some(true));
    assert_eq!(playlists[1].name, "Road Trip Mix");
    assert_eq!(playlists[1].tracks.total, 40);
    assert_eq!(playlists[1].public, Some(false));
    assert_eq!(playlists[1].owner.display_name, Some("Demo User".to_string()));
    assert_eq!(playlists[1].owner.id, "demo_user_123");
}

#[test]
fn demo_history_is_the_first_two_tracks() {
    let items = get_mock_recently_played();
    assert_eq!(items.len(), 2);
    let tracks = get_mock_top_tracks();
    assert_eq!(items[0].track, tracks[0]);
    assert_eq!(items[1].track, tracks[1]);
    assert_eq!(items[0].played_at, "2024-12-26T10:30:00Z");
    assert_eq!(items[1].played_at, "2024-12-26T09:15:00Z");
}

#[test]
fn track_identities_of_a_playlist() {
    let items: Vec<PlaylistTrackItem> = get_mock_top_tracks()
        .into_iter()
        .map(|track| PlaylistTrackItem { added_at: String::new(), track })
        .collect();
    assert_eq!(track_ids(&items), vec!["track1", "track2", "track3"]);
    assert!(track_ids(&Vec::new()).is_empty());
}

#[test]
fn batch_collects_the_answers_in_order() {
    let mut run = BatchRun::new(3);
    assert_eq!(run.next_index(), Some(0));
    run.record_response(200, "first".to_string());
    assert_eq!(run.next_index(), Some(1));
    run.record_response(201, "second".to_string());
    assert_eq!(run.next_index(), Some(2));
    run.record_response(299, "third".to_string());
    assert_eq!(run.next_index(), None);
    assert_eq!(
        run.finish(),
        Some(Ok(vec!["first".to_string(), "second".to_string(), "third".to_string()]))
    );
    let empty = BatchRun::new(0);
    assert_eq!(empty.next_index(), None);
    assert_eq!(empty.finish(), Some(Ok(Vec::new())));
}

#[test]
fn batch_sends_nothing_after_a_failure() {
    let mut run = BatchRun::new(3);
    run.record_response(200, "ok".to_string());
    run.record_response(500, "broken".to_string());
    assert_eq!(run.next_index(), None);
    match run.finish() {
        Some(Err(error)) => {
            assert_eq!(error.status, 500);
            assert_eq!(error.body, "broken");
        }
        _ => panic!("the run should have failed"),
    }
    let unfinished = BatchRun::new(2);
    assert_eq!(unfinished.finish(), None);
}

#[test]
fn answers_are_joined_in_order() {
    let answers = vec![vec![Some(1), None, Some(2)], vec![], vec![None], vec![Some(3)]];
    assert_eq!(join_found(answers), vec![1, 2, 3]);
    assert_eq!(join_found(Vec::<Vec<Option<u8>>>::new()), Vec::<u8>::new());
}
