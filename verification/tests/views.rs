use infospot::library::{
    artists_text, chars_contain, filter_playlists, genres_text, join_texts, matches_parts,
    more_count, parse_sort_order, playlist_matches, sorted_tracks, text_contains, top_genres,
    visibility_text, visible_count, Selection, SortOrder,
};
use infospot::mock_data::{get_mock_playlists, get_mock_top_artists, get_mock_top_tracks};
use infospot::models::{Artist, ExternalUrls, Playlist, PlaylistTrackItem, Track};
use infospot::ordering::{chars_before, is_ahead, stable_order};
use infospot::toast::{
    remove_toast, show_error, show_info, show_success, show_toast, toast_class, toast_icon, Toast,
    ToastType,
};
use infospot::transfer::{
    export_playlist, import_from_parts, parse_import, track_id_of_uri, track_ids_of_uris,
    track_uris, ImportError,
};

fn strings(items: &[&str]) -> Vec<String> {
    items.iter().map(|s| s.to_string()).collect()
}

fn chars(text: &str) -> Vec<char> {
    text.chars().collect()
}

#[test]
fn selection_toggles_identities() {
    let mut selection = Selection::new();
    assert!(selection.is_empty());
    selection.toggle("a".to_string());
    selection.toggle("b".to_string());
    assert!(selection.contains("a"));
    assert!(selection.contains("b"));
    assert!(!selection.contains("c"));
    assert_eq!(selection.len(), 2);
    selection.toggle("a".to_string());
    assert!(!selection.contains("a"));
    assert_eq!(selection.ids(), &strings(&["b"]));
    selection.clear();
    assert_eq!(selection.len(), 0);
}

#[test]
fn selection_selects_all_or_nothing() {
    let all = strings(&["first", "second", "third"]);
    let mut selection = Selection::new();
    selection.toggle("second".to_string());
    selection.toggle_all(&all);
    assert_eq!(selection.len(), 3);
    assert!(all.iter().all(|id| selection.contains(id)));
    selection.toggle_all(&all);
    assert!(selection.is_empty());
    selection.toggle_all(&strings(&["x", "x", "y"]));
    assert_eq!(selection.len(), 2);
    let mut none = Selection::new();
    none.toggle_all(&Vec::new());
    assert!(none.is_empty());
}

#[test]
fn texts_are_found_in_texts() {
    assert!(text_contains("classic rock favorites", "rock"));
    assert!(text_contains("rock", "rock"));
    assert!(text_contains("rock", ""));
    assert!(text_contains("", ""));
    assert!(!text_contains("roc", "rock"));
    assert!(!text_contains("rokc", "rock"));
    assert!(text_contains("aab", "ab"));
    assert!(chars_contain(&chars("hello"), &chars("lo")));
    assert!(matches_parts("name", Some("about trips"), None, "trip"));
    assert!(matches_parts("name", None, Some("demo user"), "demo"));
    assert!(!matches_parts("name", None, None, "demo"));
}

#[test]
fn playlists_are_searched_without_regard_to_case() {
    let playlists = get_mock_playlists();
    assert!(playlist_matches(&playlists[0], "classic"));
    assert!(playlist_matches(&playlists[1], "long drives"));
    assert!(playlist_matches(&playlists[1], "demo"));
    assert!(!playlist_matches(&playlists[0], "Classic"));
    assert_eq!(filter_playlists(&playlists, ""), vec![0, 1]);
    assert_eq!(filter_playlists(&playlists, "ROAD"), vec![1]);
    assert_eq!(filter_playlists(&playlists, "Demo User"), vec![0, 1]);
    assert_eq!(filter_playlists(&playlists, "jazz"), Vec::<usize>::new());
}

#[test]
fn pages_and_visibility() {
    assert_eq!(visible_count(5, false), 5);
    assert_eq!(visible_count(12, false), 12);
    assert_eq!(visible_count(13, false), 12);
    assert_eq!(visible_count(40, true), 40);
    assert_eq!(more_count(8), None);
    assert_eq!(more_count(9), Some(1));
    assert_eq!(more_count(20), Some(12));
    assert_eq!(visibility_text(Some(true)), "Public");
    assert_eq!(visibility_text(Some(false)), "Private");
    assert_eq!(visibility_text(None), "Private");
}

#[test]
fn texts_are_ordered_by_their_characters() {
    assert!(chars_before(&chars("a"), &chars("b")));
    assert!(chars_before(&chars(""), &chars("a")));
    assert!(chars_before(&chars("ab"), &chars("abc")));
    assert!(chars_before(&chars("Z"), &chars("a")));
    assert!(!chars_before(&chars("a"), &chars("a")));
    assert!(!chars_before(&chars("b"), &chars("a")));
    assert!(!chars_before(&chars("a"), &chars("")));
    assert!(is_ahead(&3usize, &2usize, true));
    assert!(!is_ahead(&3usize, &2usize, false));
}

#[test]
fn arrangement_is_stable() {
    let keys = strings(&["b", "a", "c", "a", "b"]);
    assert_eq!(stable_order(&keys, false), vec![1, 3, 0, 4, 2]);
    assert_eq!(stable_order(&keys, true), vec![2, 0, 4, 1, 3]);
    let counts: Vec<usize> = vec![2, 5, 2, 9, 5];
    assert_eq!(stable_order(&counts, true), vec![3, 1, 4, 0, 2]);
    assert_eq!(stable_order(&Vec::<usize>::new(), true), Vec::<usize>::new());
}

fn item(name: &str, artist: Option<&str>, added_at: &str) -> PlaylistTrackItem {
    let mut track: Track = get_mock_top_tracks().remove(0);
    track.name = name.to_string();
    track.artists = match artist {
        Some(a) => {
            let mut artist = track.artists.remove(0);
            artist.name = a.to_string();
            vec![artist]
        }
        None => Vec::new(),
    };
    PlaylistTrackItem { added_at: added_at.to_string(), track }
}

#[test]
fn tracks_are_ordered_by_name_artist_and_date() {
    let items = vec![
        item("beta", Some("Zed"), "2024-02-01"),
        item("Alpha", None, "2024-03-01"),
        item("gamma", Some("abba"), "2024-01-01"),
        item("ALPHA", Some("Abba"), "2024-03-01"),
    ];
    assert_eq!(sorted_tracks(&items, SortOrder::Default), vec![0, 1, 2, 3]);
    assert_eq!(sorted_tracks(&items, SortOrder::NameAscending), vec![1, 3, 0, 2]);
    assert_eq!(sorted_tracks(&items, SortOrder::NameDescending), vec![2, 0, 1, 3]);
    assert_eq!(sorted_tracks(&items, SortOrder::ArtistAscending), vec![1, 2, 3, 0]);
    assert_eq!(sorted_tracks(&items, SortOrder::ArtistDescending), vec![0, 2, 3, 1]);
    assert_eq!(sorted_tracks(&items, SortOrder::NewestFirst), vec![1, 3, 0, 2]);
    assert_eq!(sorted_tracks(&items, SortOrder::OldestFirst), vec![2, 0, 1, 3]);
    assert_eq!(sorted_tracks(&Vec::new(), SortOrder::NameAscending), Vec::<usize>::new());
}

#[test]
fn sort_orders_have_names() {
    assert_eq!(parse_sort_order("name_asc"), SortOrder::NameAscending);
    assert_eq!(parse_sort_order("name_desc"), SortOrder::NameDescending);
    assert_eq!(parse_sort_order("artist_asc"), SortOrder::ArtistAscending);
    assert_eq!(parse_sort_order("artist_desc"), SortOrder::ArtistDescending);
    assert_eq!(parse_sort_order("date_added_desc"), SortOrder::NewestFirst);
    assert_eq!(parse_sort_order("date_added_asc"), SortOrder::OldestFirst);
    assert_eq!(parse_sort_order("default"), SortOrder::Default);
    assert_eq!(parse_sort_order(""), SortOrder::Default);
}

fn artist(genres: Option<&[&str]>) -> Artist {
    Artist {
        id: "id".to_string(),
        name: "name".to_string(),
        genres: genres.map(strings),
        images: None,
        external_urls: ExternalUrls { spotify: String::new() },
        followers: None,
        popularity: None,
    }
}

#[test]
fn genres_lead_by_number_of_namings() {
    assert_eq!(
        top_genres(&get_mock_top_artists()),
        strings(&["classic rock", "glam rock", "hard rock", "soft rock"])
    );
    let artists = vec![
        artist(Some(&["pop", "rock"])),
        artist(None),
        artist(Some(&["jazz", "rock", "pop"])),
        artist(Some(&[])),
        artist(Some(&["rock"])),
    ];
    assert_eq!(top_genres(&artists), strings(&["rock", "pop", "jazz"]));
    assert!(top_genres(&Vec::new()).is_empty());
    let many: Vec<String> = (0..15).map(|n| format!("g{}", n)).collect();
    let names: Vec<&str> = many.iter().map(|s| s.as_str()).collect();
    let mut crowd = vec![artist(Some(&names)), artist(Some(&["g14", "g12"]))];
    crowd.push(artist(Some(&["g14"])));
    let top = top_genres(&crowd);
    assert_eq!(top.len(), 10);
    assert_eq!(top[0], "g14");
    assert_eq!(top[1], "g12");
    assert_eq!(top[2], "g0");
    assert_eq!(top[9], "g7");
}

#[test]
fn names_are_joined_by_commas() {
    assert_eq!(join_texts(&strings(&["a", "b", "c"]), ", "), "a, b, c");
    assert_eq!(join_texts(&strings(&["a"]), ", "), "a");
    assert_eq!(join_texts(&Vec::new(), ", "), "");
    assert_eq!(genres_text(&None), "No genres listed");
    assert_eq!(genres_text(&Some(Vec::new())), "No genres listed");
    assert_eq!(genres_text(&Some(strings(&["hard rock", "classic rock"]))), "hard rock, classic rock");
    assert_eq!(artists_text(&get_mock_top_artists()), "Queen, Led Zeppelin, Eagles");
    assert_eq!(artists_text(&Vec::new()), "");
}

fn notices(toasts: &[Toast]) -> Vec<(usize, ToastType, String)> {
    toasts.iter().map(|t| (t.id, t.toast_type, t.message.clone())).collect()
}

#[test]
fn notices_are_numbered_and_removed_by_number() {
    let mut toasts: Vec<Toast> = Vec::new();
    let mut counter: usize = 0;
    assert_eq!(show_success(&mut toasts, &mut counter, "saved".to_string()), 0);
    assert_eq!(show_error(&mut toasts, &mut counter, "failed".to_string()), 1);
    assert_eq!(show_info(&mut toasts, &mut counter, "note".to_string()), 2);
    assert_eq!(show_toast(&mut toasts, &mut counter, "again".to_string(), ToastType::Info), 3);
    assert_eq!(counter, 4);
    assert_eq!(
        notices(&toasts),
        vec![
            (0, ToastType::Success, "saved".to_string()),
            (1, ToastType::Error, "failed".to_string()),
            (2, ToastType::Info, "note".to_string()),
            (3, ToastType::Info, "again".to_string()),
        ]
    );
    remove_toast(&mut toasts, 1);
    remove_toast(&mut toasts, 7);
    let left: Vec<usize> = toasts.iter().map(|t| t.id).collect();
    assert_eq!(left, vec![0, 2, 3]);
    toasts.push(Toast { message: "twin".to_string(), toast_type: ToastType::Info, id: 0 });
    remove_toast(&mut toasts, 0);
    let left: Vec<usize> = toasts.iter().map(|t| t.id).collect();
    assert_eq!(left, vec![2, 3]);
}

#[test]
fn notices_have_classes_and_signs() {
    assert_eq!(toast_class(ToastType::Success, false), "toast toast-success");
    assert_eq!(toast_class(ToastType::Error, false), "toast toast-error");
    assert_eq!(toast_class(ToastType::Info, true), "toast toast-info fade-out");
    assert_eq!(toast_icon(ToastType::Success), '\u{2713}');
    assert_eq!(toast_icon(ToastType::Error), '\u{2715}');
    assert_eq!(toast_icon(ToastType::Info), '\u{2139}');
}

#[test]
fn export_holds_info_and_track_uris() {
    let document = export_playlist(
        "Road \"Trip\"",
        Some("pl1"),
        None,
        Some("songs"),
        &strings(&["t1", "t2"]),
    );
    let value: serde_json::Value = serde_json::from_str(&document).unwrap();
    assert_eq!(value["info"]["name"].as_str(), Some("Road \"Trip\""));
    assert_eq!(value["info"]["id"].as_str(), Some("pl1"));
    assert_eq!(value["info"]["author"].as_str(), Some("Unknown"));
    assert_eq!(value["info"]["description"].as_str(), Some("songs"));
    let tracks: Vec<&str> =
        value["tracks"].as_array().unwrap().iter().map(|t| t.as_str().unwrap()).collect();
    assert_eq!(tracks, vec!["spotify:track:t1", "spotify:track:t2"]);
    assert!(document.contains('\n'));
    let bare = export_playlist("n", None, Some("me"), None, &Vec::new());
    let value: serde_json::Value = serde_json::from_str(&bare).unwrap();
    assert!(value["info"].get("id").is_none());
    assert_eq!(value["info"]["author"].as_str(), Some("me"));
    assert_eq!(value["info"]["description"].as_str(), Some(""));
    assert_eq!(value["tracks"].as_array().map(|t| t.len()), Some(0));
}

#[test]
fn an_export_can_be_imported() {
    let document = export_playlist("Mix", Some("id"), Some("Ann"), Some("d"), &strings(&["a", "b"]));
    let playlist = parse_import(&document).unwrap();
    assert_eq!(playlist.name, "Mix");
    assert_eq!(playlist.description, "d");
    assert_eq!(playlist.author, "Ann");
    assert_eq!(playlist.track_uris, strings(&["spotify:track:a", "spotify:track:b"]));
    assert_eq!(track_ids_of_uris(&playlist.track_uris), strings(&["a", "b"]));
}

#[test]
fn import_uses_defaults_and_skips_what_is_no_text() {
    let playlist = parse_import("{\"tracks\":[\"u1\",5,null,\"u2\"]}").unwrap();
    assert_eq!(playlist.name, "Imported Playlist");
    assert_eq!(playlist.description, "");
    assert_eq!(playlist.author, "Unknown");
    assert_eq!(playlist.track_uris, strings(&["u1", "u2"]));
    let playlist = parse_import("{\"info\":{\"name\":7,\"author\":\"A\"},\"tracks\":[\"u\"]}").unwrap();
    assert_eq!(playlist.name, "Imported Playlist");
    assert_eq!(playlist.author, "A");
}

#[test]
fn import_fails_without_json_or_tracks() {
    assert_eq!(parse_import("not json").err(), Some(ImportError::InvalidJson));
    assert_eq!(parse_import("").err(), Some(ImportError::InvalidJson));
    assert_eq!(parse_import("{}").err(), Some(ImportError::NoTracks));
    assert_eq!(parse_import("{\"tracks\":[]}").err(), Some(ImportError::NoTracks));
    assert_eq!(parse_import("{\"tracks\":[1,2]}").err(), Some(ImportError::NoTracks));
    assert_eq!(parse_import("{\"tracks\":\"x\"}").err(), Some(ImportError::NoTracks));
    assert_eq!(parse_import("[\"x\"]").err(), Some(ImportError::NoTracks));
    let outcome =
        import_from_parts(false, None, None, None, Some(vec![Some("u".to_string())]));
    assert_eq!(outcome.err(), Some(ImportError::InvalidJson));
    let outcome = import_from_parts(true, Some("n".to_string()), None, None, None);
    assert_eq!(outcome.err(), Some(ImportError::NoTracks));
}

#[test]
fn track_identities_are_read_from_uris() {
    assert_eq!(track_id_of_uri("spotify:track:abc"), Some("abc".to_string()));
    assert_eq!(track_id_of_uri("spotify:track:abc:def"), Some("abc".to_string()));
    assert_eq!(track_id_of_uri("spotify:track:"), Some(String::new()));
    assert_eq!(track_id_of_uri("spotify:track"), None);
    assert_eq!(track_id_of_uri(""), None);
    assert_eq!(
        track_ids_of_uris(&strings(&["spotify:track:a", "bad", "x:y:b", "spotify:album"])),
        strings(&["a", "b"])
    );
    assert_eq!(track_uris(&strings(&["a", ""])), strings(&["spotify:track:a", "spotify:track:"]));
}

#[test]
fn default_playlist_is_empty() {
    let playlist = Playlist::default();
    assert_eq!(playlist.id, "");
    assert_eq!(playlist.name, "");
    assert_eq!(playlist.description, None);
    assert!(playlist.images.is_empty());
    assert_eq!(playlist.tracks.total, 0);
    assert_eq!(playlist.owner.id, "");
    assert_eq!(playlist.owner.display_name, None);
    assert_eq!(playlist.public, None);
    assert_eq!(playlist.uri, None);
}
