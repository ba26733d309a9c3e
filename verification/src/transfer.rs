//! Playlists as files: what an export holds, and what an import reads.
//!
//! A playlist file is a JSON object with the member `info`, an object of
//! texts that describe the playlist, and the member `tracks`, the list of
//! the URIs of its tracks.

use crate::client::{present, present_of};
use crate::removal::{track_uri, track_uri_of};
use crate::text::{chars_of, pieces_view, split, split_chars, string_of, strings_view};
use crate::token::text_view;
use vstd::prelude::*;
use vstd::string::StringExecFns;

verus! {

/// Whether `document` is JSON.
pub uninterp spec fn json_valid(document: Seq<char>) -> bool;

/// The text of the member `inner` of the member `outer` of the JSON object
/// that `document` holds, when all of these are there and the member is a
/// string.
pub uninterp spec fn json_nested(document: Seq<char>, outer: Seq<char>, inner: Seq<char>) -> Option<
    Seq<char>,
>;

/// The items of the list that is the member `key` of the JSON object that
/// `document` holds, when there is such a list: for each item its text if it
/// is a string.
pub uninterp spec fn json_list(document: Seq<char>, key: Seq<char>) -> Option<
    Seq<Option<Seq<char>>>,
>;

/// The JSON document, pretty-printed, of the object with two members: under
/// `object_key` an object with the given members, each a text, and under
/// `list_key` the list of the given texts.
pub uninterp spec fn json_document(
    object_key: Seq<char>,
    members: Seq<(Seq<char>, Seq<char>)>,
    list_key: Seq<char>,
    items: Seq<Seq<char>>,
) -> Seq<char>;

/// The character sequences of a list of optional strings.
pub open spec fn option_views(v: Seq<Option<String>>) -> Seq<Option<Seq<char>>> {
    v.map_values(|s: Option<String>| text_view(s))
}

/// The character sequences of a list of pairs of strings.
pub open spec fn pair_views(v: Seq<(String, String)>) -> Seq<(Seq<char>, Seq<char>)> {
    v.map_values(|p: (String, String)| (p.0@, p.1@))
}

/// Trusted: whether `serde_json::from_str` reads `document` as a JSON
/// value, which depends on the text alone.
#[verifier::external_body]
pub(crate) fn json_is_valid(document: &str) -> (valid: bool)
    ensures
        valid == json_valid(document@),
{
    serde_json::from_str::<serde_json::Value>(document).is_ok()
}

/// Trusted: reads `document` with `serde_json::from_str`, takes the member
/// `outer` and of it the member `inner` with `Value::get`, and its text with
/// `Value::as_str`. The result depends on the three texts alone.
#[verifier::external_body]
pub(crate) fn json_nested_text(document: &str, outer: &str, inner: &str) -> (text: Option<String>)
    ensures
        text_view(text) == json_nested(document@, outer@, inner@),
{
    let value: serde_json::Value = serde_json::from_str(document).ok()?;
    match value.get(outer)?.get(inner)?.as_str() {
        Some(text) => Some(text.to_string()),
        None => None,
    }
}

/// Trusted: reads `document` with `serde_json::from_str`, takes the member
/// `key` with `Value::get` and its items with `Value::as_array`, and of each
/// item the text with `Value::as_str`. The result depends on the two texts
/// alone.
#[verifier::external_body]
pub(crate) fn json_list_items(document: &str, key: &str) -> (items: Option<Vec<Option<String>>>)
    ensures
        match items {
            Some(list) => json_list(document@, key@) == Some(option_views(list@)),
            None => json_list(document@, key@) is None,
        },
{
    let value: serde_json::Value = serde_json::from_str(document).ok()?;
    let items = value.get(key)?.as_array()?;
    Some(items.iter().map(|item| item.as_str().map(|text| text.to_string())).collect())
}

/// Trusted: builds with `serde_json::Map::insert` the object of the members
/// and the object of the two keys, and prints it with
/// `serde_json::to_string_pretty`. The result depends on the keys, members
/// and items alone.
#[verifier::external_body]
pub(crate) fn json_print(
    object_key: &str,
    members: &Vec<(String, String)>,
    list_key: &str,
    items: &Vec<String>,
) -> (document: String)
    ensures
        document@ == json_document(
            object_key@,
            pair_views(members@),
            list_key@,
            strings_view(items@),
        ),
{
    let mut object = serde_json::Map::new();
    for (key, value) in members {
        object.insert(key.clone(), serde_json::Value::from(value.as_str()));
    }
    let list: Vec<serde_json::Value> = items.iter().map(|item| serde_json::Value::from(item.as_str())).collect();
    let mut root = serde_json::Map::new();
    root.insert(object_key.to_string(), serde_json::Value::Object(object));
    root.insert(list_key.to_string(), serde_json::Value::Array(list));
    serde_json::to_string_pretty(&serde_json::Value::Object(root)).unwrap_or_default()
}

/// The text, or `default` when there is none.
pub open spec fn text_or(text: Option<Seq<char>>, default: Seq<char>) -> Seq<char> {
    match text {
        Some(t) => t,
        None => default,
    }
}

/// The members that describe an exported playlist: its name, its identity
/// if it is given, its author (`Unknown` when there is none) and its
/// description (empty when there is none).
pub open spec fn export_members(
    name: Seq<char>,
    id: Option<Seq<char>>,
    author: Option<Seq<char>>,
    description: Option<Seq<char>>,
) -> Seq<(Seq<char>, Seq<char>)> {
    let first = seq![("name"@, name)];
    let with_id = match id {
        Some(i) => first.push(("id"@, i)),
        None => first,
    };
    with_id.push(("author"@, text_or(author, "Unknown"@))).push(
        ("description"@, text_or(description, Seq::<char>::empty())),
    )
}

/// The URIs of the tracks with the given identities.
pub open spec fn track_uris_of(ids: Seq<Seq<char>>) -> Seq<Seq<char>> {
    ids.map_values(|id: Seq<char>| track_uri_of(id))
}

/// The URIs of the tracks with the given identities.
pub fn track_uris(ids: &Vec<String>) -> (uris: Vec<String>)
    ensures
        strings_view(uris@) == track_uris_of(strings_view(ids@)),
{
    let mut uris: Vec<String> = Vec::new();
    let mut i: usize = 0;
    while i < ids.len()
        invariant
            i <= ids.len(),
            strings_view(uris@) == track_uris_of(strings_view(ids@)).take(i as int),
        decreases ids.len() - i,
    {
        let ghost before = strings_view(uris@);
        let uri = track_uri(ids[i].as_str());
        proof {
            assert(uri@ == track_uris_of(strings_view(ids@))[i as int]);
        }
        uris.push(uri);
        proof {
            assert(strings_view(uris@) =~= before.push(
                track_uris_of(strings_view(ids@))[i as int],
            ));
            assert(strings_view(uris@) =~= track_uris_of(strings_view(ids@)).take(i as int + 1));
        }
        i += 1;
    }
    proof {
        assert(track_uris_of(strings_view(ids@)).take(ids.len() as int) =~= track_uris_of(
            strings_view(ids@),
        ));
    }
    uris
}

/// The view of an optional string slice.
pub open spec fn slice_view(text: Option<&str>) -> Option<Seq<char>> {
    match text {
        Some(t) => Some(t@),
        None => None,
    }
}

/// The file of an exported playlist: under `info` its name, its identity if
/// given, its author and its description; under `tracks` the URIs of its
/// tracks in playlist order.
pub fn export_playlist(
    name: &str,
    id: Option<&str>,
    author: Option<&str>,
    description: Option<&str>,
    track_ids: &Vec<String>,
) -> (document: String)
    ensures
        document@ == json_document(
            "info"@,
            export_members(name@, slice_view(id), slice_view(author), slice_view(description)),
            "tracks"@,
            track_uris_of(strings_view(track_ids@)),
        ),
{
    let mut members: Vec<(String, String)> = Vec::new();
    members.push((String::from_str("name"), String::from_str(name)));
    match id {
        Some(i) => {
            members.push((String::from_str("id"), String::from_str(i)));
        },
        None => {},
    }
    let author_text = match author {
        Some(a) => a,
        None => "Unknown",
    };
    members.push((String::from_str("author"), String::from_str(author_text)));
    let description_text = match description {
        Some(d) => String::from_str(d),
        None => String::new(),
    };
    members.push((String::from_str("description"), description_text));
    let uris = track_uris(track_ids);
    proof {
        assert(pair_views(members@) =~= export_members(
            name@,
            slice_view(id),
            slice_view(author),
            slice_view(description),
        ));
    }
    json_print("info", &members, "tracks", &uris)
}

/// A playlist that was read from a file.
#[derive(Debug, Clone, PartialEq)]
pub struct ImportedPlaylist {
    pub name: String,
    pub description: String,
    pub author: String,
    pub track_uris: Vec<String>,
}

/// Why a file gives no playlist.
#[derive(Debug, Clone, Copy, PartialEq, Eq, Structural)]
pub enum ImportError {
    /// The file is not JSON.
    InvalidJson,
    /// The file names no track.
    NoTracks,
}

/// The URIs that a list of items names: the items that are texts.
pub open spec fn listed_uris(items: Option<Seq<Option<Seq<char>>>>) -> Seq<Seq<char>> {
    match items {
        Some(list) => present_of(list),
        None => Seq::<Seq<char>>::empty(),
    }
}

/// The playlist is the one that the parts describe: name, description and
/// author as read, or `Imported Playlist`, the empty text and `Unknown` where
/// they are missing; and the URIs that are listed.
pub open spec fn is_import_of(
    playlist: ImportedPlaylist,
    name: Option<Seq<char>>,
    description: Option<Seq<char>>,
    author: Option<Seq<char>>,
    uris: Seq<Seq<char>>,
) -> bool {
    &&& playlist.name@ == text_or(name, "Imported Playlist"@)
    &&& playlist.description@ == text_or(description, Seq::<char>::empty())
    &&& playlist.author@ == text_or(author, "Unknown"@)
    &&& strings_view(playlist.track_uris@) == uris
}

/// The strings that are there, in order.
fn present_texts(items: Vec<Option<String>>) -> (found: Vec<String>)
    ensures
        strings_view(found@) == present_of(option_views(items@)),
{
    let ghost all = items@;
    let found = present(items);
    proof {
        lemma_present_views(all);
    }
    found
}

/// The views of the strings that are there are the views that are there.
proof fn lemma_present_views(items: Seq<Option<String>>)
    ensures
        strings_view(present_of(items)) == present_of(option_views(items)),
    decreases items.len(),
{
    if items.len() == 0 {
        assert(strings_view(present_of(items)) =~= present_of(option_views(items)));
    } else {
        lemma_present_views(items.drop_last());
        assert(option_views(items).drop_last() =~= option_views(items.drop_last()));
        assert(option_views(items).last() == text_view(items.last()));
        assert(strings_view(present_of(items)) =~= present_of(option_views(items)));
    }
}

/// The playlist that the parts of a file describe: an error when the file
/// is not JSON or lists no track; else the playlist of the parts.
pub fn import_from_parts(
    valid: bool,
    name: Option<String>,
    description: Option<String>,
    author: Option<String>,
    items: Option<Vec<Option<String>>>,
) -> (outcome: Result<ImportedPlaylist, ImportError>)
    ensures
        !valid ==> outcome == Err::<ImportedPlaylist, ImportError>(ImportError::InvalidJson),
        valid && listed_uris(
            match items {
                Some(list) => Some(option_views(list@)),
                None => None,
            },
        ).len() == 0 ==> outcome == Err::<ImportedPlaylist, ImportError>(ImportError::NoTracks),
        valid && listed_uris(
            match items {
                Some(list) => Some(option_views(list@)),
                None => None,
            },
        ).len() > 0 ==> outcome is Ok && is_import_of(
            outcome->Ok_0,
            text_view(name),
            text_view(description),
            text_view(author),
            listed_uris(
                match items {
                    Some(list) => Some(option_views(list@)),
                    None => None,
                },
            ),
        ),
{
    if !valid {
        return Err(ImportError::InvalidJson);
    }
    let track_uris = match items {
        Some(list) => present_texts(list),
        None => Vec::new(),
    };
    proof {
        assert(strings_view(track_uris@).len() == track_uris.len());
    }
    if track_uris.len() == 0 {
        return Err(ImportError::NoTracks);
    }
    Ok(
        ImportedPlaylist {
            name: match name {
                Some(n) => n,
                None => String::from_str("Imported Playlist"),
            },
            description: match description {
                Some(d) => d,
                None => String::new(),
            },
            author: match author {
                Some(a) => a,
                None => String::from_str("Unknown"),
            },
            track_uris,
        },
    )
}

/// The playlist that a file holds. A file that is not JSON and a file that
/// lists no track give an error; else the playlist has the name, the
/// description and the author under `info`, with defaults where they are
/// missing, and the texts of the list `tracks` as its URIs.
pub fn parse_import(document: &str) -> (outcome: Result<ImportedPlaylist, ImportError>)
    ensures
        !json_valid(document@) ==> outcome == Err::<ImportedPlaylist, ImportError>(
            ImportError::InvalidJson,
        ),
        json_valid(document@) && listed_uris(json_list(document@, "tracks"@)).len() == 0
            ==> outcome == Err::<ImportedPlaylist, ImportError>(ImportError::NoTracks),
        json_valid(document@) && listed_uris(json_list(document@, "tracks"@)).len() > 0
            ==> outcome is Ok && is_import_of(
            outcome->Ok_0,
            json_nested(document@, "info"@, "name"@),
            json_nested(document@, "info"@, "description"@),
            json_nested(document@, "info"@, "author"@),
            listed_uris(json_list(document@, "tracks"@)),
        ),
{
    let valid = json_is_valid(document);
    let name = json_nested_text(document, "info", "name");
    let description = json_nested_text(document, "info", "description");
    let author = json_nested_text(document, "info", "author");
    let items = json_list_items(document, "tracks");
    import_from_parts(valid, name, description, author, items)
}

/// The identity of the track that a URI names: of the parts of the URI
/// between colons the third, if there are that many.
pub open spec fn track_id_of(uri: Seq<char>) -> Option<Seq<char>> {
    let parts = split(uri, ':');
    if parts.len() >= 3 {
        Some(parts[2])
    } else {
        None
    }
}

/// The identity of the track that a URI such as `spotify:track:ID` names.
pub fn track_id_of_uri(uri: &str) -> (id: Option<String>)
    ensures
        text_view(id) == track_id_of(uri@),
{
    let v = chars_of(uri);
    let parts = split_chars(&v, ':');
    proof {
        assert(pieces_view(parts@).len() == parts.len());
    }
    if parts.len() >= 3 {
        proof {
            assert(pieces_view(parts@)[2] == parts@[2]@);
        }
        Some(string_of(&parts[2]))
    } else {
        None
    }
}

/// The identities that the URIs name, where they name one.
pub open spec fn track_ids_of(uris: Seq<Seq<char>>) -> Seq<Seq<char>> {
    present_of(uris.map_values(|uri: Seq<char>| track_id_of(uri)))
}

/// The identities of the tracks that the URIs name, in order; URIs that
/// name none are passed over.
pub fn track_ids_of_uris(uris: &Vec<String>) -> (ids: Vec<String>)
    ensures
        strings_view(ids@) == track_ids_of(strings_view(uris@)),
{
    let ghost named = strings_view(uris@).map_values(|uri: Seq<char>| track_id_of(uri));
    let mut found: Vec<Option<String>> = Vec::new();
    let mut i: usize = 0;
    while i < uris.len()
        invariant
            i <= uris.len(),
            named == strings_view(uris@).map_values(|uri: Seq<char>| track_id_of(uri)),
            option_views(found@) == named.take(i as int),
        decreases uris.len() - i,
    {
        let ghost before = option_views(found@);
        let id = track_id_of_uri(uris[i].as_str());
        proof {
            assert(text_view(id) == named[i as int]);
        }
        found.push(id);
        proof {
            assert(option_views(found@) =~= before.push(named[i as int]));
            assert(option_views(found@) =~= named.take(i as int + 1));
        }
        i += 1;
    }
    proof {
        assert(named.take(uris.len() as int) =~= named);
    }
    present_texts(found)
}

} // verus!
