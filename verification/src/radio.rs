//! Track-seeded radio stations.
//!
//! A station is looked up in two requests: the first names the station that belongs to a seed
//! track, the second lists the station's tracks.

use vstd::prelude::*;
use vstd::utf8::{decode_utf8, valid_utf8};

use crate::json::{document, parse, Json, Tree};
use crate::text::{has_prefix, same, starts_with, views};

verus! {

/// What the service answers a request.
#[derive(Debug)]
pub struct Reply {
    /// The status; 200 is success.
    pub status: i32,
    /// The frames of the answer.
    pub payload: Vec<Vec<u8>>,
}

/// Why a station could not be had.
#[derive(Debug, Clone, Copy, PartialEq, Eq, Structural)]
pub enum RadioError {
    /// The request for the station had this status.
    AutoplayStatus(i32),
    /// The station's name is not UTF-8.
    StationNotText,
    /// The request for the tracks had this status.
    StationStatus(i32),
    /// The list of tracks is not JSON.
    TracksNotJson,
}

/// The first frame; no bytes where there is no frame.
pub open spec fn first_frame(payload: Seq<Vec<u8>>) -> Seq<u8> {
    if payload.len() > 0 {
        payload[0]@
    } else {
        seq![]
    }
}

/// The address that names the station of a seed track.
pub open spec fn autoplay_address(seed: Seq<char>) -> Seq<char> {
    "hm://autoplay-enabled/query?uri="@ + seed
}

/// The address that lists a station's tracks.
pub open spec fn station_address(station: Seq<char>) -> Seq<char> {
    "hm://radio-apollo/v3/stations/"@ + station
}

/// The addresses of the station's tracks other than the seed, in order.
pub open spec fn similar_tracks(items: Seq<Tree>, seed: Seq<char>) -> Seq<Seq<char>>
    decreases items.len(),
{
    if items.len() == 0 {
        seq![]
    } else {
        let earlier = similar_tracks(items.drop_last(), seed);
        match items.last().text_member("uri"@) {
            Some(uri) => if starts_with(uri, "spotify:track:"@) && uri != seed {
                earlier.push(uri)
            } else {
                earlier
            },
            None => earlier,
        }
    }
}

/// The tracks of a station: the seed, then the similar tracks that the document lists.
pub open spec fn station_tracks(station: Tree, seed: Seq<char>) -> Seq<Seq<char>> {
    seq![seed] + similar_tracks(station.items_member("tracks"@), seed)
}

/// The address to ask for the station of a seed track.
pub fn autoplay_query(seed_uri: &str) -> (url: String)
    ensures
        url@ == autoplay_address(seed_uri@),
{
    let mut url = "hm://autoplay-enabled/query?uri=".to_owned();
    url.append(seed_uri);
    url
}

/// The address to ask for a station's tracks.
pub fn station_query(station_uri: &str) -> (url: String)
    ensures
        url@ == station_address(station_uri@),
{
    let mut url = "hm://radio-apollo/v3/stations/".to_owned();
    url.append(station_uri);
    url
}

/// `String::from_utf8`: the text whose UTF-8 encoding the bytes are, and `None` where they are
/// not UTF-8.
#[verifier::external_body]
fn utf8_text(bytes: Vec<u8>) -> (text: Option<String>)
    ensures
        text is Some <==> valid_utf8(bytes@),
        text matches Some(s) ==> s@ == decode_utf8(bytes@),
{
    String::from_utf8(bytes).ok()
}

/// A copy of the first frame; no bytes where there is no frame.
fn body(reply: &Reply) -> (bytes: Vec<u8>)
    ensures
        bytes@ == first_frame(reply.payload@),
{
    if reply.payload.len() > 0 {
        let bytes = reply.payload[0].clone();
        assert(bytes@ =~= reply.payload@[0]@);
        bytes
    } else {
        Vec::new()
    }
}

/// The station that the answer to an autoplay query names.
pub fn station_of(reply: &Reply) -> (station: Result<String, RadioError>)
    ensures
        reply.status != 200 ==> station == Err::<String, RadioError>(
            RadioError::AutoplayStatus(reply.status),
        ),
        reply.status == 200 && !valid_utf8(first_frame(reply.payload@)) ==> station == Err::<
            String,
            RadioError,
        >(RadioError::StationNotText),
        reply.status == 200 && valid_utf8(first_frame(reply.payload@)) ==> {
            &&& station matches Ok(uri)
            &&& uri@ == decode_utf8(first_frame(reply.payload@))
        },
{
    if reply.status != 200 {
        return Err(RadioError::AutoplayStatus(reply.status));
    }
    match utf8_text(body(reply)) {
        Some(uri) => Ok(uri),
        None => Err(RadioError::StationNotText),
    }
}

/// The tracks that a station's document lists, after the seed.
pub fn tracks_in(station: &Json, seed_uri: &str) -> (uris: Vec<String>)
    ensures
        views(uris@) == station_tracks(station@, seed_uri@),
{
    let mut uris: Vec<String> = Vec::new();
    uris.push(seed_uri.to_owned());
    let ghost items = station@.items_member("tracks"@);
    assert(views(uris@) =~= seq![seed_uri@] + similar_tracks(
        items.take(0),
        seed_uri@,
    ));
    if let Some(Json::Array(tracks)) = station.member("tracks") {
        assert(Json::Array(*tracks)@ == Tree::Array(items));
        let mut i: usize = 0;
        while i < tracks.len()
            invariant
                i <= tracks@.len(),
                Json::Array(*tracks)@ == Tree::Array(items),
                views(uris@) == seq![seed_uri@] + similar_tracks(
                    items.take(i as int),
                    seed_uri@,
                ),
            decreases tracks@.len() - i,
        {
            let ghost before = views(uris@);
            let ghost earlier = similar_tracks(items.take(i as int), seed_uri@);
            assert(items.take(i + 1).drop_last() =~= items.take(i as int));
            assert(items.take(i + 1).last() == tracks@[i as int]@);
            if let Some(uri) = tracks[i].text_member("uri") {
                if has_prefix(uri.as_str(), "spotify:track:") && !same(uri.as_str(), seed_uri) {
                    let ghost uri_chars = uri@;
                    uris.push(uri);
                    assert(views(uris@) =~= before.push(uri_chars));
                    assert(before.push(uri_chars) =~= seq![seed_uri@] + earlier.push(uri_chars));
                }
            }
            i += 1;
        }
        assert(items.take(items.len() as int) =~= items);
    } else {
        assert(items.take(0) =~= items);
    }
    uris
}

/// The tracks of a station, from the answer to a station query: the seed followed by similar
/// tracks.
pub fn radio_tracks(reply: &Reply, seed_uri: &str) -> (uris: Result<Vec<String>, RadioError>)
    ensures
        reply.status != 200 ==> uris == Err::<Vec<String>, RadioError>(
            RadioError::StationStatus(reply.status),
        ),
        reply.status == 200 ==> match document(first_frame(reply.payload@)) {
            Some(station) => {
                &&& uris matches Ok(list)
                &&& views(list@) == station_tracks(station, seed_uri@)
            },
            None => uris == Err::<Vec<String>, RadioError>(RadioError::TracksNotJson),
        },
{
    if reply.status != 200 {
        return Err(RadioError::StationStatus(reply.status));
    }
    let bytes = body(reply);
    match parse(bytes.as_slice()) {
        Some(station) => Ok(tracks_in(&station, seed_uri)),
        None => Err(RadioError::TracksNotJson),
    }
}

/// A station's list begins with the seed; every other entry is a track and not the seed, so the
/// seed stands in it exactly once.
pub proof fn seed_comes_first_and_once(station: Tree, seed: Seq<char>)
    ensures
        station_tracks(station, seed).len() >= 1,
        station_tracks(station, seed)[0] == seed,
        forall|i: int|
            1 <= i < station_tracks(station, seed).len() ==> {
                let uri = #[trigger] station_tracks(station, seed)[i];
                starts_with(uri, "spotify:track:"@) && uri != seed
            },
{
    let items = station.items_member("tracks"@);
    lemma_similar_tracks(items, seed);
    assert forall|i: int| 1 <= i < station_tracks(station, seed).len() implies {
        let uri = #[trigger] station_tracks(station, seed)[i];
        starts_with(uri, "spotify:track:"@) && uri != seed
    } by {
        assert(station_tracks(station, seed)[i] == similar_tracks(items, seed)[i - 1]);
    }
}

proof fn lemma_similar_tracks(items: Seq<Tree>, seed: Seq<char>)
    ensures
        forall|i: int|
            0 <= i < similar_tracks(items, seed).len() ==> {
                let uri = #[trigger] similar_tracks(items, seed)[i];
                starts_with(uri, "spotify:track:"@) && uri != seed
            },
    decreases items.len(),
{
    if items.len() > 0 {
        lemma_similar_tracks(items.drop_last(), seed);
        let earlier = similar_tracks(items.drop_last(), seed);
        let all = similar_tracks(items, seed);
        assert forall|i: int| 0 <= i < all.len() implies {
            let uri = #[trigger] all[i];
            starts_with(uri, "spotify:track:"@) && uri != seed
        } by {
            if i < earlier.len() {
                assert(all[i] == earlier[i]);
            }
        }
    }
}

/// No track is lost: each item of the list whose address is a track's, other than the seed's,
/// stands in the station.
pub proof fn every_similar_track_is_kept(station: Tree, seed: Seq<char>, at: int)
    requires
        0 <= at < station.items_member("tracks"@).len(),
        station.items_member("tracks"@)[at].text_member("uri"@) is Some,
        starts_with(
            station.items_member("tracks"@)[at].text_member("uri"@)->0,
            "spotify:track:"@,
        ),
    ensures
        station_tracks(station, seed).contains(
            station.items_member("tracks"@)[at].text_member("uri"@)->0,
        ),
{
    let items = station.items_member("tracks"@);
    let uri = items[at].text_member("uri"@)->0;
    if uri == seed {
        assert(station_tracks(station, seed)[0] == uri);
    } else {
        lemma_similar_track_is_kept(items, seed, at);
        let i = choose|i: int|
            0 <= i < similar_tracks(items, seed).len() && similar_tracks(items, seed)[i] == uri;
        assert(station_tracks(station, seed)[i + 1] == uri);
    }
}

proof fn lemma_similar_track_is_kept(items: Seq<Tree>, seed: Seq<char>, at: int)
    requires
        0 <= at < items.len(),
        items[at].text_member("uri"@) is Some,
        starts_with(items[at].text_member("uri"@)->0, "spotify:track:"@),
        items[at].text_member("uri"@)->0 != seed,
    ensures
        similar_tracks(items, seed).contains(items[at].text_member("uri"@)->0),
    decreases items.len(),
{
    let uri = items[at].text_member("uri"@)->0;
    let all = similar_tracks(items, seed);
    if at == items.len() - 1 {
        assert(all.last() == uri);
    } else {
        lemma_similar_track_is_kept(items.drop_last(), seed, at);
        let earlier = similar_tracks(items.drop_last(), seed);
        let i = choose|i: int| 0 <= i < earlier.len() && earlier[i] == uri;
        assert(all[i] == uri);
    }
}

/// What a station lists is decided item by item: a list without items gives the seed alone, a list
/// of one item gives the seed and that item's address if it is a track's and not the seed's, and
/// a list that goes on gives what its first part gives, and after it what the rest adds.
pub proof fn stations_are_listed_item_by_item(
    first: Tree,
    rest: Tree,
    both: Tree,
    seed: Seq<char>,
)
    requires
        both.items_member("tracks"@) == first.items_member("tracks"@) + rest.items_member(
            "tracks"@,
        ),
    ensures
        first.items_member("tracks"@).len() == 0 ==> station_tracks(first, seed) == seq![seed],
        first.items_member("tracks"@).len() == 1 ==> match first.items_member(
            "tracks"@,
        )[0].text_member("uri"@) {
            Some(uri) => if uri != seed && uri.len() >= "spotify:track:"@.len() && uri.take(
                "spotify:track:"@.len() as int,
            ) == "spotify:track:"@ {
                station_tracks(first, seed) == seq![seed, uri]
            } else {
                station_tracks(first, seed) == seq![seed]
            },
            None => station_tracks(first, seed) == seq![seed],
        },
        station_tracks(both, seed) == station_tracks(first, seed) + station_tracks(
            rest,
            seed,
        ).skip(1),
{
    let a = first.items_member("tracks"@);
    let b = rest.items_member("tracks"@);
    let head = seq![seed] + similar_tracks(b, seed);
    assert(head.skip(1) =~= similar_tracks(b, seed));
    lemma_similar_tracks_go_on(a, b, seed);
    assert(station_tracks(both, seed) =~= station_tracks(first, seed) + head.skip(1));
    if a.len() == 0 {
        assert(station_tracks(first, seed) =~= seq![seed]);
    }
    if a.len() == 1 {
        assert(similar_tracks(a.drop_last(), seed) =~= seq![]);
        assert(a.last() == a[0]);
        match a[0].text_member("uri"@) {
            Some(uri) => {
                let n = "spotify:track:"@.len() as int;
                if uri.len() >= n {
                    assert(uri.take(n) =~= uri.subrange(0, n));
                }
                if starts_with(uri, "spotify:track:"@) && uri != seed {
                    assert(station_tracks(first, seed) =~= seq![seed, uri]);
                } else {
                    assert(station_tracks(first, seed) =~= seq![seed]);
                }
            },
            None => {
                assert(station_tracks(first, seed) =~= seq![seed]);
            },
        }
    }
}

proof fn lemma_similar_tracks_go_on(a: Seq<Tree>, b: Seq<Tree>, seed: Seq<char>)
    ensures
        similar_tracks(a + b, seed) == similar_tracks(a, seed) + similar_tracks(b, seed),
    decreases b.len(),
{
    if b.len() == 0 {
        assert(a + b =~= a);
        assert(similar_tracks(a, seed) + similar_tracks(b, seed) =~= similar_tracks(a, seed));
    } else {
        lemma_similar_tracks_go_on(a, b.drop_last(), seed);
        assert((a + b).drop_last() =~= a + b.drop_last());
        assert((a + b).last() == b.last());
        assert(similar_tracks(a + b, seed) =~= similar_tracks(a, seed) + similar_tracks(b, seed));
    }
}

/// Tracks play in the order of the station's list: of two items with the address of a track other
/// than the seed, that of the earlier item stands before that of the later one.
pub proof fn tracks_play_in_the_stations_order(
    station: Tree,
    seed: Seq<char>,
    earlier: int,
    later: int,
    earlier_name: Seq<char>,
    later_name: Seq<char>,
)
    requires
        0 <= earlier < later < station.items_member("tracks"@).len(),
        station.items_member("tracks"@)[earlier].text_member("uri"@) == Some(
            "spotify:track:"@ + earlier_name,
        ),
        station.items_member("tracks"@)[later].text_member("uri"@) == Some(
            "spotify:track:"@ + later_name,
        ),
        "spotify:track:"@ + earlier_name != seed,
        "spotify:track:"@ + later_name != seed,
    ensures
        exists|p: int, q: int|
            0 < p < q < station_tracks(station, seed).len() && #[trigger] station_tracks(
                station,
                seed,
            )[p] == "spotify:track:"@ + earlier_name && #[trigger] station_tracks(station, seed)[q]
                == "spotify:track:"@ + later_name,
{
    let items = station.items_member("tracks"@);
    lemma_place_of_track(items, seed, earlier, earlier_name);
    lemma_place_of_track(items, seed, later, later_name);
    let p = similar_tracks(items.take(earlier), seed).len() as int;
    let q = similar_tracks(items.take(later), seed).len() as int;
    // What comes before the later item holds the earlier one.
    let middle = items.subrange(earlier + 1, later);
    assert(items.take(later) =~= items.take(earlier + 1) + middle);
    lemma_similar_tracks_go_on(items.take(earlier + 1), middle, seed);
    assert(items.take(earlier + 1).drop_last() =~= items.take(earlier));
    assert(items.take(earlier + 1).last() == items[earlier]);
    crate::text::prefix_comes_first("spotify:track:"@ + earlier_name, "spotify:track:"@);
    assert(p < q);
    assert(station_tracks(station, seed)[p + 1] == similar_tracks(items, seed)[p]);
    assert(station_tracks(station, seed)[q + 1] == similar_tracks(items, seed)[q]);
}

proof fn lemma_place_of_track(items: Seq<Tree>, seed: Seq<char>, at: int, name: Seq<char>)
    requires
        0 <= at < items.len(),
        items[at].text_member("uri"@) == Some("spotify:track:"@ + name),
        "spotify:track:"@ + name != seed,
    ensures
        similar_tracks(items.take(at), seed).len() < similar_tracks(items, seed).len(),
        similar_tracks(items, seed)[similar_tracks(items.take(at), seed).len() as int]
            == "spotify:track:"@ + name,
{
    let head = items.take(at + 1);
    let tail = items.skip(at + 1);
    assert(items =~= head + tail);
    lemma_similar_tracks_go_on(head, tail, seed);
    assert(head.drop_last() =~= items.take(at));
    assert(head.last() == items[at]);
    crate::text::prefix_comes_first("spotify:track:"@ + name, "spotify:track:"@);
}

/// The addresses that are asked for carry the whole seed or station at their end.
pub proof fn queries_carry_what_they_ask_for(address: Seq<char>, more: Seq<char>)
    ensures
        autoplay_address(seq![]) == "hm://autoplay-enabled/query?uri="@,
        autoplay_address(address + more) == autoplay_address(address) + more,
        station_address(seq![]) == "hm://radio-apollo/v3/stations/"@,
        station_address(address + more) == station_address(address) + more,
{
    assert(autoplay_address(seq![]) =~= "hm://autoplay-enabled/query?uri="@);
    assert(autoplay_address(address + more) =~= autoplay_address(address) + more);
    assert(station_address(seq![]) =~= "hm://radio-apollo/v3/stations/"@);
    assert(station_address(address + more) =~= station_address(address) + more);
}

/// The answer is in the first frame alone.
pub proof fn first_frame_is_read(frame: Vec<u8>, more: Seq<Vec<u8>>)
    ensures
        first_frame(seq![]) == Seq::<u8>::empty(),
        first_frame(seq![frame] + more) == frame@,
{
}

} // verus!
