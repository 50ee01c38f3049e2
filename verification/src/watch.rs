//! Watch-history data shapes and the membership and filtering rules over
//! them, plus the request payloads and query URLs the synchronization
//! endpoint expects. The HTTP exchange itself is the caller's job.

use vstd::prelude::*;

use crate::digits::dec_str;
use crate::index::opt_str_view;

verus! {

#[derive(Debug)]
pub struct MovieWatchEntry {
    pub tmdb_id: u64,
    pub timestamp_watched: Option<String>,
    pub timestamp_added: Option<String>,
}

#[derive(Debug)]
pub struct EpisodeWatchEntry {
    pub tmdb_id: u64,
    pub season: u32,
    pub episode: u32,
    pub timestamp_watched: Option<String>,
    pub timestamp_added: Option<String>,
}

#[derive(Debug)]
pub struct AddWatchHistoryRequest {
    pub movies: Option<Vec<MovieWatchEntry>>,
    pub episodes: Option<Vec<EpisodeWatchEntry>>,
}

#[derive(Debug)]
pub struct MovieHistoryItem {
    pub tmdb_id: u64,
    pub timestamp_watched: String,
    pub timestamp_added: String,
}

#[derive(Debug)]
pub struct EpisodeHistoryItem {
    pub tmdb_id: u64,
    pub season: u32,
    pub episode: u32,
    pub timestamp_watched: String,
    pub timestamp_added: String,
}

#[derive(Debug)]
pub struct WatchHistoryData {
    pub movies: Vec<MovieHistoryItem>,
    pub episodes: Vec<EpisodeHistoryItem>,
}

#[derive(Debug)]
pub struct WatchHistoryCount {
    pub movies: u32,
    pub episodes: u32,
}

#[derive(Debug)]
pub struct WatchHistoryResponse {
    pub success: bool,
    pub data: WatchHistoryData,
    pub count: WatchHistoryCount,
}

#[derive(Debug)]
pub struct AddWatchHistoryResponse {
    pub success: bool,
    pub data: Option<AddedData>,
    pub count: Option<AddedCounts>,
    pub errors: Option<Vec<String>>,
}

#[derive(Debug)]
pub struct AddedData {
    pub movies: Vec<MovieHistoryItem>,
    pub episodes: Vec<EpisodeHistoryItem>,
}

#[derive(Debug)]
pub struct AddedCounts {
    pub movies: u32,
    pub episodes: u32,
}

/// The mathematical image of one watched episode.
pub ghost struct EpisodeHistoryView {
    pub tmdb_id: u64,
    pub season: u32,
    pub episode: u32,
    pub timestamp_watched: Seq<char>,
    pub timestamp_added: Seq<char>,
}

impl View for EpisodeHistoryItem {
    type V = EpisodeHistoryView;

    open spec fn view(&self) -> EpisodeHistoryView {
        EpisodeHistoryView {
            tmdb_id: self.tmdb_id,
            season: self.season,
            episode: self.episode,
            timestamp_watched: self.timestamp_watched@,
            timestamp_added: self.timestamp_added@,
        }
    }
}

impl Clone for EpisodeHistoryItem {
    fn clone(&self) -> (r: Self)
        ensures
            r@ == self@,
    {
        EpisodeHistoryItem {
            tmdb_id: self.tmdb_id,
            season: self.season,
            episode: self.episode,
            timestamp_watched: self.timestamp_watched.clone(),
            timestamp_added: self.timestamp_added.clone(),
        }
    }
}

/// The views of a sequence of watched episodes.
pub open spec fn ep_views_of(s: Seq<EpisodeHistoryItem>) -> Seq<EpisodeHistoryView> {
    s.map_values(|e: EpisodeHistoryItem| e@)
}

/// Whether the history records this movie as watched.
pub fn is_movie_watched(history: &WatchHistoryData, tmdb_id: u64) -> (r: bool)
    ensures
        r == exists|i: int|
            0 <= i < history.movies@.len() && (#[trigger] history.movies@[i]).tmdb_id == tmdb_id,
{
    let mut i: usize = 0;
    while i < history.movies.len()
        invariant
            i <= history.movies@.len(),
            forall|j: int| 0 <= j < i ==> (#[trigger] history.movies@[j]).tmdb_id != tmdb_id,
        decreases history.movies@.len() - i,
    {
        if history.movies[i].tmdb_id == tmdb_id {
            return true;
        }
        i = i + 1;
    }
    false
}

/// Whether the history records this episode of this show as watched.
pub fn is_episode_watched(history: &WatchHistoryData, tmdb_id: u64, season: u32, episode: u32) -> (r:
    bool)
    ensures
        r == exists|i: int|
            0 <= i < history.episodes@.len() && (#[trigger] history.episodes@[i]).tmdb_id == tmdb_id
                && history.episodes@[i].season == season && history.episodes@[i].episode == episode,
{
    let mut i: usize = 0;
    while i < history.episodes.len()
        invariant
            i <= history.episodes@.len(),
            forall|j: int|
                0 <= j < i ==> !((#[trigger] history.episodes@[j]).tmdb_id == tmdb_id
                    && history.episodes@[j].season == season && history.episodes@[j].episode
                    == episode),
        decreases history.episodes@.len() - i,
    {
        let e = &history.episodes[i];
        if e.tmdb_id == tmdb_id && e.season == season && e.episode == episode {
            return true;
        }
        i = i + 1;
    }
    false
}

/// The watched episodes belonging to one show, in order.
pub fn get_show_watched_episodes(episodes: &Vec<EpisodeHistoryItem>, tmdb_id: u64) -> (r: Vec<
    EpisodeHistoryItem,
>)
    ensures
        ep_views_of(r@) == ep_views_of(episodes@).filter(
            |e: EpisodeHistoryView| e.tmdb_id == tmdb_id,
        ),
{
    let ghost pred = |e: EpisodeHistoryView| e.tmdb_id == tmdb_id;
    let ghost all = ep_views_of(episodes@);
    let mut out: Vec<EpisodeHistoryItem> = Vec::new();
    let mut i: usize = 0;
    proof {
        reveal(Seq::filter);
        assert(ep_views_of(out@) =~= all.subrange(0, 0).filter(pred));
    }
    while i < episodes.len()
        invariant
            i <= episodes@.len(),
            all == ep_views_of(episodes@),
            all.len() == episodes@.len(),
            pred == (|e: EpisodeHistoryView| e.tmdb_id == tmdb_id),
            ep_views_of(out@) == all.subrange(0, i as int).filter(pred),
        decreases episodes@.len() - i,
    {
        let ghost p = all.subrange(0, i as int);
        let ghost ev = all[i as int];
        proof {
            assert(all.subrange(0, i + 1).drop_last() =~= p);
            assert(all.subrange(0, i + 1) =~= p.push(ev));
            p.lemma_filter_push(ev, pred);
            assert(ev == episodes@[i as int]@);
        }
        if episodes[i].tmdb_id == tmdb_id {
            let ghost old_out = ep_views_of(out@);
            let c = episodes[i].clone();
            out.push(c);
            proof {
                assert(ep_views_of(out@) =~= old_out.push(ev));
            }
        }
        i = i + 1;
    }
    proof {
        assert(all.subrange(0, all.len() as int) =~= all);
    }
    out
}

/// The payload that marks one movie watched: a single movie entry whose
/// added-time is left for the server to fill in.
pub fn movie_add_request(tmdb_id: u64, watched_at: Option<String>) -> (r: AddWatchHistoryRequest)
    ensures
        r.episodes is None,
        r.movies matches Some(v) && v@.len() == 1 && v@[0].tmdb_id == tmdb_id && opt_str_view(
            v@[0].timestamp_watched,
        ) == opt_str_view(watched_at) && v@[0].timestamp_added is None,
{
    let mut movies: Vec<MovieWatchEntry> = Vec::new();
    movies.push(
        MovieWatchEntry { tmdb_id, timestamp_watched: watched_at, timestamp_added: None },
    );
    AddWatchHistoryRequest { movies: Some(movies), episodes: None }
}

/// The payload that marks one episode watched.
pub fn episode_add_request(
    tmdb_id: u64,
    season: u32,
    episode: u32,
    watched_at: Option<String>,
) -> (r: AddWatchHistoryRequest)
    ensures
        r.movies is None,
        r.episodes matches Some(v) && v@.len() == 1 && v@[0].tmdb_id == tmdb_id && v@[0].season
            == season && v@[0].episode == episode && opt_str_view(v@[0].timestamp_watched)
            == opt_str_view(watched_at) && v@[0].timestamp_added is None,
{
    let mut episodes: Vec<EpisodeWatchEntry> = Vec::new();
    episodes.push(
        EpisodeWatchEntry {
            tmdb_id,
            season,
            episode,
            timestamp_watched: watched_at,
            timestamp_added: None,
        },
    );
    AddWatchHistoryRequest { movies: None, episodes: Some(episodes) }
}

/// The history endpoint's URL with its optional `limit` and `since` query
/// parameters.
pub open spec fn history_url_spec(
    base: Seq<char>,
    limit: Option<u32>,
    since: Option<Seq<char>>,
) -> Seq<char> {
    let root = base + "/api/history"@;
    match (limit, since) {
        (None, None) => root,
        (Some(l), None) => root + "?"@ + "limit="@ + dec_str(l as int),
        (None, Some(s)) => root + "?"@ + "since="@ + s,
        (Some(l), Some(s)) => root + "?"@ + "limit="@ + dec_str(l as int) + "&"@ + "since="@ + s,
    }
}

/// Build the history endpoint's URL for a fetch.
pub fn history_query_url(base: &str, limit: Option<u32>, since: Option<&str>) -> (r: String)
    ensures
        r@ == history_url_spec(
            base@,
            limit,
            match since {
                Some(s) => Some(s@),
                None => None,
            },
        ),
{
    let mut url = String::from_str(base);
    url.append("/api/history");
    match (limit, since) {
        (None, None) => {},
        (Some(l), None) => {
            url.append("?");
            url.append("limit=");
            url.append(crate::digits::fmt_u64(l as u64).as_str());
        },
        (None, Some(s)) => {
            url.append("?");
            url.append("since=");
            url.append(s);
        },
        (Some(l), Some(s)) => {
            url.append("?");
            url.append("limit=");
            url.append(crate::digits::fmt_u64(l as u64).as_str());
            url.append("&");
            url.append("since=");
            url.append(s);
        },
    }
    url
}

} // verus!
