use nacho_media::watch::{
    episode_add_request, get_show_watched_episodes, history_query_url, is_episode_watched,
    is_movie_watched, movie_add_request, EpisodeHistoryItem, MovieHistoryItem, WatchHistoryData,
};

fn movie(tmdb_id: u64) -> MovieHistoryItem {
    MovieHistoryItem {
        tmdb_id,
        timestamp_watched: "2024-01-01T00:00:00Z".to_string(),
        timestamp_added: "2024-01-02T00:00:00Z".to_string(),
    }
}

fn episode(tmdb_id: u64, season: u32, ep: u32) -> EpisodeHistoryItem {
    EpisodeHistoryItem {
        tmdb_id,
        season,
        episode: ep,
        timestamp_watched: "2024-01-01T00:00:00Z".to_string(),
        timestamp_added: "2024-01-02T00:00:00Z".to_string(),
    }
}

#[test]
fn movie_membership_is_by_catalog_id() {
    let history = WatchHistoryData {
        movies: vec![movie(1), movie(42)],
        episodes: vec![],
    };
    assert!(is_movie_watched(&history, 42));
    assert!(is_movie_watched(&history, 1));
    assert!(!is_movie_watched(&history, 7));
}

#[test]
fn episode_membership_needs_all_three_coordinates() {
    let history = WatchHistoryData {
        movies: vec![],
        episodes: vec![episode(5, 1, 2), episode(5, 2, 1)],
    };
    assert!(is_episode_watched(&history, 5, 1, 2));
    assert!(is_episode_watched(&history, 5, 2, 1));
    assert!(!is_episode_watched(&history, 5, 1, 1));
    assert!(!is_episode_watched(&history, 6, 1, 2));
}

#[test]
fn show_filter_keeps_only_that_show_in_order() {
    let episodes = vec![episode(5, 1, 1), episode(6, 1, 1), episode(5, 1, 2)];
    let mine = get_show_watched_episodes(&episodes, 5);
    assert_eq!(mine.len(), 2);
    assert_eq!((mine[0].season, mine[0].episode), (1, 1));
    assert_eq!((mine[1].season, mine[1].episode), (1, 2));
    assert!(get_show_watched_episodes(&episodes, 9).is_empty());
}

#[test]
fn add_requests_carry_one_entry() {
    let m = movie_add_request(42, Some("2024-05-05T00:00:00Z".to_string()));
    assert!(m.episodes.is_none());
    let movies = m.movies.expect("one movie entry");
    assert_eq!(movies.len(), 1);
    assert_eq!(movies[0].tmdb_id, 42);
    assert_eq!(movies[0].timestamp_watched.as_deref(), Some("2024-05-05T00:00:00Z"));
    assert!(movies[0].timestamp_added.is_none());

    let e = episode_add_request(5, 2, 9, None);
    assert!(e.movies.is_none());
    let episodes = e.episodes.expect("one episode entry");
    assert_eq!(episodes.len(), 1);
    assert_eq!(episodes[0].tmdb_id, 5);
    assert_eq!(episodes[0].season, 2);
    assert_eq!(episodes[0].episode, 9);
    assert!(episodes[0].timestamp_watched.is_none());
    assert!(episodes[0].timestamp_added.is_none());
}

#[test]
fn history_urls_spell_their_query() {
    assert_eq!(
        history_query_url("https://example.test", None, None),
        "https://example.test/api/history"
    );
    assert_eq!(
        history_query_url("https://example.test", Some(25), None),
        "https://example.test/api/history?limit=25"
    );
    assert_eq!(
        history_query_url("https://example.test", None, Some("2024-01-01")),
        "https://example.test/api/history?since=2024-01-01"
    );
    assert_eq!(
        history_query_url("https://example.test", Some(25), Some("2024-01-01")),
        "https://example.test/api/history?limit=25&since=2024-01-01"
    );
}
