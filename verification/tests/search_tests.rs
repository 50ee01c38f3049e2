use nacho_media::search::{build_search_query, sort_by_seeders, torrent_result_from_parts};

#[test]
fn titles_win_over_ids() {
    assert_eq!(
        build_search_query("tt0111161", Some("The Shawshank Redemption".to_string())),
        "The Shawshank Redemption"
    );
}

#[test]
fn empty_or_missing_titles_fall_back_to_the_id() {
    assert_eq!(build_search_query("tt0111161", Some(String::new())), "imdbid:0111161");
    assert_eq!(build_search_query("tt0111161", None), "imdbid:0111161");
    assert_eq!(build_search_query("0111161", None), "imdbid:0111161");
    assert_eq!(build_search_query("tttt12", None), "imdbid:12");
    assert_eq!(build_search_query("", None), "imdbid:");
}

#[test]
fn results_need_some_download_source() {
    assert!(torrent_result_from_parts(
        "t".to_string(),
        None,
        None,
        None,
        None,
        None,
        None,
        None
    )
    .is_none());

    let r = torrent_result_from_parts(
        "A Movie".to_string(),
        Some(700),
        Some(12),
        Some(3),
        Some("https://dl.example.test/x.torrent".to_string()),
        Some("magnet:?xt=urn:btih:abc".to_string()),
        Some("SomeIndexer".to_string()),
        Some("2024-01-01".to_string()),
    )
    .expect("kept result");
    assert_eq!(r.title, "A Movie");
    assert_eq!(r.size, 700);
    assert_eq!(r.seeders, 12);
    assert_eq!(r.peers, 3);
    assert_eq!(r.download_url, "https://dl.example.test/x.torrent");
    assert_eq!(r.magnet_url.as_deref(), Some("magnet:?xt=urn:btih:abc"));
    assert_eq!(r.indexer, "SomeIndexer");
    assert_eq!(r.publish_date.as_deref(), Some("2024-01-01"));
}

#[test]
fn magnet_links_stand_in_for_missing_download_urls() {
    let r = torrent_result_from_parts(
        "B".to_string(),
        None,
        None,
        None,
        None,
        Some("magnet:?xt=urn:btih:def".to_string()),
        None,
        None,
    )
    .expect("kept result");
    assert_eq!(r.download_url, "magnet:?xt=urn:btih:def");
    assert_eq!(r.magnet_url.as_deref(), Some("magnet:?xt=urn:btih:def"));
    assert_eq!(r.size, 0);
    assert_eq!(r.seeders, 0);
    assert_eq!(r.peers, 0);
    assert_eq!(r.indexer, "Unknown");
    assert_eq!(r.publish_date, None);
}

fn seeded_result(title: &str, seeders: u32) -> nacho_media::search::TorrentResult {
    nacho_media::search::TorrentResult {
        title: title.to_string(),
        size: 1,
        seeders,
        peers: 0,
        download_url: "u".to_string(),
        magnet_url: None,
        indexer: "i".to_string(),
        publish_date: None,
    }
}

#[test]
fn sorting_orders_by_seeders_descending() {
    let raw = vec![seeded_result("b", 3), seeded_result("a", 10), seeded_result("c", 3), seeded_result("d", 0)];
    let sorted = sort_by_seeders(&raw);
    let order: Vec<(String, u32)> = sorted.iter().map(|r| (r.title.clone(), r.seeders)).collect();
    assert_eq!(order[0], ("a".to_string(), 10));
    assert_eq!(order[3], ("d".to_string(), 0));
    let mut middle: Vec<String> = vec![order[1].0.clone(), order[2].0.clone()];
    middle.sort();
    assert_eq!(middle, vec!["b".to_string(), "c".to_string()]);
    assert_eq!(order[1].1, 3);
    assert_eq!(order[2].1, 3);
}
