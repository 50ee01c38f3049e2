use nacho_media::index::{TorrentDb, TorrentEntry, TorrentWithImdb, TorrentWithMetadata};

fn entry(id: i32, hash: &str, tmdb: Option<u64>, kind: Option<&str>) -> TorrentEntry {
    TorrentEntry {
        torrent_id: id,
        info_hash: hash.to_string(),
        tmdb_id: tmdb,
        media_type: kind.map(|k| k.to_string()),
        created_at: 100,
        updated_at: 100,
        episode_info: None,
        imdb_code: None,
    }
}

#[test]
fn upsert_then_get_round_trip() {
    let mut db = TorrentDb::new();
    db.upsert_torrent_at(7, "h1".to_string(), Some(42), Some("movie".to_string()), None, 1000);
    let e = db.get_by_hash("h1").expect("inserted entry");
    assert_eq!(e.torrent_id, 7);
    assert_eq!(e.info_hash, "h1");
    assert_eq!(e.tmdb_id, Some(42));
    assert_eq!(e.media_type.as_deref(), Some("movie"));
    assert_eq!(e.episode_info, None);
    assert_eq!(e.created_at, 1000);
    assert_eq!(e.updated_at, 1000);
    assert_eq!(e.imdb_code, None);
    assert!(db.get_by_hash("h2").is_none());
}

#[test]
fn second_upsert_with_only_an_id_merges() {
    let mut db = TorrentDb::new();
    db.upsert_torrent_at(1, "abc".to_string(), Some(42), Some("movie".to_string()), None, 1000);
    db.upsert_torrent_at(2, "abc".to_string(), None, None, None, 2000);
    assert_eq!(db.count(), 1);
    let e = db.get_by_hash("abc").expect("merged entry");
    assert_eq!(e.torrent_id, 2);
    assert_eq!(e.tmdb_id, Some(42));
    assert_eq!(e.media_type.as_deref(), Some("movie"));
    assert_eq!(e.created_at, 1000);
    assert_eq!(e.updated_at, 2000);
}

#[test]
fn upsert_overwrites_only_present_fields() {
    let mut db = TorrentDb::new();
    db.upsert_torrent_at(1, "s1".to_string(), None, Some("tv".to_string()), Some((1, 2)), 10);
    db.upsert_torrent_at(3, "s1".to_string(), Some(9), None, Some((1, 3)), 20);
    let e = db.get_by_hash("s1").expect("entry");
    assert_eq!(e.torrent_id, 3);
    assert_eq!(e.tmdb_id, Some(9));
    assert_eq!(e.media_type.as_deref(), Some("tv"));
    assert_eq!(e.episode_info, Some((1, 3)));
    assert_eq!(e.created_at, 10);
    assert_eq!(e.updated_at, 20);
}

#[test]
fn upsert_with_wall_clock_stamps_both_timestamps() {
    let mut db = TorrentDb::new();
    db.upsert_torrent(5, "w1".to_string(), None, None, None);
    let e = db.get_by_hash("w1").expect("entry");
    assert_eq!(e.torrent_id, 5);
    assert_eq!(e.created_at, e.updated_at);
    assert!(e.created_at > 0);
}

#[test]
fn sync_removes_exactly_the_stale_entries() {
    let mut db = TorrentDb::new();
    db.upsert_torrent_at(1, "hash1".to_string(), Some(1), None, None, 1);
    db.upsert_torrent_at(2, "hash2".to_string(), Some(2), None, None, 2);
    db.upsert_torrent_at(3, "hash3".to_string(), Some(3), None, None, 3);
    let active = vec!["hash1".to_string(), "hash3".to_string()];
    let changed = db.sync_with_torrent_list(&active);
    assert!(changed);
    assert_eq!(db.count(), 2);
    assert!(db.get_by_hash("hash1").is_some());
    assert!(db.get_by_hash("hash2").is_none());
    assert!(db.get_by_hash("hash3").is_some());
    let unchanged = db.sync_with_torrent_list(&active);
    assert!(!unchanged);
    assert_eq!(db.count(), 2);
}

#[test]
fn remove_by_hash_reports_changes() {
    let mut db = TorrentDb::new();
    db.upsert_torrent_at(1, "r1".to_string(), None, None, None, 1);
    assert!(db.remove_by_hash("r1"));
    assert_eq!(db.count(), 0);
    assert!(!db.remove_by_hash("r1"));
}

#[test]
fn remove_by_id_takes_the_first_match() {
    let mut db = TorrentDb::new();
    db.upsert_torrent_at(1, "a".to_string(), None, None, None, 1);
    db.upsert_torrent_at(2, "b".to_string(), None, None, None, 2);
    assert!(db.remove_by_id(1));
    assert_eq!(db.count(), 1);
    assert!(db.get_by_hash("a").is_none());
    assert!(db.get_by_hash("b").is_some());
    assert!(!db.remove_by_id(99));
}

#[test]
fn get_by_id_scans_for_the_engine_id() {
    let mut db = TorrentDb::new();
    db.upsert_torrent_at(10, "x".to_string(), None, None, None, 1);
    db.upsert_torrent_at(20, "y".to_string(), None, None, None, 2);
    assert_eq!(db.get_by_id(20).map(|e| e.info_hash), Some("y".to_string()));
    assert!(db.get_by_id(30).is_none());
}

#[test]
fn tagged_lookups_filter_by_id_and_kind() {
    let mut db = TorrentDb::new();
    db.upsert_torrent_at(1, "m1".to_string(), Some(42), Some("movie".to_string()), None, 1);
    db.upsert_torrent_at(2, "m2".to_string(), Some(42), Some("tv".to_string()), None, 2);
    db.upsert_torrent_at(3, "m3".to_string(), None, None, None, 3);
    db.upsert_torrent_at(4, "m4".to_string(), Some(7), Some("movie".to_string()), None, 4);

    assert_eq!(db.get_tmdb_id("m1"), Some(42));
    assert_eq!(db.get_tmdb_id("m3"), None);
    assert_eq!(db.get_tmdb_id("nope"), None);

    let with_tmdb = db.get_all_with_tmdb();
    assert_eq!(with_tmdb.len(), 3);

    let movies42 = db.get_by_tmdb_id(42, "movie");
    assert_eq!(movies42.len(), 1);
    assert_eq!(movies42[0].info_hash, "m1");

    let pairs = db.get_all_library_tmdb_ids();
    assert_eq!(
        pairs,
        vec![
            (42, "movie".to_string()),
            (42, "tv".to_string()),
            (7, "movie".to_string())
        ]
    );
}

#[test]
fn deprecated_imdb_views_come_from_loaded_documents() {
    let mut loaded = vec![entry(1, "i1", None, None), entry(2, "i2", None, None)];
    loaded[0].imdb_code = Some("tt0111161".to_string());
    let db = TorrentDb::from_entries(loaded);
    assert_eq!(db.get_imdb_code("i1").as_deref(), Some("tt0111161"));
    assert_eq!(db.get_imdb_code("i2"), None);
    assert_eq!(db.get_all_with_imdb().len(), 1);
    assert_eq!(db.get_all_library_imdb_codes(), vec!["tt0111161".to_string()]);
    assert_eq!(db.get_by_imdb_code("tt0111161").len(), 1);
    assert_eq!(db.get_by_imdb_code("tt0000000").len(), 0);
}

#[test]
fn from_entries_keeps_the_first_record_per_hash() {
    let loaded = vec![
        entry(1, "dup", Some(1), None),
        entry(2, "other", Some(2), None),
        entry(3, "dup", Some(3), None),
    ];
    let db = TorrentDb::from_entries(loaded);
    assert_eq!(db.count(), 2);
    let e = db.get_by_hash("dup").expect("kept record");
    assert_eq!(e.torrent_id, 1);
    assert_eq!(e.tmdb_id, Some(1));
}

#[test]
fn metadata_accessors_project_the_record() {
    let mut db = TorrentDb::new();
    db.upsert_torrent_at(1, "t1".to_string(), Some(8), Some("tv".to_string()), Some((2, 5)), 1);
    let m = db.get_torrent_metadata("t1").expect("metadata");
    assert_eq!(m.tmdb_id, Some(8));
    assert_eq!(m.media_type.as_deref(), Some("tv"));
    assert_eq!(m.episode_info, Some((2, 5)));
    assert!(db.get_torrent_metadata("t2").is_none());

    assert_eq!(db.get_torrent_tmdb_id("t1"), Some((8, "tv".to_string())));
    db.upsert_torrent_at(2, "t2".to_string(), Some(9), None, None, 2);
    assert_eq!(db.get_torrent_tmdb_id("t2"), None);
}

#[test]
fn joined_records_carry_the_engine_name() {
    let e = entry(4, "j1", Some(11), Some("movie"));
    let with_meta = TorrentWithMetadata::from_entry(&e, Some("A Movie".to_string()));
    assert_eq!(with_meta.torrent_id, 4);
    assert_eq!(with_meta.info_hash, "j1");
    assert_eq!(with_meta.tmdb_id, Some(11));
    assert_eq!(with_meta.media_type.as_deref(), Some("movie"));
    assert_eq!(with_meta.name.as_deref(), Some("A Movie"));

    let with_imdb = TorrentWithImdb::from_entry(&e, None);
    assert_eq!(with_imdb.torrent_id, 4);
    assert_eq!(with_imdb.info_hash, "j1");
    assert_eq!(with_imdb.imdb_code, None);
    assert_eq!(with_imdb.name, None);
}

#[test]
fn get_all_returns_every_record() {
    let mut db = TorrentDb::new();
    db.upsert_torrent_at(1, "g1".to_string(), None, None, None, 1);
    db.upsert_torrent_at(2, "g2".to_string(), None, None, None, 2);
    let all = db.get_all();
    assert_eq!(all.len(), 2);
    assert_eq!(all[0].info_hash, "g1");
    assert_eq!(all[1].info_hash, "g2");
}
