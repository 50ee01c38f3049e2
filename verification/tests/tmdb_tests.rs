use nacho_media::tmdb::{build_tmdb_image_url, extract_year, get_backdrop_sizes, get_poster_sizes};

#[test]
fn image_urls_point_at_the_cdn() {
    assert_eq!(
        build_tmdb_image_url("/abc.jpg".to_string(), None),
        "https://image.tmdb.org/t/p/original/abc.jpg"
    );
    assert_eq!(
        build_tmdb_image_url("/abc.jpg".to_string(), Some("w500".to_string())),
        "https://image.tmdb.org/t/p/w500/abc.jpg"
    );
}

#[test]
fn size_menus_are_fixed() {
    assert_eq!(
        get_poster_sizes(),
        vec!["w92", "w154", "w185", "w342", "w500", "w780", "original"]
    );
    assert_eq!(get_backdrop_sizes(), vec!["w300", "w780", "w1280", "original"]);
}

#[test]
fn years_come_from_the_date_prefix() {
    assert_eq!(extract_year(&Some("1999-03-31".to_string())), Some(1999));
    assert_eq!(extract_year(&Some("2024-01-01".to_string())), Some(2024));
    assert_eq!(extract_year(&Some("1999".to_string())), Some(1999));
    assert_eq!(extract_year(&Some("0042-12-01".to_string())), Some(42));
}

#[test]
fn bad_dates_yield_no_year() {
    assert_eq!(extract_year(&None), None);
    assert_eq!(extract_year(&Some(String::new())), None);
    assert_eq!(extract_year(&Some("-03-31".to_string())), None);
    assert_eq!(extract_year(&Some("abcd-03-31".to_string())), None);
    assert_eq!(extract_year(&Some("99999999999-01-01".to_string())), None);
}
