use nacho_media::digits::fmt_u64;
use nacho_media::registry::{base_url, get_served_file_url, FileServerState, ServerControl};

#[test]
fn decimal_rendering_is_exact() {
    assert_eq!(fmt_u64(0), "0");
    assert_eq!(fmt_u64(7), "7");
    assert_eq!(fmt_u64(10), "10");
    assert_eq!(fmt_u64(8765), "8765");
    assert_eq!(fmt_u64(123456789), "123456789");
    assert_eq!(fmt_u64(u64::MAX), "18446744073709551615");
}

#[test]
fn registry_holds_the_last_selected_file() {
    let mut state = FileServerState::new();
    assert!(state.get_file().is_none());
    state.set_file("/tmp/a.mp4".to_string());
    assert_eq!(state.get_file().as_deref(), Some("/tmp/a.mp4"));
    state.set_file("/tmp/b.mp4".to_string());
    assert_eq!(state.get_file().as_deref(), Some("/tmp/b.mp4"));
}

#[test]
fn starting_twice_returns_the_same_url_and_spawns_once() {
    let mut control = ServerControl::new();
    let (url1, spawn1) = control.start(8765);
    assert!(spawn1);
    assert_eq!(url1, "http://127.0.0.1:8765");
    let (url2, spawn2) = control.start(8765);
    assert!(!spawn2);
    assert_eq!(url2, url1);
}

#[test]
fn a_running_listener_keeps_its_address_whatever_port_is_asked() {
    let mut control = ServerControl::new();
    let (url1, spawn1) = control.start(8080);
    assert!(spawn1);
    assert_eq!(url1, "http://127.0.0.1:8080");
    let (url2, spawn2) = control.start(9090);
    assert!(!spawn2);
    assert_eq!(url2, "http://127.0.0.1:8080");
    let (url3, spawn3) = control.start(8080);
    assert!(!spawn3);
    assert_eq!(url3, "http://127.0.0.1:8080");
}

#[test]
fn urls_name_the_loopback_port() {
    assert_eq!(base_url(80), "http://127.0.0.1:80");
    assert_eq!(base_url(8765), "http://127.0.0.1:8765");
    assert_eq!(get_served_file_url(8765), "http://127.0.0.1:8765/video.mp4");
    assert_eq!(get_served_file_url(80), "http://127.0.0.1:80/video.mp4");
}
