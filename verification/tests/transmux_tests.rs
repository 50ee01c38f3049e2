use nacho_media::transmux::{generate_output_path, get_transmux_output_path, needs_transmux};

#[test]
fn containers_other_than_mp4_need_remuxing() {
    assert!(needs_transmux("/tmp/video.mkv".to_string()));
    assert!(needs_transmux("/tmp/video.avi".to_string()));
    assert!(needs_transmux("/tmp/video.webm".to_string()));
}

#[test]
fn mp4_in_any_case_is_left_alone() {
    assert!(!needs_transmux("/tmp/video.mp4".to_string()));
    assert!(!needs_transmux("/tmp/video.MP4".to_string()));
    assert!(!needs_transmux("/tmp/video.Mp4".to_string()));
}

#[test]
fn files_without_an_extension_are_left_alone() {
    assert!(!needs_transmux("/tmp/video".to_string()));
    assert!(!needs_transmux("/tmp/.hidden".to_string()));
}

#[test]
fn output_path_replaces_the_extension() {
    assert_eq!(generate_output_path("/tmp/video.mkv").unwrap(), "/tmp/video.mp4");
    assert_eq!(generate_output_path("video.mkv").unwrap(), "video.mp4");
    assert_eq!(generate_output_path("/a/b/c.tar.gz").unwrap(), "/a/b/c.tar.mp4");
    assert_eq!(generate_output_path("/tmp/noext").unwrap(), "/tmp/noext.mp4");
    assert_eq!(generate_output_path("/tmp/.hidden").unwrap(), "/tmp/.hidden.mp4");
}

#[test]
fn paths_without_a_final_component_are_rejected() {
    assert_eq!(generate_output_path("").unwrap_err(), "Cannot get file stem");
    assert_eq!(generate_output_path("/").unwrap_err(), "Cannot get file stem");
    assert_eq!(generate_output_path("/a/b/").unwrap_err(), "Cannot get file stem");
}

#[test]
fn the_public_wrapper_prefixes_its_error() {
    assert_eq!(
        get_transmux_output_path("/tmp/show.mkv".to_string()).unwrap(),
        "/tmp/show.mp4"
    );
    assert_eq!(
        get_transmux_output_path("/".to_string()).unwrap_err(),
        "Failed to generate output path: Cannot get file stem"
    );
}
