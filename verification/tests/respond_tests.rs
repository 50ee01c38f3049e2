use nacho_media::respond::{
    common_headers, content_range_value, content_type_for, failure_status, plan_body,
    preflight_headers, BodyPlan, ServeFailure, Transfer, PREFLIGHT_STATUS, STREAMING_THRESHOLD,
};

#[test]
fn tiny_probe_range_is_buffered() {
    let plan = plan_body(1000, Some("bytes=0-1"));
    assert_eq!(
        plan,
        BodyPlan::Partial { start: 0, end: 1, transfer: Transfer::Buffered }
    );
    assert_eq!(plan.status(), 206);
    assert_eq!(plan.content_length(1000), 2);
    assert_eq!(content_range_value(0, 1, 1000), "bytes 0-1/1000");
}

#[test]
fn large_range_is_streamed() {
    let plan = plan_body(50_000_000, Some("bytes=0-11999999"));
    assert_eq!(
        plan,
        BodyPlan::Partial { start: 0, end: 11_999_999, transfer: Transfer::Streamed }
    );
    assert_eq!(plan.status(), 206);
    assert_eq!(plan.content_length(50_000_000), 12_000_000);
}

#[test]
fn threshold_boundary_splits_buffered_and_streamed() {
    let size = 50_000_000;
    let at = plan_body(size, Some("bytes=0-10485759"));
    assert_eq!(
        at,
        BodyPlan::Partial { start: 0, end: STREAMING_THRESHOLD - 1, transfer: Transfer::Buffered }
    );
    let above = plan_body(size, Some("bytes=0-10485760"));
    assert_eq!(
        above,
        BodyPlan::Partial { start: 0, end: STREAMING_THRESHOLD, transfer: Transfer::Streamed }
    );
}

#[test]
fn inverted_range_degrades_to_full_file() {
    let plan = plan_body(1000, Some("bytes=500-100"));
    assert_eq!(plan, BodyPlan::Full);
    assert_eq!(plan.status(), 200);
    assert_eq!(plan.content_length(1000), 1000);
}

#[test]
fn missing_or_malformed_headers_degrade_to_full_file() {
    assert_eq!(plan_body(1000, None), BodyPlan::Full);
    assert_eq!(plan_body(1000, Some("0-1")), BodyPlan::Full);
    assert_eq!(plan_body(1000, Some("items=0-1")), BodyPlan::Full);
    assert_eq!(plan_body(1000, Some("bytes=")), BodyPlan::Full);
    assert_eq!(plan_body(1000, Some("bytes=zz")), BodyPlan::Full);
    assert_eq!(plan_body(1000, Some("bytes=0-2000")), BodyPlan::Full);
}

#[test]
fn content_type_depends_on_extension() {
    assert_eq!(content_type_for("/tmp/movie.mp4"), "video/mp4");
    assert_eq!(content_type_for("movie.mp4"), "video/mp4");
    assert_eq!(content_type_for("/tmp/movie.mkv"), "application/octet-stream");
    assert_eq!(content_type_for("/tmp/movie.MP4"), "application/octet-stream");
    assert_eq!(content_type_for("noextension"), "application/octet-stream");
    assert_eq!(content_type_for(".mp4"), "application/octet-stream");
}

#[test]
fn common_headers_cover_cors_and_caching() {
    let h = common_headers("video/mp4");
    assert_eq!(h.len(), 8);
    assert_eq!(h[0], ("content-type".to_string(), "video/mp4".to_string()));
    assert_eq!(h[1], ("accept-ranges".to_string(), "bytes".to_string()));
    assert_eq!(h[2], ("cache-control".to_string(), "public, max-age=3600".to_string()));
    assert_eq!(
        h[3],
        (
            "vary".to_string(),
            "origin, access-control-request-method, access-control-request-headers".to_string()
        )
    );
    assert_eq!(h[4], ("access-control-allow-origin".to_string(), "*".to_string()));
    assert_eq!(h[5], ("access-control-allow-methods".to_string(), "GET, HEAD, OPTIONS".to_string()));
    assert_eq!(h[6], ("access-control-allow-headers".to_string(), "range, content-type".to_string()));
    assert_eq!(
        h[7],
        (
            "access-control-expose-headers".to_string(),
            "content-length, content-range, accept-ranges".to_string()
        )
    );
}

#[test]
fn preflight_is_fixed() {
    assert_eq!(PREFLIGHT_STATUS, 204);
    let h = preflight_headers();
    assert_eq!(h.len(), 4);
    assert_eq!(h[0], ("access-control-allow-origin".to_string(), "*".to_string()));
    assert_eq!(h[1], ("access-control-allow-methods".to_string(), "GET, HEAD, OPTIONS".to_string()));
    assert_eq!(h[2], ("access-control-allow-headers".to_string(), "range, content-type".to_string()));
    assert_eq!(h[3], ("access-control-max-age".to_string(), "86400".to_string()));
}

#[test]
fn content_range_values_render_in_decimal() {
    assert_eq!(content_range_value(0, 0, 1), "bytes 0-0/1");
    assert_eq!(
        content_range_value(123, 4567, 89000),
        "bytes 123-4567/89000"
    );
    assert_eq!(
        content_range_value(u64::MAX - 1, u64::MAX, u64::MAX),
        format!("bytes {}-{}/{}", u64::MAX - 1, u64::MAX, u64::MAX)
    );
}

#[test]
fn failures_map_to_not_found_or_server_error() {
    assert_eq!(failure_status(ServeFailure::NoActiveFile), 404);
    assert_eq!(failure_status(ServeFailure::OpenFailed), 404);
    assert_eq!(failure_status(ServeFailure::MetadataFailed), 500);
    assert_eq!(failure_status(ServeFailure::ReadFailed), 500);
}
