use spotify_canvas_downloader::api::{
    canvas_reply, check_track_id, cors_origins, health, is_valid_track_id,
};
use spotify_canvas_downloader::error::{error_reply, AppError};
use spotify_canvas_downloader::spotify::SpotifyError;

const TRACK_ID: &str = "2qSkIjg1o9h3YT9RAgYN75";

#[test]
fn validates_spotify_track_ids() {
    assert!(is_valid_track_id("2qSkIjg1o9h3YT9RAgYN75"));
    assert!(!is_valid_track_id("short"));
    assert!(!is_valid_track_id("2qSkIjg1o9h3YT9RAgYN7-"));
}

#[test]
fn track_ids_count_bytes_not_characters() {
    assert!(!is_valid_track_id("2qSkIjg1o9h3YT9RAgYN7é"));
    assert!(!is_valid_track_id("2qSkIjg1o9h3YT9RAgYN75a"));
    assert!(!is_valid_track_id(""));
    assert!(is_valid_track_id("0000000000zzzzzzzzZZZZ"));
}

#[test]
fn resolves_a_canvas_url() {
    assert!(check_track_id(TRACK_ID).is_ok());
    let reply = canvas_reply(Ok(Some("https://canvas.scdn.co/example.mp4".into()))).unwrap();
    assert!(reply.success);
    assert_eq!(reply.canvas_url, "https://canvas.scdn.co/example.mp4");
}

#[test]
fn maps_missing_canvas_to_not_found() {
    let error = canvas_reply(Ok(None)).unwrap_err();
    let reply = error_reply(error);
    assert_eq!(reply.status, 404);
    assert!(!reply.success);
    assert_eq!(reply.code, "canvas_not_found");
}

#[test]
fn rejects_invalid_track_before_lookup() {
    let error = check_track_id("not-a-track").unwrap_err();
    let reply = error_reply(error);
    assert_eq!(reply.status, 400);
    assert_eq!(reply.code, "invalid_track_id");
    assert_eq!(
        reply.message,
        "Track ID must contain exactly 22 base62 characters"
    );
}

#[test]
fn maps_authentication_failures() {
    let error = canvas_reply(Err(SpotifyError::Authentication("invalid".into()))).unwrap_err();
    let reply = error_reply(error);
    assert_eq!(reply.status, 502);
    assert_eq!(reply.code, "spotify_auth_failed");
}

#[test]
fn propagates_spotify_rate_limit_delay() {
    let error = canvas_reply(Err(SpotifyError::RateLimited(Some("12".into())))).unwrap_err();
    let reply = error_reply(error);
    assert_eq!(reply.status, 503);
    assert_eq!(reply.retry_after.as_deref(), Some("12"));
    assert_eq!(reply.code, "spotify_rate_limited");
}

#[test]
fn maps_other_upstream_failures() {
    for failure in [
        SpotifyError::Upstream(502),
        SpotifyError::Http("timeout".into()),
        SpotifyError::Protobuf(spotify_canvas_downloader::spotify::ProtobufError),
    ] {
        let reply = error_reply(AppError::from(failure));
        assert_eq!(reply.status, 502);
        assert_eq!(reply.code, "spotify_upstream_error");
        assert_eq!(reply.retry_after, None);
    }
}

#[test]
fn invalid_retry_after_is_not_sent() {
    let reply = error_reply(AppError::Spotify(SpotifyError::RateLimited(Some("1\n2".into()))));
    assert_eq!(reply.status, 503);
    assert_eq!(reply.retry_after, None);
    let reply = error_reply(AppError::Spotify(SpotifyError::RateLimited(None)));
    assert_eq!(reply.retry_after, None);
}

#[test]
fn health_is_local_and_structured() {
    assert_eq!(health().status, "up");
}

#[test]
fn cors_origins_add_host_once() {
    assert_eq!(cors_origins(false, None).unwrap(), Vec::<String>::new());
    assert_eq!(
        cors_origins(true, None).unwrap(),
        vec!["http://localhost:3000".to_owned()]
    );
    assert_eq!(
        cors_origins(true, Some("http://localhost:3000")).unwrap(),
        vec!["http://localhost:3000".to_owned()]
    );
    assert_eq!(
        cors_origins(true, Some("https://example.test")).unwrap(),
        vec!["http://localhost:3000".to_owned(), "https://example.test".to_owned()]
    );
    assert!(cors_origins(false, Some("bad\norigin")).is_none());
}
