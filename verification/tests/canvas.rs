use prost::bytes::{Buf, BufMut};
use prost::encoding::{self, DecodeContext, WireType};
use prost::{DecodeError, Message};
use spotify_canvas_downloader::spotify::canvas::{
    canvas_request_body, canvas_status_step, decode_canvas_response, CanvasStep,
};
use spotify_canvas_downloader::spotify::SpotifyError;

// The Canvas messages, written out as prost's derive writes them, so that
// bodies can be built and read back by prost itself.

#[derive(Clone, Debug, Default, PartialEq)]
struct Artist {
    uri: String,
    name: String,
    avatar: String,
}

impl Message for Artist {
    fn encode_raw(&self, buf: &mut impl BufMut) {
        if !self.uri.is_empty() {
            encoding::string::encode(1, &self.uri, buf);
        }
        if !self.name.is_empty() {
            encoding::string::encode(2, &self.name, buf);
        }
        if !self.avatar.is_empty() {
            encoding::string::encode(3, &self.avatar, buf);
        }
    }

    fn merge_field(
        &mut self,
        tag: u32,
        wire_type: WireType,
        buf: &mut impl Buf,
        ctx: DecodeContext,
    ) -> Result<(), DecodeError> {
        match tag {
            1 => encoding::string::merge(wire_type, &mut self.uri, buf, ctx),
            2 => encoding::string::merge(wire_type, &mut self.name, buf, ctx),
            3 => encoding::string::merge(wire_type, &mut self.avatar, buf, ctx),
            _ => encoding::skip_field(wire_type, tag, buf, ctx),
        }
    }

    fn encoded_len(&self) -> usize {
        let mut n = 0;
        if !self.uri.is_empty() {
            n += encoding::string::encoded_len(1, &self.uri);
        }
        if !self.name.is_empty() {
            n += encoding::string::encoded_len(2, &self.name);
        }
        if !self.avatar.is_empty() {
            n += encoding::string::encoded_len(3, &self.avatar);
        }
        n
    }

    fn clear(&mut self) {
        *self = Artist::default();
    }
}

#[derive(Clone, Debug, Default, PartialEq)]
struct Canvaz {
    id: String,
    url: String,
    file_id: String,
    kind: i32,
    entity_uri: String,
    artist: Option<Artist>,
    explicit: bool,
    uploaded_by: String,
    etag: String,
    canvas_uri: String,
    storylines_id: String,
}

impl Message for Canvaz {
    fn encode_raw(&self, buf: &mut impl BufMut) {
        for (tag, value) in [
            (1, &self.id),
            (2, &self.url),
            (3, &self.file_id),
        ] {
            if !value.is_empty() {
                encoding::string::encode(tag, value, buf);
            }
        }
        if self.kind != 0 {
            encoding::int32::encode(4, &self.kind, buf);
        }
        if !self.entity_uri.is_empty() {
            encoding::string::encode(5, &self.entity_uri, buf);
        }
        if let Some(artist) = &self.artist {
            encoding::message::encode(6, artist, buf);
        }
        if self.explicit {
            encoding::bool::encode(7, &self.explicit, buf);
        }
        for (tag, value) in [
            (8, &self.uploaded_by),
            (9, &self.etag),
            (11, &self.canvas_uri),
            (12, &self.storylines_id),
        ] {
            if !value.is_empty() {
                encoding::string::encode(tag, value, buf);
            }
        }
    }

    fn merge_field(
        &mut self,
        tag: u32,
        wire_type: WireType,
        buf: &mut impl Buf,
        ctx: DecodeContext,
    ) -> Result<(), DecodeError> {
        match tag {
            1 => encoding::string::merge(wire_type, &mut self.id, buf, ctx),
            2 => encoding::string::merge(wire_type, &mut self.url, buf, ctx),
            3 => encoding::string::merge(wire_type, &mut self.file_id, buf, ctx),
            4 => encoding::int32::merge(wire_type, &mut self.kind, buf, ctx),
            5 => encoding::string::merge(wire_type, &mut self.entity_uri, buf, ctx),
            6 => encoding::message::merge(
                wire_type,
                self.artist.get_or_insert_with(Default::default),
                buf,
                ctx,
            ),
            7 => encoding::bool::merge(wire_type, &mut self.explicit, buf, ctx),
            8 => encoding::string::merge(wire_type, &mut self.uploaded_by, buf, ctx),
            9 => encoding::string::merge(wire_type, &mut self.etag, buf, ctx),
            11 => encoding::string::merge(wire_type, &mut self.canvas_uri, buf, ctx),
            12 => encoding::string::merge(wire_type, &mut self.storylines_id, buf, ctx),
            _ => encoding::skip_field(wire_type, tag, buf, ctx),
        }
    }

    fn encoded_len(&self) -> usize {
        let mut buf = Vec::new();
        self.encode_raw(&mut buf);
        buf.len()
    }

    fn clear(&mut self) {
        *self = Canvaz::default();
    }
}

#[derive(Clone, Debug, Default, PartialEq)]
struct EntityCanvazResponse {
    canvases: Vec<Canvaz>,
    ttl_in_seconds: i64,
}

impl Message for EntityCanvazResponse {
    fn encode_raw(&self, buf: &mut impl BufMut) {
        for canvas in &self.canvases {
            encoding::message::encode(1, canvas, buf);
        }
        if self.ttl_in_seconds != 0 {
            encoding::int64::encode(2, &self.ttl_in_seconds, buf);
        }
    }

    fn merge_field(
        &mut self,
        tag: u32,
        wire_type: WireType,
        buf: &mut impl Buf,
        ctx: DecodeContext,
    ) -> Result<(), DecodeError> {
        match tag {
            1 => encoding::message::merge_repeated(wire_type, &mut self.canvases, buf, ctx),
            2 => encoding::int64::merge(wire_type, &mut self.ttl_in_seconds, buf, ctx),
            _ => encoding::skip_field(wire_type, tag, buf, ctx),
        }
    }

    fn encoded_len(&self) -> usize {
        let mut buf = Vec::new();
        self.encode_raw(&mut buf);
        buf.len()
    }

    fn clear(&mut self) {
        *self = EntityCanvazResponse::default();
    }
}

#[derive(Clone, Debug, Default, PartialEq)]
struct Entity {
    entity_uri: String,
    etag: String,
}

impl Message for Entity {
    fn encode_raw(&self, buf: &mut impl BufMut) {
        if !self.entity_uri.is_empty() {
            encoding::string::encode(1, &self.entity_uri, buf);
        }
        if !self.etag.is_empty() {
            encoding::string::encode(2, &self.etag, buf);
        }
    }

    fn merge_field(
        &mut self,
        tag: u32,
        wire_type: WireType,
        buf: &mut impl Buf,
        ctx: DecodeContext,
    ) -> Result<(), DecodeError> {
        match tag {
            1 => encoding::string::merge(wire_type, &mut self.entity_uri, buf, ctx),
            2 => encoding::string::merge(wire_type, &mut self.etag, buf, ctx),
            _ => encoding::skip_field(wire_type, tag, buf, ctx),
        }
    }

    fn encoded_len(&self) -> usize {
        let mut buf = Vec::new();
        self.encode_raw(&mut buf);
        buf.len()
    }

    fn clear(&mut self) {
        *self = Entity::default();
    }
}

#[derive(Clone, Debug, Default, PartialEq)]
struct EntityCanvazRequest {
    entities: Vec<Entity>,
}

impl Message for EntityCanvazRequest {
    fn encode_raw(&self, buf: &mut impl BufMut) {
        for entity in &self.entities {
            encoding::message::encode(1, entity, buf);
        }
    }

    fn merge_field(
        &mut self,
        tag: u32,
        wire_type: WireType,
        buf: &mut impl Buf,
        ctx: DecodeContext,
    ) -> Result<(), DecodeError> {
        match tag {
            1 => encoding::message::merge_repeated(wire_type, &mut self.entities, buf, ctx),
            _ => encoding::skip_field(wire_type, tag, buf, ctx),
        }
    }

    fn encoded_len(&self) -> usize {
        let mut buf = Vec::new();
        self.encode_raw(&mut buf);
        buf.len()
    }

    fn clear(&mut self) {
        *self = EntityCanvazRequest::default();
    }
}

/// What prost makes of a body: the first Canvaz URL that is not empty.
fn prost_first_url(body: &[u8]) -> Result<Option<String>, ()> {
    let response = EntityCanvazResponse::decode(body).map_err(|_| ())?;
    Ok(response
        .canvases
        .into_iter()
        .map(|canvas| canvas.url)
        .find(|url| !url.is_empty()))
}

fn ours(body: &[u8]) -> Result<Option<String>, ()> {
    match decode_canvas_response(body) {
        Ok(url) => Ok(url),
        Err(SpotifyError::Protobuf(_)) => Err(()),
        Err(other) => panic!("unexpected error {other:?}"),
    }
}

#[test]
fn decodes_first_non_empty_canvas_url() {
    let body = EntityCanvazResponse {
        canvases: vec![
            Canvaz::default(),
            Canvaz {
                url: "https://canvas.scdn.co/example.mp4".into(),
                ..Default::default()
            },
        ],
        ttl_in_seconds: 60,
    }
    .encode_to_vec();

    assert_eq!(
        decode_canvas_response(&body).unwrap().as_deref(),
        Some("https://canvas.scdn.co/example.mp4")
    );
}

#[test]
fn rejects_malformed_protobuf() {
    assert!(decode_canvas_response(&[0xff, 0xff]).is_err());
}

#[test]
fn returns_none_without_a_usable_canvas_url() {
    let body = EntityCanvazResponse {
        canvases: vec![Canvaz::default()],
        ttl_in_seconds: 0,
    }
    .encode_to_vec();

    assert_eq!(decode_canvas_response(&body).unwrap(), None);
}

#[test]
fn empty_body_has_no_canvas() {
    assert_eq!(decode_canvas_response(&[]).unwrap(), None);
}

#[test]
fn malformed_body_is_a_protobuf_error() {
    assert!(matches!(
        decode_canvas_response(&[0x0a, 0x05, 0x12]),
        Err(SpotifyError::Protobuf(_))
    ));
}

fn full_canvas(url: &str) -> Canvaz {
    Canvaz {
        id: "id".into(),
        url: url.into(),
        file_id: "file".into(),
        kind: 3,
        entity_uri: "spotify:track:2qSkIjg1o9h3YT9RAgYN75".into(),
        artist: Some(Artist {
            uri: "spotify:artist:x".into(),
            name: "Name".into(),
            avatar: "https://i.scdn.co/a".into(),
        }),
        explicit: true,
        uploaded_by: "me".into(),
        etag: "e".into(),
        canvas_uri: "spotify:canvas:y".into(),
        storylines_id: "s".into(),
    }
}

#[test]
fn reads_every_field_of_a_full_response() {
    let body = EntityCanvazResponse {
        canvases: vec![full_canvas(""), full_canvas("https://b"), full_canvas("https://c")],
        ttl_in_seconds: -7,
    }
    .encode_to_vec();
    assert_eq!(ours(&body), Ok(Some("https://b".to_owned())));
    assert_eq!(ours(&body), prost_first_url(&body));
}

#[test]
fn last_url_of_a_canvaz_wins() {
    let mut inner = Vec::new();
    encoding::string::encode(2, &"https://first".to_owned(), &mut inner);
    encoding::string::encode(2, &"https://second".to_owned(), &mut inner);
    let mut body = Vec::new();
    encoding::encode_key(1, WireType::LengthDelimited, &mut body);
    encoding::encode_varint(inner.len() as u64, &mut body);
    body.extend_from_slice(&inner);
    assert_eq!(ours(&body), Ok(Some("https://second".to_owned())));
    assert_eq!(ours(&body), prost_first_url(&body));
}

#[test]
fn skips_unknown_fields_and_groups() {
    let mut body = Vec::new();
    encoding::encode_key(20, WireType::Varint, &mut body);
    encoding::encode_varint(300, &mut body);
    encoding::encode_key(21, WireType::SixtyFourBit, &mut body);
    body.extend_from_slice(&[1, 2, 3, 4, 5, 6, 7, 8]);
    encoding::encode_key(22, WireType::ThirtyTwoBit, &mut body);
    body.extend_from_slice(&[1, 2, 3, 4]);
    encoding::encode_key(23, WireType::StartGroup, &mut body);
    encoding::encode_key(1, WireType::Varint, &mut body);
    encoding::encode_varint(5, &mut body);
    encoding::encode_key(23, WireType::EndGroup, &mut body);
    EntityCanvazResponse {
        canvases: vec![full_canvas("https://u")],
        ttl_in_seconds: 1,
    }
    .encode_raw(&mut body);
    assert_eq!(ours(&body), Ok(Some("https://u".to_owned())));
    assert_eq!(ours(&body), prost_first_url(&body));
}

#[test]
fn rejects_mismatched_end_group() {
    let mut body = Vec::new();
    encoding::encode_key(23, WireType::StartGroup, &mut body);
    encoding::encode_key(24, WireType::EndGroup, &mut body);
    assert_eq!(ours(&body), Err(()));
    assert_eq!(prost_first_url(&body), Err(()));
}

#[test]
fn rejects_groups_nested_too_deep() {
    for depth in [99usize, 100, 101] {
        let mut body = Vec::new();
        for _ in 0..depth {
            encoding::encode_key(5, WireType::StartGroup, &mut body);
        }
        for _ in 0..depth {
            encoding::encode_key(5, WireType::EndGroup, &mut body);
        }
        assert_eq!(ours(&body), prost_first_url(&body), "depth {depth}");
    }
}

#[test]
fn rejects_invalid_utf8_and_wrong_wire_types() {
    let mut inner = Vec::new();
    encoding::encode_key(2, WireType::LengthDelimited, &mut inner);
    encoding::encode_varint(2, &mut inner);
    inner.extend_from_slice(&[0xc3, 0x28]);
    let mut body = Vec::new();
    encoding::encode_key(1, WireType::LengthDelimited, &mut body);
    encoding::encode_varint(inner.len() as u64, &mut body);
    body.extend_from_slice(&inner);
    assert_eq!(ours(&body), Err(()));
    assert_eq!(prost_first_url(&body), Err(()));

    let mut body = Vec::new();
    encoding::encode_key(2, WireType::LengthDelimited, &mut body);
    encoding::encode_varint(0, &mut body);
    assert_eq!(ours(&body), Err(()));
    assert_eq!(prost_first_url(&body), Err(()));
}

#[test]
fn agrees_with_prost_on_many_mutated_bodies() {
    let seed_bodies: Vec<Vec<u8>> = vec![
        EntityCanvazResponse {
            canvases: vec![full_canvas("https://a"), Canvaz::default()],
            ttl_in_seconds: 99,
        }
        .encode_to_vec(),
        EntityCanvazResponse {
            canvases: vec![Canvaz::default(), full_canvas("https://é")],
            ttl_in_seconds: 0,
        }
        .encode_to_vec(),
    ];
    let mut state: u64 = 0x9e37_79b9_7f4a_7c15;
    let mut next = move || {
        state ^= state << 13;
        state ^= state >> 7;
        state ^= state << 17;
        state
    };
    let mut agreed_ok = 0;
    for round in 0..4000 {
        let mut body = seed_bodies[round % seed_bodies.len()].clone();
        let edits = 1 + (next() % 3) as usize;
        for _ in 0..edits {
            if body.is_empty() {
                break;
            }
            let at = (next() % body.len() as u64) as usize;
            match next() % 3 {
                0 => body[at] = next() as u8,
                1 => body.truncate(at),
                _ => body.insert(at, next() as u8),
            }
        }
        let expected = prost_first_url(&body);
        if expected.is_ok() {
            agreed_ok += 1;
        }
        assert_eq!(ours(&body), expected, "body {body:?}");
    }
    assert!(agreed_ok > 0);
}

#[test]
fn request_body_is_what_prost_encodes() {
    for track_id in ["2qSkIjg1o9h3YT9RAgYN75", "", "not-a-track", "ü"] {
        let expected = EntityCanvazRequest {
            entities: vec![Entity {
                entity_uri: format!("spotify:track:{track_id}"),
                etag: String::new(),
            }],
        }
        .encode_to_vec();
        assert_eq!(canvas_request_body(track_id), expected);
    }
    let long = "x".repeat(300);
    let expected = EntityCanvazRequest {
        entities: vec![Entity {
            entity_uri: format!("spotify:track:{long}"),
            etag: String::new(),
        }],
    }
    .encode_to_vec();
    assert_eq!(canvas_request_body(&long), expected);
}

#[test]
fn request_body_decodes_to_the_track_uri() {
    let body = canvas_request_body("2qSkIjg1o9h3YT9RAgYN75");
    let request = EntityCanvazRequest::decode(body.as_slice()).unwrap();
    assert_eq!(request.entities.len(), 1);
    assert_eq!(
        request.entities[0].entity_uri,
        "spotify:track:2qSkIjg1o9h3YT9RAgYN75"
    );
    assert_eq!(request.entities[0].etag, "");
}

#[test]
fn first_unauthorized_answer_refreshes_the_token() {
    assert!(matches!(
        canvas_status_step(401, false, None),
        CanvasStep::RefreshToken
    ));
    assert!(matches!(
        canvas_status_step(401, true, None),
        CanvasStep::Fail(SpotifyError::Upstream(401))
    ));
}

#[test]
fn canvas_status_maps_rate_limits_and_failures() {
    match canvas_status_step(429, false, Some("12".to_owned())) {
        CanvasStep::Fail(SpotifyError::RateLimited(Some(delay))) => assert_eq!(delay, "12"),
        other => panic!("unexpected {other:?}"),
    }
    assert!(matches!(
        canvas_status_step(500, true, None),
        CanvasStep::Fail(SpotifyError::Upstream(500))
    ));
    assert!(matches!(canvas_status_step(200, false, None), CanvasStep::ReadBody));
    assert!(matches!(canvas_status_step(204, true, None), CanvasStep::ReadBody));
}
