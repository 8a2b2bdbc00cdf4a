//! The HTTP server of a session's live port: playlists and FLV streams.
//!
//! | Path                   | Content                         |
//! |------------------------|---------------------------------|
//! | `/live/playlist1.json` | playlist of the video stream    |
//! | `/live/playlist2.json` | playlist of the audio stream    |
//! | `/live/stream1.flv`    | video stream                    |
//! | `/live/stream2.flv`    | audio stream                    |
//! | `/`                    | a line that says it is running  |

use vstd::prelude::*;

use crate::audio::flv::{audio_header, flv_audio_header};
use crate::text::{decimal, push_decimal, same_str};
use crate::video::flv_muxer::{flv_header, video_header};
use crate::video::{allowed, header_text, VideoServer};

verus! {

/// Method of a request.
#[derive(Debug, Clone, Copy, PartialEq, Eq, Structural)]
pub enum Method {
    Get,
    Options,
    Other,
}

/// Body of a response.
#[derive(Debug, Clone)]
pub enum ReplyBody {
    /// A text.
    Text(String),
    /// The tags of the video stream, behind this header.
    VideoStream(Vec<u8>),
    /// The tags of the audio stream, behind this header.
    AudioStream(Vec<u8>),
}

/// A response.
#[derive(Debug, Clone)]
pub struct Reply {
    /// Status code.
    pub status: u16,
    /// Header fields, in order.
    pub headers: Vec<(String, String)>,
    /// Body.
    pub body: ReplyBody,
}

/// What a `ReplyBody` holds.
pub enum BodyView {
    Text(Seq<char>),
    VideoStream(Seq<u8>),
    AudioStream(Seq<u8>),
}

/// What a `Reply` holds.
#[verifier::ext_equal]
pub struct ReplyView {
    pub status: u16,
    pub headers: Seq<(Seq<char>, Seq<char>)>,
    pub body: BodyView,
}

/// The characters of the header fields.
pub open spec fn field_texts(headers: Seq<(String, String)>) -> Seq<(Seq<char>, Seq<char>)> {
    headers.map_values(|h: (String, String)| (h.0@, h.1@))
}

impl View for ReplyBody {
    type V = BodyView;

    open spec fn view(&self) -> BodyView {
        match self {
            ReplyBody::Text(s) => BodyView::Text(s@),
            ReplyBody::VideoStream(h) => BodyView::VideoStream(h@),
            ReplyBody::AudioStream(h) => BodyView::AudioStream(h@),
        }
    }
}

impl View for Reply {
    type V = ReplyView;

    open spec fn view(&self) -> ReplyView {
        ReplyView {
            status: self.status,
            headers: field_texts(self.headers@),
            body: self.body@,
        }
    }
}

// ---------------------------------------------------------------------------
// Header fields
// ---------------------------------------------------------------------------

/// The header fields behind `front`: no caching, and for a page that may read
/// the response, its own origin, never all origins.
pub open spec fn with_cors(
    front: Seq<(Seq<char>, Seq<char>)>,
    origin: Option<Seq<char>>,
) -> Seq<(Seq<char>, Seq<char>)> {
    let uncached = front.push(("Cache-Control"@, "no-cache"@));
    match origin {
        Some(o) => uncached.push(("Access-Control-Allow-Origin"@, o)).push(
            ("Access-Control-Allow-Methods"@, "GET, OPTIONS"@),
        ),
        None => uncached,
    }
}

fn push_field(headers: &mut Vec<(String, String)>, name: &str, value: &str)
    ensures
        field_texts(final(headers)@) == field_texts(old(headers)@).push((name@, value@)),
{
    headers.push((name.to_owned(), value.to_owned()));
    assert(field_texts(headers@) =~= field_texts(old(headers)@).push((name@, value@)));
}

/// Appends the header fields against caching and about the page that may read
/// the response.
pub fn cors(headers: &mut Vec<(String, String)>, origin_header: Option<&str>)
    ensures
        field_texts(final(headers)@) == with_cors(
            field_texts(old(headers)@),
            header_text(origin_header),
        ),
{
    push_field(headers, "Cache-Control", "no-cache");
    if let Some(origin) = origin_header {
        push_field(headers, "Access-Control-Allow-Origin", origin);
        push_field(headers, "Access-Control-Allow-Methods", "GET, OPTIONS");
    }
}

/// The header field of a content type.
pub open spec fn content_type(t: Seq<char>) -> Seq<(Seq<char>, Seq<char>)> {
    seq![("Content-Type"@, t)]
}

fn content_type_field(t: &str) -> (headers: Vec<(String, String)>)
    ensures
        field_texts(headers@) == content_type(t@),
{
    let mut headers: Vec<(String, String)> = Vec::new();
    assert(field_texts(headers@) =~= Seq::empty());
    push_field(&mut headers, "Content-Type", t);
    assert(field_texts(headers@) =~= content_type(t@));
    headers
}

// ---------------------------------------------------------------------------
// Responses
// ---------------------------------------------------------------------------

/// The response to a page that may not fetch the streams.
pub open spec fn forbidden() -> ReplyView {
    ReplyView {
        status: 403,
        headers: content_type("text/plain"@),
        body: BodyView::Text("Forbidden"@),
    }
}

/// Builds the response to a page that may not fetch the streams.
pub fn forbidden_response() -> (r: Reply)
    ensures
        r@ == forbidden(),
{
    Reply {
        status: 403,
        headers: content_type_field("text/plain"),
        body: ReplyBody::Text("Forbidden".to_owned()),
    }
}

/// A plain text that any page may be told of.
pub open spec fn plain(status: u16, text: Seq<char>) -> ReplyView {
    ReplyView {
        status,
        headers: with_cors(content_type("text/plain"@), None),
        body: BodyView::Text(text),
    }
}

fn plain_response(status: u16, text: &str) -> (r: Reply)
    ensures
        r@ == plain(status, text@),
{
    let mut headers = content_type_field("text/plain");
    cors(&mut headers, None);
    Reply { status, headers, body: ReplyBody::Text(text.to_owned()) }
}

/// Builds the response for a stream that is not there.
pub fn no_stream_response(msg: &str) -> (r: Reply)
    ensures
        r@ == plain(404, msg@),
{
    plain_response(404, msg)
}

/// The playlist of the stream `stream_file` at the port `port`.
pub open spec fn playlist(port: u16, stream_file: Seq<char>) -> Seq<char> {
    "{\"type\":\"flv\",\"url\":\"http://127.0.0.1:"@ + decimal(port as nat) + "/live/"@ + stream_file
        + "\"}"@
}

/// The response with a playlist.
pub open spec fn playlist_reply(
    port: u16,
    stream_file: Seq<char>,
    origin: Option<Seq<char>>,
) -> ReplyView {
    ReplyView {
        status: 200,
        headers: with_cors(content_type("application/json"@), origin),
        body: BodyView::Text(playlist(port, stream_file)),
    }
}

/// Builds the response with a playlist, which names this very port.
pub fn serve_playlist(port: u16, stream_file: &str, origin: Option<&str>) -> (r: Reply)
    ensures
        r@ == playlist_reply(port, stream_file@, header_text(origin)),
{
    let mut json = "{\"type\":\"flv\",\"url\":\"http://127.0.0.1:".to_owned();
    push_decimal(&mut json, port as u64);
    json.append("/live/");
    json.append(stream_file);
    json.append("\"}");
    let mut headers = content_type_field("application/json");
    cors(&mut headers, origin);
    Reply { status: 200, headers, body: ReplyBody::Text(json) }
}

/// The header fields of a stream.
pub open spec fn stream_headers(origin: Option<Seq<char>>) -> Seq<(Seq<char>, Seq<char>)> {
    with_cors(content_type("video/x-flv"@).push(("Connection"@, "close"@)), origin)
}

fn stream_fields(origin: Option<&str>) -> (headers: Vec<(String, String)>)
    ensures
        field_texts(headers@) == stream_headers(header_text(origin)),
{
    let mut headers = content_type_field("video/x-flv");
    push_field(&mut headers, "Connection", "close");
    cors(&mut headers, origin);
    headers
}

/// The response with the video stream.
pub open spec fn video_reply(live: bool, origin: Option<Seq<char>>) -> ReplyView {
    if live {
        ReplyView {
            status: 200,
            headers: stream_headers(origin),
            body: BodyView::VideoStream(video_header()),
        }
    } else {
        plain(404, "No video stream active"@)
    }
}

/// Builds the response with the video stream.
pub fn serve_video_flv_stream(video_server: &VideoServer, origin: Option<&str>) -> (r: Reply)
    ensures
        r@ == video_reply(video_server@ is Some, header_text(origin)),
{
    if video_server.has_video() {
        Reply {
            status: 200,
            headers: stream_fields(origin),
            body: ReplyBody::VideoStream(flv_header()),
        }
    } else {
        no_stream_response("No video stream active")
    }
}

/// The response with the audio stream.
pub open spec fn audio_reply(live: bool, origin: Option<Seq<char>>) -> ReplyView {
    if live {
        ReplyView {
            status: 200,
            headers: stream_headers(origin),
            body: BodyView::AudioStream(audio_header()),
        }
    } else {
        plain(404, "No audio stream active"@)
    }
}

/// Builds the response with the audio stream.
pub fn serve_audio_flv_stream(video_server: &VideoServer, origin: Option<&str>) -> (r: Reply)
    ensures
        r@ == audio_reply(video_server@ is Some, header_text(origin)),
{
    if video_server.has_video() {
        Reply {
            status: 200,
            headers: stream_fields(origin),
            body: ReplyBody::AudioStream(flv_audio_header()),
        }
    } else {
        no_stream_response("No audio stream active")
    }
}

// ---------------------------------------------------------------------------
// Routing
// ---------------------------------------------------------------------------

/// Whether the path is one of those that only the camera's page may fetch.
pub open spec fn is_live_path(path: Seq<char>) -> bool {
    ||| path == "/live/playlist1.json"@
    ||| path == "/live/playlist2.json"@
    ||| path == "/live/stream1.flv"@
    ||| path == "/live/stream2.flv"@
}

/// The response to a request at the port `port`, where `armed` is the page that
/// may fetch the streams, while there are any.
pub open spec fn reply_to(
    method: Method,
    path: Seq<char>,
    origin: Option<Seq<char>>,
    armed: Option<(Seq<char>, u16)>,
    port: u16,
) -> ReplyView {
    if method == Method::Get && is_live_path(path) {
        if !allowed(armed, origin) {
            forbidden()
        } else if path == "/live/playlist1.json"@ {
            playlist_reply(port, "stream1.flv"@, origin)
        } else if path == "/live/playlist2.json"@ {
            playlist_reply(port, "stream2.flv"@, origin)
        } else if path == "/live/stream1.flv"@ {
            video_reply(armed is Some, origin)
        } else {
            audio_reply(armed is Some, origin)
        }
    } else if method == Method::Get && path == "/"@ {
        plain(200, "fosipcore HTTP-FLV / OK"@)
    } else if method == Method::Options {
        ReplyView {
            status: 204,
            headers: with_cors(Seq::empty(), None),
            body: BodyView::Text(Seq::empty()),
        }
    } else {
        plain(404, "Not Found"@)
    }
}

/// Routes a request.
///
/// Playlists and streams are for the camera's own page and for clients that are
/// no pages; another site's page is refused, and told nothing by which it could
/// read the response. The line that says it is running is for everybody, and so
/// is the answer to a preflight: what counts is the request that follows.
pub fn handle_request(
    method: Method,
    path: &str,
    origin_header: Option<&str>,
    video_server: &VideoServer,
    port: u16,
) -> (r: Reply)
    ensures
        r@ == reply_to(method, path@, header_text(origin_header), video_server@, port),
{
    if method == Method::Get {
        let playlist1 = same_str(path, "/live/playlist1.json");
        let playlist2 = same_str(path, "/live/playlist2.json");
        let stream1 = same_str(path, "/live/stream1.flv");
        let stream2 = same_str(path, "/live/stream2.flv");
        if playlist1 || playlist2 || stream1 || stream2 {
            if !video_server.origin_allowed(origin_header) {
                return forbidden_response();
            }
            if playlist1 {
                return serve_playlist(port, "stream1.flv", origin_header);
            }
            if playlist2 {
                return serve_playlist(port, "stream2.flv", origin_header);
            }
            if stream1 {
                return serve_video_flv_stream(video_server, origin_header);
            }
            return serve_audio_flv_stream(video_server, origin_header);
        }
        if same_str(path, "/") {
            return plain_response(200, "fosipcore HTTP-FLV / OK");
        }
    }
    if method == Method::Options {
        let mut headers: Vec<(String, String)> = Vec::new();
        assert(field_texts(headers@) =~= Seq::empty());
        cors(&mut headers, None);
        let body = String::new();
        assert(body@ =~= Seq::empty());
        return Reply { status: 204, headers, body: ReplyBody::Text(body) };
    }
    plain_response(404, "Not Found")
}

// ---------------------------------------------------------------------------
// Streams
// ---------------------------------------------------------------------------

/// What a client of a stream is sent: the stream's header before the first tag.
#[derive(Debug)]
pub struct StreamWriter {
    header: Option<Vec<u8>>,
}

impl View for StreamWriter {
    type V = Option<Seq<u8>>;

    /// The header, as long as it was not sent.
    closed spec fn view(&self) -> Option<Seq<u8>> {
        match self.header {
            Some(h) => Some(h@),
            None => None,
        }
    }
}

/// The chunk in which a tag is sent.
pub open spec fn chunk_of(header: Option<Seq<u8>>, tag: Seq<u8>) -> Seq<u8> {
    match header {
        Some(h) => h + tag,
        None => tag,
    }
}

impl StreamWriter {
    /// Starts the stream of a client.
    pub fn new(header: Vec<u8>) -> (w: StreamWriter)
        ensures
            w@ == Some(header@),
    {
        StreamWriter { header: Some(header) }
    }

    /// The chunk in which the next tag is sent.
    pub fn chunk(&mut self, tag: Vec<u8>) -> (r: Vec<u8>)
        ensures
            r@ == chunk_of(old(self)@, tag@),
            final(self)@ is None,
    {
        match self.header.take() {
            Some(header) => {
                let mut out = header;
                out.extend_from_slice(tag.as_slice());
                assert(out@ =~= header@ + tag@);
                out
            },
            None => tag,
        }
    }
}

// ---------------------------------------------------------------------------
// Laws
// ---------------------------------------------------------------------------

/// All that a client was sent, tag by tag.
pub open spec fn sent(header: Option<Seq<u8>>, tags: Seq<Seq<u8>>) -> Seq<u8>
    decreases tags.len(),
{
    if tags.len() == 0 {
        Seq::empty()
    } else {
        chunk_of(header, tags[0]) + sent(None, tags.drop_first())
    }
}

/// The tags, one after another.
pub open spec fn concatenated(tags: Seq<Seq<u8>>) -> Seq<u8>
    decreases tags.len(),
{
    if tags.len() == 0 {
        Seq::empty()
    } else {
        tags[0] + concatenated(tags.drop_first())
    }
}

proof fn lemma_sent_without_header(tags: Seq<Seq<u8>>)
    ensures
        sent(None, tags) == concatenated(tags),
    decreases tags.len(),
{
    if tags.len() > 0 {
        lemma_sent_without_header(tags.drop_first());
    }
}

/// What a client is sent is an FLV stream from its start: the header once, and
/// then the tags, whole and in order.
pub proof fn law_client_gets_header_once(header: Seq<u8>, tags: Seq<Seq<u8>>)
    requires
        tags.len() > 0,
    ensures
        sent(Some(header), tags) == header + concatenated(tags),
{
    lemma_sent_without_header(tags.drop_first());
    assert(header + tags[0] + concatenated(tags.drop_first()) =~= header + (tags[0] + concatenated(
        tags.drop_first(),
    )));
}

/// While there is a pipeline, a page that is not the camera's own gets nothing
/// of the streams: any request of it for a playlist or a stream is refused, with
/// no header field that would let it read even the refusal.
pub proof fn law_foreign_page_is_refused(
    path: Seq<char>,
    origin: Seq<char>,
    armed: (Seq<char>, u16),
    port: u16,
)
    requires
        is_live_path(path),
        !allowed(Some(armed), Some(origin)),
    ensures
        reply_to(Method::Get, path, Some(origin), Some(armed), port).status == 403,
        forall|i: int|
            0 <= i < forbidden().headers.len() ==> (#[trigger] forbidden().headers[i]).0
                != "Access-Control-Allow-Origin"@,
        reply_to(Method::Get, path, Some(origin), Some(armed), port) == forbidden(),
{
    reveal_strlit("Content-Type");
    reveal_strlit("Access-Control-Allow-Origin");
    assert("Content-Type"@.len() != "Access-Control-Allow-Origin"@.len());
}

/// Whether the header fields let the page `origin` read the response, and no
/// other: they name that origin, for GET and OPTIONS, or none if there is none.
pub open spec fn names_origin(
    headers: Seq<(Seq<char>, Seq<char>)>,
    origin: Option<Seq<char>>,
) -> bool {
    match origin {
        Some(o) => headers.contains(("Access-Control-Allow-Origin"@, o)) && headers.contains(
            ("Access-Control-Allow-Methods"@, "GET, OPTIONS"@),
        ) && forall|i: int|
            0 <= i < headers.len() && (#[trigger] headers[i]).0 == "Access-Control-Allow-Origin"@
                ==> headers[i].1 == o,
        None => forall|i: int|
            0 <= i < headers.len() ==> (#[trigger] headers[i]).0
                != "Access-Control-Allow-Origin"@,
    }
}

proof fn lemma_field_names()
    ensures
        "Access-Control-Allow-Origin"@ != "Content-Type"@,
        "Access-Control-Allow-Origin"@ != "Cache-Control"@,
        "Access-Control-Allow-Origin"@ != "Connection"@,
        "Access-Control-Allow-Origin"@ != "Access-Control-Allow-Methods"@,
{
    reveal_strlit("Access-Control-Allow-Origin");
    reveal_strlit("Content-Type");
    reveal_strlit("Cache-Control");
    reveal_strlit("Connection");
    reveal_strlit("Access-Control-Allow-Methods");
    assert("Access-Control-Allow-Origin"@.len() == 27);
    assert("Content-Type"@.len() == 12);
    assert("Cache-Control"@.len() == 13);
    assert("Connection"@.len() == 10);
    assert("Access-Control-Allow-Methods"@.len() == 28);
}

proof fn lemma_names_origin(front: Seq<(Seq<char>, Seq<char>)>, origin: Option<Seq<char>>)
    requires
        forall|i: int|
            0 <= i < front.len() ==> (#[trigger] front[i]).0 != "Access-Control-Allow-Origin"@,
    ensures
        names_origin(with_cors(front, origin), origin),
        forall|i: int| 0 <= i < front.len() ==> #[trigger] with_cors(front, origin)[i] == front[i],
        with_cors(front, origin)[front.len() as int] == ("Cache-Control"@, "no-cache"@),
        with_cors(front, origin).len() == front.len() + if origin is Some {
            3int
        } else {
            1int
        },
{
    lemma_field_names();
    let h = with_cors(front, origin);
    if let Some(o) = origin {
        assert(h[front.len() as int + 1] == ("Access-Control-Allow-Origin"@, o));
        assert(h[front.len() as int + 2] == ("Access-Control-Allow-Methods"@, "GET, OPTIONS"@));
    }
}

proof fn lemma_paths()
    ensures
        "/live/playlist1.json"@ != "/live/playlist2.json"@,
        "/live/stream1.flv"@ != "/live/stream2.flv"@,
        "/live/playlist1.json"@ != "/live/stream1.flv"@,
        "/live/playlist1.json"@ != "/live/stream2.flv"@,
        "/live/playlist2.json"@ != "/live/stream1.flv"@,
        "/live/playlist2.json"@ != "/live/stream2.flv"@,
        "/"@ != "/live/playlist1.json"@,
        "/"@ != "/live/playlist2.json"@,
        "/"@ != "/live/stream1.flv"@,
        "/"@ != "/live/stream2.flv"@,
{
    reveal_strlit("/live/playlist1.json");
    reveal_strlit("/live/playlist2.json");
    reveal_strlit("/live/stream1.flv");
    reveal_strlit("/live/stream2.flv");
    reveal_strlit("/");
    assert("/live/playlist1.json"@[14] != "/live/playlist2.json"@[14]);
    assert("/live/stream1.flv"@[12] != "/live/stream2.flv"@[12]);
    assert("/live/playlist1.json"@.len() == 20 && "/live/playlist2.json"@.len() == 20);
    assert("/live/stream1.flv"@.len() == 17 && "/live/stream2.flv"@.len() == 17);
    assert("/"@.len() == 1);
}

/// Each path has its own content, for whoever may fetch it: the two playlists name
/// the stream of the same number at this very port, the first stream is the video
/// behind the header of an FLV stream with video, the second one the audio behind
/// that of one with audio. The response names the page that asked as the one that
/// may read it.
pub proof fn law_every_path_has_its_content(
    origin: Option<Seq<char>>,
    armed: Option<(Seq<char>, u16)>,
    port: u16,
)
    requires
        allowed(armed, origin),
    ensures
        ({
            let r = reply_to(Method::Get, "/live/playlist1.json"@, origin, armed, port);
            &&& r.status == 200
            &&& r.body == BodyView::Text(
                "{\"type\":\"flv\",\"url\":\"http://127.0.0.1:"@ + decimal(port as nat) + "/live/"@
                    + "stream1.flv"@ + "\"}"@,
            )
            &&& names_origin(r.headers, origin)
            &&& r.headers[0] == ("Content-Type"@, "application/json"@)
            &&& r.headers[1] == ("Cache-Control"@, "no-cache"@)
        }),
        ({
            let r = reply_to(Method::Get, "/live/playlist2.json"@, origin, armed, port);
            &&& r.status == 200
            &&& r.body == BodyView::Text(
                "{\"type\":\"flv\",\"url\":\"http://127.0.0.1:"@ + decimal(port as nat) + "/live/"@
                    + "stream2.flv"@ + "\"}"@,
            )
            &&& names_origin(r.headers, origin)
            &&& r.headers[0] == ("Content-Type"@, "application/json"@)
            &&& r.headers[1] == ("Cache-Control"@, "no-cache"@)
        }),
        ({
            let r = reply_to(Method::Get, "/live/stream1.flv"@, origin, armed, port);
            &&& armed is Some ==> r.status == 200 && r.body == BodyView::VideoStream(
                seq![0x46u8, 0x4c, 0x56, 1, 1, 0, 0, 0, 9, 0, 0, 0, 0],
            ) && names_origin(r.headers, origin) && r.headers[0] == (
                "Content-Type"@,
                "video/x-flv"@,
            ) && r.headers[2] == ("Cache-Control"@, "no-cache"@)
            &&& armed is None ==> r.status == 404 && r.body is Text
        }),
        ({
            let r = reply_to(Method::Get, "/live/stream2.flv"@, origin, armed, port);
            &&& armed is Some ==> r.status == 200 && r.body == BodyView::AudioStream(
                seq![0x46u8, 0x4c, 0x56, 1, 4, 0, 0, 0, 9, 0, 0, 0, 0],
            ) && names_origin(r.headers, origin) && r.headers[0] == (
                "Content-Type"@,
                "video/x-flv"@,
            ) && r.headers[2] == ("Cache-Control"@, "no-cache"@)
            &&& armed is None ==> r.status == 404 && r.body is Text
        }),
{
    lemma_paths();
    lemma_field_names();
    lemma_names_origin(content_type("application/json"@), origin);
    lemma_names_origin(content_type("video/x-flv"@).push(("Connection"@, "close"@)), origin);
}

/// Any other request gets nothing of the streams: the line that says it is running
/// at the root, an empty answer to OPTIONS, and otherwise that there is nothing.
/// None of these names a page that may read it.
pub proof fn law_other_requests_get_nothing(
    method: Method,
    path: Seq<char>,
    origin: Option<Seq<char>>,
    armed: Option<(Seq<char>, u16)>,
    port: u16,
)
    requires
        method != Method::Get || path != "/live/playlist1.json"@ && path != "/live/playlist2.json"@
            && path != "/live/stream1.flv"@ && path != "/live/stream2.flv"@,
    ensures
        ({
            let r = reply_to(method, path, origin, armed, port);
            &&& r.body is Text
            &&& names_origin(r.headers, None)
            &&& r.status == if method == Method::Get && path == "/"@ {
                200u16
            } else if method == Method::Options {
                204
            } else {
                404
            }
        }),
{
    lemma_field_names();
    lemma_names_origin(content_type("text/plain"@), None);
    lemma_names_origin(Seq::empty(), None);
}

/// A page that may not fetch the streams is refused on each of the four paths.
pub proof fn law_refused_on_every_path(
    origin: Option<Seq<char>>,
    armed: Option<(Seq<char>, u16)>,
    port: u16,
)
    requires
        !allowed(armed, origin),
    ensures
        reply_to(Method::Get, "/live/playlist1.json"@, origin, armed, port).status == 403,
        reply_to(Method::Get, "/live/playlist2.json"@, origin, armed, port).status == 403,
        reply_to(Method::Get, "/live/stream1.flv"@, origin, armed, port).status == 403,
        reply_to(Method::Get, "/live/stream2.flv"@, origin, armed, port).status == 403,
        reply_to(Method::Get, "/live/stream1.flv"@, origin, armed, port).body is Text,
        reply_to(Method::Get, "/live/stream2.flv"@, origin, armed, port).body is Text,
{
}

/// What is stated of a response is stated of all that it holds.
pub proof fn law_responses_are_seen_whole(r: Reply)
    ensures
        r@.status == r.status,
        r@.headers.len() == r.headers@.len(),
        forall|i: int|
            0 <= i < r.headers@.len() ==> #[trigger] r@.headers[i] == (
                r.headers@[i].0@,
                r.headers@[i].1@,
            ),
        r.body matches ReplyBody::Text(s) ==> r@.body == BodyView::Text(s@),
        r.body matches ReplyBody::VideoStream(h) ==> r@.body == BodyView::VideoStream(h@),
        r.body matches ReplyBody::AudioStream(h) ==> r@.body == BodyView::AudioStream(h@),
{
}

/// A tag is sent whole, at the end of its chunk, and what stands before it is the
/// header if it was not sent yet.
pub proof fn law_tag_is_sent_whole(header: Seq<u8>, tag: Seq<u8>)
    ensures
        chunk_of(None, tag) == tag,
        chunk_of(Some(header), tag).len() == header.len() + tag.len(),
        chunk_of(Some(header), tag).take(header.len() as int) == header,
        chunk_of(Some(header), tag).skip(header.len() as int) == tag,
{
}

} // verus!
