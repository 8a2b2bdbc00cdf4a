# fosipcore

A local service for the web page of an IP camera. The page expects a WebSocket
service on the user's machine; this is one. It passes the page's requests on to
the camera, and turns the camera's RTSP stream (H.264 and G.711) into two FLV
streams over HTTP (AVC and AAC).

The decisions are in `src/`, a library that is proved with Verus: which
addresses may be dialed, which page may log in and fetch streams, what each
message leads to, how the RTSP handshake goes on, how RTP packets become FLV
tags. `app/` does the input and output around it.

| Module            | Content                                                      |
|-------------------|--------------------------------------------------------------|
| `text`, `bytes`   | text as characters, integers as bytes                        |
| `json`            | JSON values                                                  |
| `protocol`        | numbers and types of the messages                            |
| `net`             | addresses that may be dialed, origins of pages               |
| `proxy`           | requests to the camera and their answers, masking of secrets |
| `session`         | the state machine of a session                               |
| `frames`          | WebSocket frames                                             |
| `service_manager` | the service that tells the port of the core server           |
| `audio`           | G.711, AAC, audio tags                                       |
| `video`           | RTSP, RTP, video tags, live ports, HTTP                      |
| `flv_tag`         | FLV tags                                                     |
| `config`, `state` | settings, shared state                                       |

What is proved rests on the contracts of the calls into other crates and into
the standard library. Each of them stands with a comment that says what it
claims: those on JSON in `json`, on base64 and on text in `proxy::cgi`, on
percent-encoding in `session`, on the AAC encoder in `audio::aac`, on clocks in
`video::flv_muxer` and `video::rtsp_client`, on MD5 in `video::rtsp_client`, on
letter case and on text in quotes in `video::rtsp_text`, on UTF-8 in `frames`,
on strings in `text`.

The statements that span several functions are the proof functions whose names
begin with `law_`.
