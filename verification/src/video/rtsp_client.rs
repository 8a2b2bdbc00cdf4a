//! RTSP client: requests, authentication, handshake and interleaved data.
//!
//! The handshake is a state machine. [`RtspClient::begin`] and
//! [`RtspClient::step`] say what to send, and when to connect anew; what comes
//! back from the camera goes into the next step.

use vstd::prelude::*;
use vstd::slice::slice_subrange;
use vstd::utf8::encode_utf8;

use crate::proxy::cgi::{base64_encode, base64_text, from_utf8_lossy, lossy_text};
use crate::text::{
    chars_of, decimal, find_char, hex_string, in_base, law_decimal_reads_back,
    law_number_reads_back_in_its_base, law_pieces_stand_between_separators, lemma_index_of,
    parse_number, parse_u64, push_decimal, same, same_str, split_on, stands_at, string_of,
    strip_back, strip_front, trim, trim_char, trimmed, value_in_base, zero_padded,
};
use crate::video::rtsp_text::{
    auth_param_value, control_url, extract_auth_param, extract_header, header_value,
    is_text_outcome, media_views, parse_sdp_media, parse_status_code, resolve_control_url,
    sdp_media, status_code, ErrorView, MediaView, RtspError, SdpMedia,
};

verus! {

// ---------------------------------------------------------------------------
// Hashes and nonces
// ---------------------------------------------------------------------------

/// The MD5 hash of bytes, in hexadecimal digits with small letters.
pub uninterp spec fn md5_text(data: Seq<u8>) -> Seq<char>;

/// `md5::Md5::digest` gives the MD5 hash of bytes.
#[verifier::external_body]
fn md5_digest(data: &[u8]) -> (s: String)
    ensures
        s@ == md5_text(data@),
{
    format!("{:x}", <md5::Md5 as md5::Digest>::digest(data))
}

/// The MD5 hash of a text, in hexadecimal digits with small letters.
pub open spec fn md5_of(text: Seq<char>) -> Seq<char> {
    md5_text(encode_utf8(text))
}

/// Computes the MD5 hash of a text.
pub fn md5_hex(input: &str) -> (s: String)
    ensures
        s@ == md5_of(input@),
{
    md5_digest(input.as_bytes())
}

/// `std::time::SystemTime`: a reading of the system clock.
#[verifier::external_type_specification]
#[verifier::external_body]
pub struct ExSystemTime(std::time::SystemTime);

/// `std::time::SystemTime::now` reads the system clock.
pub assume_specification[ std::time::SystemTime::now ]() -> (r: std::time::SystemTime);

/// `std::time::SystemTime::duration_since` gives the span since the beginning of
/// 1970; there is none if the clock stands before that.
#[verifier::external_body]
fn since_epoch(t: &std::time::SystemTime) -> (r: Option<std::time::Duration>) {
    t.duration_since(std::time::UNIX_EPOCH).ok()
}

/// `std::time::Duration::as_nanos` gives a span in whole nanoseconds.
pub assume_specification[ std::time::Duration::as_nanos ](d: &std::time::Duration) -> (r: u128);

/// The client nonce of the time `nanos`: the number in hexadecimal digits, at
/// least sixteen of them.
pub open spec fn cnonce_text(nanos: u128) -> Seq<char> {
    zero_padded(in_base(nanos as nat, 16), 16)
}

/// The client nonce of the time `nanos`.
pub fn cnonce_at(nanos: u128) -> (s: String)
    ensures
        s@ == cnonce_text(nanos),
{
    hex_string(nanos, 16)
}

/// Whether `nanos` is what the system clock may read, in nanoseconds since the
/// beginning of 1970: those in the span that `SystemTime::duration_since` gives
/// of a reading, or zero if there is no such span.
pub closed spec fn is_clock_nanos(nanos: u128) -> bool {
    exists|now: std::time::SystemTime, span: Option<std::time::Duration>|
        #![trigger call_ensures(since_epoch, (&now,), span)]
        call_ensures(std::time::SystemTime::now, (), now) && call_ensures(
            since_epoch,
            (&now,),
            span,
        ) && match span {
            Some(d) => call_ensures(std::time::Duration::as_nanos, (&d,), nanos),
            None => nanos == 0,
        }
}

/// Generates a client nonce from the system clock.
pub fn generate_cnonce() -> (s: String)
    ensures
        exists|nanos: u128| s@ == #[trigger] cnonce_text(nanos) && is_clock_nanos(nanos),
{
    let now = std::time::SystemTime::now();
    let span = since_epoch(&now);
    let nanos: u128 = match &span {
        Some(d) => d.as_nanos(),
        None => 0,
    };
    assert(is_clock_nanos(nanos));
    cnonce_at(nanos)
}

// ---------------------------------------------------------------------------
// Responses
// ---------------------------------------------------------------------------

/// A response of the camera.
#[derive(Debug, Clone)]
pub struct RtspResponse {
    pub status_code: u16,
    pub headers: String,
    pub body: String,
}

/// What an `RtspResponse` holds.
#[verifier::ext_equal]
pub struct ResponseView {
    pub status_code: u16,
    pub headers: Seq<char>,
    pub body: Seq<char>,
}

impl View for RtspResponse {
    type V = ResponseView;

    open spec fn view(&self) -> ResponseView {
        ResponseView {
            status_code: self.status_code,
            headers: self.headers@,
            body: self.body@,
        }
    }
}

/// A response of which the header fields are being read.
#[derive(Debug)]
pub struct ResponseReader {
    pub status_code: u16,
    pub headers: String,
}

/// The length of the body that the header fields announce; none is zero.
pub open spec fn content_length(headers: Seq<char>) -> nat {
    match header_value(headers, "Content-Length"@) {
        Some(v) => match parse_number(v, usize::MAX as nat) {
            Some(n) => n,
            None => 0,
        },
        None => 0,
    }
}

impl ResponseReader {
    /// Starts a response with its status line.
    pub fn start(status_line: &str) -> (r: Result<ResponseReader, RtspError>)
        ensures
            match r {
                Ok(reader) => status_code(status_line@) == Ok::<nat, ErrorView>(
                    reader.status_code as nat,
                ) && reader.headers@ == Seq::<char>::empty(),
                Err(e) => status_code(status_line@) == Err::<nat, ErrorView>(e@),
            },
    {
        match parse_status_code(status_line) {
            Ok(code) => Ok(ResponseReader { status_code: code, headers: String::new() }),
            Err(e) => Err(e),
        }
    }

    /// Takes the next line. A blank one ends the header fields; then the length
    /// of the body is known.
    pub fn line(&mut self, line: &str) -> (body_length: Option<usize>)
        ensures
            final(self).status_code == old(self).status_code,
            trimmed(line@).len() == 0 ==> final(self).headers@ == old(self).headers@ && body_length
                == Some(content_length(old(self).headers@) as usize),
            trimmed(line@).len() > 0 ==> final(self).headers@ == old(self).headers@ + line@
                && body_length is None,
    {
        let cs = chars_of(line);
        if trim(cs.as_slice()).len() == 0 {
            let n: usize = match extract_header(self.headers.as_str(), "Content-Length") {
                Some(v) => {
                    let digits = chars_of(v);
                    match parse_u64(digits.as_slice(), usize::MAX as u64) {
                        Some(n) => n as usize,
                        None => 0,
                    }
                },
                None => 0,
            };
            Some(n)
        } else {
            self.headers.append(line);
            None
        }
    }

    /// Ends the response with its body.
    pub fn finish(self, body: &[u8]) -> (r: RtspResponse)
        ensures
            r@ == (ResponseView {
                status_code: self.status_code,
                headers: self.headers@,
                body: lossy_text(body@),
            }),
    {
        RtspResponse {
            status_code: self.status_code,
            headers: self.headers,
            body: from_utf8_lossy(body),
        }
    }
}

// ---------------------------------------------------------------------------
// Interleaved data
// ---------------------------------------------------------------------------

/// A packet of one of the two tracks.
#[derive(Debug, Clone)]
pub enum RtpPacket {
    /// RTP of the video track (channel 0).
    Video(Vec<u8>),
    /// RTP of the audio track (channel 2).
    Audio(Vec<u8>),
}

/// What an `RtpPacket` holds.
pub enum PacketView {
    Video(Seq<u8>),
    Audio(Seq<u8>),
}

impl View for RtpPacket {
    type V = PacketView;

    open spec fn view(&self) -> PacketView {
        match self {
            RtpPacket::Video(p) => PacketView::Video(p@),
            RtpPacket::Audio(p) => PacketView::Audio(p@),
        }
    }
}

/// Where the reader of interleaved data stands: a block is a `$`, a channel, a
/// length in two bytes and that many bytes.
#[derive(Debug, Clone, Copy, PartialEq, Eq, Structural)]
pub enum Interleaved {
    /// Before a block.
    Magic,
    /// Before the channel.
    Channel,
    /// Before the length of a block of this channel.
    Length(u8),
    /// Before the bytes of a block of this channel and this length.
    Payload(u8, u16),
}

/// The packet that a block is: only the channels of RTP give one.
pub open spec fn packet_of(channel: u8, payload: Seq<u8>) -> Option<PacketView> {
    if channel == 0 {
        Some(PacketView::Video(payload))
    } else if channel == 2 {
        Some(PacketView::Audio(payload))
    } else {
        None
    }
}

impl Interleaved {
    /// How many bytes are read next.
    pub open spec fn needs(self) -> nat {
        match self {
            Interleaved::Magic => 1,
            Interleaved::Channel => 1,
            Interleaved::Length(_) => 2,
            Interleaved::Payload(_, n) => n as nat,
        }
    }

    /// Where the reader stands after the bytes that it needs, and the packet
    /// that they complete.
    pub open spec fn after(self, bytes: Seq<u8>) -> (Interleaved, Option<PacketView>) {
        match self {
            Interleaved::Magic => if bytes[0] == 0x24 {
                (Interleaved::Channel, None)
            } else {
                (Interleaved::Magic, None)
            },
            Interleaved::Channel => (Interleaved::Length(bytes[0]), None),
            Interleaved::Length(c) => (
                Interleaved::Payload(c, (bytes[0] * 256 + bytes[1]) as u16),
                None,
            ),
            Interleaved::Payload(c, _) => (Interleaved::Magic, packet_of(c, bytes)),
        }
    }

    /// How many bytes are read next.
    pub fn needed(&self) -> (n: usize)
        ensures
            n == self.needs(),
    {
        match self {
            Interleaved::Magic => 1,
            Interleaved::Channel => 1,
            Interleaved::Length(_) => 2,
            Interleaved::Payload(_, n) => *n as usize,
        }
    }

    /// Takes the bytes that were read. Anything but a `$` before a block is
    /// passed over, and so are blocks of other channels.
    pub fn feed(&mut self, bytes: Vec<u8>) -> (packet: Option<RtpPacket>)
        requires
            bytes@.len() == old(self).needs(),
        ensures
            (
                *final(self),
                match packet {
                    Some(p) => Some(p@),
                    None => None,
                },
            ) == old(self).after(bytes@),
    {
        match *self {
            Interleaved::Magic => {
                if bytes[0] == 0x24 {
                    *self = Interleaved::Channel;
                }
                None
            },
            Interleaved::Channel => {
                *self = Interleaved::Length(bytes[0]);
                None
            },
            Interleaved::Length(c) => {
                *self = Interleaved::Payload(c, bytes[0] as u16 * 256 + bytes[1] as u16);
                None
            },
            Interleaved::Payload(c, _) => {
                *self = Interleaved::Magic;
                if c == 0 {
                    Some(RtpPacket::Video(bytes))
                } else if c == 2 {
                    Some(RtpPacket::Audio(bytes))
                } else {
                    None
                }
            },
        }
    }
}

// ---------------------------------------------------------------------------
// Digest authentication
// ---------------------------------------------------------------------------

/// The parameters of a Digest challenge.
#[derive(Debug, Clone)]
pub struct Challenge<'a> {
    pub realm: &'a str,
    pub nonce: &'a str,
    pub opaque: Option<&'a str>,
    pub qop: Option<&'a str>,
    pub algorithm: Option<&'a str>,
}

/// What a `Challenge` holds.
#[verifier::ext_equal]
pub struct ChallengeView {
    pub realm: Seq<char>,
    pub nonce: Seq<char>,
    pub opaque: Option<Seq<char>>,
    pub qop: Option<Seq<char>>,
    pub algorithm: Option<Seq<char>>,
}

/// The characters of an optional text.
pub open spec fn opt_str(s: Option<&str>) -> Option<Seq<char>> {
    match s {
        Some(t) => Some(t@),
        None => None,
    }
}

impl<'a> View for Challenge<'a> {
    type V = ChallengeView;

    open spec fn view(&self) -> ChallengeView {
        ChallengeView {
            realm: self.realm@,
            nonce: self.nonce@,
            opaque: opt_str(self.opaque),
            qop: opt_str(self.qop),
            algorithm: opt_str(self.algorithm),
        }
    }
}

/// The parameters of the challenge `www_auth`. Realm and nonce must be there.
pub open spec fn challenge_of(www_auth: Seq<char>) -> Result<ChallengeView, ErrorView> {
    match (auth_param_value(www_auth, "realm"@), auth_param_value(www_auth, "nonce"@)) {
        (None, _) => Err(ErrorView::MissingRealm),
        (Some(_), None) => Err(ErrorView::MissingNonce),
        (Some(realm), Some(nonce)) => Ok(
            ChallengeView {
                realm,
                nonce,
                opaque: auth_param_value(www_auth, "opaque"@),
                qop: auth_param_value(www_auth, "qop"@),
                algorithm: auth_param_value(www_auth, "algorithm"@),
            },
        ),
    }
}

/// Parses a Digest challenge.
pub fn parse_challenge<'a>(www_auth: &'a str) -> (r: Result<Challenge<'a>, RtspError>)
    ensures
        match r {
            Ok(c) => challenge_of(www_auth@) == Ok::<ChallengeView, ErrorView>(c@),
            Err(e) => challenge_of(www_auth@) == Err::<ChallengeView, ErrorView>(e@),
        },
{
    let realm = match extract_auth_param(www_auth, "realm") {
        Some(v) => v,
        None => {
            return Err(RtspError::MissingRealm);
        },
    };
    let nonce = match extract_auth_param(www_auth, "nonce") {
        Some(v) => v,
        None => {
            return Err(RtspError::MissingNonce);
        },
    };
    let opaque = extract_auth_param(www_auth, "opaque");
    let qop = extract_auth_param(www_auth, "qop");
    let algorithm = extract_auth_param(www_auth, "algorithm");
    Ok(Challenge { realm, nonce, opaque, qop, algorithm })
}

/// A value without the quotes around it.
pub open spec fn unquoted(s: Seq<char>) -> Seq<char> {
    strip_back(strip_front(s, '"'), '"')
}

fn unquote(s: &str) -> (r: String)
    ensures
        r@ == unquoted(s@),
{
    let cs = chars_of(s);
    string_of(trim_char(cs.as_slice(), '"'))
}

/// Whether `item` is one of the items of a list, between commas and without the
/// whitespace around it.
pub open spec fn lists(list: Seq<char>, item: Seq<char>) -> bool {
    is_item(split_on(list, ','), item)
}

/// Whether `item` is one of the items, without the whitespace around it.
pub open spec fn is_item(items: Seq<Seq<char>>, item: Seq<char>) -> bool {
    exists|i: int| 0 <= i < items.len() && trimmed(#[trigger] items[i]) == item
}

proof fn lemma_is_item(items: Seq<Seq<char>>, item: Seq<char>)
    requires
        items.len() > 0,
    ensures
        is_item(items, item) == (trimmed(items[0]) == item || is_item(items.drop_first(), item)),
{
    let rest = items.drop_first();
    if is_item(items, item) {
        let i = choose|i: int| 0 <= i < items.len() && trimmed(#[trigger] items[i]) == item;
        if i > 0 {
            assert(trimmed(rest[i - 1]) == item);
        }
    }
    if is_item(rest, item) {
        let i = choose|i: int| 0 <= i < rest.len() && trimmed(#[trigger] rest[i]) == item;
        assert(trimmed(items[i + 1]) == item);
    }
}

/// Whether `item` is one of the items of a list.
fn has_item(list: &[char], item: &str) -> (b: bool)
    ensures
        b == lists(list@, item@),
{
    let wanted = chars_of(item);
    let n: usize = list.len();
    let mut lo: usize = 0;
    assert(list@.skip(0) =~= list@);
    loop
        invariant
            lo <= n == list@.len(),
            wanted@ == item@,
            lists(list@, item@) == lists(list@.skip(lo as int), item@),
        decreases n - lo,
    {
        let ghost rest = list@.skip(lo as int);
        let hi: usize = find_char(list, lo, n, ',');
        let ghost first = rest.take(hi - lo);
        proof {
            assert(list@.subrange(lo as int, n as int) =~= rest);
            lemma_index_of(rest, ',');
            assert(list@.subrange(lo as int, hi as int) =~= first);
            if hi < n {
                let behind = split_on(rest.skip(hi - lo + 1), ',');
                assert(split_on(rest, ',') =~= seq![first] + behind);
                assert(split_on(rest, ',').drop_first() =~= behind);
                assert(rest.skip(hi - lo + 1) =~= list@.skip(hi + 1));
            } else {
                assert(first =~= rest);
                assert(split_on(rest, ',') =~= seq![first]);
            }
            lemma_is_item(split_on(rest, ','), item@);
        }
        if same(trim(slice_subrange(list, lo, hi)), wanted.as_slice()) {
            return true;
        }
        if hi == n {
            return false;
        }
        lo = hi + 1;
    }
}

impl ChallengeView {
    /// Whether the camera offers the quality of protection `auth`: the response
    /// is then that of RFC 2617, which covers the client's nonce, rather than
    /// that of RFC 2069.
    pub open spec fn wants_auth(self) -> bool {
        match self.qop {
            Some(q) => lists(unquoted(q), "auth"@),
            None => false,
        }
    }

    /// Whether the hash of the credentials covers the two nonces.
    pub open spec fn is_session(self) -> bool {
        match self.algorithm {
            Some(a) => unquoted(a) == "MD5-sess"@,
            None => false,
        }
    }

    /// The hash of the credentials.
    pub open spec fn ha1(self, user: Seq<char>, pwd: Seq<char>, cnonce: Seq<char>) -> Seq<char> {
        let plain = md5_of(user + ":"@ + self.realm + ":"@ + pwd);
        if self.is_session() {
            md5_of(plain + ":"@ + self.nonce + ":"@ + cnonce)
        } else {
            plain
        }
    }

    /// The response to the challenge.
    pub open spec fn response(
        self,
        user: Seq<char>,
        pwd: Seq<char>,
        method: Seq<char>,
        uri: Seq<char>,
        cnonce: Seq<char>,
    ) -> Seq<char> {
        let ha1 = self.ha1(user, pwd, cnonce);
        let ha2 = md5_of(method + ":"@ + uri);
        if self.wants_auth() {
            md5_of(
                ha1 + ":"@ + self.nonce + ":"@ + "00000001"@ + ":"@ + cnonce + ":"@ + "auth"@ + ":"@
                    + ha2,
            )
        } else {
            md5_of(ha1 + ":"@ + self.nonce + ":"@ + ha2)
        }
    }

    /// The `Authorization` header that answers the challenge.
    pub open spec fn authorization(
        self,
        user: Seq<char>,
        pwd: Seq<char>,
        method: Seq<char>,
        uri: Seq<char>,
        cnonce: Seq<char>,
    ) -> Seq<char> {
        "Digest username=\""@ + user + "\", realm=\""@ + self.realm + "\", nonce=\""@ + self.nonce
            + "\", uri=\""@ + uri + "\", response=\""@ + self.response(
            user,
            pwd,
            method,
            uri,
            cnonce,
        ) + "\""@ + (match self.algorithm {
            Some(a) => ", algorithm="@ + unquoted(a),
            None => Seq::empty(),
        }) + (match self.opaque {
            Some(o) => ", opaque=\""@ + unquoted(o) + "\""@,
            None => Seq::empty(),
        }) + (if self.wants_auth() {
            ", qop="@ + "auth"@ + ", cnonce=\""@ + cnonce + "\", nc="@ + "00000001"@
        } else {
            Seq::empty()
        })
    }
}

/// `a`, a colon, and `b`.
fn colon_joined(a: &str, b: &str) -> (r: String)
    ensures
        r@ == a@ + ":"@ + b@,
{
    let mut r = a.to_owned();
    r.append(":");
    r.append(b);
    r
}

impl<'a> Challenge<'a> {
    fn wants_auth(&self) -> (b: bool)
        ensures
            b == self@.wants_auth(),
    {
        match self.qop {
            Some(q) => {
                let cs = chars_of(q);
                has_item(trim_char(cs.as_slice(), '"'), "auth")
            },
            None => false,
        }
    }

    fn is_session(&self) -> (b: bool)
        ensures
            b == self@.is_session(),
    {
        match self.algorithm {
            Some(a) => same_str(unquote(a).as_str(), "MD5-sess"),
            None => false,
        }
    }

    /// The response to the challenge.
    pub fn response(&self, user: &str, pwd: &str, method: &str, uri: &str, cnonce: &str) -> (r:
        String)
        ensures
            r@ == self@.response(user@, pwd@, method@, uri@, cnonce@),
    {
        let mut credentials = colon_joined(user, self.realm);
        credentials.append(":");
        credentials.append(pwd);
        let mut ha1 = md5_hex(credentials.as_str());
        if self.is_session() {
            let mut bound = colon_joined(ha1.as_str(), self.nonce);
            bound.append(":");
            bound.append(cnonce);
            ha1 = md5_hex(bound.as_str());
        }
        let ha2 = md5_hex(colon_joined(method, uri).as_str());
        let mut text = colon_joined(ha1.as_str(), self.nonce);
        text.append(":");
        if self.wants_auth() {
            text.append("00000001");
            text.append(":");
            text.append(cnonce);
            text.append(":");
            text.append("auth");
            text.append(":");
        }
        text.append(ha2.as_str());
        md5_hex(text.as_str())
    }

    /// Builds the `Authorization` header that answers the challenge.
    ///
    /// Both forms of the response are known, with a quality of protection and
    /// without, and both algorithms, `MD5` and `MD5-sess`.
    #[verifier::spinoff_prover]
    #[verifier::rlimit(40)]
    pub fn authorization(&self, user: &str, pwd: &str, method: &str, uri: &str, cnonce: &str) -> (r:
        String)
        ensures
            r@ == self@.authorization(user@, pwd@, method@, uri@, cnonce@),
    {
        let response = self.response(user, pwd, method, uri, cnonce);
        let mut header = "Digest username=\"".to_owned();
        header.append(user);
        header.append("\", realm=\"");
        header.append(self.realm);
        header.append("\", nonce=\"");
        header.append(self.nonce);
        header.append("\", uri=\"");
        header.append(uri);
        header.append("\", response=\"");
        header.append(response.as_str());
        header.append("\"");
        let ghost base = header@;
        let ghost with_algorithm = base + (match self@.algorithm {
            Some(a) => ", algorithm="@ + unquoted(a),
            None => Seq::empty(),
        });
        if let Some(algorithm) = self.algorithm {
            header.append(", algorithm=");
            header.append(unquote(algorithm).as_str());
        }
        assert(header@ =~= with_algorithm);
        let ghost with_opaque = with_algorithm + (match self@.opaque {
            Some(o) => ", opaque=\""@ + unquoted(o) + "\""@,
            None => Seq::empty(),
        });
        if let Some(opaque) = self.opaque {
            header.append(", opaque=\"");
            header.append(unquote(opaque).as_str());
            header.append("\"");
        }
        assert(header@ =~= with_opaque);
        if self.wants_auth() {
            header.append(", qop=");
            header.append("auth");
            header.append(", cnonce=\"");
            header.append(cnonce);
            header.append("\", nc=");
            header.append("00000001");
        }
        assert(header@ =~= self@.authorization(user@, pwd@, method@, uri@, cnonce@));
        header
    }
}

// ---------------------------------------------------------------------------
// Requests
// ---------------------------------------------------------------------------

/// RTSP client of one stream of a camera.
#[derive(Debug, Clone)]
pub struct RtspClient {
    /// Number of the next request.
    pub cseq: u32,
    /// Session that the camera has given.
    pub session: Option<String>,
    /// Host of the camera.
    pub host: String,
    /// RTSP port of the camera.
    pub port: u16,
    /// Path of the stream.
    pub path: String,
    /// User.
    pub user: String,
    /// Password.
    pub pwd: String,
}

/// What an `RtspClient` holds.
#[verifier::ext_equal]
pub struct ClientView {
    pub cseq: u32,
    pub session: Option<Seq<char>>,
    pub host: Seq<char>,
    pub port: u16,
    pub path: Seq<char>,
    pub user: Seq<char>,
    pub pwd: Seq<char>,
}

impl View for RtspClient {
    type V = ClientView;

    open spec fn view(&self) -> ClientView {
        ClientView {
            cseq: self.cseq,
            session: match self.session {
                Some(s) => Some(s@),
                None => None,
            },
            host: self.host@,
            port: self.port,
            path: self.path@,
            user: self.user@,
            pwd: self.pwd@,
        }
    }
}

/// A header field on a line of its own, or nothing.
pub open spec fn optional_field(name: Seq<char>, value: Option<Seq<char>>) -> Seq<char> {
    match value {
        Some(v) => name + ": "@ + v + "\r\n"@,
        None => Seq::empty(),
    }
}

fn push_optional_field(out: &mut String, name: &str, value: Option<&str>)
    ensures
        final(out)@ == old(out)@ + optional_field(name@, opt_str(value)),
{
    if let Some(v) = value {
        out.append(name);
        out.append(": ");
        out.append(v);
        out.append("\r\n");
    }
    assert(out@ =~= old(out)@ + optional_field(name@, opt_str(value)));
}

/// The first two lines of a request.
pub open spec fn request_head(method: Seq<char>, url: Seq<char>, cseq: u32) -> Seq<char> {
    method + " "@ + url + " RTSP/1.0\r\nCSeq: "@ + decimal(cseq as nat) + "\r\n"@
}

fn start_request(method: &str, url: &str, cseq: u32) -> (r: String)
    ensures
        r@ == request_head(method@, url@, cseq),
{
    let mut r = method.to_owned();
    r.append(" ");
    r.append(url);
    r.append(" RTSP/1.0\r\nCSeq: ");
    push_decimal(&mut r, cseq as u64);
    r.append("\r\n");
    r
}

/// The SETUP request for a track, whose RTP comes on the channel
/// `interleaved_base` and whose RTCP on the next.
pub open spec fn setup_text(
    track_url: Seq<char>,
    cseq: u32,
    session: Option<Seq<char>>,
    auth: Option<Seq<char>>,
    interleaved_base: u8,
) -> Seq<char> {
    request_head("SETUP"@, track_url, cseq) + optional_field("Session"@, session) + optional_field(
        "Authorization"@,
        auth,
    ) + "Transport: RTP/AVP/TCP;unicast;interleaved="@ + decimal(interleaved_base as nat) + "-"@
        + decimal(((interleaved_base + 1) % 256) as nat) + "\r\n\r\n"@
}

/// The channel of the track number `i`: two for each track, as far as there are
/// channels.
pub open spec fn channel_of(i: int) -> u8 {
    if i * 2 <= 255 {
        (i * 2) as u8
    } else {
        255
    }
}

fn channel(i: usize) -> (c: u8)
    ensures
        c == channel_of(i as int),
{
    if i <= 127 {
        (i * 2) as u8
    } else {
        255
    }
}

impl ClientView {
    /// The URL of the stream.
    pub open spec fn url(self) -> Seq<char> {
        "rtsp://"@ + self.host + ":"@ + decimal(self.port as nat) + "/"@ + self.path
    }

    /// The client after a request.
    pub open spec fn counted(self) -> ClientView {
        ClientView { cseq: ((self.cseq + 1) % 0x1_0000_0000) as u32, ..self }
    }

    /// The client on a new connection, which has no session yet.
    pub open spec fn reconnected(self) -> ClientView {
        ClientView { cseq: 1, session: None, ..self }
    }

    /// The OPTIONS request.
    pub open spec fn options_text(self) -> Seq<char> {
        request_head("OPTIONS"@, self.url(), self.cseq) + "\r\n"@
    }

    /// The DESCRIBE request.
    pub open spec fn describe_text(self, auth: Option<Seq<char>>) -> Seq<char> {
        request_head("DESCRIBE"@, self.url(), self.cseq) + "Accept: application/sdp\r\n"@
            + optional_field("Authorization"@, auth) + "\r\n"@
    }

    /// A request in the session.
    pub open spec fn session_text(self, method: Seq<char>) -> Seq<char> {
        request_head(method, self.url(), self.cseq) + "Session: "@ + (match self.session {
            Some(s) => s,
            None => Seq::empty(),
        }) + "\r\n\r\n"@
    }

    /// The URL of a track.
    pub open spec fn track_url(self, media: MediaView) -> Result<Seq<char>, ErrorView> {
        match media.control {
            None => Ok(self.url()),
            Some(c) => control_url(self.url(), c, self.host, self.port),
        }
    }

    /// The `Authorization` header that answers the challenge `www_auth`.
    pub open spec fn authorization(
        self,
        method: Seq<char>,
        uri: Seq<char>,
        www_auth: Seq<char>,
        cnonce: Seq<char>,
    ) -> Result<Seq<char>, ErrorView> {
        match challenge_of(www_auth) {
            Ok(c) => Ok(c.authorization(self.user, self.pwd, method, uri, cnonce)),
            Err(e) => Err(e),
        }
    }
}

impl RtspClient {
    /// Creates the client of a stream.
    pub fn new(host: &str, port: u16, path: &str, user: &str, pwd: &str) -> (c: RtspClient)
        ensures
            c@ == (ClientView {
                cseq: 1,
                session: None,
                host: host@,
                port,
                path: path@,
                user: user@,
                pwd: pwd@,
            }),
    {
        RtspClient {
            cseq: 1,
            session: None,
            host: host.to_owned(),
            port,
            path: path.to_owned(),
            user: user.to_owned(),
            pwd: pwd.to_owned(),
        }
    }

    /// The URL of the stream.
    pub fn rtsp_url(&self) -> (r: String)
        ensures
            r@ == self@.url(),
    {
        let mut r = "rtsp://".to_owned();
        r.append(self.host.as_str());
        r.append(":");
        push_decimal(&mut r, self.port as u64);
        r.append("/");
        r.append(self.path.as_str());
        r
    }

    /// Takes the number of the next request.
    pub fn next_cseq(&mut self) -> (r: u32)
        ensures
            r == old(self)@.cseq,
            final(self)@ == old(self)@.counted(),
    {
        let c: u32 = self.cseq;
        self.cseq = c.wrapping_add(1);
        c
    }

    /// Builds the OPTIONS request.
    pub fn options_request(&mut self) -> (r: String)
        ensures
            r@ == old(self)@.options_text(),
            final(self)@ == old(self)@.counted(),
    {
        let url = self.rtsp_url();
        let mut r = start_request("OPTIONS", url.as_str(), self.next_cseq());
        r.append("\r\n");
        r
    }

    /// Builds the DESCRIBE request, with an `Authorization` header if there is
    /// one.
    pub fn describe_request(&mut self, auth: Option<&str>) -> (r: String)
        ensures
            r@ == old(self)@.describe_text(opt_str(auth)),
            final(self)@ == old(self)@.counted(),
    {
        let url = self.rtsp_url();
        let mut r = start_request("DESCRIBE", url.as_str(), self.next_cseq());
        r.append("Accept: application/sdp\r\n");
        push_optional_field(&mut r, "Authorization", auth);
        r.append("\r\n");
        r
    }

    /// Builds the DESCRIBE request with Basic authentication.
    pub fn basic_describe_request(&mut self) -> (r: String)
        ensures
            r@ == old(self)@.describe_text(
                Some(
                    "Basic "@ + base64_text(
                        encode_utf8(old(self)@.user + ":"@ + old(self)@.pwd),
                    ),
                ),
            ),
            final(self)@ == old(self)@.counted(),
    {
        let credentials = colon_joined(self.user.as_str(), self.pwd.as_str());
        let mut auth = "Basic ".to_owned();
        auth.append(base64_encode(credentials.as_str().as_bytes()).as_str());
        self.describe_request(Some(auth.as_str()))
    }

    /// Builds a SETUP request. A session and an `Authorization` header that are
    /// not there leave no trace.
    pub fn setup_request(
        track_url: &str,
        cseq: u32,
        session: Option<&str>,
        auth: Option<&str>,
        interleaved_base: u8,
    ) -> (r: String)
        ensures
            r@ == setup_text(track_url@, cseq, opt_str(session), opt_str(auth), interleaved_base),
    {
        let mut r = start_request("SETUP", track_url, cseq);
        push_optional_field(&mut r, "Session", session);
        push_optional_field(&mut r, "Authorization", auth);
        r.append("Transport: RTP/AVP/TCP;unicast;interleaved=");
        push_decimal(&mut r, interleaved_base as u64);
        r.append("-");
        push_decimal(&mut r, interleaved_base.wrapping_add(1) as u64);
        r.append("\r\n\r\n");
        r
    }

    /// Builds a request in the session.
    fn session_request(&mut self, method: &str) -> (r: String)
        ensures
            r@ == old(self)@.session_text(method@),
            final(self)@ == old(self)@.counted(),
    {
        let url = self.rtsp_url();
        let mut r = start_request(method, url.as_str(), self.next_cseq());
        r.append("Session: ");
        let ghost front = r@;
        match &self.session {
            Some(s) => {
                r.append(s.as_str());
            },
            None => {
                assert(front =~= front + Seq::empty());
            },
        }
        r.append("\r\n\r\n");
        r
    }

    /// Builds the PLAY request.
    pub fn play_request(&mut self) -> (r: String)
        ensures
            r@ == old(self)@.session_text("PLAY"@),
            final(self)@ == old(self)@.counted(),
    {
        self.session_request("PLAY")
    }

    /// Builds the TEARDOWN request, which stops the stream.
    pub fn teardown(&mut self) -> (r: String)
        ensures
            r@ == old(self)@.session_text("TEARDOWN"@),
            final(self)@ == old(self)@.counted(),
    {
        self.session_request("TEARDOWN")
    }

    /// The URL of a track.
    pub fn track_url(&self, media: &SdpMedia) -> (r: Result<String, RtspError>)
        ensures
            is_text_outcome(r, self@.track_url(media@)),
    {
        let base = self.rtsp_url();
        match &media.control {
            None => Ok(base),
            Some(c) => resolve_control_url(
                base.as_str(),
                c.as_str(),
                self.host.as_str(),
                self.port,
            ),
        }
    }

    /// Builds the `Authorization` header that answers a challenge, with a new
    /// client nonce.
    pub fn digest_auth_header(&self, method: &str, uri: &str, www_auth: &str) -> (r: Result<
        String,
        RtspError,
    >)
        ensures
            exists|nanos: u128|
                is_text_outcome(
                    r,
                    self@.authorization(method@, uri@, www_auth@, #[trigger] cnonce_text(nanos)),
                ) && is_clock_nanos(nanos),
    {
        let cnonce = generate_cnonce();
        self.digest_auth_header_with(method, uri, www_auth, cnonce.as_str())
    }

    /// Builds the `Authorization` header that answers a challenge with the given
    /// client nonce.
    pub fn digest_auth_header_with(
        &self,
        method: &str,
        uri: &str,
        www_auth: &str,
        cnonce: &str,
    ) -> (r: Result<String, RtspError>)
        ensures
            is_text_outcome(r, self@.authorization(method@, uri@, www_auth@, cnonce@)),
    {
        match parse_challenge(www_auth) {
            Ok(c) => Ok(
                c.authorization(self.user.as_str(), self.pwd.as_str(), method, uri, cnonce),
            ),
            Err(e) => Err(e),
        }
    }
}

// ---------------------------------------------------------------------------
// Handshake
// ---------------------------------------------------------------------------

/// The request whose response the handshake waits for.
#[derive(Debug)]
pub enum Awaiting {
    /// OPTIONS.
    Options,
    /// DESCRIBE without authentication.
    Describe,
    /// DESCRIBE without authentication, for the sake of a challenge; whether
    /// there is no attempt after this one.
    Challenge(bool),
    /// DESCRIBE with authentication; whether there is no attempt after this
    /// one.
    Authorized(bool),
    /// SETUP of the track with this number, with the challenge if the camera
    /// has given one.
    Setup(Vec<SdpMedia>, usize, Option<String>),
    /// SETUP of the first track, for the sake of a challenge.
    SetupChallenge(Vec<SdpMedia>),
    /// PLAY.
    Play,
}

/// What the handshake does on a new connection.
#[derive(Debug)]
pub enum Reconnecting {
    /// Another DESCRIBE.
    Describe,
    /// SETUP with authentication.
    Setup(Vec<SdpMedia>),
}

/// What the handshake does next.
#[derive(Debug)]
pub enum RtspStep {
    /// Sends a request and waits for its response.
    Send(Awaiting, String),
    /// Connects anew.
    Reconnect(Reconnecting),
    /// The stream is running.
    Done,
    /// The handshake has failed.
    Fail(RtspError),
}

/// What an `Awaiting` holds.
pub enum AwaitingView {
    Options,
    Describe,
    Challenge(bool),
    Authorized(bool),
    Setup(Seq<MediaView>, int, Option<Seq<char>>),
    SetupChallenge(Seq<MediaView>),
    Play,
}

/// What a `Reconnecting` holds.
pub enum ReconnectingView {
    Describe,
    Setup(Seq<MediaView>),
}

/// What an `RtspStep` holds.
pub enum StepView {
    Send(AwaitingView, Seq<char>),
    Reconnect(ReconnectingView),
    Done,
    Fail(ErrorView),
}

/// The characters of an optional string.
pub open spec fn opt_string(s: Option<String>) -> Option<Seq<char>> {
    match s {
        Some(t) => Some(t@),
        None => None,
    }
}

impl View for Awaiting {
    type V = AwaitingView;

    open spec fn view(&self) -> AwaitingView {
        match self {
            Awaiting::Options => AwaitingView::Options,
            Awaiting::Describe => AwaitingView::Describe,
            Awaiting::Challenge(last) => AwaitingView::Challenge(*last),
            Awaiting::Authorized(last) => AwaitingView::Authorized(*last),
            Awaiting::Setup(m, i, c) => AwaitingView::Setup(
                media_views(m@),
                *i as int,
                opt_string(*c),
            ),
            Awaiting::SetupChallenge(m) => AwaitingView::SetupChallenge(media_views(m@)),
            Awaiting::Play => AwaitingView::Play,
        }
    }
}

impl View for Reconnecting {
    type V = ReconnectingView;

    open spec fn view(&self) -> ReconnectingView {
        match self {
            Reconnecting::Describe => ReconnectingView::Describe,
            Reconnecting::Setup(m) => ReconnectingView::Setup(media_views(m@)),
        }
    }
}

impl View for RtspStep {
    type V = StepView;

    open spec fn view(&self) -> StepView {
        match self {
            RtspStep::Send(a, r) => StepView::Send(a@, r@),
            RtspStep::Reconnect(r) => StepView::Reconnect(r@),
            RtspStep::Done => StepView::Done,
            RtspStep::Fail(e) => StepView::Fail(e@),
        }
    }
}

/// How long the response to an authenticated DESCRIBE is waited for, in
/// seconds.
pub const AUTH_TIMEOUT_SECS: u64 = 3;

/// How long a new connection is waited for, in seconds.
pub const RECONNECT_TIMEOUT_SECS: u64 = 5;

impl Awaiting {
    /// How long the response is waited for, in seconds, if there is a limit.
    pub fn time_limit(&self) -> (r: Option<u64>)
        ensures
            r == if self@ is Authorized {
                Some(AUTH_TIMEOUT_SECS)
            } else {
                None
            },
    {
        match self {
            Awaiting::Authorized(_) => Some(AUTH_TIMEOUT_SECS),
            _ => None,
        }
    }
}

/// The challenge in a response to SETUP or to DESCRIBE, which must ask for
/// authentication.
pub open spec fn challenge_in(r: ResponseView, to_setup: bool) -> Result<Seq<char>, ErrorView> {
    if r.status_code != 401 {
        if to_setup {
            Err(ErrorView::NoSetupChallenge(r.status_code))
        } else {
            Err(ErrorView::NoDescribeChallenge(r.status_code))
        }
    } else {
        match header_value(r.headers, "WWW-Authenticate"@) {
            Some(v) => Ok(v),
            None => Err(ErrorView::NoChallenge),
        }
    }
}

/// The media sections in a response to DESCRIBE, which had authentication in it
/// or had none.
pub open spec fn media_in(r: ResponseView, authorized: bool) -> Result<
    Seq<MediaView>,
    ErrorView,
> {
    if r.status_code != 200 {
        if authorized {
            Err(ErrorView::AuthRejected(r.status_code))
        } else if r.status_code == 401 {
            Err(ErrorView::Unauthorized)
        } else {
            Err(ErrorView::DescribeStatus(r.status_code))
        }
    } else if sdp_media(r.body).len() == 0 {
        Err(ErrorView::NoMedia)
    } else {
        Ok(sdp_media(r.body))
    }
}

impl ClientView {
    /// The client sends a request.
    pub open spec fn sends(self, awaiting: AwaitingView, request: Seq<char>) -> (
        ClientView,
        StepView,
    ) {
        (self.counted(), StepView::Send(awaiting, request))
    }

    /// An attempt at DESCRIBE has failed: there is one more, on a new
    /// connection, unless it was the last.
    pub open spec fn describe_failed(self, last: bool, e: ErrorView) -> (ClientView, StepView) {
        if last {
            (self, StepView::Fail(e))
        } else {
            (self, StepView::Reconnect(ReconnectingView::Describe))
        }
    }

    /// An attempt at SETUP has failed: without authentication, all is set up
    /// again on a new connection with it.
    pub open spec fn setup_failed(
        self,
        media: Seq<MediaView>,
        challenge: Option<Seq<char>>,
        e: ErrorView,
    ) -> (ClientView, StepView) {
        match challenge {
            Some(_) => (self, StepView::Fail(e)),
            None => (self, StepView::Reconnect(ReconnectingView::Setup(media))),
        }
    }

    /// The track number `i` is set up; after the last one the stream is played.
    pub open spec fn setup_track(
        self,
        media: Seq<MediaView>,
        i: int,
        challenge: Option<Seq<char>>,
        cnonce: Seq<char>,
    ) -> (ClientView, StepView) {
        if i >= media.len() {
            self.sends(AwaitingView::Play, self.session_text("PLAY"@))
        } else {
            match self.track_url(media[i]) {
                Err(e) => self.setup_failed(media, challenge, e),
                Ok(url) => match challenge {
                    None => self.sends(
                        AwaitingView::Setup(media, i, challenge),
                        setup_text(url, self.cseq, self.session, None, channel_of(i)),
                    ),
                    Some(c) => match self.authorization("SETUP"@, url, c, cnonce) {
                        Err(e) => self.setup_failed(media, challenge, e),
                        Ok(auth) => self.sends(
                            AwaitingView::Setup(media, i, challenge),
                            setup_text(url, self.cseq, self.session, Some(auth), channel_of(i)),
                        ),
                    },
                },
            }
        }
    }

    /// The client with the session that a response gives, if it gives one.
    pub open spec fn in_session(self, headers: Seq<char>) -> ClientView {
        match header_value(headers, "Session"@) {
            Some(s) => ClientView { session: Some(s), ..self },
            None => self,
        }
    }

    /// The handshake starts.
    pub open spec fn begin(self) -> (ClientView, StepView) {
        self.sends(AwaitingView::Options, self.options_text())
    }

    /// What follows on a response, or on a failure to get one, with the client
    /// nonce `cnonce`.
    pub open spec fn step(
        self,
        awaiting: AwaitingView,
        response: Result<ResponseView, ErrorView>,
        cnonce: Seq<char>,
    ) -> (ClientView, StepView) {
        let ask_challenge = self.sends(AwaitingView::Challenge(false), self.describe_text(None));
        match (awaiting, response) {
            (AwaitingView::Options, Ok(_)) => self.sends(
                AwaitingView::Describe,
                self.describe_text(None),
            ),
            (AwaitingView::Describe, Ok(r)) => match media_in(r, false) {
                Ok(media) => self.setup_track(media, 0, None, cnonce),
                Err(_) => ask_challenge,
            },
            (AwaitingView::Describe, Err(_)) => ask_challenge,
            (AwaitingView::Challenge(last), Ok(r)) => if r.status_code == 200 {
                match media_in(r, false) {
                    Ok(media) => self.setup_track(media, 0, None, cnonce),
                    Err(e) => self.describe_failed(last, e),
                }
            } else {
                match challenge_in(r, false) {
                    Err(e) => self.describe_failed(last, e),
                    Ok(c) => match self.authorization("DESCRIBE"@, self.url(), c, cnonce) {
                        Err(e) => self.describe_failed(last, e),
                        Ok(auth) => self.sends(
                            AwaitingView::Authorized(last),
                            self.describe_text(Some(auth)),
                        ),
                    },
                }
            },
            (AwaitingView::Challenge(last), Err(e)) => self.describe_failed(last, e),
            (AwaitingView::Authorized(last), Ok(r)) => match media_in(r, true) {
                Ok(media) => self.setup_track(media, 0, None, cnonce),
                Err(e) => self.describe_failed(last, e),
            },
            (AwaitingView::Authorized(last), Err(e)) => self.describe_failed(last, e),
            (AwaitingView::Setup(media, i, challenge), Ok(r)) => if r.status_code == 200 {
                self.in_session(r.headers).setup_track(media, i + 1, challenge, cnonce)
            } else {
                self.setup_failed(
                    media,
                    challenge,
                    if i < media.len() {
                        ErrorView::SetupFailed(media[i].kind, r.status_code)
                    } else {
                        ErrorView::NothingToSetUp
                    },
                )
            },
            (AwaitingView::Setup(media, i, challenge), Err(e)) => self.setup_failed(
                media,
                challenge,
                e,
            ),
            (AwaitingView::SetupChallenge(media), Ok(r)) => match challenge_in(r, true) {
                Err(e) => (self, StepView::Fail(e)),
                Ok(c) => self.setup_track(media, 0, Some(c), cnonce),
            },
            (AwaitingView::Play, Ok(_)) => (self, StepView::Done),
            (_, Err(e)) => (self, StepView::Fail(e)),
        }
    }

    /// What follows on a new connection, or on a failure to get one.
    pub open spec fn reconnect(
        self,
        reconnecting: ReconnectingView,
        connected: Result<(), ErrorView>,
    ) -> (ClientView, StepView) {
        let c = self.reconnected();
        match connected {
            Err(e) => (self, StepView::Fail(e)),
            Ok(_) => match reconnecting {
                ReconnectingView::Describe => c.sends(
                    AwaitingView::Challenge(true),
                    c.describe_text(None),
                ),
                ReconnectingView::Setup(media) => if media.len() == 0 {
                    (c, StepView::Fail(ErrorView::NothingToSetUp))
                } else {
                    match c.track_url(media[0]) {
                        Err(e) => (c, StepView::Fail(e)),
                        Ok(url) => c.sends(
                            AwaitingView::SetupChallenge(media),
                            setup_text(url, c.cseq, None, None, 0),
                        ),
                    }
                },
            },
        }
    }
}

/// The challenge in a response to SETUP or to DESCRIBE, which must ask for
/// authentication.
pub fn extract_challenge(response: &RtspResponse, to_setup: bool) -> (r: Result<String, RtspError>)
    ensures
        is_text_outcome(r, challenge_in(response@, to_setup)),
{
    if response.status_code != 401 {
        return Err(
            if to_setup {
                RtspError::NoSetupChallenge(response.status_code)
            } else {
                RtspError::NoDescribeChallenge(response.status_code)
            },
        );
    }
    match extract_header(response.headers.as_str(), "WWW-Authenticate") {
        Some(v) => Ok(v.to_owned()),
        None => Err(RtspError::NoChallenge),
    }
}

/// The media sections in a response to DESCRIBE, which had authentication in it
/// or had none.
pub fn extract_media(response: &RtspResponse, authorized: bool) -> (r: Result<
    Vec<SdpMedia>,
    RtspError,
>)
    ensures
        match (r, media_in(response@, authorized)) {
            (Ok(m), Ok(v)) => media_views(m@) == v,
            (Err(e), Err(f)) => e@ == f,
            _ => false,
        },
{
    if response.status_code != 200 {
        return Err(
            if authorized {
                RtspError::AuthRejected(response.status_code)
            } else if response.status_code == 401 {
                RtspError::Unauthorized
            } else {
                RtspError::DescribeStatus(response.status_code)
            },
        );
    }
    parse_sdp_media(response.body.as_str())
}

impl RtspClient {
    fn describe_failed(last: bool, e: RtspError) -> (r: RtspStep)
        ensures
            forall|c: ClientView| (c, r@) == #[trigger] c.describe_failed(last, e@),
    {
        if last {
            RtspStep::Fail(e)
        } else {
            RtspStep::Reconnect(Reconnecting::Describe)
        }
    }

    fn setup_failed(media: Vec<SdpMedia>, challenge: &Option<String>, e: RtspError) -> (r: RtspStep)
        ensures
            forall|c: ClientView|
                (c, r@) == #[trigger] c.setup_failed(
                    media_views(media@),
                    opt_string(*challenge),
                    e@,
                ),
    {
        match challenge {
            Some(_) => RtspStep::Fail(e),
            None => RtspStep::Reconnect(Reconnecting::Setup(media)),
        }
    }

    /// Sets up the track number `i`, or plays the stream if all are set up.
    fn setup_track(
        &mut self,
        media: Vec<SdpMedia>,
        i: usize,
        challenge: Option<String>,
        cnonce: &str,
    ) -> (r: RtspStep)
        ensures
            (final(self)@, r@) == old(self)@.setup_track(
                media_views(media@),
                i as int,
                opt_string(challenge),
                cnonce@,
            ),
    {
        let n: usize = media.len();
        assert(media_views(media@).len() == n);
        if i >= n {
            return RtspStep::Send(Awaiting::Play, self.play_request());
        }
        assert(media_views(media@)[i as int] == media@[i as int]@);
        let url = match self.track_url(&media[i]) {
            Ok(url) => url,
            Err(e) => {
                return RtspClient::setup_failed(media, &challenge, e);
            },
        };
        let auth: Option<String> = match &challenge {
            None => None,
            Some(c) => match self.digest_auth_header_with(
                "SETUP",
                url.as_str(),
                c.as_str(),
                cnonce,
            ) {
                Ok(auth) => Some(auth),
                Err(e) => {
                    return RtspClient::setup_failed(media, &challenge, e);
                },
            },
        };
        let auth_ref = match &auth {
            Some(a) => Some(a.as_str()),
            None => None,
        };
        let cseq: u32 = self.next_cseq();
        let session = match &self.session {
            Some(s) => Some(s.as_str()),
            None => None,
        };
        let request = RtspClient::setup_request(url.as_str(), cseq, session, auth_ref, channel(i));
        RtspStep::Send(Awaiting::Setup(media, i, challenge), request)
    }

    /// Starts the handshake: OPTIONS, DESCRIBE, SETUP of every track, PLAY.
    pub fn begin(&mut self) -> (r: RtspStep)
        ensures
            (final(self)@, r@) == old(self)@.begin(),
    {
        RtspStep::Send(Awaiting::Options, self.options_request())
    }

    fn ask_challenge(&mut self, last: bool) -> (r: RtspStep)
        ensures
            (final(self)@, r@) == old(self)@.sends(
                AwaitingView::Challenge(last),
                old(self)@.describe_text(None),
            ),
    {
        RtspStep::Send(Awaiting::Challenge(last), self.describe_request(None))
    }

    /// Goes on with the handshake after a response, or after a failure to get
    /// one, with a new client nonce.
    pub fn advance(
        &mut self,
        awaiting: Awaiting,
        response: Result<RtspResponse, RtspError>,
    ) -> (r: RtspStep)
        ensures
            exists|nanos: u128|
                (final(self)@, r@) == old(self)@.step(
                    awaiting@,
                    response_outcome(response),
                    #[trigger] cnonce_text(nanos),
                ) && is_clock_nanos(nanos),
    {
        let cnonce = generate_cnonce();
        self.step(awaiting, response, cnonce.as_str())
    }

    /// Goes on with the handshake after a response, or after a failure to get
    /// one.
    ///
    /// DESCRIBE is tried without authentication, then with an answer to the
    /// camera's challenge on the same connection, then so on a new connection.
    /// The tracks are set up without authentication first; if that fails, all
    /// of them again on a new connection with an answer to a new challenge,
    /// since a camera ties its challenges to the connection.
    pub fn step(
        &mut self,
        awaiting: Awaiting,
        response: Result<RtspResponse, RtspError>,
        cnonce: &str,
    ) -> (r: RtspStep)
        ensures
            (final(self)@, r@) == old(self)@.step(
                awaiting@,
                response_outcome(response),
                cnonce@,
            ),
    {
        let response = match response {
            Ok(r) => r,
            Err(e) => {
                return match awaiting {
                    Awaiting::Describe => self.ask_challenge(false),
                    Awaiting::Challenge(last) => RtspClient::describe_failed(last, e),
                    Awaiting::Authorized(last) => RtspClient::describe_failed(last, e),
                    Awaiting::Setup(media, _, challenge) => RtspClient::setup_failed(
                        media,
                        &challenge,
                        e,
                    ),
                    _ => RtspStep::Fail(e),
                };
            },
        };
        match awaiting {
            Awaiting::Options => RtspStep::Send(Awaiting::Describe, self.describe_request(None)),
            Awaiting::Describe => match extract_media(&response, false) {
                Ok(media) => self.setup_track(media, 0, None, cnonce),
                Err(_) => self.ask_challenge(false),
            },
            Awaiting::Challenge(last) => {
                if response.status_code == 200 {
                    return match extract_media(&response, false) {
                        Ok(media) => self.setup_track(media, 0, None, cnonce),
                        Err(e) => RtspClient::describe_failed(last, e),
                    };
                }
                let challenge = match extract_challenge(&response, false) {
                    Ok(c) => c,
                    Err(e) => {
                        return RtspClient::describe_failed(last, e);
                    },
                };
                let url = self.rtsp_url();
                match self.digest_auth_header_with(
                    "DESCRIBE",
                    url.as_str(),
                    challenge.as_str(),
                    cnonce,
                ) {
                    Ok(auth) => RtspStep::Send(
                        Awaiting::Authorized(last),
                        self.describe_request(Some(auth.as_str())),
                    ),
                    Err(e) => RtspClient::describe_failed(last, e),
                }
            },
            Awaiting::Authorized(last) => match extract_media(&response, true) {
                Ok(media) => self.setup_track(media, 0, None, cnonce),
                Err(e) => RtspClient::describe_failed(last, e),
            },
            Awaiting::Setup(media, i, challenge) => {
                if response.status_code != 200 {
                    assert(media_views(media@).len() == media@.len());
                    let e = if i < media.len() {
                        assert(media_views(media@)[i as int] == media@[i as int]@);
                        RtspError::SetupFailed(media[i].kind, response.status_code)
                    } else {
                        RtspError::NothingToSetUp
                    };
                    let ghost views = media_views(media@);
                    assert(e@ == if i < views.len() {
                        ErrorView::SetupFailed(views[i as int].kind, response.status_code)
                    } else {
                        ErrorView::NothingToSetUp
                    });
                    return RtspClient::setup_failed(
                        media,
                        &challenge,
                        e,
                    );
                }
                if let Some(s) = extract_header(response.headers.as_str(), "Session") {
                    self.session = Some(s.to_owned());
                }
                if i < media.len() {
                    self.setup_track(media, i + 1, challenge, cnonce)
                } else {
                    self.setup_track(media, i, challenge, cnonce)
                }
            },
            Awaiting::SetupChallenge(media) => match extract_challenge(&response, true) {
                Ok(c) => self.setup_track(media, 0, Some(c), cnonce),
                Err(e) => RtspStep::Fail(e),
            },
            Awaiting::Play => RtspStep::Done,
        }
    }

    /// Goes on with the handshake once there is a new connection, or a failure to
    /// get one.
    pub fn reconnect(
        &mut self,
        reconnecting: Reconnecting,
        connected: Result<(), RtspError>,
    ) -> (r: RtspStep)
        ensures
            (final(self)@, r@) == old(self)@.reconnect(
                reconnecting@,
                connection_outcome(connected),
            ),
    {
        if let Err(e) = connected {
            return RtspStep::Fail(e);
        }
        self.cseq = 1;
        self.session = None;
        match reconnecting {
            Reconnecting::Describe => self.ask_challenge(true),
            Reconnecting::Setup(media) => {
                assert(media_views(media@).len() == media@.len());
                if media.len() == 0 {
                    return RtspStep::Fail(RtspError::NothingToSetUp);
                }
                assert(media_views(media@)[0] == media@[0]@);
                match self.track_url(&media[0]) {
                    Err(e) => RtspStep::Fail(e),
                    Ok(url) => {
                        let cseq: u32 = self.next_cseq();
                        let request = RtspClient::setup_request(url.as_str(), cseq, None, None, 0);
                        RtspStep::Send(Awaiting::SetupChallenge(media), request)
                    },
                }
            },
        }
    }
}

/// What a response holds, or the failure to get one.
pub open spec fn response_outcome(r: Result<RtspResponse, RtspError>) -> Result<
    ResponseView,
    ErrorView,
> {
    match r {
        Ok(x) => Ok(x@),
        Err(e) => Err(e@),
    }
}

/// What the failure to connect holds, if there was one.
pub open spec fn connection_outcome(r: Result<(), RtspError>) -> Result<(), ErrorView> {
    match r {
        Ok(_) => Ok(()),
        Err(e) => Err(e@),
    }
}

// ---------------------------------------------------------------------------
// Laws
// ---------------------------------------------------------------------------

/// A block of interleaved data.
pub open spec fn block(channel: u8, payload: Seq<u8>) -> Seq<u8> {
    seq![0x24u8, channel, (payload.len() / 256) as u8, (payload.len() % 256) as u8] + payload
}

/// What a reader before a block gives for its bytes, piece by piece as it needs
/// them, and where it stands then.
pub open spec fn read_block(bytes: Seq<u8>) -> (Interleaved, Option<PacketView>) {
    let a = Interleaved::Magic.after(bytes.subrange(0, 1)).0;
    let b = a.after(bytes.subrange(1, 2)).0;
    let c = b.after(bytes.subrange(2, 4)).0;
    c.after(bytes.subrange(4, 4 + c.needs() as int))
}

/// A block is read back as it was written: a block of a track's channel gives
/// its bytes as a packet of that track, any other block is passed over, and the
/// reader then stands before the next block.
pub proof fn law_block_reads_back(channel: u8, payload: Seq<u8>)
    requires
        payload.len() <= 0xffff,
    ensures
        read_block(block(channel, payload)) == (Interleaved::Magic, packet_of(channel, payload)),
        block(channel, payload).len() == 4 + payload.len(),
{
    let bytes = block(channel, payload);
    assert(bytes.subrange(0, 1)[0] == 0x24);
    assert(bytes.subrange(1, 2)[0] == channel);
    assert(bytes.subrange(2, 4)[0] == payload.len() / 256);
    assert(bytes.subrange(2, 4)[1] == payload.len() % 256);
    assert(payload.len() / 256 * 256 + payload.len() % 256 == payload.len());
    assert(bytes.subrange(4, 4 + payload.len() as int) =~= payload);
}

/// A reader that is out of step finds the next block: bytes other than `$` are
/// passed over one by one.
pub proof fn law_reader_finds_the_next_block(b: u8)
    requires
        b != 0x24,
    ensures
        Interleaved::Magic.after(seq![b]) == (Interleaved::Magic, None::<PacketView>),
{
}

/// How far a handshake that waits for a response is from its end: a phase, and
/// the number of tracks left in it.
pub open spec fn rank_of(a: AwaitingView) -> (int, int) {
    match a {
        AwaitingView::Options => (12, 0),
        AwaitingView::Describe => (11, 0),
        AwaitingView::Challenge(last) => if last {
            (7, 0)
        } else {
            (10, 0)
        },
        AwaitingView::Authorized(last) => if last {
            (6, 0)
        } else {
            (9, 0)
        },
        AwaitingView::Setup(media, i, challenge) => if challenge is None {
            (5, media.len() - i)
        } else {
            (2, media.len() - i)
        },
        AwaitingView::SetupChallenge(_) => (3, 0),
        AwaitingView::Play => (1, 0),
    }
}

/// How far a handshake that connects anew is from its end.
pub open spec fn reconnect_rank(r: ReconnectingView) -> (int, int) {
    match r {
        ReconnectingView::Describe => (8, 0),
        ReconnectingView::Setup(_) => (4, 0),
    }
}

/// Whether `step` ends the handshake or brings it nearer to its end than
/// `rank`.
pub open spec fn is_nearer(step: StepView, rank: (int, int)) -> bool {
    let next = match step {
        StepView::Send(a, _) => rank_of(a),
        StepView::Reconnect(r) => reconnect_rank(r),
        _ => (0, 0),
    };
    &&& 0 <= next.0
    &&& next.0 < rank.0 || (next.0 == rank.0 && 0 <= next.1 < rank.1)
}

/// The handshake ends, whatever the camera answers: every response, every
/// missing response and every new connection brings it nearer to its end, with
/// at most one new connection for DESCRIBE and one for SETUP.
#[verifier::spinoff_prover]
#[verifier::rlimit(50)]
pub proof fn law_handshake_ends(
    c: ClientView,
    a: AwaitingView,
    response: Result<ResponseView, ErrorView>,
    r: ReconnectingView,
    connected: Result<(), ErrorView>,
    cnonce: Seq<char>,
)
    requires
        a matches AwaitingView::Setup(media, i, _) ==> 0 <= i < media.len(),
    ensures
        is_nearer(c.step(a, response, cnonce).1, rank_of(a)),
        is_nearer(c.reconnect(r, connected).1, reconnect_rank(r)),
{
}

/// Every track has two channels of its own, as far as there are channels.
pub proof fn law_tracks_have_their_own_channels(i: int, j: int)
    requires
        0 <= i < j < 128,
    ensures
        channel_of(i) == 2 * i,
        channel_of(i) + 1 < channel_of(j),
{
}

/// The stream is played only when every track is set up: a PLAY request follows
/// on nothing but the camera's acceptance of the last track.
pub proof fn law_play_comes_after_every_track(
    c: ClientView,
    a: AwaitingView,
    response: Result<ResponseView, ErrorView>,
    cnonce: Seq<char>,
)
    requires
        c.step(a, response, cnonce).1 matches StepView::Send(AwaitingView::Play, _),
        a matches AwaitingView::SetupChallenge(media) ==> media.len() > 0,
    ensures
        a matches AwaitingView::Setup(media, i, _) && i + 1 >= media.len(),
        response matches Ok(r) && r.status_code == 200,
{
}

/// The credentials do not leave the client but in a hash: two passwords whose
/// hashes with user and realm agree give the same requests.
pub proof fn law_password_is_only_hashed(
    c: ClientView,
    other: Seq<char>,
    method: Seq<char>,
    uri: Seq<char>,
    www_auth: Seq<char>,
    cnonce: Seq<char>,
)
    requires
        challenge_of(www_auth) matches Ok(ch) ==> md5_of(c.user + ":"@ + ch.realm + ":"@ + c.pwd)
            == md5_of(c.user + ":"@ + ch.realm + ":"@ + other),
    ensures
        c.authorization(method, uri, www_auth, cnonce) == (ClientView {
            pwd: other,
            ..c
        }).authorization(method, uri, www_auth, cnonce),
{
}

/// After a reconnect the old session is dropped: the requests for a challenge and
/// the first SETUP that answers it have no session in them.
pub proof fn law_first_setup_has_no_session(
    c: ClientView,
    media: Seq<MediaView>,
    response: ResponseView,
    cnonce: Seq<char>,
)
    requires
        media.len() > 0,
    ensures
        ({
            let (anew, challenging) = c.reconnect(ReconnectingView::Setup(media), Ok(()));
            &&& anew.session is None
            &&& challenging matches StepView::Send(_, text) ==> exists|url: Seq<char>|
                text == #[trigger] setup_text(url, 1, None, None, 0)
            &&& anew.step(
                AwaitingView::SetupChallenge(media),
                Ok(response),
                cnonce,
            ).1 matches StepView::Send(_, text) ==> exists|url: Seq<char>, auth: Seq<char>|
                text == #[trigger] setup_text(url, anew.cseq, None, Some(auth), 0)
        }),
{
    let (anew, challenging) = c.reconnect(ReconnectingView::Setup(media), Ok(()));
    if let Ok(url) = c.reconnected().track_url(media[0]) {
        assert(challenging is Send ==> challenging->Send_1 == setup_text(url, 1, None, None, 0));
    }
    let next = anew.step(AwaitingView::SetupChallenge(media), Ok(response), cnonce).1;
    if let Ok(w) = challenge_in(response, true) {
        if let Ok(url) = anew.track_url(media[0]) {
            if let Ok(auth) = anew.authorization("SETUP"@, url, w, cnonce) {
                assert(next->Send_1 == setup_text(url, anew.cseq, None, Some(auth), 0));
            }
        }
    }
}

/// The hash that Digest authentication is made of: MD5 of the UTF-8 bytes of a
/// text.
pub open spec fn hash(text: Seq<char>) -> Seq<char> {
    md5_text(encode_utf8(text))
}

/// What a camera expects as the answer to its challenge `w` in a request with the
/// method `method` for `uri`, from a user with a password: user, realm, nonce and
/// URI by name, and the hash that ties them to the password. The hash covers the
/// client's nonce where the challenge offers the quality of protection `auth`, and
/// so does that of the credentials where the algorithm is `MD5-sess`.
pub open spec fn expected_answer(
    user: Seq<char>,
    pwd: Seq<char>,
    method: Seq<char>,
    uri: Seq<char>,
    w: Seq<char>,
    cnonce: Seq<char>,
) -> Seq<char> {
    let realm = auth_param_value(w, "realm"@)->0;
    let nonce = auth_param_value(w, "nonce"@)->0;
    let algorithm = auth_param_value(w, "algorithm"@);
    let opaque = auth_param_value(w, "opaque"@);
    let protects = auth_param_value(w, "qop"@) matches Some(q) && lists(unquoted(q), "auth"@);
    let credentials = hash(user + ":"@ + realm + ":"@ + pwd);
    let secret = if algorithm matches Some(a) && unquoted(a) == "MD5-sess"@ {
        hash(credentials + ":"@ + nonce + ":"@ + cnonce)
    } else {
        credentials
    };
    let request = hash(method + ":"@ + uri);
    let response = if protects {
        hash(secret + ":"@ + nonce + ":00000001:"@ + cnonce + ":auth:"@ + request)
    } else {
        hash(secret + ":"@ + nonce + ":"@ + request)
    };
    "Digest username=\""@ + user + "\", realm=\""@ + realm + "\", nonce=\""@ + nonce + "\", uri=\""@
        + uri + "\", response=\""@ + response + "\""@ + (match algorithm {
        Some(a) => ", algorithm="@ + unquoted(a),
        None => Seq::empty(),
    }) + (match opaque {
        Some(o) => ", opaque=\""@ + unquoted(o) + "\""@,
        None => Seq::empty(),
    }) + (if protects {
        ", qop=auth, cnonce=\""@ + cnonce + "\", nc=00000001"@
    } else {
        Seq::empty()
    })
}

/// A challenge with a realm and a nonce is answered as the camera expects it, for
/// the very method and URI of the request; one without is not answered.
pub proof fn law_answer_is_what_the_camera_expects(
    c: ClientView,
    method: Seq<char>,
    uri: Seq<char>,
    w: Seq<char>,
    cnonce: Seq<char>,
)
    ensures
        auth_param_value(w, "realm"@) is Some && auth_param_value(w, "nonce"@) is Some
            ==> c.authorization(method, uri, w, cnonce) == Ok::<Seq<char>, ErrorView>(
            expected_answer(c.user, c.pwd, method, uri, w, cnonce),
        ),
        auth_param_value(w, "realm"@) is None ==> c.authorization(method, uri, w, cnonce) == Err::<
            Seq<char>,
            ErrorView,
        >(ErrorView::MissingRealm),
        auth_param_value(w, "realm"@) is Some && auth_param_value(w, "nonce"@) is None
            ==> c.authorization(method, uri, w, cnonce) == Err::<Seq<char>, ErrorView>(
            ErrorView::MissingNonce,
        ),
{
    if let Ok(ch) = challenge_of(w) {
        let nonce = ch.nonce;
        let secret = ch.ha1(c.user, c.pwd, cnonce);
        let request = hash(method + ":"@ + uri);
        reveal_strlit(":");
        reveal_strlit("00000001");
        reveal_strlit("auth");
        reveal_strlit(":00000001:");
        reveal_strlit(":auth:");
        assert(secret + ":"@ + nonce + ":"@ + "00000001"@ + ":"@ + cnonce + ":"@ + "auth"@ + ":"@
            + request =~= secret + ":"@ + nonce + ":00000001:"@ + cnonce + ":auth:"@ + request);
        reveal_strlit(", qop=");
        reveal_strlit(", cnonce=\"");
        reveal_strlit("\", nc=");
        reveal_strlit(", qop=auth, cnonce=\"");
        reveal_strlit("\", nc=00000001");
        assert(", qop="@ + "auth"@ + ", cnonce=\""@ + cnonce + "\", nc="@ + "00000001"@
            =~= ", qop=auth, cnonce=\""@ + cnonce + "\", nc=00000001"@);
    }
}

/// The request that asks for the description of the stream at `url`, with an
/// answer to a challenge or without.
pub open spec fn describe_request_text(
    url: Seq<char>,
    cseq: u32,
    answer: Option<Seq<char>>,
) -> Seq<char> {
    "DESCRIBE "@ + url + " RTSP/1.0\r\nCSeq: "@ + decimal(cseq as nat)
        + "\r\nAccept: application/sdp\r\n"@ + (match answer {
        Some(a) => "Authorization: "@ + a + "\r\n"@,
        None => Seq::empty(),
    }) + "\r\n"@
}

/// The request that sets up the track at `url`, number `i` of the stream, for two
/// channels of its own: in a session or not, with an answer to a challenge or
/// without.
pub open spec fn setup_request_text(
    url: Seq<char>,
    cseq: u32,
    session: Option<Seq<char>>,
    answer: Option<Seq<char>>,
    i: int,
) -> Seq<char> {
    "SETUP "@ + url + " RTSP/1.0\r\nCSeq: "@ + decimal(cseq as nat) + "\r\n"@ + (match session {
        Some(s) => "Session: "@ + s + "\r\n"@,
        None => Seq::empty(),
    }) + (match answer {
        Some(a) => "Authorization: "@ + a + "\r\n"@,
        None => Seq::empty(),
    }) + "Transport: RTP/AVP/TCP;unicast;interleaved="@ + decimal((2 * i) as nat) + "-"@ + decimal(
        (2 * i + 1) as nat,
    ) + "\r\n\r\n"@
}

/// The request with the method `method` for the stream at `url` in a session.
pub open spec fn session_request_text(
    method: Seq<char>,
    url: Seq<char>,
    cseq: u32,
    session: Seq<char>,
) -> Seq<char> {
    method + " "@ + url + " RTSP/1.0\r\nCSeq: "@ + decimal(cseq as nat) + "\r\nSession: "@ + session
        + "\r\n\r\n"@
}

/// A request starts with the method, the URL and its number.
proof fn lemma_head(method: Seq<char>, first: Seq<char>, url: Seq<char>, cseq: u32)
    requires
        first == method + " "@,
    ensures
        request_head(method, url, cseq) == first + url + " RTSP/1.0\r\nCSeq: "@ + decimal(
            cseq as nat,
        ) + "\r\n"@,
{
}

proof fn lemma_literals()
    ensures
        "OPTIONS "@ == "OPTIONS"@ + " "@,
        "DESCRIBE "@ == "DESCRIBE"@ + " "@,
        "SETUP "@ == "SETUP"@ + " "@,
        "Authorization: "@ == "Authorization"@ + ": "@,
        "Session: "@ == "Session"@ + ": "@,
        "\r\n\r\n"@ == "\r\n"@ + "\r\n"@,
        "\r\nSession: "@ == "\r\n"@ + "Session: "@,
        "\r\nAccept: application/sdp\r\n"@ == "\r\n"@ + "Accept: application/sdp\r\n"@,
{
    reveal_strlit(" ");
    reveal_strlit("OPTIONS");
    reveal_strlit("OPTIONS ");
    reveal_strlit("DESCRIBE");
    reveal_strlit("DESCRIBE ");
    reveal_strlit("SETUP");
    reveal_strlit("SETUP ");
    reveal_strlit("\r\n");
    reveal_strlit("\r\n\r\n");
    reveal_strlit("Accept: application/sdp\r\n");
    reveal_strlit("\r\nAccept: application/sdp\r\n");
    reveal_strlit("Authorization");
    reveal_strlit("Authorization: ");
    reveal_strlit("Session");
    reveal_strlit("Session: ");
    reveal_strlit("\r\nSession: ");
    reveal_strlit(": ");
    assert("OPTIONS "@ =~= "OPTIONS"@ + " "@);
    assert("DESCRIBE "@ =~= "DESCRIBE"@ + " "@);
    assert("SETUP "@ =~= "SETUP"@ + " "@);
    assert("Authorization: "@ =~= "Authorization"@ + ": "@);
    assert("Session: "@ =~= "Session"@ + ": "@);
    assert("\r\n\r\n"@ =~= "\r\n"@ + "\r\n"@);
    assert("\r\nSession: "@ =~= "\r\n"@ + "Session: "@);
    assert("\r\nAccept: application/sdp\r\n"@ =~= "\r\n"@ + "Accept: application/sdp\r\n"@);
}

/// The request for the options of a stream names it by its URL: host, port and
/// path.
pub proof fn law_options_request_text(c: ClientView)
    ensures
        c.url() == "rtsp://"@ + c.host + ":"@ + decimal(c.port as nat) + "/"@ + c.path,
        c.options_text() == "OPTIONS "@ + c.url() + " RTSP/1.0\r\nCSeq: "@ + decimal(c.cseq as nat)
            + "\r\n\r\n"@,
{
    lemma_literals();
    lemma_head("OPTIONS"@, "OPTIONS "@, c.url(), c.cseq);
    let front = "OPTIONS "@ + c.url() + " RTSP/1.0\r\nCSeq: "@ + decimal(c.cseq as nat);
    assert(front + "\r\n"@ + "\r\n"@ =~= front + ("\r\n"@ + "\r\n"@));
}

/// The request for a description has an answer to a challenge in it exactly if
/// there is one, on a line of its own.
pub proof fn law_describe_request_text(c: ClientView, answer: Option<Seq<char>>)
    ensures
        c.describe_text(answer) == describe_request_text(c.url(), c.cseq, answer),
{
    lemma_literals();
    lemma_head("DESCRIBE"@, "DESCRIBE "@, c.url(), c.cseq);
    let front = "DESCRIBE "@ + c.url() + " RTSP/1.0\r\nCSeq: "@ + decimal(c.cseq as nat);
    let accept = "Accept: application/sdp\r\n"@;
    assert(front + "\r\n"@ + accept =~= front + ("\r\n"@ + accept));
}

/// The request that sets up a track has a session and an answer to a challenge in
/// it exactly if there are such, each on a line of its own, and asks for the two
/// channels of the track.
pub proof fn law_setup_request_text(
    url: Seq<char>,
    cseq: u32,
    session: Option<Seq<char>>,
    answer: Option<Seq<char>>,
    i: int,
)
    requires
        0 <= i < 128,
    ensures
        setup_text(url, cseq, session, answer, channel_of(i)) == setup_request_text(
            url,
            cseq,
            session,
            answer,
            i,
        ),
{
    lemma_literals();
    lemma_head("SETUP"@, "SETUP "@, url, cseq);
}

/// The requests in a session carry its name.
pub proof fn law_session_request_text(c: ClientView, method: Seq<char>, session: Seq<char>)
    requires
        c.session == Some(session),
    ensures
        c.session_text(method) == session_request_text(method, c.url(), c.cseq, session),
{
    lemma_literals();
    let front = method + " "@ + c.url() + " RTSP/1.0\r\nCSeq: "@ + decimal(c.cseq as nat);
    assert(front + "\r\n"@ + "Session: "@ =~= front + ("\r\n"@ + "Session: "@));
}

/// Whether the challenge `w`, if there is one, can be answered: it has a realm and
/// a nonce.
pub open spec fn is_answerable(w: Option<Seq<char>>) -> bool {
    w matches Some(t) ==> auth_param_value(t, "realm"@) is Some && auth_param_value(t, "nonce"@)
        is Some
}

/// The answer that a SETUP request for `url` has in it, if there is a challenge.
pub open spec fn setup_answer(
    c: ClientView,
    url: Seq<char>,
    challenge: Option<Seq<char>>,
    cnonce: Seq<char>,
) -> Option<Seq<char>> {
    match challenge {
        Some(w) => Some(expected_answer(c.user, c.pwd, "SETUP"@, url, w, cnonce)),
        None => None,
    }
}

/// The client with another session that has sent one request more.
pub open spec fn one_request_later(c: ClientView, session: Option<Seq<char>>) -> ClientView {
    ClientView {
        cseq: if c.cseq == 0xffff_ffff {
            0
        } else {
            (c.cseq + 1) as u32
        },
        session,
        ..c
    }
}

proof fn lemma_setup_track(
    c: ClientView,
    media: Seq<MediaView>,
    i: int,
    challenge: Option<Seq<char>>,
    cnonce: Seq<char>,
    url: Seq<char>,
)
    requires
        0 <= i < media.len(),
        i < 128,
        c.track_url(media[i]) == Ok::<Seq<char>, ErrorView>(url),
        is_answerable(challenge),
    ensures
        c.setup_track(media, i, challenge, cnonce) == (
            one_request_later(c, c.session),
            StepView::Send(
                AwaitingView::Setup(media, i, challenge),
                setup_request_text(
                    url,
                    c.cseq,
                    c.session,
                    setup_answer(c, url, challenge, cnonce),
                    i,
                ),
            ),
        ),
{
    let answer = setup_answer(c, url, challenge, cnonce);
    law_setup_request_text(url, c.cseq, c.session, answer, i);
    if let Some(w) = challenge {
        law_answer_is_what_the_camera_expects(c, "SETUP"@, url, w, cnonce);
    }
}

/// A camera that describes its stream is asked to set up the first track, without
/// authentication and on the channels 0 and 1, however it came to describe it.
pub proof fn law_described_stream_is_set_up(
    c: ClientView,
    a: AwaitingView,
    r: ResponseView,
    cnonce: Seq<char>,
    url: Seq<char>,
)
    requires
        a is Describe || a is Challenge || a is Authorized,
        r.status_code == 200,
        sdp_media(r.body).len() > 0,
        c.track_url(sdp_media(r.body)[0]) == Ok::<Seq<char>, ErrorView>(url),
    ensures
        c.step(a, Ok(r), cnonce) == (
            one_request_later(c, c.session),
            StepView::Send(
                AwaitingView::Setup(sdp_media(r.body), 0, None),
                setup_request_text(url, c.cseq, c.session, None, 0),
            ),
        ),
{
    lemma_setup_track(c, sdp_media(r.body), 0, None, cnonce, url);
}

/// A track that is set up is followed by the next one, on the next two channels,
/// and with an answer to the challenge for that request if the camera has given
/// one; the last one is followed by PLAY. The session that the camera names goes
/// into the requests from there on.
pub proof fn law_every_track_is_set_up_in_turn(
    c: ClientView,
    media: Seq<MediaView>,
    i: int,
    challenge: Option<Seq<char>>,
    r: ResponseView,
    cnonce: Seq<char>,
    url: Seq<char>,
)
    requires
        0 <= i < media.len(),
        i + 1 < 128,
        r.status_code == 200,
        i + 1 < media.len() ==> c.track_url(media[i + 1]) == Ok::<Seq<char>, ErrorView>(url)
            && is_answerable(challenge),
    ensures
        ({
            let session = match header_value(r.headers, "Session"@) {
                Some(s) => Some(s),
                None => c.session,
            };
            let next = c.step(AwaitingView::Setup(media, i, challenge), Ok(r), cnonce);
            &&& next.0 == one_request_later(c, session)
            &&& i + 1 < media.len() ==> next.1 == StepView::Send(
                AwaitingView::Setup(media, i + 1, challenge),
                setup_request_text(
                    url,
                    c.cseq,
                    session,
                    setup_answer(c, url, challenge, cnonce),
                    i + 1,
                ),
            )
            &&& i + 1 == media.len() && session is Some ==> next.1 == StepView::Send(
                AwaitingView::Play,
                session_request_text("PLAY"@, c.url(), c.cseq, session->0),
            )
        }),
{
    let d = c.in_session(r.headers);
    if i + 1 < media.len() {
        assert(d.track_url(media[i + 1]) == c.track_url(media[i + 1]));
        lemma_setup_track(d, media, i + 1, challenge, cnonce, url);
    } else if let Some(s) = d.session {
        law_session_request_text(d, "PLAY"@, s);
    }
}

/// A camera that refuses the tracks without authentication and then asks for it is
/// answered: the first track is set up with the answer to its challenge, for the
/// method SETUP and the URL that the request itself names.
pub proof fn law_setup_challenge_is_answered(
    c: ClientView,
    media: Seq<MediaView>,
    r: ResponseView,
    cnonce: Seq<char>,
    url: Seq<char>,
    w: Seq<char>,
)
    requires
        media.len() > 0,
        r.status_code == 401,
        header_value(r.headers, "WWW-Authenticate"@) == Some(w),
        is_answerable(Some(w)),
        c.track_url(media[0]) == Ok::<Seq<char>, ErrorView>(url),
    ensures
        c.step(AwaitingView::SetupChallenge(media), Ok(r), cnonce) == (
            one_request_later(c, c.session),
            StepView::Send(
                AwaitingView::Setup(media, 0, Some(w)),
                setup_request_text(
                    url,
                    c.cseq,
                    c.session,
                    Some(expected_answer(c.user, c.pwd, "SETUP"@, url, w, cnonce)),
                    0,
                ),
            ),
        ),
{
    lemma_setup_track(c, media, 0, Some(w), cnonce, url);
}

/// A camera that asks for authentication before it describes its stream is
/// answered, for the method DESCRIBE and the URL that the request itself names.
pub proof fn law_describe_challenge_is_answered(
    c: ClientView,
    last: bool,
    r: ResponseView,
    cnonce: Seq<char>,
    w: Seq<char>,
)
    requires
        r.status_code == 401,
        header_value(r.headers, "WWW-Authenticate"@) == Some(w),
        is_answerable(Some(w)),
    ensures
        c.step(AwaitingView::Challenge(last), Ok(r), cnonce) == (
            one_request_later(c, c.session),
            StepView::Send(
                AwaitingView::Authorized(last),
                describe_request_text(
                    c.url(),
                    c.cseq,
                    Some(expected_answer(c.user, c.pwd, "DESCRIBE"@, c.url(), w, cnonce)),
                ),
            ),
        ),
{
    law_answer_is_what_the_camera_expects(c, "DESCRIBE"@, c.url(), w, cnonce);
    law_describe_request_text(
        c,
        Some(expected_answer(c.user, c.pwd, "DESCRIBE"@, c.url(), w, cnonce)),
    );
}

/// In every request that has an answer to a challenge in it, the answer is the one
/// for the method and the URL on the first line of that request; any other
/// request has none.
pub proof fn law_answers_are_for_their_own_request(
    c: ClientView,
    a: AwaitingView,
    response: Result<ResponseView, ErrorView>,
    cnonce: Seq<char>,
    next: AwaitingView,
    text: Seq<char>,
)
    requires
        c.step(a, response, cnonce).1 == StepView::Send(next, text),
    ensures
        next is Describe || next is Challenge ==> text == describe_request_text(
            c.url(),
            c.cseq,
            None,
        ),
        next is Authorized ==> exists|w: Seq<char>|
            text == describe_request_text(
                c.url(),
                c.cseq,
                Some(
                    #[trigger] expected_answer(c.user, c.pwd, "DESCRIBE"@, c.url(), w, cnonce),
                ),
            ),
        next matches AwaitingView::Setup(media, i, challenge) ==> 0 <= i < 128 ==> exists|
            url: Seq<char>,
            session: Option<Seq<char>>,
        |
            text == #[trigger] setup_request_text(
                url,
                c.cseq,
                session,
                setup_answer(c, url, challenge, cnonce),
                i,
            ) && c.track_url(media[i]) == Ok::<Seq<char>, ErrorView>(url),
{
    law_describe_request_text(c, None);
    match next {
        AwaitingView::Authorized(_) => {
            let r = response->Ok_0;
            let w = header_value(r.headers, "WWW-Authenticate"@)->0;
            law_answer_is_what_the_camera_expects(c, "DESCRIBE"@, c.url(), w, cnonce);
            let answer = expected_answer(c.user, c.pwd, "DESCRIBE"@, c.url(), w, cnonce);
            law_describe_request_text(c, Some(answer));
        },
        AwaitingView::Setup(media, i, challenge) => {
            if 0 <= i < 128 {
                let d = match a {
                    AwaitingView::Setup(_, _, _) => c.in_session(response->Ok_0.headers),
                    _ => c,
                };
                assert(d.track_url(media[i]) == c.track_url(media[i]));
                let url = c.track_url(media[i])->Ok_0;
                if let Some(w) = challenge {
                    law_answer_is_what_the_camera_expects(d, "SETUP"@, url, w, cnonce);
                }
                lemma_setup_track(d, media, i, challenge, cnonce, url);
            }
        },
        _ => {},
    }
}

/// Whether a response to DESCRIBE describes a stream that can be set up.
pub open spec fn describes(response: Result<ResponseView, ErrorView>) -> bool {
    response matches Ok(r) && r.status_code == 200 && sdp_media(r.body).len() > 0
}

/// Whether a response asks for authentication in a way that can be answered.
pub open spec fn challenges(response: Result<ResponseView, ErrorView>) -> bool {
    response matches Ok(r) && r.status_code == 401 && header_value(r.headers, "WWW-Authenticate"@)
        is Some && is_answerable(header_value(r.headers, "WWW-Authenticate"@))
}

/// The handshake starts with OPTIONS, and any response to that is followed by
/// DESCRIBE, without authentication. The response to PLAY ends it.
pub proof fn law_handshake_starts_and_ends(c: ClientView, r: ResponseView, cnonce: Seq<char>)
    ensures
        c.begin() == (
            one_request_later(c, c.session),
            StepView::Send(
                AwaitingView::Options,
                "OPTIONS "@ + c.url() + " RTSP/1.0\r\nCSeq: "@ + decimal(c.cseq as nat)
                    + "\r\n\r\n"@,
            ),
        ),
        c.step(AwaitingView::Options, Ok(r), cnonce) == (
            one_request_later(c, c.session),
            StepView::Send(
                AwaitingView::Describe,
                describe_request_text(c.url(), c.cseq, None),
            ),
        ),
        c.step(AwaitingView::Play, Ok(r), cnonce) == (c, StepView::Done),
{
    law_options_request_text(c);
    law_describe_request_text(c, None);
}

/// A camera that does not describe its stream is asked again for the sake of its
/// challenge; one that then neither describes nor challenges, or that rejects the
/// answer, is asked once more on a new connection, and not again after that.
pub proof fn law_description_is_tried_three_times(
    c: ClientView,
    response: Result<ResponseView, ErrorView>,
    cnonce: Seq<char>,
    last: bool,
)
    requires
        !describes(response),
    ensures
        c.step(AwaitingView::Describe, response, cnonce) == (
            one_request_later(c, c.session),
            StepView::Send(
                AwaitingView::Challenge(false),
                describe_request_text(c.url(), c.cseq, None),
            ),
        ),
        !challenges(response) ==> {
            let next = c.step(AwaitingView::Challenge(last), response, cnonce);
            next.0 == c && if last {
                next.1 is Fail
            } else {
                next.1 == StepView::Reconnect(ReconnectingView::Describe)
            }
        },
        ({
            let next = c.step(AwaitingView::Authorized(last), response, cnonce);
            next.0 == c && if last {
                next.1 is Fail
            } else {
                next.1 == StepView::Reconnect(ReconnectingView::Describe)
            }
        }),
{
    law_describe_request_text(c, None);
    if let Ok(r) = response {
        if let Some(w) = header_value(r.headers, "WWW-Authenticate"@) {
            law_answer_is_what_the_camera_expects(c, "DESCRIBE"@, c.url(), w, cnonce);
        }
    }
}

/// A track that is refused without authentication makes the handshake set up all
/// tracks again on a new connection; one that is refused with it, a missing
/// challenge, and a missing response to a request that is not tried again make it
/// fail.
pub proof fn law_refused_track_is_tried_once_more(
    c: ClientView,
    media: Seq<MediaView>,
    i: int,
    w: Seq<char>,
    r: ResponseView,
    e: ErrorView,
    cnonce: Seq<char>,
)
    requires
        r.status_code != 200,
    ensures
        c.step(AwaitingView::Setup(media, i, None), Ok(r), cnonce) == (
            c,
            StepView::Reconnect(ReconnectingView::Setup(media)),
        ),
        c.step(AwaitingView::Setup(media, i, None), Err(e), cnonce) == (
            c,
            StepView::Reconnect(ReconnectingView::Setup(media)),
        ),
        0 <= i < media.len() ==> c.step(AwaitingView::Setup(media, i, Some(w)), Ok(r), cnonce) == (
            c,
            StepView::Fail(ErrorView::SetupFailed(media[i].kind, r.status_code)),
        ),
        c.step(AwaitingView::Setup(media, i, Some(w)), Err(e), cnonce) == (c, StepView::Fail(e)),
        r.status_code != 401 ==> c.step(AwaitingView::SetupChallenge(media), Ok(r), cnonce) == (
            c,
            StepView::Fail(ErrorView::NoSetupChallenge(r.status_code)),
        ),
        r.status_code == 401 && header_value(r.headers, "WWW-Authenticate"@) is None ==> c.step(
            AwaitingView::SetupChallenge(media),
            Ok(r),
            cnonce,
        ) == (c, StepView::Fail(ErrorView::NoChallenge)),
        c.step(AwaitingView::SetupChallenge(media), Err(e), cnonce) == (c, StepView::Fail(e)),
        c.step(AwaitingView::Options, Err(e), cnonce) == (c, StepView::Fail(e)),
        c.step(AwaitingView::Play, Err(e), cnonce) == (c, StepView::Fail(e)),
{
}

/// A new connection starts over: requests are numbered from one, there is no
/// session, and the first request asks for a challenge, DESCRIBE if the stream is
/// not described yet, and otherwise SETUP of the first track on the channels 0 and
/// 1. Without a connection the handshake fails.
pub proof fn law_new_connection_starts_over(
    c: ClientView,
    media: Seq<MediaView>,
    url: Seq<char>,
    e: ErrorView,
    reconnecting: ReconnectingView,
)
    requires
        media.len() > 0,
        c.track_url(media[0]) == Ok::<Seq<char>, ErrorView>(url),
    ensures
        c.reconnect(ReconnectingView::Describe, Ok(())) == (
            ClientView { cseq: 2, session: None, ..c },
            StepView::Send(
                AwaitingView::Challenge(true),
                describe_request_text(c.url(), 1, None),
            ),
        ),
        c.reconnect(ReconnectingView::Setup(media), Ok(())) == (
            ClientView { cseq: 2, session: None, ..c },
            StepView::Send(
                AwaitingView::SetupChallenge(media),
                setup_request_text(url, 1, None, None, 0),
            ),
        ),
        c.reconnect(reconnecting, Err(e)) == (c, StepView::Fail(e)),
{
    let d = c.reconnected();
    law_describe_request_text(d, None);
    assert(d.url() == c.url());
    assert(d.track_url(media[0]) == c.track_url(media[0]));
    law_setup_request_text(url, 1, None, None, 0);
}

/// A block of the first track's channel is a packet of video, a block of the
/// second one's a packet of audio, with all of its bytes; blocks of the channels
/// between and behind them, which carry no media, give nothing.
pub proof fn law_channels_tell_the_tracks_apart(channel: u8, payload: Seq<u8>)
    requires
        payload.len() <= 0xffff,
    ensures
        channel == 0 ==> read_block(block(channel, payload)).1 == Some(PacketView::Video(payload)),
        channel == 2 ==> read_block(block(channel, payload)).1 == Some(PacketView::Audio(payload)),
        channel != 0 && channel != 2 ==> read_block(block(channel, payload)).1 is None,
        read_block(block(channel, payload)).0 is Magic,
        Interleaved::Magic.needs() == 1,
        Interleaved::Channel.needs() == 1,
        Interleaved::Length(channel).needs() == 2,
        Interleaved::Payload(channel, payload.len() as u16).needs() == payload.len(),
{
    law_block_reads_back(channel, payload);
}

/// A track without a control attribute is set up under the URL of the stream, one
/// with a relative one below it, with exactly one slash between the two, if the
/// URL does not end in one.
pub proof fn law_track_urls(c: ClientView, media: MediaView, control: Seq<char>)
    requires
        c.path.len() > 0 && c.path.last() != '/',
    ensures
        media.control is None ==> c.track_url(media) == Ok::<Seq<char>, ErrorView>(c.url()),
        media.control == Some(control) && trimmed(control) == control && control.len() > 0
            && control != "*"@ && !stands_at(control, "rtsp://"@, 0) ==> c.track_url(media) == Ok::<
            Seq<char>,
            ErrorView,
        >(
            if control[0] == '/' {
                c.url() + control
            } else {
                c.url() + "/"@ + control
            },
        ),
{
    assert(c.url().last() == c.path.last());
}

/// The length of a body is the number in its field, and zero if there is none.
pub proof fn law_body_has_the_announced_length(headers: Seq<char>, n: nat)
    requires
        n <= usize::MAX,
    ensures
        header_value(headers, "Content-Length"@) == Some(decimal(n)) ==> content_length(headers)
            == n,
        header_value(headers, "Content-Length"@) is None ==> content_length(headers) == 0,
{
    law_decimal_reads_back(n, usize::MAX as nat);
}

/// A list has the items of its two parts around any of its commas; a text without
/// a comma is a list of one item, without the whitespace around it.
pub proof fn law_items_stand_between_commas(a: Seq<char>, b: Seq<char>, item: Seq<char>)
    ensures
        lists(a + seq![','] + b, item) == (lists(a, item) || lists(b, item)),
        !a.contains(',') ==> lists(a, item) == (trimmed(a) == item),
{
    law_pieces_stand_between_separators(a, b, ',');
    let x = split_on(a, ',');
    let y = split_on(b, ',');
    if is_item(x, item) {
        let i = choose|i: int| 0 <= i < x.len() && trimmed(#[trigger] x[i]) == item;
        assert((x + y)[i] == x[i]);
    }
    if is_item(y, item) {
        let i = choose|i: int| 0 <= i < y.len() && trimmed(#[trigger] y[i]) == item;
        assert((x + y)[x.len() + i] == y[i]);
    }
    if is_item(x + y, item) {
        let i = choose|i: int| 0 <= i < (x + y).len() && trimmed(#[trigger] (x + y)[i]) == item;
        if i < x.len() {
            assert(trimmed(x[i]) == item);
        } else {
            assert(trimmed(y[i - x.len()]) == item);
        }
    }
    if !a.contains(',') {
        assert(split_on(a, ',')[0] == a);
    }
}

/// A value in quotes counts without them, and one without quotes as it is.
pub proof fn law_quotes_do_not_count(s: Seq<char>)
    requires
        s.len() > 0,
        s[0] != '"',
        s.last() != '"',
    ensures
        unquoted(s) == s,
        unquoted(seq!['"'] + s + seq!['"']) == s,
{
    let q = seq!['"'] + s + seq!['"'];
    assert(q.drop_first() =~= s + seq!['"']);
    assert((s + seq!['"']).drop_last() =~= s);
    assert(strip_front(s + seq!['"'], '"') == s + seq!['"']);
    assert(strip_back(s, '"') == s);
    assert(strip_front(q, '"') == strip_front(q.drop_first(), '"'));
}

/// The client's nonce is the time in hexadecimal digits, sixteen of them at least.
pub proof fn law_client_nonce_tells_the_time(nanos: u128)
    ensures
        value_in_base(cnonce_text(nanos), 16) == nanos,
        cnonce_text(nanos).len() >= 16,
{
    law_number_reads_back_in_its_base(nanos as nat, 16, 16);
}

/// Every control attribute is resolved against the camera that was dialed: its
/// stream, its host and its port.
pub proof fn law_control_is_resolved_at_the_camera(
    c: ClientView,
    media: MediaView,
    control: Seq<char>,
)
    requires
        media.control == Some(control),
    ensures
        c.track_url(media) == control_url(c.url(), control, c.host, c.port),
{
}

/// What is stated of a response, of a client and of a track's packet is stated of
/// all that they hold.
pub proof fn law_responses_and_clients_are_seen_whole(
    r: RtspResponse,
    c: RtspClient,
    p: RtpPacket,
    e: RtspError,
)
    ensures
        r@.status_code == r.status_code,
        r@.headers == r.headers@,
        r@.body == r.body@,
        response_outcome(Ok(r)) == Ok::<ResponseView, ErrorView>(r@),
        response_outcome(Err(e)) == Err::<ResponseView, ErrorView>(e@),
        connection_outcome(Ok(())) == Ok::<(), ErrorView>(()),
        connection_outcome(Err(e)) == Err::<(), ErrorView>(e@),
        c@.cseq == c.cseq,
        c@.host == c.host@,
        c@.port == c.port,
        c@.path == c.path@,
        c@.user == c.user@,
        c@.pwd == c.pwd@,
        c.session matches Some(s) ==> c@.session == Some(s@),
        c.session is None ==> c@.session is None,
        p matches RtpPacket::Video(b) ==> p@ == PacketView::Video(b@),
        p matches RtpPacket::Audio(b) ==> p@ == PacketView::Audio(b@),
{
}

/// The same of the states of the handshake.
pub proof fn law_steps_are_seen_whole(step: RtspStep, a: Awaiting, r: Reconnecting)
    ensures
        step matches RtspStep::Send(next, text) ==> step@ == StepView::Send(next@, text@),
        step matches RtspStep::Reconnect(next) ==> step@ == StepView::Reconnect(next@),
        step is Done ==> step@ is Done,
        step matches RtspStep::Fail(e) ==> step@ == StepView::Fail(e@),
        a is Options ==> a@ is Options,
        a is Describe ==> a@ is Describe,
        a matches Awaiting::Challenge(last) ==> a@ == AwaitingView::Challenge(last),
        a matches Awaiting::Authorized(last) ==> a@ == AwaitingView::Authorized(last),
        a matches Awaiting::Setup(media, i, None) ==> a@ == AwaitingView::Setup(
            media_views(media@),
            i as int,
            None,
        ),
        a matches Awaiting::Setup(media, i, Some(w)) ==> a@ == AwaitingView::Setup(
            media_views(media@),
            i as int,
            Some(w@),
        ),
        a matches Awaiting::SetupChallenge(media) ==> a@ == AwaitingView::SetupChallenge(
            media_views(media@),
        ),
        a is Play ==> a@ is Play,
        r is Describe ==> r@ is Describe,
        r matches Reconnecting::Setup(media) ==> r@ == ReconnectingView::Setup(media_views(media@)),
{
}

/// What a response to DESCRIBE or SETUP holds of use, and why it holds none: a
/// challenge in one that asks for authentication, and media sections in one of
/// success.
pub proof fn law_responses_are_read_by_their_status(r: ResponseView, to_setup: bool, auth: bool)
    ensures
        r.status_code == 401 ==> challenge_in(r, to_setup) == match header_value(
            r.headers,
            "WWW-Authenticate"@,
        ) {
            Some(w) => Ok::<Seq<char>, ErrorView>(w),
            None => Err::<Seq<char>, ErrorView>(ErrorView::NoChallenge),
        },
        r.status_code != 401 ==> challenge_in(r, true) == Err::<Seq<char>, ErrorView>(
            ErrorView::NoSetupChallenge(r.status_code),
        ) && challenge_in(r, false) == Err::<Seq<char>, ErrorView>(
            ErrorView::NoDescribeChallenge(r.status_code),
        ),
        r.status_code == 200 && sdp_media(r.body).len() > 0 ==> media_in(r, auth) == Ok::<
            Seq<MediaView>,
            ErrorView,
        >(sdp_media(r.body)),
        r.status_code == 200 && sdp_media(r.body).len() == 0 ==> media_in(r, auth) == Err::<
            Seq<MediaView>,
            ErrorView,
        >(ErrorView::NoMedia),
        r.status_code != 200 ==> media_in(r, true) == Err::<Seq<MediaView>, ErrorView>(
            ErrorView::AuthRejected(r.status_code),
        ),
        r.status_code == 401 ==> media_in(r, false) == Err::<Seq<MediaView>, ErrorView>(
            ErrorView::Unauthorized,
        ),
        r.status_code != 200 && r.status_code != 401 ==> media_in(r, false) == Err::<
            Seq<MediaView>,
            ErrorView,
        >(ErrorView::DescribeStatus(r.status_code)),
{
}

/// When the last attempt at DESCRIBE fails, the handshake fails with what went
/// wrong in it.
pub proof fn law_last_failure_is_told(
    c: ClientView,
    response: Result<ResponseView, ErrorView>,
    cnonce: Seq<char>,
)
    requires
        !describes(response),
    ensures
        response matches Err(e) ==> c.step(AwaitingView::Challenge(true), response, cnonce).1
            == StepView::Fail(e) && c.step(AwaitingView::Authorized(true), response, cnonce).1
            == StepView::Fail(e),
        response matches Ok(r) ==> c.step(AwaitingView::Authorized(true), response, cnonce).1
            == StepView::Fail(
            if r.status_code == 200 {
                ErrorView::NoMedia
            } else {
                ErrorView::AuthRejected(r.status_code)
            },
        ),
        response matches Ok(r) ==> r.status_code != 401 ==> c.step(
            AwaitingView::Challenge(true),
            response,
            cnonce,
        ).1 == StepView::Fail(
            if r.status_code == 200 {
                ErrorView::NoMedia
            } else {
                ErrorView::NoDescribeChallenge(r.status_code)
            },
        ),
        response matches Ok(r) ==> r.status_code == 401 && header_value(
            r.headers,
            "WWW-Authenticate"@,
        ) is None ==> c.step(AwaitingView::Challenge(true), response, cnonce).1 == StepView::Fail(
            ErrorView::NoChallenge,
        ),
{
}

/// What is optional in a request is seen as it is given.
pub proof fn law_optional_texts_are_seen_whole(s: &str, t: String)
    ensures
        opt_str(Some(s)) == Some(s@),
        opt_str(None) is None,
        opt_string(Some(t)) == Some(t@),
        opt_string(None) is None,
{
}

/// A request in a session that the camera did not name leaves its field empty.
pub proof fn law_session_field_may_be_empty(c: ClientView, method: Seq<char>)
    requires
        c.session is None,
    ensures
        c.session_text(method) == session_request_text(method, c.url(), c.cseq, Seq::empty()),
{
    lemma_literals();
    let front = method + " "@ + c.url() + " RTSP/1.0\r\nCSeq: "@ + decimal(c.cseq as nat);
    assert(front + "\r\n"@ + "Session: "@ =~= front + ("\r\n"@ + "Session: "@));
}

} // verus!
