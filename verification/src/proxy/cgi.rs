//! The camera's CGI interface: request URLs, answers, and the masking of
//! credentials in text that is logged.

use vstd::prelude::*;
use vstd::slice::slice_subrange;

use crate::json::nats;
use crate::protocol::messages::{CgiResponse, InitInfo, InitInfoView};
use crate::text::{
    all_white, chars_of, decimal, find, find_text, first_where, is_at, is_digit, is_white,
    law_decimal_reads_back, law_trimming_takes_off_whitespace_only, lemma_decimal_digits,
    lemma_find_is, lemma_first_where, lemma_first_where_is, lemma_trimmed_already, parse_number,
    parse_u32, push_decimal, stands_at, string_of, trim, trimmed,
};

verus! {

// ---------------------------------------------------------------------------
// Request URLs
// ---------------------------------------------------------------------------

/// The URL of a CGI command.
pub open spec fn cgi_url_text(
    camera: Seq<char>,
    user: Seq<char>,
    pwd: Seq<char>,
    cmd: Seq<char>,
) -> Seq<char> {
    "http://"@ + camera + "/cgi-bin/CGIProxy.fcgi?usrName="@ + user + "&pwd="@ + pwd + "&cmd="@
        + cmd
}

/// The URL of the CGI command `cmd`, with the credentials under the names that
/// the commands about sessions take.
pub fn cgi_url(camera: &str, user: &str, pwd: &str, cmd: &str) -> (url: String)
    ensures
        url@ == cgi_url_text(camera@, user@, pwd@, cmd@),
{
    let mut url = "http://".to_owned();
    url.append(camera);
    url.append("/cgi-bin/CGIProxy.fcgi?usrName=");
    url.append(user);
    url.append("&pwd=");
    url.append(pwd);
    url.append("&cmd=");
    url.append(cmd);
    url
}

/// The URL of a path that the client wrote out whole.
pub fn full_path_url(camera: &str, path: &str) -> (url: String)
    ensures
        url@ == "http://"@ + camera@ + "/"@ + path@,
{
    let mut url = "http://".to_owned();
    url.append(camera);
    url.append("/");
    url.append(path);
    url
}

/// The URL of the CGI command `cmd`, with the user under the name that the
/// other commands take.
pub fn cgi_usr_url(camera: &str, user: &str, pwd: &str, cmd: &str) -> (url: String)
    ensures
        url@ == "http://"@ + camera@ + "/cgi-bin/CGIProxy.fcgi?usr="@ + user@ + "&pwd="@ + pwd@
            + "&cmd="@ + cmd@,
{
    let mut url = "http://".to_owned();
    url.append(camera);
    url.append("/cgi-bin/CGIProxy.fcgi?usr=");
    url.append(user);
    url.append("&pwd=");
    url.append(pwd);
    url.append("&cmd=");
    url.append(cmd);
    url
}

/// The URL of a login, which asks for a privilege level.
pub fn login_url(camera: &str, user: &str, pwd: &str) -> (url: String)
    ensures
        url@ == "http://"@ + camera@ + "/cgi-bin/CGIProxy.fcgi?usrName="@ + user@ + "&pwd="@ + pwd@
            + "&cmd=logIn&privilege=2"@,
{
    let mut url = "http://".to_owned();
    url.append(camera);
    url.append("/cgi-bin/CGIProxy.fcgi?usrName=");
    url.append(user);
    url.append("&pwd=");
    url.append(pwd);
    url.append("&cmd=logIn&privilege=2");
    url
}

/// The URL of a logout.
pub fn logout_url(camera: &str, user: &str, pwd: &str) -> (url: String)
    ensures
        url@ == cgi_url_text(camera@, user@, pwd@, "logOut"@),
{
    cgi_url(camera, user, pwd, "logOut")
}

/// The URL of a snapshot.
pub fn snapshot_url(camera: &str, user: &str, pwd: &str) -> (url: String)
    ensures
        url@ == "http://"@ + camera@ + "/cgi-bin/snapPicture.jpg?usr="@ + user@ + "&pwd="@ + pwd@,
{
    let mut url = "http://".to_owned();
    url.append(camera);
    url.append("/cgi-bin/snapPicture.jpg?usr=");
    url.append(user);
    url.append("&pwd=");
    url.append(pwd);
    url
}

// ---------------------------------------------------------------------------
// Answers
// ---------------------------------------------------------------------------

/// The text that bytes read as when what is not UTF-8 in them is replaced.
pub uninterp spec fn lossy_text(bytes: Seq<u8>) -> Seq<char>;

/// `String::from_utf8_lossy` gives the text of bytes that are UTF-8, and of
/// other bytes a text in which replacement characters stand for what is not;
/// which, is left open.
#[verifier::external_body]
pub(crate) fn from_utf8_lossy(bytes: &[u8]) -> (s: String)
    ensures
        s@ == lossy_text(bytes@),
        vstd::utf8::valid_utf8(bytes@) ==> s@ == vstd::utf8::decode_utf8(bytes@),
{
    String::from_utf8_lossy(bytes).to_string()
}

/// The character that stands for six bits, in the standard alphabet.
pub open spec fn base64_char(n: int) -> char {
    if n < 26 {
        ('A' as u32 + n) as char
    } else if n < 52 {
        ('a' as u32 + (n - 26)) as char
    } else if n < 62 {
        ('0' as u32 + (n - 52)) as char
    } else if n == 62 {
        '+'
    } else {
        '/'
    }
}

/// The base64 text of bytes, in the standard alphabet and with padding: four
/// characters for every three bytes, of which the last three may be fewer.
pub open spec fn base64_text(data: Seq<u8>) -> Seq<char>
    decreases data.len(),
{
    let a = data[0];
    let b = data[1];
    let c = data[2];
    if data.len() == 0 {
        Seq::empty()
    } else if data.len() == 1 {
        seq![base64_char(a as int / 4), base64_char(a % 4 * 16), '=', '=']
    } else if data.len() == 2 {
        seq![
            base64_char(a as int / 4),
            base64_char(a % 4 * 16 + b / 16),
            base64_char(b % 16 * 4),
            '=',
        ]
    } else {
        seq![
            base64_char(a as int / 4),
            base64_char(a % 4 * 16 + b / 16),
            base64_char(b % 16 * 4 + c / 64),
            base64_char(c as int % 64),
        ] + base64_text(data.skip(3))
    }
}

/// `base64::engine::general_purpose::STANDARD.encode` writes bytes in base64,
/// in the standard alphabet and with padding.
#[verifier::external_body]
fn standard_base64(data: &[u8]) -> (s: String)
    ensures
        s@ == base64_text(data@),
{
    base64::Engine::encode(&base64::engine::general_purpose::STANDARD, data)
}

/// The base64 text of `data`.
pub fn base64_encode(data: &[u8]) -> (s: String)
    ensures
        s@ == base64_text(data@),
{
    standard_base64(data)
}

/// The XML that reports a failure.
pub open spec fn error_xml(reason: Seq<char>) -> Seq<char> {
    "<CGI_Result><code>-1</code><error>"@ + reason + "</error></CGI_Result>"@
}

/// The XML that reports a failure.
pub fn error_report(reason: &str) -> (s: String)
    ensures
        s@ == error_xml(reason@),
{
    let mut s = "<CGI_Result><code>-1</code><error>".to_owned();
    s.append(reason);
    s.append("</error></CGI_Result>");
    s
}

/// Turns the camera's HTTP response into the answer to a CGI request: the body
/// of a response with a status of success, and a failure for any other status
/// (a redirect among them), which names the status as `status_text` writes it.
pub fn cgi_result(status: u16, status_text: &str, body: &[u8]) -> (r: CgiResponse)
    ensures
        200 <= status < 300 ==> r.result == 0 && r.response@ == lossy_text(body@) && (
        vstd::utf8::valid_utf8(body@) ==> r.response@ == vstd::utf8::decode_utf8(body@)),
        !(200 <= status < 300) ==> r.result == -1 && r.response@ == error_xml(
            "HTTP "@ + status_text@,
        ),
{
    if 200 <= status && status < 300 {
        CgiResponse { result: 0, response: from_utf8_lossy(body) }
    } else {
        let mut reason = "HTTP ".to_owned();
        reason.append(status_text);
        CgiResponse { result: -1, response: error_report(reason.as_str()) }
    }
}

// ---------------------------------------------------------------------------
// Masking of credentials
// ---------------------------------------------------------------------------

/// The length of the credential key that `s` starts with, or 0 if it starts
/// with none. Of two keys that fit, the longer counts.
pub open spec fn key_len(s: Seq<char>) -> int {
    if stands_at(s, "pwd"@, 0) {
        3
    } else if stands_at(s, "usrName"@, 0) {
        7
    } else if stands_at(s, "usr"@, 0) {
        3
    } else if stands_at(s, "user"@, 0) {
        4
    } else {
        0
    }
}

/// Whether `c` ends the value of a credential.
pub open spec fn ends_value(c: char) -> bool {
    c == '&' || c == ')' || c == ' ' || c == '\t' || c == '"' || c == '\'' || c == '\n' || c == '\r'
}

/// The property of ending the value of a credential.
pub open spec fn value_end() -> spec_fn(char) -> bool {
    |c: char| ends_value(c)
}

/// `s` with `***` in place of every value that follows a credential key and
/// an equals sign.
pub open spec fn redacted(s: Seq<char>) -> Seq<char>
    decreases s.len(),
    via redacted_decreases
{
    if s.len() == 0 {
        s
    } else {
        let k = key_len(s);
        if k == 0 {
            seq![s[0]] + redacted(s.skip(1))
        } else if k < s.len() && s[k] == '=' {
            let value = s.skip(k + 1);
            s.take(k) + "=***"@ + redacted(value.skip(first_where(value, value_end())))
        } else {
            s.take(k) + redacted(s.skip(k))
        }
    }
}

#[via_fn]
proof fn redacted_decreases(s: Seq<char>) {
    lemma_key_len(s);
    let k = key_len(s);
    if k > 0 && k < s.len() {
        lemma_first_where(s.skip(k + 1), value_end());
    }
}

proof fn lemma_key_len(s: Seq<char>)
    ensures
        0 <= key_len(s) <= s.len(),
{
    reveal_strlit("pwd");
    reveal_strlit("usrName");
    reveal_strlit("usr");
    reveal_strlit("user");
}

/// The length of the credential key that stands in `s` at `i`, or 0.
fn key_len_at(s: &[char], i: usize) -> (k: usize)
    requires
        i <= s@.len(),
    ensures
        k == key_len(s@.skip(i as int)),
        i + k <= s@.len(),
{
    proof {
        reveal_strlit("pwd");
        reveal_strlit("usrName");
        reveal_strlit("usr");
        reveal_strlit("user");
        lemma_stands_in_rest(s@, "pwd"@, i as int);
        lemma_stands_in_rest(s@, "usrName"@, i as int);
        lemma_stands_in_rest(s@, "usr"@, i as int);
        lemma_stands_in_rest(s@, "user"@, i as int);
    }
    if is_at(s, chars_of("pwd").as_slice(), i) {
        3
    } else if is_at(s, chars_of("usrName").as_slice(), i) {
        7
    } else if is_at(s, chars_of("usr").as_slice(), i) {
        3
    } else if is_at(s, chars_of("user").as_slice(), i) {
        4
    } else {
        0
    }
}

proof fn lemma_stands_in_rest(s: Seq<char>, key: Seq<char>, i: int)
    requires
        0 <= i <= s.len(),
    ensures
        stands_at(s, key, i) == stands_at(s.skip(i), key, 0),
{
    if i + key.len() <= s.len() {
        assert(s.subrange(i, i + key.len()) == s.skip(i).subrange(0, key.len() as int));
    }
}

/// Masks the values of credentials (`pwd`, `usrName`, `usr`, `user`) anywhere
/// in a string, so that they never reach a log.
///
/// The text of a failed request holds the whole URL, with the credentials in
/// its query; this is applied to URLs and to such text alike.
pub fn redact_creds(s: &str) -> (r: String)
    ensures
        r@ == redacted(s@),
{
    let cs = chars_of(s);
    let cs = cs.as_slice();
    let n: usize = cs.len();
    let mut out = String::new();
    let mut i: usize = 0;
    assert(s@.skip(0) == s@);
    assert(out@ + redacted(s@.skip(0)) == redacted(s@));
    while i < n
        invariant
            i <= n == cs@.len(),
            cs@ == s@,
            redacted(s@) == out@ + redacted(s@.skip(i as int)),
        decreases n - i,
    {
        let ghost rest = s@.skip(i as int);
        let ghost before = out@;
        let k: usize = key_len_at(cs, i);
        if k == 0 {
            out.push(cs[i]);
            proof {
                assert(rest.skip(1) == s@.skip(i + 1));
                assert(before + (seq![rest[0]] + redacted(rest.skip(1))) == out@ + redacted(
                    rest.skip(1),
                ));
            }
            i += 1;
        } else {
            out.append(string_of(slice_subrange(cs, i, i + k)).as_str());
            assert(cs@.subrange(i as int, i + k) == rest.take(k as int));
            if i + k < n && cs[i + k] == '=' {
                out.append("=***");
                let mut e: usize = i + k + 1;
                while e < n && !is_value_end(cs[e])
                    invariant
                        i + k + 1 <= e <= n == cs@.len(),
                        forall|j: int| i + k + 1 <= j < e ==> !ends_value(#[trigger] cs@[j]),
                    decreases n - e,
                {
                    e += 1;
                }
                proof {
                    let value = rest.skip(k + 1);
                    let v = e - (i + k + 1);
                    assert forall|j: int| 0 <= j < v implies !value_end()(#[trigger] value[j]) by {
                        assert(value[j] == cs@[i + k + 1 + j]);
                    }
                    lemma_first_where_is(value, value_end(), v);
                    assert(value.skip(v) == s@.skip(e as int));
                    assert(before + (rest.take(k as int) + "=***"@ + redacted(s@.skip(e as int)))
                        == out@ + redacted(s@.skip(e as int)));
                }
                i = e;
            } else {
                proof {
                    assert(rest.skip(k as int) == s@.skip(i + k));
                    assert(before + (rest.take(k as int) + redacted(s@.skip(i + k))) == out@
                        + redacted(s@.skip(i + k)));
                }
                i += k;
            }
        }
    }
    assert(s@.skip(i as int) == Seq::<char>::empty());
    out
}

/// Whether `c` ends the value of a credential.
fn is_value_end(c: char) -> (b: bool)
    ensures
        b == ends_value(c),
{
    c == '&' || c == ')' || c == ' ' || c == '\t' || c == '"' || c == '\'' || c == '\n' || c == '\r'
}

// ---------------------------------------------------------------------------
// Settings of the camera
// ---------------------------------------------------------------------------

/// The number that stands in `xml` between the tags `<tag>` and `</tag>`, as
/// they first occur.
pub open spec fn xml_value(xml: Seq<char>, tag: Seq<char>) -> Option<nat> {
    let open = "<"@ + tag + ">"@;
    let close = "</"@ + tag + ">"@;
    match find(xml, open) {
        Some(k) => {
            let rest = xml.skip(k + open.len());
            match find(rest, close) {
                Some(e) => parse_number(trimmed(rest.take(e)), 0xffff_ffff),
                None => None,
            }
        },
        None => None,
    }
}

/// The number between the tags `<tag>` and `</tag>`, if there is one.
pub fn extract_xml_value(xml: &str, tag: &str) -> (r: Option<u32>)
    ensures
        match r {
            Some(n) => xml_value(xml@, tag@) == Some(n as nat),
            None => xml_value(xml@, tag@) is None,
        },
{
    let cs = chars_of(xml);
    let cs = cs.as_slice();
    let n: usize = cs.len();
    let mut open = "<".to_owned();
    open.append(tag);
    open.append(">");
    let mut close = "</".to_owned();
    close.append(tag);
    close.append(">");
    let open = chars_of(open.as_str());
    let close = chars_of(close.as_str());
    match find_text(cs, open.as_slice(), 0) {
        Some(k) => {
            let rest = slice_subrange(cs, k + open.len(), n);
            assert(rest@ == xml@.skip(k + open@.len()));
            match find_text(rest, close.as_slice(), 0) {
                Some(e) => {
                    let value = slice_subrange(rest, 0, e);
                    assert(value@ == rest@.take(e as int));
                    parse_u32(trim(value))
                },
                None => None,
            }
        },
        None => None,
    }
}

/// The number between the tags `<tag>` and `</tag>`, or `default`.
pub open spec fn xml_value_or(xml: Seq<char>, tag: Seq<char>, default: nat) -> nat {
    match xml_value(xml, tag) {
        Some(n) => n,
        None => default,
    }
}

fn extract_or(xml: &str, tag: &str, default: u32) -> (n: u32)
    ensures
        n == xml_value_or(xml@, tag@, default as nat),
{
    match extract_xml_value(xml, tag) {
        Some(n) => n,
        None => default,
    }
}

/// The tag of the setting `name` of the stream number `i`.
fn stream_tag(name: &str, i: u64) -> (tag: String)
    ensures
        tag@ == name@ + decimal(i as nat),
{
    let mut tag = name.to_owned();
    push_decimal(&mut tag, i);
    tag
}

/// The five parameters of the stream number `i`: resolution, bit rate, frame
/// rate, GOP and variable bit rate.
pub open spec fn stream_values(xml: Seq<char>, i: nat) -> Seq<nat> {
    seq![
        xml_value_or(xml, "resolution"@ + decimal(i), 9),
        xml_value_or(xml, "bitRate"@ + decimal(i), 2_097_152),
        xml_value_or(xml, "frameRate"@ + decimal(i), 15),
        xml_value_or(xml, "GOP"@ + decimal(i), 30),
        xml_value_or(xml, "isVBR"@ + decimal(i), 1),
    ]
}

/// The parameters of the first `n` streams.
pub open spec fn stream_params(xml: Seq<char>, n: nat) -> Seq<nat>
    decreases n,
{
    if n == 0 {
        Seq::empty()
    } else {
        stream_params(xml, (n - 1) as nat) + stream_values(xml, (n - 1) as nat)
    }
}

/// The parameters of four streams as they are taken to be where the camera
/// does not say.
pub open spec fn default_params() -> Seq<u32> {
    seq![
        9, 2_097_152, 15, 30, 1,
        7, 1_048_576, 15, 30, 1,
        0, 524_288, 15, 30, 1,
        7, 4_194_304, 25, 30, 1,
    ]
}

/// The parameters of four streams where the camera does not say.
pub fn default_stream_param() -> (r: Vec<u32>)
    ensures
        r@ == default_params(),
{
    vec![
        9, 2_097_152, 15, 30, 1,
        7, 1_048_576, 15, 30, 1,
        0, 524_288, 15, 30, 1,
        7, 4_194_304, 25, 30, 1,
    ]
}

/// What `parse_stream_param` reads.
pub open spec fn stream_param_of(resp: Option<&CgiResponse>) -> Seq<nat> {
    match resp {
        Some(r) => stream_params(r.response@, 4),
        None => nats(default_params()),
    }
}

/// Parses the parameters of four streams, five values each, from the XML of
/// `getVideoStreamParam`. A value that is missing there has its default; all
/// have theirs if there is no XML.
pub fn parse_stream_param(resp: Option<&CgiResponse>) -> (r: Vec<u32>)
    ensures
        nats(r@) == stream_param_of(resp),
{
    let resp = match resp {
        Some(resp) => resp,
        None => {
            return default_stream_param();
        },
    };
    let xml = resp.response.as_str();
    let mut params: Vec<u32> = Vec::new();
    let mut i: u64 = 0;
    while i < 4
        invariant
            i <= 4,
            nats(params@) == stream_params(xml@, i as nat),
        decreases 4 - i,
    {
        let ghost before = nats(params@);
        params.push(extract_or(xml, stream_tag("resolution", i).as_str(), 9));
        params.push(extract_or(xml, stream_tag("bitRate", i).as_str(), 2_097_152));
        params.push(extract_or(xml, stream_tag("frameRate", i).as_str(), 15));
        params.push(extract_or(xml, stream_tag("GOP", i).as_str(), 30));
        params.push(extract_or(xml, stream_tag("isVBR", i).as_str(), 1));
        assert(nats(params@) == before + stream_values(xml@, i as nat));
        i += 1;
    }
    params
}

/// What `parse_image_setting` reads: brightness, contrast, hue, saturation and
/// sharpness.
pub open spec fn image_setting_of(resp: Option<&CgiResponse>) -> (nat, nat, nat, nat, nat) {
    match resp {
        Some(r) => (
            xml_value_or(r.response@, "brightness"@, 50),
            xml_value_or(r.response@, "contrast"@, 47),
            xml_value_or(r.response@, "hue"@, 55),
            xml_value_or(r.response@, "saturation"@, 20),
            xml_value_or(r.response@, "sharpness"@, 30),
        ),
        None => (50, 47, 55, 20, 30),
    }
}

/// Parses brightness, contrast, hue, saturation and sharpness from the XML of
/// `getImageSetting`.
pub fn parse_image_setting(resp: Option<&CgiResponse>) -> (r: (u32, u32, u32, u32, u32))
    ensures
        (r.0 as nat, r.1 as nat, r.2 as nat, r.3 as nat, r.4 as nat) == image_setting_of(resp),
{
    match resp {
        Some(resp) => {
            let xml = resp.response.as_str();
            (
                extract_or(xml, "brightness", 50),
                extract_or(xml, "contrast", 47),
                extract_or(xml, "hue", 55),
                extract_or(xml, "saturation", 20),
                extract_or(xml, "sharpness", 30),
            )
        },
        None => (50, 47, 55, 20, 30),
    }
}

/// What `parse_audio_setting` reads.
pub open spec fn volume_of(resp: Option<&CgiResponse>) -> nat {
    match resp {
        Some(r) => xml_value_or(r.response@, "volume"@, 100),
        None => 100,
    }
}

/// Parses the volume from the XML of `getAudioSetting`.
pub fn parse_audio_setting(resp: Option<&CgiResponse>) -> (r: u32)
    ensures
        r == volume_of(resp),
{
    match resp {
        Some(resp) => extract_or(resp.response.as_str(), "volume", 100),
        None => 100,
    }
}

/// What `parse_infra_led` reads.
pub open spec fn infra_led_of(resp: Option<&CgiResponse>) -> nat {
    match resp {
        Some(r) => xml_value_or(r.response@, "mode"@, 0),
        None => 0,
    }
}

/// Parses the mode of the infrared light from the XML of `getInfraLedConfig`.
pub fn parse_infra_led(resp: Option<&CgiResponse>) -> (r: u32)
    ensures
        r == infra_led_of(resp),
{
    match resp {
        Some(resp) => extract_or(resp.response.as_str(), "mode", 0),
        None => 0,
    }
}

/// The CGI commands whose answers `gather_init_info` takes, in the order of
/// its parameters.
pub fn init_info_commands() -> (r: [&'static str; 5])
    ensures
        r@ == seq![
            "getProductAllInfo",
            "getVideoStreamParam",
            "getImageSetting",
            "getAudioSetting",
            "getInfraLedConfig",
        ],
{
    [
        "getProductAllInfo",
        "getVideoStreamParam",
        "getImageSetting",
        "getAudioSetting",
        "getInfraLedConfig",
    ]
}

/// The initial state that the answers of the camera give.
pub open spec fn init_info_of(
    stream_param: Option<&CgiResponse>,
    image_setting: Option<&CgiResponse>,
    audio_setting: Option<&CgiResponse>,
    infra_led: Option<&CgiResponse>,
    http_flv_port: u16,
) -> InitInfoView {
    let image = image_setting_of(image_setting);
    InitInfoView {
        volume: volume_of(audio_setting) as int,
        stream_param: stream_param_of(stream_param),
        brightness: image.0 as int,
        contrast: image.1 as int,
        hue: image.2 as int,
        saturation: image.3 as int,
        sharpness: image.4 as int,
        infra_led_mode: infra_led_of(infra_led) as int,
        usr_privilege: 2,
        ..InitInfoView::blank(http_flv_port)
    }
}

/// Builds what a client is told after a login from the answers of the camera
/// to the commands of `init_info_commands`: the product info, which is the
/// camera's own XML, and the initial state. What was not answered has its
/// default.
pub fn gather_init_info(
    product_info: Option<CgiResponse>,
    stream_param: Option<&CgiResponse>,
    image_setting: Option<&CgiResponse>,
    audio_setting: Option<&CgiResponse>,
    infra_led: Option<&CgiResponse>,
    http_flv_port: u16,
) -> (r: (Option<String>, InitInfo))
    ensures
        match (product_info, r.0) {
            (Some(p), Some(xml)) => xml@ == p.response@,
            (None, None) => true,
            _ => false,
        },
        r.1@ == init_info_of(
            stream_param,
            image_setting,
            audio_setting,
            infra_led,
            http_flv_port,
        ),
{
    let stream_param = parse_stream_param(stream_param);
    let (brightness, contrast, hue, saturation, sharpness) = parse_image_setting(image_setting);
    let volume: u32 = parse_audio_setting(audio_setting);
    let infra_led_mode: u32 = parse_infra_led(infra_led);
    let product_xml = match product_info {
        Some(r) => Some(r.response),
        None => None,
    };
    let init_info = InitInfo {
        result: 0,
        rtmp_port: 0,
        live_port: http_flv_port,
        record_state: 0,
        flash_enable_buffer: 0,
        is_mute: 0,
        volume,
        led_state: 0,
        preset_point_cnt: 0,
        cruise_map_cnt: 0,
        cru_cruise_map: 0,
        main_stream_type: 0,
        sub_stream_type: 0,
        stream_param,
        brightness,
        contrast,
        hue,
        saturation,
        sharpness,
        is_mirror: 0,
        is_flip: 0,
        is_alarming: 0,
        alarm_type: 0,
        pwr_freq: 0,
        infra_led_mode,
        infra_led_state: 0,
        usr_privilege: 2,
    };
    (product_xml, init_info)
}

// ---------------------------------------------------------------------------
// Laws
// ---------------------------------------------------------------------------

/// Whether `key` names a credential.
pub open spec fn is_key(key: Seq<char>) -> bool {
    key == "pwd"@ || key == "usrName"@ || key == "usr"@ || key == "user"@
}

/// Whether nothing in `v` ends the value of a credential.
pub open spec fn is_value(v: Seq<char>) -> bool {
    forall|i: int| 0 <= i < v.len() ==> !ends_value(#[trigger] v[i])
}

/// Whether somewhere in `s` an equals sign follows a credential key.
pub open spec fn has_credential(s: Seq<char>) -> bool {
    exists|i: int|
        0 <= i < s.len() && {
            let k = #[trigger] key_len(s.skip(i));
            k > 0 && i + k < s.len() && s[i + k] == '='
        }
}

/// `key_len`, letter by letter.
spec fn key_len_by_letter(s: Seq<char>) -> int {
    if s.len() >= 3 && s[0] == 'p' && s[1] == 'w' && s[2] == 'd' {
        3
    } else if s.len() >= 3 && s[0] == 'u' && s[1] == 's' && s[2] == 'r' {
        if s.len() >= 7 && s[3] == 'N' && s[4] == 'a' && s[5] == 'm' && s[6] == 'e' {
            7
        } else {
            3
        }
    } else if s.len() >= 4 && s[0] == 'u' && s[1] == 's' && s[2] == 'e' && s[3] == 'r' {
        4
    } else {
        0
    }
}

proof fn lemma_stands_first(s: Seq<char>, word: Seq<char>)
    ensures
        stands_at(s, word, 0) <==> word.len() <= s.len() && (forall|j: int|
            0 <= j < word.len() ==> s[j] == #[trigger] word[j]),
{
    if word.len() <= s.len() {
        let t = s.subrange(0, word.len() as int);
        assert(forall|j: int| 0 <= j < word.len() ==> #[trigger] t[j] == s[j]);
        if forall|j: int| 0 <= j < word.len() ==> s[j] == #[trigger] word[j] {
            assert(t =~= word);
        }
    }
}

proof fn lemma_key_letters(s: Seq<char>)
    ensures
        key_len(s) == key_len_by_letter(s),
{
    reveal_strlit("pwd");
    reveal_strlit("usrName");
    reveal_strlit("usr");
    reveal_strlit("user");
    lemma_stands_first(s, "pwd"@);
    lemma_stands_first(s, "usrName"@);
    lemma_stands_first(s, "usr"@);
    lemma_stands_first(s, "user"@);
    let (a, b, c, d) = ("pwd"@, "usrName"@, "usr"@, "user"@);
    assert(a[0] == 'p' && a[1] == 'w' && a[2] == 'd');
    assert(b[0] == 'u' && b[1] == 's' && b[2] == 'r' && b[3] == 'N' && b[4] == 'a' && b[5] == 'm'
        && b[6] == 'e');
    assert(c[0] == 'u' && c[1] == 's' && c[2] == 'r');
    assert(d[0] == 'u' && d[1] == 's' && d[2] == 'e' && d[3] == 'r');
}

/// The letters of a key: which come first, and which do not come later.
proof fn lemma_letters_of_key(key: Seq<char>, t: Seq<char>)
    requires
        is_key(key),
    ensures
        3 <= key.len() <= 7,
        key[0] == 'p' || key[0] == 'u',
        is_value(key),
        t.len() > key.len() && t.take(key.len() as int) == key && t[key.len() as int] == '=' ==>
            key_len(t) == key.len(),
{
    reveal_strlit("pwd");
    reveal_strlit("usrName");
    reveal_strlit("usr");
    reveal_strlit("user");
    if t.len() > key.len() && t.take(key.len() as int) == key && t[key.len() as int] == '=' {
        let h = t.take(key.len() as int);
        assert(forall|j: int| 0 <= j < key.len() ==> #[trigger] t[j] == h[j]);
        assert(t[0] == key[0] && t[1] == key[1] && t[2] == key[2]);
        if key.len() >= 4 {
            assert(t[3] == key[3]);
        }
        if key.len() == 7 {
            assert(t[4] == key[4] && t[5] == key[5] && t[6] == key[6]);
        }
        lemma_key_letters(t);
    }
}

/// A text with a credential behind `a`, from an index in `a` on.
proof fn lemma_skip_in_front(a: Seq<char>, key: Seq<char>, v: Seq<char>, rest: Seq<char>, i: int)
    requires
        0 <= i <= a.len(),
    ensures
        (a + key + "="@ + v + rest).skip(i) == a.skip(i) + key + "="@ + v + rest,
        (a + key + "="@ + rest).skip(i) == a.skip(i) + key + "="@ + rest,
{
    assert((a + key + "="@ + v + rest).skip(i) =~= a.skip(i) + key + "="@ + v + rest);
    assert((a + key + "="@ + rest).skip(i) =~= a.skip(i) + key + "="@ + rest);
}

/// The key that a text with a credential starts with, where other text comes
/// before the credential, is in that text.
proof fn lemma_key_in_front(a: Seq<char>, key: Seq<char>, v: Seq<char>, rest: Seq<char>)
    requires
        is_key(key),
        a.len() > 0,
    ensures
        ({
            let t = a + key + "="@ + v + rest;
            let u = a + key + "="@ + rest;
            let k = key_len(t);
            &&& key_len(u) == k
            &&& 0 <= k <= a.len()
            &&& t.take(k) == u.take(k)
            &&& k < t.len() && k < u.len() && t[k] == u[k] && t[0] == u[0]
            &&& t[k] == '=' ==> k < a.len()
        }),
{
    reveal_strlit("=");
    let t = a + key + "="@ + v + rest;
    let u = a + key + "="@ + rest;
    let n = a.len() as int;
    lemma_letters_of_key(key, t);
    assert(forall|j: int| 0 <= j <= n ==> t[j] == u[j]);
    assert(t[n] == key[0]);
    lemma_key_letters(t);
    lemma_key_letters(u);
    assert forall|j: int| n < j < 7 && j < n + key.len() implies t[j] == u[j] && t[j] == key[j
        - n] by {}
    let k = key_len(t);
    assert(k <= n);
    assert(t.take(k) =~= u.take(k));
}

proof fn lemma_value_at_front(key: Seq<char>, v: Seq<char>, rest: Seq<char>)
    requires
        is_key(key),
        is_value(v),
        rest.len() > 0 ==> ends_value(rest[0]),
    ensures
        redacted(key + "="@ + v + rest) == key + "="@ + "***"@ + redacted(rest),
{
    reveal_strlit("=");
    reveal_strlit("***");
    reveal_strlit("=***");
    let t = key + "="@ + v + rest;
    let k = key.len() as int;
    assert(t.take(k) =~= key);
    assert(t[k] == '=');
    lemma_letters_of_key(key, t);
    let value = t.skip(k + 1);
    assert(value =~= v + rest);
    lemma_first_where_is(value, value_end(), v.len() as int);
    assert(value.skip(v.len() as int) =~= rest);
    assert(key + "=***"@ + redacted(rest) =~= key + "="@ + "***"@ + redacted(rest));
}

proof fn lemma_value_does_not_show(a: Seq<char>, key: Seq<char>, v: Seq<char>, rest: Seq<char>)
    requires
        is_key(key),
        is_value(v),
        rest.len() > 0 ==> ends_value(rest[0]),
    ensures
        redacted(a + key + "="@ + v + rest) == redacted(a + key + "="@ + rest),
    decreases a.len(),
{
    let t = a + key + "="@ + v + rest;
    let u = a + key + "="@ + rest;
    if a.len() == 0 {
        let none = Seq::<char>::empty();
        lemma_value_at_front(key, v, rest);
        lemma_value_at_front(key, none, rest);
        assert(t =~= key + "="@ + v + rest);
        assert(u =~= key + "="@ + none + rest);
    } else {
        let k = key_len(t);
        lemma_key_in_front(a, key, v, rest);
        if k == 0 {
            lemma_skip_in_front(a, key, v, rest, 1);
            lemma_value_does_not_show(a.skip(1), key, v, rest);
        } else if t[k] == '=' {
            let b = a.skip(k + 1);
            lemma_skip_in_front(a, key, v, rest, k + 1);
            lemma_same_after_value(b, key, v, rest);
            let e = first_where(b, value_end());
            lemma_first_where(b, value_end());
            if e < b.len() {
                lemma_value_does_not_show(b.skip(e), key, v, rest);
            }
        } else {
            lemma_skip_in_front(a, key, v, rest, k);
            lemma_value_does_not_show(a.skip(k), key, v, rest);
        }
    }
}

/// What stands behind a value that begins with `b`: the rest of `b` from the
/// first character on that ends a value, or else what follows the second value.
proof fn lemma_same_after_value(b: Seq<char>, key: Seq<char>, v: Seq<char>, rest: Seq<char>)
    requires
        is_key(key),
        is_value(v),
        rest.len() > 0 ==> ends_value(rest[0]),
    ensures
        ({
            let vt = b + key + "="@ + v + rest;
            let vu = b + key + "="@ + rest;
            let e = first_where(b, value_end());
            let at = vt.skip(first_where(vt, value_end()));
            let au = vu.skip(first_where(vu, value_end()));
            if e < b.len() {
                at == b.skip(e) + key + "="@ + v + rest && au == b.skip(e) + key + "="@ + rest
            } else {
                at == rest && au == rest
            }
        }),
{
    reveal_strlit("=");
    let vt = b + key + "="@ + v + rest;
    let vu = b + key + "="@ + rest;
    lemma_first_where(b, value_end());
    lemma_letters_of_key(key, vt);
    let e = first_where(b, value_end());
    if e < b.len() {
        lemma_first_where_is(vt, value_end(), e);
        lemma_first_where_is(vu, value_end(), e);
        assert(vt.skip(e) =~= b.skip(e) + key + "="@ + v + rest);
        assert(vu.skip(e) =~= b.skip(e) + key + "="@ + rest);
    } else {
        let lt = b.len() + key.len() + 1 + v.len();
        let lu = b.len() + key.len() + 1;
        assert forall|j: int| 0 <= j < lt implies !value_end()(#[trigger] vt[j]) by {
            if j < b.len() {
                assert(vt[j] == b[j]);
            } else if j < b.len() + key.len() {
                assert(vt[j] == key[j - b.len()]);
            } else if j >= b.len() + key.len() + 1 {
                assert(vt[j] == v[j - b.len() - key.len() - 1]);
            }
        }
        assert forall|j: int| 0 <= j < lu implies !value_end()(#[trigger] vu[j]) by {
            assert(vu[j] == vt[j]);
        }
        lemma_first_where_is(vt, value_end(), lt as int);
        lemma_first_where_is(vu, value_end(), lu as int);
        assert(vt.skip(lt as int) =~= rest);
        assert(vu.skip(lu as int) =~= rest);
    }
}

/// What is logged does not depend on a credential: whatever the value is that
/// follows a credential key and an equals sign, and wherever that stands, the
/// masked text is the same.
pub proof fn law_redaction_hides_the_value(
    before: Seq<char>,
    key: Seq<char>,
    value: Seq<char>,
    other: Seq<char>,
    after: Seq<char>,
)
    requires
        is_key(key),
        is_value(value),
        is_value(other),
        after.len() > 0 ==> ends_value(after[0]),
    ensures
        redacted(before + key + "="@ + value + after) == redacted(
            before + key + "="@ + other + after,
        ),
{
    lemma_value_does_not_show(before, key, value, after);
    lemma_value_does_not_show(before, key, other, after);
}

/// A text in which no equals sign follows a credential key is left as it is.
pub proof fn law_redaction_keeps_other_text(s: Seq<char>)
    requires
        !has_credential(s),
    ensures
        redacted(s) == s,
    decreases s.len(),
{
    lemma_key_len(s);
    if s.len() > 0 {
        assert(s.skip(0) =~= s);
        let k = key_len(s);
        let step = if k == 0 {
            1
        } else {
            k
        };
        let rest = s.skip(step);
        assert forall|i: int| 0 <= i < rest.len() implies ({
            let j = #[trigger] key_len(rest.skip(i));
            !(j > 0 && i + j < rest.len() && rest[i + j] == '=')
        }) by {
            assert(rest.skip(i) =~= s.skip(step + i));
            let j = key_len(s.skip(step + i));
            if j > 0 && i + j < rest.len() {
                assert(rest[i + j] == s[step + i + j]);
            }
        }
        law_redaction_keeps_other_text(rest);
        assert(key_len(s.skip(0)) == k);
        assert(s =~= s.take(step) + rest);
        assert(s.take(1) =~= seq![s[0]]);
    }
}

/// A CGI URL that is logged shows nothing of the credentials in it.
pub proof fn law_logged_url_hides_credentials(
    camera: Seq<char>,
    user: Seq<char>,
    pwd: Seq<char>,
    other_user: Seq<char>,
    other_pwd: Seq<char>,
    cmd: Seq<char>,
)
    requires
        is_value(user) && is_value(pwd) && is_value(other_user) && is_value(other_pwd),
    ensures
        redacted(cgi_url_text(camera, user, pwd, cmd)) == redacted(
            cgi_url_text(camera, other_user, other_pwd, cmd),
        ),
{
    reveal_strlit("/cgi-bin/CGIProxy.fcgi?usrName=");
    reveal_strlit("/cgi-bin/CGIProxy.fcgi?");
    reveal_strlit("usrName");
    reveal_strlit("=");
    reveal_strlit("&pwd=");
    reveal_strlit("&");
    reveal_strlit("pwd");
    reveal_strlit("&cmd=");
    let front = "http://"@ + camera + "/cgi-bin/CGIProxy.fcgi?"@;
    let rest = "&cmd="@ + cmd;
    let mid = "&pwd="@ + pwd + rest;
    assert("/cgi-bin/CGIProxy.fcgi?usrName="@ =~= "/cgi-bin/CGIProxy.fcgi?"@ + "usrName"@ + "="@);
    assert("&pwd="@ =~= "&"@ + "pwd"@ + "="@);
    assert(cgi_url_text(camera, user, pwd, cmd) =~= front + "usrName"@ + "="@ + user + mid);
    assert(cgi_url_text(camera, other_user, pwd, cmd) =~= front + "usrName"@ + "="@ + other_user
        + mid);
    law_redaction_hides_the_value(front, "usrName"@, user, other_user, mid);
    let front2 = front + "usrName"@ + "="@ + other_user + "&"@;
    assert(cgi_url_text(camera, other_user, pwd, cmd) =~= front2 + "pwd"@ + "="@ + pwd + rest);
    assert(cgi_url_text(camera, other_user, other_pwd, cmd) =~= front2 + "pwd"@ + "="@ + other_pwd
        + rest);
    law_redaction_hides_the_value(front2, "pwd"@, pwd, other_pwd, rest);
}

/// A number that the camera writes between two tags is read back, whatever
/// stands around it, unless the opening tag comes before.
pub proof fn law_xml_value_reads_back(
    before: Seq<char>,
    tag: Seq<char>,
    n: nat,
    after: Seq<char>,
)
    requires
        n <= 0xffff_ffff,
        forall|i: int|
            0 <= i < before.len() ==> !#[trigger] stands_at(
                before + ("<"@ + tag + ">"@) + decimal(n) + ("</"@ + tag + ">"@) + after,
                "<"@ + tag + ">"@,
                i,
            ),
    ensures
        xml_value(
            before + ("<"@ + tag + ">"@) + decimal(n) + ("</"@ + tag + ">"@) + after,
            tag,
        ) == Some(n),
{
    reveal_strlit("</");
    let open = "<"@ + tag + ">"@;
    let close = "</"@ + tag + ">"@;
    let digits = decimal(n);
    let xml = before + open + digits + close + after;
    lemma_decimal_digits(n);
    law_decimal_reads_back(n, 0xffff_ffff);
    assert(xml.subrange(before.len() as int, (before.len() + open.len()) as int) =~= open);
    lemma_find_is(xml, open, before.len() as int);
    let rest = xml.skip((before.len() + open.len()) as int);
    assert(rest =~= digits + close + after);
    assert(rest.subrange(digits.len() as int, (digits.len() + close.len()) as int) =~= close);
    assert forall|i: int| 0 <= i < digits.len() implies !#[trigger] stands_at(rest, close, i) by {
        if stands_at(rest, close, i) {
            assert(rest.subrange(i, i + close.len())[0] == rest[i]);
            assert(close[0] == '<');
            assert(is_digit(digits[i]));
        }
    }
    lemma_find_is(rest, close, digits.len() as int);
    assert(rest.take(digits.len() as int) =~= digits);
    assert(is_digit(digits[0]) && is_digit(digits[digits.len() - 1]));
    lemma_trimmed_already(digits);
}

/// Whether `c` stands behind the value of a credential: an ampersand, a closing
/// bracket, a quote of either kind, or whitespace of a line.
pub open spec fn is_behind_a_value(c: char) -> bool {
    ||| c == '&' || c == ')' || c == '"' || c == '\''
    ||| c == ' ' || c == '\t' || c == '\n' || c == '\r'
}

/// Only the value is masked, and it is masked whole: what stands before the key of
/// a credential, the key itself and its equals sign stay, three asterisks stand for
/// the value, and the masking goes on behind it.
pub proof fn law_only_the_value_is_masked(
    before: Seq<char>,
    key: Seq<char>,
    value: Seq<char>,
    after: Seq<char>,
)
    requires
        is_key(key),
        forall|i: int| 0 <= i < value.len() ==> !is_behind_a_value(#[trigger] value[i]),
        after.len() > 0 ==> is_behind_a_value(after[0]),
        forall|i: int, k: Seq<char>|
            0 <= i < before.len() && is_key(k) ==> !#[trigger] stands_at(
                before + key + "="@ + value + after,
                k,
                i,
            ),
    ensures
        redacted(before + key + "="@ + value + after) == before + key + "=***"@ + redacted(after),
    decreases before.len(),
{
    reveal_strlit("=");
    reveal_strlit("=***");
    let t = before + key + "="@ + value + after;
    if before.len() == 0 {
        let n = key.len() as int;
        assert(t =~= key + "="@ + value + after);
        lemma_letters_of_key(key, t);
        assert(t.take(n) =~= key);
        assert(t[n] == '=');
        let behind = t.skip(n + 1);
        assert(behind =~= value + after);
        assert forall|i: int| 0 <= i < value.len() implies !value_end()(#[trigger] behind[i]) by {
            assert(behind[i] == value[i]);
            assert(!is_behind_a_value(value[i]));
        }
        lemma_first_where_is(behind, value_end(), value.len() as int);
        assert(behind.skip(value.len() as int) =~= after);
        assert(before + key + "=***"@ + redacted(after) =~= key + "=***"@ + redacted(after));
    } else {
        assert(is_key("pwd"@) && is_key("usrName"@) && is_key("usr"@) && is_key("user"@));
        assert(!stands_at(t, "pwd"@, 0) && !stands_at(t, "usrName"@, 0) && !stands_at(
            t,
            "usr"@,
            0,
        ) && !stands_at(t, "user"@, 0));
        assert(key_len(t) == 0);
        let rest = before.skip(1);
        let u = rest + key + "="@ + value + after;
        assert(t.skip(1) =~= u);
        assert forall|i: int, k: Seq<char>|
            0 <= i < rest.len() && is_key(k) implies !#[trigger] stands_at(u, k, i) by {
            assert(!stands_at(t, k, i + 1));
            if stands_at(u, k, i) {
                assert(t.subrange(i + 1, i + 1 + k.len()) =~= u.subrange(i, i + k.len()));
            }
        }
        law_only_the_value_is_masked(rest, key, value, after);
        assert(seq![t[0]] + (rest + key + "=***"@ + redacted(after)) =~= before + key + "=***"@
            + redacted(after));
    }
}

/// The URLs of CGI commands name the camera, the user, the password and the
/// command, in this order.
pub proof fn law_cgi_url_names_all(
    camera: Seq<char>,
    user: Seq<char>,
    pwd: Seq<char>,
    cmd: Seq<char>,
)
    ensures
        cgi_url_text(camera, user, pwd, cmd) == "http://"@ + camera
            + "/cgi-bin/CGIProxy.fcgi?usrName="@ + user + "&pwd="@ + pwd + "&cmd="@ + cmd,
{
}

/// A failure is reported as XML with the code -1 and the reason as it is.
pub proof fn law_failure_is_reported_with_its_reason(reason: Seq<char>)
    ensures
        error_xml(reason) == "<CGI_Result><code>-1</code><error>"@ + reason
            + "</error></CGI_Result>"@,
{
}

/// What the settings of a stream are read from: the number between the tags of
/// that setting and that stream, or what is taken for it where there is none.
pub open spec fn is_setting(n: nat, xml: Seq<char>, tag: Seq<char>, otherwise: nat) -> bool {
    n == match xml_value(xml, tag) {
        Some(v) => v,
        None => otherwise,
    }
}

/// The parameters of the streams are those that the camera gives for each of them:
/// twenty numbers, five for each of four streams, in the order resolution, bit
/// rate, frame rate, GOP and variable bit rate. Where the camera does not answer,
/// they are taken as known.
pub proof fn law_stream_parameters_in_order(answer: &CgiResponse, i: nat)
    requires
        i < 4,
    ensures
        ({
            let xml = answer.response@;
            let p = stream_param_of(Some(answer));
            &&& p.len() == 20
            &&& is_setting(p[5 * i as int], xml, "resolution"@ + decimal(i), 9)
            &&& is_setting(p[5 * i as int + 1], xml, "bitRate"@ + decimal(i), 2_097_152)
            &&& is_setting(p[5 * i as int + 2], xml, "frameRate"@ + decimal(i), 15)
            &&& is_setting(p[5 * i as int + 3], xml, "GOP"@ + decimal(i), 30)
            &&& is_setting(p[5 * i as int + 4], xml, "isVBR"@ + decimal(i), 1)
        }),
        stream_param_of(None) == seq![
            9nat, 2_097_152, 15, 30, 1,
            7, 1_048_576, 15, 30, 1,
            0, 524_288, 15, 30, 1,
            7, 4_194_304, 25, 30, 1,
        ],
{
    let xml = answer.response@;
    reveal_with_fuel(stream_params, 5);
    let a = stream_values(xml, 0);
    let b = stream_values(xml, 1);
    let c = stream_values(xml, 2);
    let d = stream_values(xml, 3);
    assert(stream_params(xml, 4) =~= a + b + c + d);
    assert(stream_param_of(None) =~= seq![
        9nat, 2_097_152, 15, 30, 1,
        7, 1_048_576, 15, 30, 1,
        0, 524_288, 15, 30, 1,
        7, 4_194_304, 25, 30, 1,
    ]);
}

/// Every part of the initial state comes from the answer that it belongs to, or is
/// taken as known where the camera did not answer: the five numbers of the image,
/// the volume, the mode of the infrared light and the stream parameters. The live
/// port is the one that was given, the user an administrator, and all else zero.
pub proof fn law_initial_state_comes_from_the_answers(
    stream_param: Option<&CgiResponse>,
    image: &CgiResponse,
    audio: &CgiResponse,
    infra_led: &CgiResponse,
    port: u16,
)
    ensures
        ({
            let v = init_info_of(stream_param, Some(image), Some(audio), Some(infra_led), port);
            &&& v.live_port == port
            &&& v.usr_privilege == 2
            &&& v.stream_param == stream_param_of(stream_param)
            &&& is_setting(v.brightness as nat, image.response@, "brightness"@, 50)
            &&& is_setting(v.contrast as nat, image.response@, "contrast"@, 47)
            &&& is_setting(v.hue as nat, image.response@, "hue"@, 55)
            &&& is_setting(v.saturation as nat, image.response@, "saturation"@, 20)
            &&& is_setting(v.sharpness as nat, image.response@, "sharpness"@, 30)
            &&& is_setting(v.volume as nat, audio.response@, "volume"@, 100)
            &&& is_setting(v.infra_led_mode as nat, infra_led.response@, "mode"@, 0)
            &&& v.result == 0 && v.rtmp_port == 0 && v.record_state == 0 && v.flash_enable_buffer
                == 0 && v.is_mute == 0 && v.led_state == 0
            &&& v.preset_point_cnt == 0 && v.cruise_map_cnt == 0 && v.cru_cruise_map == 0
            &&& v.main_stream_type == 0 && v.sub_stream_type == 0
            &&& v.is_mirror == 0 && v.is_flip == 0 && v.is_alarming == 0 && v.alarm_type == 0
            &&& v.pwr_freq == 0 && v.infra_led_state == 0
        }),
        ({
            let v = init_info_of(None, None, None, None, port);
            &&& v.live_port == port
            &&& v.brightness == 50 && v.contrast == 47 && v.hue == 55 && v.saturation == 20
                && v.sharpness == 30
            &&& v.volume == 100
            &&& v.infra_led_mode == 0
            &&& v.usr_privilege == 2
        }),
{
}

/// Whitespace around the number between two tags does not count.
pub proof fn law_whitespace_around_a_value_does_not_count(
    tag: Seq<char>,
    front: Seq<char>,
    n: nat,
    back: Seq<char>,
    after: Seq<char>,
)
    requires
        n <= 0xffff_ffff,
        all_white(front),
        all_white(back),
    ensures
        xml_value(
            ("<"@ + tag + ">"@) + (front + decimal(n) + back) + ("</"@ + tag + ">"@) + after,
            tag,
        ) == Some(n),
{
    reveal_strlit("</");
    let open = "<"@ + tag + ">"@;
    let close = "</"@ + tag + ">"@;
    let digits = decimal(n);
    let inside = front + digits + back;
    let xml = open + inside + close + after;
    lemma_decimal_digits(n);
    law_decimal_reads_back(n, 0xffff_ffff);
    assert(xml.subrange(0, open.len() as int) =~= open);
    lemma_find_is(xml, open, 0);
    let rest = xml.skip(open.len() as int);
    assert(rest =~= inside + close + after);
    assert(rest.subrange(inside.len() as int, (inside.len() + close.len()) as int) =~= close);
    assert forall|i: int| 0 <= i < inside.len() implies !#[trigger] stands_at(rest, close, i) by {
        if stands_at(rest, close, i) {
            assert(rest.subrange(i, i + close.len())[0] == rest[i]);
            assert(close[0] == '<');
            assert(rest[i] == inside[i]);
            if i < front.len() {
                assert(is_white(front[i]));
            } else if i < front.len() + digits.len() {
                assert(is_digit(digits[i - front.len()]));
            } else {
                assert(is_white(back[i - front.len() - digits.len()]));
            }
        }
    }
    lemma_find_is(rest, close, inside.len() as int);
    assert(rest.take(inside.len() as int) =~= inside);
    assert(is_digit(digits[0]) && is_digit(digits[digits.len() - 1]));
    law_trimming_takes_off_whitespace_only(front, digits, back);
}

} // verus!
