//! The texts of RTSP: status lines, header fields, Digest challenges and SDP.

use vstd::prelude::*;
use vstd::slice::slice_subrange;
use vstd::string::*;
use vstd::utf8::is_ascii_chars;

use crate::text::{
    ascii_lowercase, chars_of, decimal, find_char, first_where, index_of, is_at, is_char, is_digit,
    is_white, is_whitespace, last_index_of, law_decimal_reads_back,
    law_pieces_stand_between_separators, law_words_stand_between_whitespace, lemma_decimal_digits,
    lemma_first_where_is, lemma_index_of, lemma_last_index_is, lemma_last_index_none,
    lemma_trim_back_of, lemma_trim_back_prefix, lemma_trim_front_of, lemma_trimmed_already,
    next_word, parse_number, parse_u16, parse_u64, push_decimal, rfind_char, same, split_on,
    stands_at, string_of, to_ascii_lowercase, trim, trim_back, trim_bounds, trimmed, words,
};

verus! {

/// What went wrong with the camera's RTSP server.
#[derive(Debug, Clone, PartialEq, Eq)]
pub enum RtspError {
    /// A request could not be sent.
    Send,
    /// A request could not be sent to its end.
    Flush,
    /// The status line of a response did not come.
    ReadStatusLine,
    /// The header fields of a response did not come.
    ReadHeaders,
    /// The body of a response did not come.
    ReadBody,
    /// The response to an authenticated request did not come in time.
    AuthTimeout,
    /// The status line of the response to an authenticated request did not come.
    ReadAuthStatusLine,
    /// The header fields of the response to an authenticated request did not come.
    ReadAuthHeaders,
    /// The body of the response to an authenticated request, of this length, did not come
    /// in time.
    AuthBodyTimeout(usize),
    /// The body of the response to an authenticated request did not come.
    ReadAuthBody,
    /// The connection could not be made anew in time.
    ReconnectTimeout,
    /// The connection could not be made anew.
    Reconnect,
    /// A status line, this one, has fewer than two words.
    BadStatusLine(String),
    /// A status code, this one, is no number of 16 bits.
    BadStatusCode(String),
    /// The camera asks for authentication on DESCRIBE.
    Unauthorized,
    /// The camera answers DESCRIBE with this status.
    DescribeStatus(u16),
    /// The camera answers DESCRIBE with this status rather than with a challenge.
    NoDescribeChallenge(u16),
    /// The camera answers an authenticated DESCRIBE with this status.
    AuthRejected(u16),
    /// The camera answers SETUP with this status rather than with a challenge.
    NoSetupChallenge(u16),
    /// The camera answers the SETUP of a track of this kind with this status.
    SetupFailed(MediaKind, u16),
    /// The camera asks for authentication without a challenge.
    NoChallenge,
    /// A challenge has no realm.
    MissingRealm,
    /// A challenge has no nonce.
    MissingNonce,
    /// An SDP body has no media section.
    NoMedia,
    /// There is no media section to set up.
    NothingToSetUp,
    /// A control URL points at this host and port rather than at the camera's, which follow.
    ForeignControlUrl(String, String, u16),
}

/// What an `RtspError` holds.
pub enum ErrorView {
    Send,
    Flush,
    ReadStatusLine,
    ReadHeaders,
    ReadBody,
    AuthTimeout,
    ReadAuthStatusLine,
    ReadAuthHeaders,
    AuthBodyTimeout(usize),
    ReadAuthBody,
    ReconnectTimeout,
    Reconnect,
    BadStatusLine(Seq<char>),
    BadStatusCode(Seq<char>),
    Unauthorized,
    DescribeStatus(u16),
    NoDescribeChallenge(u16),
    AuthRejected(u16),
    NoSetupChallenge(u16),
    SetupFailed(MediaKind, u16),
    NoChallenge,
    MissingRealm,
    MissingNonce,
    NoMedia,
    NothingToSetUp,
    ForeignControlUrl(Seq<char>, Seq<char>, u16),
}

impl View for RtspError {
    type V = ErrorView;

    open spec fn view(&self) -> ErrorView {
        match self {
            RtspError::Send => ErrorView::Send,
            RtspError::Flush => ErrorView::Flush,
            RtspError::ReadStatusLine => ErrorView::ReadStatusLine,
            RtspError::ReadHeaders => ErrorView::ReadHeaders,
            RtspError::ReadBody => ErrorView::ReadBody,
            RtspError::AuthTimeout => ErrorView::AuthTimeout,
            RtspError::ReadAuthStatusLine => ErrorView::ReadAuthStatusLine,
            RtspError::ReadAuthHeaders => ErrorView::ReadAuthHeaders,
            RtspError::AuthBodyTimeout(a) => ErrorView::AuthBodyTimeout(*a),
            RtspError::ReadAuthBody => ErrorView::ReadAuthBody,
            RtspError::ReconnectTimeout => ErrorView::ReconnectTimeout,
            RtspError::Reconnect => ErrorView::Reconnect,
            RtspError::BadStatusLine(a) => ErrorView::BadStatusLine(a@),
            RtspError::BadStatusCode(a) => ErrorView::BadStatusCode(a@),
            RtspError::Unauthorized => ErrorView::Unauthorized,
            RtspError::DescribeStatus(a) => ErrorView::DescribeStatus(*a),
            RtspError::NoDescribeChallenge(a) => ErrorView::NoDescribeChallenge(*a),
            RtspError::AuthRejected(a) => ErrorView::AuthRejected(*a),
            RtspError::NoSetupChallenge(a) => ErrorView::NoSetupChallenge(*a),
            RtspError::SetupFailed(a, b) => ErrorView::SetupFailed(*a, *b),
            RtspError::NoChallenge => ErrorView::NoChallenge,
            RtspError::MissingRealm => ErrorView::MissingRealm,
            RtspError::MissingNonce => ErrorView::MissingNonce,
            RtspError::NoMedia => ErrorView::NoMedia,
            RtspError::NothingToSetUp => ErrorView::NothingToSetUp,
            RtspError::ForeignControlUrl(a, b, c) => ErrorView::ForeignControlUrl(a@, b@, *c),
        }
    }
}

/// A text in quotes, with escapes in it for what does not print.
pub uninterp spec fn quoted_text(s: Seq<char>) -> Seq<char>;

/// The `Debug` form of `str` writes a text in quotes, with escapes in it. Which
/// characters are written as escapes, is left open.
#[verifier::external_body]
fn quoted(s: &str) -> (r: String)
    ensures
        r@ == quoted_text(s@),
{
    format!("{s:?}")
}

impl ErrorView {
    /// What went wrong, in words.
    pub open spec fn text(self) -> Seq<char> {
        match self {
            ErrorView::Send => "RTSP: send failed"@,
            ErrorView::Flush => "RTSP: flush failed"@,
            ErrorView::ReadStatusLine => "RTSP: failed to read status line"@,
            ErrorView::ReadHeaders => "RTSP: failed to read headers"@,
            ErrorView::ReadBody => "RTSP: failed to read body"@,
            ErrorView::AuthTimeout => "RTSP: timeout waiting for auth response"@,
            ErrorView::ReadAuthStatusLine => "RTSP: failed to read auth status line"@,
            ErrorView::ReadAuthHeaders => "RTSP: failed to read auth headers"@,
            ErrorView::AuthBodyTimeout(a) => "RTSP: timeout reading auth body ("@ + decimal(
                a as nat,
            ) + " bytes)"@,
            ErrorView::ReadAuthBody => "RTSP: failed to read auth body"@,
            ErrorView::ReconnectTimeout => "RTSP: reconnect timeout"@,
            ErrorView::Reconnect => "RTSP: reconnect failed"@,
            ErrorView::BadStatusLine(a) => "RTSP: invalid status line: "@ + quoted_text(a),
            ErrorView::BadStatusCode(a) => "RTSP: invalid status code: "@ + a,
            ErrorView::Unauthorized => "RTSP: got 401"@,
            ErrorView::DescribeStatus(a) => "RTSP: unexpected DESCRIBE status "@ + decimal(
                a as nat,
            ),
            ErrorView::NoDescribeChallenge(a) => "RTSP: expected 401, got "@ + decimal(a as nat),
            ErrorView::AuthRejected(a) => "RTSP: Digest auth rejected ("@ + decimal(a as nat)
                + ")"@,
            ErrorView::NoSetupChallenge(a) => "RTSP: expected 401 challenge, got "@ + decimal(
                a as nat,
            ),
            ErrorView::SetupFailed(a, b) => "RTSP: SETUP "@ + a.text() + " failed with "@
                + decimal(b as nat),
            ErrorView::NoChallenge => "RTSP: 401 missing WWW-Authenticate"@,
            ErrorView::MissingRealm => "RTSP: Digest challenge missing realm"@,
            ErrorView::MissingNonce => "RTSP: Digest challenge missing nonce"@,
            ErrorView::NoMedia => "RTSP: no media sections found in SDP"@,
            ErrorView::NothingToSetUp => "RTSP: no media sections to SETUP"@,
            ErrorView::ForeignControlUrl(a, b, c) => "RTSP: SDP a=control points at "@ + a
                + ", expected "@ + b + ":"@ + decimal(c as nat) + " — refusing"@,
        }
    }
}

impl RtspError {
    /// What went wrong, in words.
    pub fn message(&self) -> (s: String)
        ensures
            s@ == self@.text(),
    {
        match self {
            RtspError::Send => "RTSP: send failed".to_owned(),
            RtspError::Flush => "RTSP: flush failed".to_owned(),
            RtspError::ReadStatusLine => "RTSP: failed to read status line".to_owned(),
            RtspError::ReadHeaders => "RTSP: failed to read headers".to_owned(),
            RtspError::ReadBody => "RTSP: failed to read body".to_owned(),
            RtspError::AuthTimeout => "RTSP: timeout waiting for auth response".to_owned(),
            RtspError::ReadAuthStatusLine => "RTSP: failed to read auth status line".to_owned(),
            RtspError::ReadAuthHeaders => "RTSP: failed to read auth headers".to_owned(),
            RtspError::AuthBodyTimeout(a) => {
                let mut s = "RTSP: timeout reading auth body (".to_owned();
                push_decimal(&mut s, *a as u64);
                s.append(" bytes)");
                s
            },
            RtspError::ReadAuthBody => "RTSP: failed to read auth body".to_owned(),
            RtspError::ReconnectTimeout => "RTSP: reconnect timeout".to_owned(),
            RtspError::Reconnect => "RTSP: reconnect failed".to_owned(),
            RtspError::BadStatusLine(a) => {
                let mut s = "RTSP: invalid status line: ".to_owned();
                s.append(quoted(a.as_str()).as_str());
                s
            },
            RtspError::BadStatusCode(a) => {
                let mut s = "RTSP: invalid status code: ".to_owned();
                s.append(a.as_str());
                s
            },
            RtspError::Unauthorized => "RTSP: got 401".to_owned(),
            RtspError::DescribeStatus(a) => {
                let mut s = "RTSP: unexpected DESCRIBE status ".to_owned();
                push_decimal(&mut s, *a as u64);
                s
            },
            RtspError::NoDescribeChallenge(a) => {
                let mut s = "RTSP: expected 401, got ".to_owned();
                push_decimal(&mut s, *a as u64);
                s
            },
            RtspError::AuthRejected(a) => {
                let mut s = "RTSP: Digest auth rejected (".to_owned();
                push_decimal(&mut s, *a as u64);
                s.append(")");
                s
            },
            RtspError::NoSetupChallenge(a) => {
                let mut s = "RTSP: expected 401 challenge, got ".to_owned();
                push_decimal(&mut s, *a as u64);
                s
            },
            RtspError::SetupFailed(a, b) => {
                let mut s = "RTSP: SETUP ".to_owned();
                s.append(a.name());
                s.append(" failed with ");
                push_decimal(&mut s, *b as u64);
                s
            },
            RtspError::NoChallenge => "RTSP: 401 missing WWW-Authenticate".to_owned(),
            RtspError::MissingRealm => "RTSP: Digest challenge missing realm".to_owned(),
            RtspError::MissingNonce => "RTSP: Digest challenge missing nonce".to_owned(),
            RtspError::NoMedia => "RTSP: no media sections found in SDP".to_owned(),
            RtspError::NothingToSetUp => "RTSP: no media sections to SETUP".to_owned(),
            RtspError::ForeignControlUrl(a, b, c) => {
                let mut s = "RTSP: SDP a=control points at ".to_owned();
                s.append(a.as_str());
                s.append(", expected ");
                s.append(b.as_str());
                s.append(":");
                push_decimal(&mut s, *c as u64);
                s.append(" — refusing");
                s
            },
        }
    }
}

// ---------------------------------------------------------------------------
// Status lines
// ---------------------------------------------------------------------------

/// The status code in a status line: its second word.
pub open spec fn status_code(line: Seq<char>) -> Result<nat, ErrorView> {
    if words(line).len() < 2 {
        Err(ErrorView::BadStatusLine(line))
    } else {
        match parse_number(words(line)[1], 0xffff) {
            Some(n) => Ok(n),
            None => Err(ErrorView::BadStatusCode(words(line)[1])),
        }
    }
}

/// Parses the status code in a status line.
pub fn parse_status_code(line: &str) -> (r: Result<u16, RtspError>)
    ensures
        match r {
            Ok(n) => status_code(line@) == Ok::<nat, ErrorView>(n as nat),
            Err(e) => status_code(line@) == Err::<nat, ErrorView>(e@),
        },
{
    let cs = chars_of(line);
    let cs = cs.as_slice();
    let n: usize = cs.len();
    assert(cs@.subrange(0, n as int) =~= line@);
    let (a, b) = next_word(cs, 0, n);
    if a == b {
        return Err(RtspError::BadStatusLine(line.to_owned()));
    }
    let (c, d) = next_word(cs, b, n);
    if c == d {
        assert(words(line@).len() == 1);
        return Err(RtspError::BadStatusLine(line.to_owned()));
    }
    assert(words(line@)[1] == cs@.subrange(c as int, d as int));
    let word = slice_subrange(cs, c, d);
    match parse_u16(word) {
        Some(code) => Ok(code),
        None => Err(RtspError::BadStatusCode(string_of(word))),
    }
}

// ---------------------------------------------------------------------------
// Header fields
// ---------------------------------------------------------------------------

/// The text in small letters, by the rules of Unicode.
pub uninterp spec fn lowercase(s: Seq<char>) -> Seq<char>;

/// `str::to_lowercase` makes the letters of a text small. On ASCII it is what
/// `str::to_ascii_lowercase` is.
#[verifier::external_body]
fn to_lowercase(s: &str) -> (r: String)
    ensures
        r@ == lowercase(s@),
        is_ascii_chars(s@) ==> r@ == ascii_lowercase(s@),
{
    s.to_lowercase()
}

/// Whether two names are the same, whatever the case of their letters: by the
/// rules of ASCII where both are ASCII, and by those of Unicode otherwise.
pub open spec fn same_name(a: Seq<char>, b: Seq<char>) -> bool {
    if is_ascii_chars(a) && is_ascii_chars(b) {
        ascii_lowercase(a) == ascii_lowercase(b)
    } else {
        lowercase(a) == lowercase(b)
    }
}

/// Whether two names are the same, whatever the case of their letters.
fn names_agree(a: &str, b: &str) -> (r: bool)
    ensures
        r == same_name(a@, b@),
{
    let a = to_lowercase(a);
    let b = to_lowercase(b);
    same(chars_of(a.as_str()).as_slice(), chars_of(b.as_str()).as_slice())
}

/// The value of the first line that is a field with the name `name`.
pub open spec fn field_value(lines: Seq<Seq<char>>, name: Seq<char>) -> Option<Seq<char>>
    decreases lines.len(),
{
    if lines.len() == 0 {
        None
    } else {
        let line = lines[0];
        let k = index_of(line, ':');
        if k < line.len() && same_name(trimmed(line.take(k)), name) {
            Some(trimmed(line.skip(k + 1)))
        } else {
            field_value(lines.drop_first(), name)
        }
    }
}

/// The value of the header field `name`, whatever the case of its letters and
/// without the whitespace around it. The first such field counts.
pub open spec fn header_value(headers: Seq<char>, name: Seq<char>) -> Option<Seq<char>> {
    field_value(split_on(headers, '\n'), name)
}

/// Extracts the value of a header field.
pub fn extract_header<'a>(headers: &'a str, name: &str) -> (r: Option<&'a str>)
    ensures
        match r {
            Some(v) => header_value(headers@, name@) == Some(v@),
            None => header_value(headers@, name@) is None,
        },
{
    let cs = chars_of(headers);
    let cs = cs.as_slice();
    let n: usize = cs.len();
    let mut lo: usize = 0;
    let mut more = true;
    assert(cs@.skip(0) =~= headers@);
    while more
        invariant
            lo <= n == cs@.len(),
            cs@ == headers@,
            more ==> header_value(headers@, name@) == field_value(
                split_on(cs@.skip(lo as int), '\n'),
                name@,
            ),
            !more ==> header_value(headers@, name@) is None,
        decreases n + 1 - lo, (if more {
            1int
        } else {
            0
        }),
    {
        let ghost rest = cs@.skip(lo as int);
        let hi: usize = find_char(cs, lo, n, '\n');
        proof {
            assert(cs@.subrange(lo as int, n as int) =~= rest);
            lemma_index_of(rest, '\n');
        }
        let ghost line = rest.take(hi - lo);
        let colon: usize = find_char(cs, lo, hi, ':');
        proof {
            assert(cs@.subrange(lo as int, hi as int) =~= line);
            lemma_index_of(line, ':');
            if hi < n {
                assert(split_on(rest, '\n') =~= seq![line] + split_on(rest.skip(hi - lo + 1), '\n'));
                assert(split_on(rest, '\n').drop_first() =~= split_on(rest.skip(hi - lo + 1), '\n'));
                assert(rest.skip(hi - lo + 1) =~= cs@.skip(hi + 1));
            } else {
                assert(line =~= rest);
                assert(split_on(rest, '\n') =~= seq![line]);
                assert(split_on(rest, '\n').drop_first() =~= Seq::empty());
                assert(field_value(Seq::empty(), name@) is None);
            }
            assert(split_on(rest, '\n')[0] == line);
        }
        if colon < hi {
            let key = trim(slice_subrange(cs, lo, colon));
            assert(cs@.subrange(lo as int, colon as int) =~= line.take(colon - lo));
            if names_agree(string_of(key).as_str(), name) {
                let (a, b) = trim_bounds(cs, colon + 1, hi);
                assert(cs@.subrange(colon + 1, hi as int) =~= line.skip(colon - lo + 1));
                return Some(headers.substring_char(a, b));
            }
        }
        if hi == n {
            more = false;
        } else {
            lo = hi + 1;
        }
    }
    None
}

// ---------------------------------------------------------------------------
// Digest challenges
// ---------------------------------------------------------------------------

/// Whether a quote is open behind the text.
pub open spec fn in_quotes(s: Seq<char>) -> bool
    decreases s.len(),
{
    if s.len() == 0 {
        false
    } else if s.last() == '"' {
        !in_quotes(s.drop_last())
    } else {
        in_quotes(s.drop_last())
    }
}

/// Whether `c` can belong to the name of a parameter: neither whitespace nor one
/// of the characters of ASCII that separate, nor a control character.
pub open spec fn is_name_char(c: char) -> bool {
    if c as u32 >= 128 {
        !is_white(c)
    } else {
        ||| '0' <= c <= '9'
        ||| 'A' <= c <= 'Z'
        ||| 'a' <= c <= 'z'
        ||| c == '!' || c == '#' || c == '$' || c == '%' || c == '&' || c == '\''
        ||| c == '*' || c == '+' || c == '-' || c == '.' || c == '^' || c == '_'
        ||| c == '`' || c == '|' || c == '~'
    }
}

/// Whether `c` can belong to the name of a parameter.
fn may_be_in_name(c: char) -> (b: bool)
    ensures
        b == is_name_char(c),
{
    if c as u32 >= 128 {
        !is_whitespace(c)
    } else {
        ('0' <= c && c <= '9') || ('A' <= c && c <= 'Z') || ('a' <= c && c <= 'z') || c == '!' || c
            == '#' || c == '$' || c == '%' || c == '&' || c == '\'' || c == '*' || c == '+' || c
            == '-' || c == '.' || c == '^' || c == '_' || c == '`' || c == '|' || c == '~'
    }
}

/// Whether `k` is within quotes, between one and the next.
pub open spec fn is_within_quotes(auth: Seq<char>, k: int) -> bool {
    in_quotes(auth.take(k)) && index_of(auth.skip(k), '"') < auth.len() - k
}

/// Whether a parameter of a challenge may begin at `k`: at the start of the
/// challenge or behind a character that cannot belong to a name, and not within
/// quotes.
pub open spec fn may_begin_param(auth: Seq<char>, k: int) -> bool {
    &&& k == 0 || !is_name_char(auth[k - 1])
    &&& !is_within_quotes(auth, k)
}

/// Where the name that begins at `k` ends: at the next `=`.
pub open spec fn param_name_end(auth: Seq<char>, k: int) -> int {
    k + index_of(auth.skip(k), '=')
}

/// Whether the parameter `param` begins at `k`.
pub open spec fn begins_param(auth: Seq<char>, param: Seq<char>, k: int) -> bool {
    let e = param_name_end(auth, k);
    may_begin_param(auth, k) && e < auth.len() && same_name(auth.subrange(k, e), param)
}

/// Where the value of the parameter `param` begins, of the first that begins
/// at `k` or behind it.
pub open spec fn param_value_start(auth: Seq<char>, param: Seq<char>, k: int) -> Option<int>
    decreases auth.len() - k,
{
    if k >= auth.len() {
        None
    } else if begins_param(auth, param, k) {
        Some(param_name_end(auth, k) + 1)
    } else {
        param_value_start(auth, param, k + 1)
    }
}

/// Whether `c` ends a value without quotes.
pub open spec fn ends_auth_value(c: char) -> bool {
    c == ',' || c == ' ' || c == '\r' || c == '\n'
}

/// The property of ending a value without quotes.
pub open spec fn auth_value_end() -> spec_fn(char) -> bool {
    |c: char| ends_auth_value(c)
}

/// The value that `text` begins with: in quotes, or up to a comma, a space or
/// the end of the line.
pub open spec fn auth_value(text: Seq<char>) -> Option<Seq<char>> {
    let t = trimmed(text);
    if t.len() > 0 && t[0] == '"' {
        let inner = t.skip(1);
        let k = index_of(inner, '"');
        if k < inner.len() {
            Some(inner.take(k))
        } else {
            None
        }
    } else {
        Some(trimmed(t.take(first_where(t, auth_value_end()))))
    }
}

/// The value of the parameter `param` in a challenge.
pub open spec fn auth_param_value(auth: Seq<char>, param: Seq<char>) -> Option<Seq<char>> {
    match param_value_start(auth, param, 0) {
        Some(k) => auth_value(auth.skip(k)),
        None => None,
    }
}

/// Cuts the value out of the text behind `param=`.
fn cut_auth_value<'a>(text: &'a str) -> (r: Option<&'a str>)
    ensures
        match r {
            Some(v) => auth_value(text@) == Some(v@),
            None => auth_value(text@) is None,
        },
{
    let cs = chars_of(text);
    let cs = cs.as_slice();
    let n: usize = cs.len();
    assert(cs@.subrange(0, n as int) =~= text@);
    let (a, b) = trim_bounds(cs, 0, n);
    let ghost t = trimmed(text@);
    if a < b && cs[a] == '"' {
        let k: usize = find_char(cs, a + 1, b, '"');
        let ghost inner = t.skip(1);
        proof {
            assert(cs@.subrange(a + 1, b as int) =~= inner);
            lemma_index_of(inner, '"');
        }
        if k == b {
            return None;
        }
        assert(text@.subrange(a + 1, k as int) =~= inner.take(k - a - 1));
        Some(text.substring_char(a + 1, k))
    } else {
        let mut e: usize = a;
        while e < b && !(cs[e] == ',' || cs[e] == ' ' || cs[e] == '\r' || cs[e] == '\n')
            invariant
                a <= e <= b <= n == cs@.len(),
                forall|j: int| a <= j < e ==> !ends_auth_value(#[trigger] cs@[j]),
            decreases b - e,
        {
            e += 1;
        }
        proof {
            assert forall|j: int| 0 <= j < e - a implies !auth_value_end()(#[trigger] t[j]) by {
                assert(t[j] == cs@[a + j]);
            }
            lemma_first_where_is(t, auth_value_end(), e - a);
            assert(cs@.subrange(a as int, e as int) =~= t.take(e - a));
        }
        let (c, d) = trim_bounds(cs, a, e);
        Some(text.substring_char(c, d))
    }
}

/// Extracts the value of a parameter from a challenge.
///
/// The name stands at the start of the challenge or behind a character that
/// cannot belong to a name, outside of quotes, and its letters may have any case.
/// The value stands in quotes (`realm="IPCAM"`) or not (`nonce=abc123`).
pub fn extract_auth_param<'a>(auth: &'a str, param: &str) -> (r: Option<&'a str>)
    ensures
        match r {
            Some(v) => auth_param_value(auth@, param@) == Some(v@),
            None => auth_param_value(auth@, param@) is None,
        },
{
    let cs = chars_of(auth);
    let cs = cs.as_slice();
    let n: usize = cs.len();
    let mut k: usize = 0;
    let mut quoted = false;
    assert(auth@.take(0) =~= Seq::<char>::empty());
    while k < n
        invariant
            k <= n == cs@.len(),
            cs@ == auth@,
            quoted == in_quotes(auth@.take(k as int)),
            auth_param_value(auth@, param@) == match param_value_start(auth@, param@, k as int) {
                Some(e) => auth_value(auth@.skip(e)),
                None => None,
            },
        decreases n - k,
    {
        proof {
            assert(cs@.subrange(k as int, n as int) =~= auth@.skip(k as int));
            lemma_index_of(auth@.skip(k as int), '=');
            lemma_index_of(auth@.skip(k as int), '"');
        }
        let within = quoted && find_char(cs, k, n, '"') < n;
        if !within && (k == 0 || !may_be_in_name(cs[k - 1])) {
            let e: usize = find_char(cs, k, n, '=');
            if e < n && names_agree(string_of(slice_subrange(cs, k, e)).as_str(), param) {
                assert(begins_param(auth@, param@, k as int));
                assert(auth@.subrange(e + 1, n as int) =~= auth@.skip(e + 1));
                return cut_auth_value(auth.substring_char(e + 1, n));
            }
        }
        assert(!begins_param(auth@, param@, k as int));
        if cs[k] == '"' {
            quoted = !quoted;
        }
        assert(auth@.take(k + 1).drop_last() =~= auth@.take(k as int));
        k += 1;
    }
    None
}

// ---------------------------------------------------------------------------
// Control URLs
// ---------------------------------------------------------------------------

/// Host and port that an absolute control URL points at, the host in small
/// letters. A port that is no number is 0, and one that is not there is 554.
pub open spec fn control_target(authority: Seq<char>) -> (Seq<char>, nat) {
    let k = last_index_of(authority, ':');
    if k >= 0 {
        (
            ascii_lowercase(authority.take(k)),
            match parse_number(authority.skip(k + 1), 0xffff) {
                Some(p) => p,
                None => 0,
            },
        )
    } else {
        (ascii_lowercase(authority), 554)
    }
}

/// The part of a URL without its scheme that names host and port.
pub open spec fn authority_of(rest: Seq<char>) -> Seq<char> {
    rest.take(index_of(rest, '/'))
}

/// The URL that a control attribute of an SDP body stands for, at a camera that
/// was dialed under `expected_host` and `expected_port`.
pub open spec fn control_url(
    base: Seq<char>,
    control: Seq<char>,
    expected_host: Seq<char>,
    expected_port: u16,
) -> Result<Seq<char>, ErrorView> {
    let c = trimmed(control);
    if c.len() == 0 || c == "*"@ {
        Ok(base)
    } else if stands_at(c, "rtsp://"@, 0) {
        if control_target(authority_of(c.skip(7))) == (
            ascii_lowercase(trimmed(expected_host)),
            expected_port as nat,
        ) {
            Ok(c)
        } else {
            Err(
                ErrorView::ForeignControlUrl(
                    authority_of(c.skip(7)),
                    expected_host,
                    expected_port,
                ),
            )
        }
    } else if c[0] == '/' || (base.len() > 0 && base.last() == '/') {
        Ok(base + c)
    } else {
        Ok(base + "/"@ + c)
    }
}

/// Whether `r` is the outcome `s`.
pub open spec fn is_text_outcome(
    r: Result<String, RtspError>,
    s: Result<Seq<char>, ErrorView>,
) -> bool {
    match (r, s) {
        (Ok(a), Ok(b)) => a@ == b,
        (Err(e), Err(f)) => e@ == f,
        _ => false,
    }
}

/// Resolves a control attribute of an SDP body against the dialed camera.
///
/// One that is not there, empty or `*` stands for the base URL, and a relative
/// one is appended to it. An absolute one must point at the host and the port
/// that were dialed: an SDP body comes unprotected, and must not steer requests,
/// with the credentials in them, at another host.
pub fn resolve_control_url(
    base: &str,
    control: &str,
    expected_host: &str,
    expected_port: u16,
) -> (r: Result<String, RtspError>)
    ensures
        is_text_outcome(r, control_url(base@, control@, expected_host@, expected_port)),
{
    let cs = chars_of(control);
    let c = trim(cs.as_slice());
    let n: usize = c.len();
    let star = chars_of("*");
    if n == 0 || same(c, star.as_slice()) {
        return Ok(base.to_owned());
    }
    let scheme = chars_of("rtsp://");
    proof {
        reveal_strlit("rtsp://");
    }
    if is_at(c, scheme.as_slice(), 0) {
        let slash: usize = find_char(c, 7, n, '/');
        let ghost rest = c@.skip(7);
        proof {
            assert(c@.subrange(7, n as int) =~= rest);
            lemma_index_of(rest, '/');
            assert(c@.subrange(7, slash as int) =~= authority_of(rest));
        }
        let authority = slice_subrange(c, 7, slash);
        let (host, port) = control_host_port(authority);
        let expected = chars_of(expected_host);
        let expected = to_ascii_lowercase(trim(expected.as_slice()));
        if !same(host.as_slice(), expected.as_slice()) || port != expected_port {
            return Err(
                RtspError::ForeignControlUrl(
                    string_of(authority),
                    expected_host.to_owned(),
                    expected_port,
                ),
            );
        }
        return Ok(string_of(c));
    }
    let bs = chars_of(base);
    let joined_already = c[0] == '/' || (bs.len() > 0 && bs[bs.len() - 1] == '/');
    let mut url = base.to_owned();
    if !joined_already {
        url.append("/");
    }
    url.append(string_of(c).as_str());
    Ok(url)
}

fn control_host_port(authority: &[char]) -> (r: (Vec<char>, u16))
    ensures
        (r.0@, r.1 as nat) == control_target(authority@),
{
    let n: usize = authority.len();
    match rfind_char(authority, ':') {
        Some(k) => {
            let host = slice_subrange(authority, 0, k);
            let port = slice_subrange(authority, k + 1, n);
            assert(host@ =~= authority@.take(k as int));
            assert(port@ =~= authority@.skip(k + 1));
            let port: u16 = match parse_u16(port) {
                Some(p) => p,
                None => 0,
            };
            (to_ascii_lowercase(host), port)
        },
        None => (to_ascii_lowercase(authority), 554),
    }
}

// ---------------------------------------------------------------------------
// SDP
// ---------------------------------------------------------------------------

/// What a media section of an SDP body is about.
#[derive(Debug, Clone, Copy, PartialEq, Eq, Structural)]
pub enum MediaKind {
    /// The camera's H.264 track.
    Video,
    /// The camera's G.711 track.
    Audio,
}

impl MediaKind {
    /// The name of the kind, as it stands in an SDP body.
    pub open spec fn text(self) -> Seq<char> {
        match self {
            MediaKind::Video => "video"@,
            MediaKind::Audio => "audio"@,
        }
    }

    /// The name of the kind, as it stands in an SDP body.
    pub fn name(&self) -> (s: &'static str)
        ensures
            s@ == self.text(),
    {
        match self {
            MediaKind::Video => "video",
            MediaKind::Audio => "audio",
        }
    }
}

/// A media section of an SDP body.
#[derive(Debug, Clone)]
pub struct SdpMedia {
    /// Video or audio.
    pub kind: MediaKind,
    /// First payload type of the section.
    pub payload_type: u8,
    /// Control attribute, if there is one other than `*`.
    pub control: Option<String>,
}

/// What an `SdpMedia` holds.
#[verifier::ext_equal]
pub struct MediaView {
    pub kind: MediaKind,
    pub payload_type: nat,
    pub control: Option<Seq<char>>,
}

impl View for SdpMedia {
    type V = MediaView;

    open spec fn view(&self) -> MediaView {
        MediaView {
            kind: self.kind,
            payload_type: self.payload_type as nat,
            control: match self.control {
                Some(c) => Some(c@),
                None => None,
            },
        }
    }
}

/// What the media sections hold.
pub open spec fn media_views(media: Seq<SdpMedia>) -> Seq<MediaView> {
    media.map_values(|m: SdpMedia| m@)
}

/// The payload type in the words of a media line: the fourth word, or 0 if it
/// is no number of 8 bits.
pub open spec fn media_payload_type(fields: Seq<Seq<char>>) -> nat {
    if fields.len() > 3 {
        match parse_number(fields[3], 0xff) {
            Some(n) => n,
            None => 0,
        }
    } else {
        0
    }
}

/// How far an SDP body is read.
#[verifier::ext_equal]
pub struct SdpView {
    /// The sections for video and audio so far.
    pub media: Seq<MediaView>,
    /// Whether the section that is being read is the last of them.
    pub open: bool,
}

/// What is read of an SDP body with the line `line`: a media line ends the
/// section before it and begins another, which is kept if it is for video or
/// audio, and a control attribute belongs to the section that it stands in.
pub open spec fn sdp_line(s: SdpView, line: Seq<char>) -> SdpView {
    let t = trimmed(line);
    if stands_at(t, "m="@, 0) {
        let fields = words(t.skip(2));
        if fields.len() > 0 && (fields[0] == "video"@ || fields[0] == "audio"@) {
            SdpView {
                media: s.media.push(
                    MediaView {
                        kind: if fields[0] == "video"@ {
                            MediaKind::Video
                        } else {
                            MediaKind::Audio
                        },
                        payload_type: media_payload_type(fields),
                        control: None,
                    },
                ),
                open: true,
            }
        } else {
            SdpView { open: false, ..s }
        }
    } else if stands_at(t, "a=control:"@, 0) {
        let c = trimmed(t.skip(10));
        if c.len() > 0 && c != "*"@ && s.open {
            SdpView {
                media: s.media.update(
                    s.media.len() - 1,
                    MediaView { control: Some(c), ..s.media.last() },
                ),
                ..s
            }
        } else {
            s
        }
    } else {
        s
    }
}

/// What is read of an SDP body with the lines `lines`.
pub open spec fn sdp_lines(s: SdpView, lines: Seq<Seq<char>>) -> SdpView
    decreases lines.len(),
{
    if lines.len() == 0 {
        s
    } else {
        sdp_lines(sdp_line(s, lines[0]), lines.drop_first())
    }
}

/// The media sections of an SDP body for video and audio, in order.
pub open spec fn sdp_media(sdp: Seq<char>) -> Seq<MediaView> {
    sdp_lines(SdpView { media: Seq::empty(), open: false }, split_on(sdp, '\n')).media
}

/// Reads a line of an SDP body, where `open` tells whether the last of the
/// sections is being read. The result tells that of what follows.
fn read_sdp_line(media: &mut Vec<SdpMedia>, open: bool, line: &[char]) -> (still: bool)
    requires
        open ==> old(media)@.len() > 0,
    ensures
        (SdpView { media: media_views(final(media)@), open: still }) == sdp_line(
            (SdpView { media: media_views(old(media)@), open }),
            line@,
        ),
        still ==> final(media)@.len() > 0,
{
    let ghost before = SdpView { media: media_views(media@), open };
    let t = trim(line);
    let n: usize = t.len();
    proof {
        reveal_strlit("m=");
        reveal_strlit("a=control:");
    }
    if is_at(t, chars_of("m=").as_slice(), 0) {
        let ghost fields = words(t@.skip(2));
        assert(t@.subrange(2, n as int) =~= t@.skip(2));
        let (a0, b0) = next_word(t, 2, n);
        let name = slice_subrange(t, a0, b0);
        if a0 == b0 {
            return false;
        }
        assert(fields[0] == name@);
        let kind = if same(name, chars_of("video").as_slice()) {
            MediaKind::Video
        } else if same(name, chars_of("audio").as_slice()) {
            MediaKind::Audio
        } else {
            return false;
        };
        let (a1, b1) = next_word(t, b0, n);
        let (a2, b2) = next_word(t, b1, n);
        let (a3, b3) = next_word(t, b2, n);
        proof {
            lemma_fourth_word(t@, n as int, b0 as int, a1 as int, b1 as int, a2 as int, b2 as int);
            if a3 < b3 {
                assert(words(t@.subrange(b2 as int, n as int))[0] == t@.subrange(
                    a3 as int,
                    b3 as int,
                ));
            }
        }
        let payload_type: u8 = if a3 < b3 && a1 < b1 && a2 < b2 {
            match parse_u64(slice_subrange(t, a3, b3), 0xff) {
                Some(p) => p as u8,
                None => 0,
            }
        } else {
            0
        };
        media.push(SdpMedia { kind, payload_type, control: None });
        assert(media_views(media@) =~= sdp_line(before, line@).media);
        true
    } else if is_at(t, chars_of("a=control:").as_slice(), 0) {
        let value = slice_subrange(t, 10, n);
        assert(value@ =~= t@.skip(10));
        let c = trim(value);
        if c.len() > 0 && !same(c, chars_of("*").as_slice()) && open {
            let last: usize = media.len() - 1;
            let changed = SdpMedia {
                kind: media[last].kind,
                payload_type: media[last].payload_type,
                control: Some(string_of(c)),
            };
            media.set(last, changed);
            assert(media_views(media@) =~= sdp_line(before, line@).media);
        }
        open
    } else {
        open
    }
}

/// The words behind the first, one by one.
proof fn lemma_fourth_word(t: Seq<char>, n: int, b0: int, a1: int, b1: int, a2: int, b2: int)
    requires
        0 <= b0 <= a1 <= b1 <= a2 <= b2 <= n <= t.len(),
        a1 == b1 ==> words(t.subrange(b0, n)) == Seq::<Seq<char>>::empty(),
        a1 < b1 ==> words(t.subrange(b0, n)) == seq![t.subrange(a1, b1)] + words(
            t.subrange(b1, n),
        ),
        a2 == b2 ==> words(t.subrange(b1, n)) == Seq::<Seq<char>>::empty(),
        a2 < b2 ==> words(t.subrange(b1, n)) == seq![t.subrange(a2, b2)] + words(
            t.subrange(b2, n),
        ),
    ensures
        a1 < b1 && a2 < b2 ==> words(t.subrange(b0, n)).len() == 2 + words(t.subrange(b2, n)).len()
            && forall|i: int|
            0 <= i < words(t.subrange(b2, n)).len() ==> words(t.subrange(b0, n))[i + 2]
                == #[trigger] words(t.subrange(b2, n))[i],
        !(a1 < b1 && a2 < b2) ==> words(t.subrange(b0, n)).len() < 2,
{
}

/// Parses the media sections of an SDP body for video and audio, in order, each
/// with the control attribute of its own section. A body without one is refused.
pub fn parse_sdp_media(sdp: &str) -> (r: Result<Vec<SdpMedia>, RtspError>)
    ensures
        match r {
            Ok(media) => media_views(media@) == sdp_media(sdp@) && media@.len() > 0,
            Err(e) => sdp_media(sdp@).len() == 0 && e@ == ErrorView::NoMedia,
        },
{
    let cs = chars_of(sdp);
    let cs = cs.as_slice();
    let n: usize = cs.len();
    let mut media: Vec<SdpMedia> = Vec::new();
    let mut lo: usize = 0;
    let mut more = true;
    let mut open = false;
    proof {
        assert(cs@.skip(0) =~= sdp@);
        assert(media_views(media@) =~= Seq::empty());
    }
    while more
        invariant
            lo <= n == cs@.len(),
            cs@ == sdp@,
            open ==> media@.len() > 0,
            more ==> sdp_media(sdp@) == sdp_lines(
                (SdpView { media: media_views(media@), open }),
                split_on(cs@.skip(lo as int), '\n'),
            ).media,
            !more ==> sdp_media(sdp@) == media_views(media@),
        decreases n + 1 - lo, (if more {
            1int
        } else {
            0
        }),
    {
        let ghost rest = cs@.skip(lo as int);
        let hi: usize = find_char(cs, lo, n, '\n');
        proof {
            assert(cs@.subrange(lo as int, n as int) =~= rest);
            lemma_index_of(rest, '\n');
        }
        let ghost line = rest.take(hi - lo);
        assert(cs@.subrange(lo as int, hi as int) =~= line);
        open = read_sdp_line(&mut media, open, slice_subrange(cs, lo, hi));
        proof {
            if hi < n {
                assert(split_on(rest, '\n') =~= seq![line] + split_on(rest.skip(hi - lo + 1), '\n'));
                assert(split_on(rest, '\n').drop_first() =~= split_on(rest.skip(hi - lo + 1), '\n'));
                assert(rest.skip(hi - lo + 1) =~= cs@.skip(hi + 1));
            } else {
                assert(line =~= rest);
                assert(split_on(rest, '\n') =~= seq![line]);
                assert(split_on(rest, '\n').drop_first() =~= Seq::empty());
                let end = SdpView { media: media_views(media@), open };
                assert(sdp_lines(end, Seq::empty()) == end);
            }
            assert(split_on(rest, '\n')[0] == line);
        }
        if hi == n {
            more = false;
        } else {
            lo = hi + 1;
        }
    }
    if media.len() == 0 {
        Err(RtspError::NoMedia)
    } else {
        Ok(media)
    }
}

// ---------------------------------------------------------------------------
// Laws
// ---------------------------------------------------------------------------

/// An absolute control URL is followed only to the host and the port that were
/// dialed; every other control attribute leads below the base URL.
pub proof fn law_control_url_stays_at_the_camera(
    base: Seq<char>,
    control: Seq<char>,
    host: Seq<char>,
    port: u16,
)
    ensures
        control_url(base, control, host, port) matches Ok(url) ==> {
            ||| base.is_prefix_of(url)
            ||| stands_at(url, "rtsp://"@, 0) && control_target(authority_of(url.skip(7))) == (
                ascii_lowercase(trimmed(host)),
                port as nat,
            )
        },
{
    let c = trimmed(control);
    assert(base.is_prefix_of(base));
    assert(base.is_prefix_of(base + c)) by {
        assert(base =~= (base + c).subrange(0, base.len() as int));
    }
    assert(base.is_prefix_of(base + "/"@ + c)) by {
        assert(base =~= (base + "/"@ + c).subrange(0, base.len() as int));
    }
}

proof fn lemma_line_first(line: Seq<char>, rest: Seq<char>)
    requires
        !line.contains('\n'),
    ensures
        split_on(line + seq!['\n'] + rest, '\n')[0] == line,
        split_on(line + seq!['\n'] + rest, '\n').drop_first() == split_on(rest, '\n'),
        split_on(line, '\n') == seq![line],
{
    law_pieces_stand_between_separators(line, rest, '\n');
    let all = split_on(line + seq!['\n'] + rest, '\n');
    assert(all.drop_first() =~= split_on(rest, '\n'));
}

/// A header field is found by its name, and its value is all that stands behind the
/// colon on its line, without the whitespace around it, whether another line
/// follows or not.
pub proof fn law_header_field_is_found(
    written: Seq<char>,
    value: Seq<char>,
    rest: Seq<char>,
    name: Seq<char>,
)
    requires
        !written.contains(':'),
        !written.contains('\n'),
        !value.contains('\n'),
        same_name(trimmed(written), name),
    ensures
        header_value(written + seq![':'] + value + seq!['\n'] + rest, name) == Some(
            trimmed(value),
        ),
        header_value(written + seq![':'] + value, name) == Some(trimmed(value)),
{
    let line = written + seq![':'] + value;
    let k = written.len() as int;
    assert forall|i: int| 0 <= i < line.len() implies line[i] != '\n' by {
        if i < k {
            assert(written.contains(written[i]));
        } else if i > k {
            assert(value.contains(value[i - k - 1]));
        }
    }
    lemma_line_first(line, rest);
    assert forall|i: int| 0 <= i < k implies !is_char(':')(#[trigger] line[i]) by {
        assert(line[i] == written[i]);
        assert(written.contains(written[i]));
    }
    lemma_first_where_is(line, is_char(':'), k);
    assert(line.take(k) =~= written);
    assert(line.skip(k + 1) =~= value);
}

/// A line that is no field of the name is passed over, so that the first field of
/// the name counts; without such a line there is no value.
pub proof fn law_other_lines_are_passed_over(line: Seq<char>, rest: Seq<char>, name: Seq<char>)
    requires
        !line.contains('\n'),
        forall|written: Seq<char>, value: Seq<char>|
            #![trigger written + seq![':'] + value]
            line == written + seq![':'] + value && !written.contains(':') ==> !same_name(
                trimmed(written),
                name,
            ),
    ensures
        header_value(line + seq!['\n'] + rest, name) == header_value(rest, name),
        header_value(line, name) is None,
{
    lemma_line_first(line, rest);
    lemma_index_of(line, ':');
    let k = index_of(line, ':');
    if k < line.len() {
        let written = line.take(k);
        let value = line.skip(k + 1);
        assert(line =~= written + seq![':'] + value);
        assert(!written.contains(':'));
    }
    assert(seq![line].drop_first() =~= Seq::<Seq<char>>::empty());
    assert(field_value(Seq::<Seq<char>>::empty(), name) is None);
}

/// Names of ASCII are the same exactly if they differ in the case of letters only.
pub proof fn law_case_of_names_does_not_count(a: Seq<char>, b: Seq<char>)
    requires
        is_ascii_chars(a),
        is_ascii_chars(b),
    ensures
        same_name(a, b) <==> ascii_lowercase(a) == ascii_lowercase(b),
        same_name(a, a),
{
}

/// The status code is the number behind the first word of the line, whatever
/// follows.
pub proof fn law_status_code_is_the_second_word(
    version: Seq<char>,
    code: u16,
    rest: Seq<char>,
)
    requires
        version.len() > 0,
        forall|i: int| 0 <= i < version.len() ==> !is_white(#[trigger] version[i]),
        rest.len() > 0 ==> is_white(rest[0]),
    ensures
        status_code(version + seq![' '] + decimal(code as nat) + rest) == Ok::<nat, ErrorView>(
            code as nat,
        ),
{
    let digits = decimal(code as nat);
    let tail = seq![' '] + digits + rest;
    lemma_decimal_digits(code as nat);
    assert forall|i: int| 0 <= i < digits.len() implies !is_white(#[trigger] digits[i]) by {
        assert(is_digit(digits[i]));
    }
    law_words_stand_between_whitespace(Seq::empty(), version, tail);
    law_words_stand_between_whitespace(seq![' '], digits, rest);
    assert(Seq::<char>::empty() + version + tail =~= version + seq![' '] + digits + rest);
    law_decimal_reads_back(code as nat, 0xffff);
    let line = version + seq![' '] + digits + rest;
    assert(words(line) == seq![version] + (seq![digits] + words(rest)));
    assert(words(line)[1] == digits);
}

/// A control attribute that is empty or `*` stands for the base URL, and a relative
/// one for what is below it, with one slash between the two at least.
pub proof fn law_relative_control_urls(
    base: Seq<char>,
    control: Seq<char>,
    host: Seq<char>,
    port: u16,
)
    requires
        trimmed(control) == control,
        !stands_at(control, "rtsp://"@, 0),
    ensures
        control.len() == 0 || control == "*"@ ==> control_url(base, control, host, port) == Ok::<
            Seq<char>,
            ErrorView,
        >(base),
        control.len() > 0 && control != "*"@ ==> control_url(base, control, host, port) == Ok::<
            Seq<char>,
            ErrorView,
        >(
            if control[0] == '/' || base.len() > 0 && base.last() == '/' {
                base + control
            } else {
                base + seq!['/'] + control
            },
        ),
{
    reveal_strlit("/");
    assert("/"@ =~= seq!['/']);
}

/// An absolute control URL is followed exactly if it names the host and the port
/// that were dialed, the host in letters of any case; a port that it does not name
/// is 554.
pub proof fn law_absolute_control_urls(
    base: Seq<char>,
    named_host: Seq<char>,
    named_port: Option<u16>,
    path: Seq<char>,
    host: Seq<char>,
    port: u16,
)
    requires
        !named_host.contains('/'),
        named_port is None ==> !named_host.contains(':'),
        path.len() > 0 && path[0] == '/' && !is_white(path.last()),
    ensures
        ({
            let control = "rtsp://"@ + named_host + (match named_port {
                Some(p) => seq![':'] + decimal(p as nat),
                None => Seq::empty(),
            }) + path;
            let target = match named_port {
                Some(p) => p,
                None => 554,
            };
            if ascii_lowercase(named_host) == ascii_lowercase(trimmed(host)) && target == port {
                control_url(base, control, host, port) == Ok::<Seq<char>, ErrorView>(control)
            } else {
                control_url(base, control, host, port) == Err::<Seq<char>, ErrorView>(
                    ErrorView::ForeignControlUrl(
                        named_host + (match named_port {
                            Some(p) => seq![':'] + decimal(p as nat),
                            None => Seq::empty(),
                        }),
                        host,
                        port,
                    ),
                )
            }
        }),
{
    reveal_strlit("rtsp://");
    reveal_strlit("*");
    let shown = match named_port {
        Some(p) => seq![':'] + decimal(p as nat),
        None => Seq::empty(),
    };
    let authority = named_host + shown;
    let control = "rtsp://"@ + named_host + shown + path;
    assert(control[0] == 'r');
    assert(control.last() == path.last());
    lemma_trimmed_already(control);
    assert(control.subrange(0, 7) =~= "rtsp://"@);
    let rest = control.skip(7);
    assert(rest =~= authority + path);
    if let Some(p) = named_port {
        lemma_decimal_digits(p as nat);
        law_decimal_reads_back(p as nat, 0xffff);
    }
    assert forall|i: int| 0 <= i < authority.len() implies !is_char('/')(#[trigger] rest[i]) by {
        assert(rest[i] == authority[i]);
        if i < named_host.len() {
            assert(named_host.contains(named_host[i]));
        } else if i > named_host.len() {
            let p = named_port->0;
            assert(is_digit(decimal(p as nat)[i - named_host.len() - 1]));
        }
    }
    assert(rest[authority.len() as int] == path[0]);
    lemma_first_where_is(rest, is_char('/'), authority.len() as int);
    assert(rest.take(authority.len() as int) =~= authority);
    match named_port {
        Some(p) => {
            let k = named_host.len() as int;
            assert(authority[k] == ':');
            assert forall|i: int| k < i < authority.len() implies #[trigger] authority[i]
                != ':' by {
                assert(is_digit(decimal(p as nat)[i - k - 1]));
            }
            lemma_last_index_is(authority, ':', k);
            assert(authority.take(k) =~= named_host);
            assert(authority.skip(k + 1) =~= decimal(p as nat));
        },
        None => {
            assert(authority =~= named_host);
            lemma_last_index_none(authority, ':');
        },
    }
}

/// An SDP body is read line by line, from the first to the last.
pub proof fn law_sdp_is_read_line_by_line(s: SdpView, line: Seq<char>, rest: Seq<char>)
    requires
        !line.contains('\n'),
    ensures
        sdp_lines(s, split_on(line + seq!['\n'] + rest, '\n')) == sdp_lines(
            sdp_line(s, line),
            split_on(rest, '\n'),
        ),
        sdp_lines(s, split_on(line, '\n')) == sdp_line(s, line),
        sdp_media(rest) == sdp_lines(
            SdpView { media: Seq::empty(), open: false },
            split_on(rest, '\n'),
        ).media,
{
    lemma_line_first(line, rest);
    assert(seq![line].drop_first() =~= Seq::<Seq<char>>::empty());
    assert(sdp_lines(sdp_line(s, line), Seq::<Seq<char>>::empty()) == sdp_line(s, line));
}

proof fn lemma_four_words(a: Seq<char>, b: Seq<char>, c: Seq<char>, d: Seq<char>, rest: Seq<char>)
    requires
        a.len() > 0 && b.len() > 0 && c.len() > 0 && d.len() > 0,
        forall|i: int| 0 <= i < a.len() ==> !is_white(#[trigger] a[i]),
        forall|i: int| 0 <= i < b.len() ==> !is_white(#[trigger] b[i]),
        forall|i: int| 0 <= i < c.len() ==> !is_white(#[trigger] c[i]),
        forall|i: int| 0 <= i < d.len() ==> !is_white(#[trigger] d[i]),
        rest.len() > 0 ==> is_white(rest[0]),
    ensures
        ({
            let w = words(
                a + seq![' '] + b + seq![' '] + c + seq![' '] + d + rest,
            );
            w.len() >= 4 && w[0] == a && w[3] == d
        }),
{
    let sp = seq![' '];
    let t3 = sp + d + rest;
    let t2 = sp + c + t3;
    let t1 = sp + b + t2;
    law_words_stand_between_whitespace(sp, d, rest);
    law_words_stand_between_whitespace(sp, c, t3);
    law_words_stand_between_whitespace(sp, b, t2);
    law_words_stand_between_whitespace(Seq::empty(), a, t1);
    let all = a + sp + b + sp + c + sp + d + rest;
    assert(Seq::<char>::empty() + a + t1 =~= all);
    let wd = seq![d] + words(rest);
    let wc = seq![c] + wd;
    let wb = seq![b] + wc;
    assert(words(all) == seq![a] + wb);
    assert(words(all)[3] == wb[2] && wb[2] == wc[1] && wc[1] == wd[0]);
}

/// A media line opens a section of its kind, with the number in its fourth place as
/// the payload type and without a control attribute; a line of another kind opens
/// none, and closes the one before.
pub proof fn law_media_line_opens_a_section(
    s: SdpView,
    line: Seq<char>,
    kind: Seq<char>,
    port: Seq<char>,
    profile: Seq<char>,
    payload_type: u8,
    rest: Seq<char>,
)
    requires
        kind.len() > 0 && port.len() > 0 && profile.len() > 0,
        forall|i: int| 0 <= i < kind.len() ==> !is_white(#[trigger] kind[i]),
        forall|i: int| 0 <= i < port.len() ==> !is_white(#[trigger] port[i]),
        forall|i: int| 0 <= i < profile.len() ==> !is_white(#[trigger] profile[i]),
        rest.len() > 0 ==> is_white(rest[0]),
        trimmed(line) == "m="@ + (kind + seq![' '] + port + seq![' '] + profile + seq![' ']
            + decimal(payload_type as nat) + rest),
    ensures
        kind == "video"@ ==> sdp_line(s, line) == (SdpView {
            media: s.media.push(
                MediaView {
                    kind: MediaKind::Video,
                    payload_type: payload_type as nat,
                    control: None,
                },
            ),
            open: true,
        }),
        kind == "audio"@ ==> sdp_line(s, line) == (SdpView {
            media: s.media.push(
                MediaView {
                    kind: MediaKind::Audio,
                    payload_type: payload_type as nat,
                    control: None,
                },
            ),
            open: true,
        }),
        kind != "video"@ && kind != "audio"@ ==> sdp_line(s, line) == (SdpView { open: false, ..s }),
{
    reveal_strlit("m=");
    reveal_strlit("video");
    reveal_strlit("audio");
    assert("video"@[0] != "audio"@[0]);
    let digits = decimal(payload_type as nat);
    let behind = kind + seq![' '] + port + seq![' '] + profile + seq![' '] + digits + rest;
    let t = trimmed(line);
    assert(t.subrange(0, 2) =~= "m="@);
    assert(t.skip(2) =~= behind);
    lemma_decimal_digits(payload_type as nat);
    law_decimal_reads_back(payload_type as nat, 0xff);
    assert forall|i: int| 0 <= i < digits.len() implies !is_white(#[trigger] digits[i]) by {
        assert(is_digit(digits[i]));
    }
    lemma_four_words(kind, port, profile, digits, rest);
}

/// A control attribute belongs to the section that it stands in, the last one that
/// was opened, and to no other; outside of a section, and if it is empty or `*`, it
/// does nothing. Other lines do nothing.
pub proof fn law_control_belongs_to_its_section(
    s: SdpView,
    line: Seq<char>,
    control: Seq<char>,
    other: Seq<char>,
)
    requires
        s.open ==> s.media.len() > 0,
        trimmed(line) == "a=control:"@ + control,
        trimmed(control) == control,
        !stands_at(trimmed(other), "m="@, 0),
        !stands_at(trimmed(other), "a=control:"@, 0),
    ensures
        s.open && control.len() > 0 && control != "*"@ ==> {
            let after = sdp_line(s, line);
            let last = s.media.len() - 1;
            &&& after.open
            &&& after.media.len() == s.media.len()
            &&& after.media.drop_last() == s.media.drop_last()
            &&& after.media[last] == MediaView { control: Some(control), ..s.media[last] }
        },
        !s.open || control.len() == 0 || control == "*"@ ==> sdp_line(s, line) == s,
        sdp_line(s, other) == s,
{
    reveal_strlit("m=");
    reveal_strlit("a=control:");
    let t = trimmed(line);
    assert(t[0] == 'a');
    assert(t.subrange(0, 2)[0] == 'a');
    assert(t.subrange(0, 10) =~= "a=control:"@);
    assert(t.skip(10) =~= control);
    if s.open && control.len() > 0 && control != "*"@ {
        assert(sdp_line(s, line).media.drop_last() =~= s.media.drop_last());
    }
}

proof fn lemma_no_quotes(s: Seq<char>)
    requires
        !s.contains('"'),
    ensures
        !in_quotes(s),
    decreases s.len(),
{
    if s.len() > 0 {
        assert(s.contains(s.last()));
        assert forall|i: int| 0 <= i < s.drop_last().len() implies s.drop_last()[i] != '"' by {
            assert(s.contains(s[i]));
        }
        lemma_no_quotes(s.drop_last());
    }
}

/// Where the first parameter of a challenge begins, its value begins behind the
/// equals sign.
proof fn lemma_first_param(
    front: Seq<char>,
    name: Seq<char>,
    rest: Seq<char>,
    param: Seq<char>,
    k: int,
)
    requires
        0 <= k <= front.len(),
        is_ascii_chars(front + name),
        is_ascii_chars(param),
        !front.contains('='),
        !front.contains('"'),
        front.len() > 0 ==> !is_name_char(front.last()),
        name.len() > 0,
        !name.contains('='),
        ascii_lowercase(name) == ascii_lowercase(param),
    ensures
        param_value_start(front + name + seq!['='] + rest, param, k) == Some(
            (front.len() + name.len() + 1) as int,
        ),
    decreases front.len() - k,
{
    let auth = front + name + seq!['='] + rest;
    let n = front.len() as int;
    let e = n + name.len();
    let tail = auth.skip(k);
    assert forall|i: int| 0 <= i < e - k implies !is_char('=')(#[trigger] tail[i]) by {
        assert(tail[i] == auth[k + i]);
        if k + i < n {
            assert(front.contains(front[k + i]));
        } else {
            assert(name.contains(name[k + i - n]));
        }
    }
    assert(tail[e - k] == '=');
    lemma_first_where_is(tail, is_char('='), e - k);
    let written = auth.subrange(k, e);
    assert(written =~= (front + name).skip(k));
    assert(is_ascii_chars(written)) by {
        assert forall|i: int| 0 <= i < written.len() implies '\0' <= #[trigger] written[i]
            <= '\u{7f}' by {
            assert(written[i] == (front + name)[k + i]);
        }
    }
    assert(ascii_lowercase(written).len() == written.len());
    assert(ascii_lowercase(name).len() == name.len());
    assert(ascii_lowercase(param).len() == param.len());
    if k == n {
        assert(written =~= name);
        assert(auth.take(n) =~= front);
        lemma_no_quotes(front);
        if n > 0 {
            assert(auth[n - 1] == front.last());
        }
        assert(begins_param(auth, param, k));
    } else {
        assert(written.len() > param.len());
        assert(!same_name(written, param));
        lemma_first_param(front, name, rest, param, k + 1);
    }
}

/// The first parameter of a challenge is found by its name, in letters of any case,
/// behind the name of the scheme or at the start. Its value in quotes is all that
/// stands between them, with commas and spaces in it; one without quotes goes up to
/// a comma, a space or the end of the line.
#[verifier::spinoff_prover]
#[verifier::rlimit(50)]
pub proof fn law_first_parameter_is_found(
    front: Seq<char>,
    name: Seq<char>,
    value: Seq<char>,
    rest: Seq<char>,
    param: Seq<char>,
)
    requires
        is_ascii_chars(front + name),
        is_ascii_chars(param),
        !front.contains('='),
        !front.contains('"'),
        front.len() > 0 ==> !is_name_char(front.last()),
        name.len() > 0,
        !name.contains('='),
        ascii_lowercase(name) == ascii_lowercase(param),
        !value.contains('"'),
    ensures
        auth_param_value(
            front + name + seq!['='] + (seq!['"'] + value + seq!['"'] + rest),
            param,
        ) == Some(value),
        value.len() > 0 && (forall|i: int|
            0 <= i < value.len() ==> !is_white(#[trigger] value[i]) && value[i] != ',') && (
        rest.len() > 0 ==> rest[0] == ',' || rest[0] == ' ' || rest[0] == '\r' || rest[0] == '\n')
            ==> auth_param_value(front + name + seq!['='] + (value + rest), param) == Some(value),
{
    let quoted = seq!['"'] + value + seq!['"'];
    let e = (front.len() + name.len() + 1) as int;
    lemma_first_param(front, name, quoted + rest, param, 0);
    lemma_first_param(front, name, value + rest, param, 0);
    let a = front + name + seq!['='] + (quoted + rest);
    assert(a.skip(e) =~= quoted + rest);
    lemma_trim_front_of(quoted, rest);
    lemma_trim_back_of(quoted, rest);
    let t = trimmed(quoted + rest);
    assert(t[0] == '"');
    let inner = t.skip(1);
    assert forall|i: int| 0 <= i < value.len() implies !is_char('"')(#[trigger] inner[i]) by {
        assert(inner[i] == value[i]);
        assert(value.contains(value[i]));
    }
    assert(inner[value.len() as int] == '"');
    lemma_first_where_is(inner, is_char('"'), value.len() as int);
    assert(inner.take(value.len() as int) =~= value);
    if value.len() > 0 && (forall|i: int|
        0 <= i < value.len() ==> !is_white(#[trigger] value[i]) && value[i] != ',') && (rest.len()
        > 0 ==> rest[0] == ',' || rest[0] == ' ' || rest[0] == '\r' || rest[0] == '\n') {
        let b = front + name + seq!['='] + (value + rest);
        assert(b.skip(e) =~= value + rest);
        assert(!is_white(value[0]) && !is_white(value[value.len() - 1]));
        assert(value.contains(value[0]));
        lemma_trim_front_of(value, rest);
        lemma_trim_back_of(value, rest);
        let u = trimmed(value + rest);
        let end = trim_back(rest);
        assert(u == value + end);
        assert(u[0] == value[0]);
        assert forall|i: int| 0 <= i < value.len() implies !auth_value_end()(
            #[trigger] u[i],
        ) by {
            assert(u[i] == value[i]);
            assert(!is_white(value[i]) && value[i] != ',');
        }
        if end.len() > 0 {
            lemma_trim_back_prefix(rest);
            assert(u[value.len() as int] == end[0]);
        }
        lemma_first_where_is(u, auth_value_end(), value.len() as int);
        assert(u.take(value.len() as int) =~= value);
        lemma_trimmed_already(value);
    }
}

proof fn lemma_quotes_joined(a: Seq<char>, b: Seq<char>)
    requires
        !in_quotes(a),
    ensures
        in_quotes(a + b) == in_quotes(b),
    decreases b.len(),
{
    if b.len() == 0 {
        assert(a + b =~= a);
    } else {
        assert((a + b).last() == b.last());
        assert((a + b).drop_last() =~= a + b.drop_last());
        lemma_quotes_joined(a, b.drop_last());
    }
}

proof fn lemma_param_behind(front: Seq<char>, rest: Seq<char>, param: Seq<char>, k: int)
    requires
        front.len() > 0,
        !in_quotes(front),
        !is_name_char(front.last()),
        0 <= k <= rest.len(),
    ensures
        param_value_start(front + rest, param, front.len() + k) == match param_value_start(
            rest,
            param,
            k,
        ) {
            Some(e) => Some(front.len() + e),
            None => None,
        },
    decreases rest.len() - k,
{
    let auth = front + rest;
    let n = front.len() as int;
    if k < rest.len() {
        assert(auth.skip(n + k) =~= rest.skip(k));
        assert(auth.take(n + k) =~= front + rest.take(k));
        lemma_quotes_joined(front, rest.take(k));
        assert(auth[n - 1] == front.last());
        assert(k > 0 ==> auth[n + k - 1] == rest[k - 1]);
        let e = param_name_end(rest, k);
        lemma_index_of(rest.skip(k), '=');
        assert(param_name_end(auth, n + k) == n + e);
        if e < rest.len() {
            assert(auth.subrange(n + k, n + e) =~= rest.subrange(k, e));
        }
        assert(begins_param(auth, param, n + k) == begins_param(rest, param, k));
        if !begins_param(rest, param, k) {
            lemma_param_behind(front, rest, param, k + 1);
        }
    }
}

proof fn lemma_none_before(auth: Seq<char>, param: Seq<char>, k: int, n: int)
    requires
        0 <= k <= n <= auth.len(),
        forall|j: int| k <= j < n ==> !#[trigger] begins_param(auth, param, j),
    ensures
        param_value_start(auth, param, k) == param_value_start(auth, param, n),
    decreases n - k,
{
    if k < n {
        assert(!begins_param(auth, param, k));
        lemma_none_before(auth, param, k + 1, n);
    }
}

/// The parameters of a challenge do not depend on one another: where the parameter
/// does not begin in the first part of a challenge, which closes the quotes that it
/// opens and ends in a separator, it is that of the rest.
pub proof fn law_parameters_are_independent(
    front: Seq<char>,
    rest: Seq<char>,
    param: Seq<char>,
)
    requires
        front.len() > 0,
        !in_quotes(front),
        !is_name_char(front.last()),
        forall|k: int| 0 <= k < front.len() ==> !#[trigger] begins_param(front + rest, param, k),
    ensures
        auth_param_value(front + rest, param) == auth_param_value(rest, param),
{
    let auth = front + rest;
    lemma_none_before(auth, param, 0, front.len() as int);
    lemma_param_behind(front, rest, param, 0);
    if let Some(e) = param_value_start(rest, param, 0) {
        lemma_value_within(rest, param, 0);
        assert(auth.skip(front.len() + e) =~= rest.skip(e));
    }
}

proof fn lemma_value_within(auth: Seq<char>, param: Seq<char>, k: int)
    requires
        0 <= k,
    ensures
        param_value_start(auth, param, k) matches Some(e) ==> 0 <= e <= auth.len(),
    decreases auth.len() - k,
{
    if k < auth.len() {
        lemma_index_of(auth.skip(k), '=');
        lemma_value_within(auth, param, k + 1);
    }
}

/// What is stated of media sections and of outcomes is stated of all that they
/// hold.
pub proof fn law_sections_and_outcomes_are_seen_whole(
    m: SdpMedia,
    media: Seq<SdpMedia>,
    s: String,
    e: RtspError,
    text: Seq<char>,
    v: ErrorView,
)
    ensures
        m@.kind == m.kind,
        m@.payload_type == m.payload_type,
        m.control matches Some(c) ==> m@.control == Some(c@),
        m.control is None ==> m@.control is None,
        media_views(media).len() == media.len(),
        forall|i: int| 0 <= i < media.len() ==> #[trigger] media_views(media)[i] == media[i]@,
        is_text_outcome(Ok(s), Ok(text)) <==> s@ == text,
        is_text_outcome(Err(e), Err(v)) <==> e@ == v,
        !is_text_outcome(Ok(s), Err(v)),
        !is_text_outcome(Err(e), Ok(text)),
{
}

/// A status line of fewer than two words is reported whole, and one whose second
/// word is no number by that word.
pub proof fn law_bad_status_lines_are_told(
    line: Seq<char>,
    version: Seq<char>,
    word: Seq<char>,
    rest: Seq<char>,
)
    requires
        version.len() > 0 && word.len() > 0,
        forall|i: int| 0 <= i < version.len() ==> !is_white(#[trigger] version[i]),
        forall|i: int| 0 <= i < word.len() ==> !is_white(#[trigger] word[i]),
        rest.len() > 0 ==> is_white(rest[0]),
        parse_number(word, 0xffff) is None,
    ensures
        words(line).len() < 2 ==> status_code(line) == Err::<nat, ErrorView>(
            ErrorView::BadStatusLine(line),
        ),
        status_code(version + seq![' '] + word + rest) == Err::<nat, ErrorView>(
            ErrorView::BadStatusCode(word),
        ),
{
    let tail = seq![' '] + word + rest;
    law_words_stand_between_whitespace(Seq::empty(), version, tail);
    law_words_stand_between_whitespace(seq![' '], word, rest);
    let bad = version + seq![' '] + word + rest;
    assert(Seq::<char>::empty() + version + tail =~= bad);
    assert(words(bad) == seq![version] + (seq![word] + words(rest)));
    assert(words(bad)[1] == word);
}

/// A value that begins with a quote and has no other is no value.
pub proof fn law_open_quote_is_no_value(
    front: Seq<char>,
    name: Seq<char>,
    value: Seq<char>,
    param: Seq<char>,
)
    requires
        is_ascii_chars(front + name),
        is_ascii_chars(param),
        !front.contains('='),
        !front.contains('"'),
        front.len() > 0 ==> !is_name_char(front.last()),
        name.len() > 0,
        !name.contains('='),
        ascii_lowercase(name) == ascii_lowercase(param),
        !value.contains('"'),
    ensures
        auth_param_value(front + name + seq!['='] + (seq!['"'] + value), param) is None,
{
    let e = (front.len() + name.len() + 1) as int;
    lemma_first_param(front, name, seq!['"'] + value, param, 0);
    let a = front + name + seq!['='] + (seq!['"'] + value);
    assert(a.skip(e) =~= seq!['"'] + value);
    lemma_trim_front_of(seq!['"'], value);
    lemma_trim_back_of(seq!['"'], value);
    lemma_trim_back_prefix(value);
    let t = trimmed(seq!['"'] + value);
    assert(t[0] == '"');
    let inner = t.skip(1);
    assert(inner =~= trim_back(value));
    lemma_index_of(inner, '"');
    let k = index_of(inner, '"');
    if k < inner.len() {
        assert(value[k] == inner[k]);
        assert(value.contains(value[k]));
    }
}

/// A media line that names no payload type in its fourth place, or none that a
/// byte holds, has the payload type 0.
pub proof fn law_missing_payload_type_is_zero(s: SdpView, line: Seq<char>)
    requires
        stands_at(trimmed(line), "m="@, 0),
        words(trimmed(line).skip(2)).len() > 0,
        words(trimmed(line).skip(2))[0] == "video"@ || words(trimmed(line).skip(2))[0]
            == "audio"@,
        words(trimmed(line).skip(2)).len() <= 3 || parse_number(
            words(trimmed(line).skip(2))[3],
            0xff,
        ) is None,
    ensures
        sdp_line(s, line).media.len() == s.media.len() + 1,
        sdp_line(s, line).media.last().payload_type == 0,
        sdp_line(s, line).media.last().control is None,
        sdp_line(s, line).open,
{
}

/// A failure is told with the number, the track or the address that it is about.
pub proof fn law_failures_are_told_with_their_cause(
    kind: MediaKind,
    code: u16,
    word: Seq<char>,
    authority: Seq<char>,
    host: Seq<char>,
    port: u16,
)
    ensures
        ErrorView::BadStatusCode(word).text() == "RTSP: invalid status code: "@ + word,
        ErrorView::DescribeStatus(code).text() == "RTSP: unexpected DESCRIBE status "@ + decimal(
            code as nat,
        ),
        ErrorView::NoDescribeChallenge(code).text() == "RTSP: expected 401, got "@ + decimal(
            code as nat,
        ),
        ErrorView::AuthRejected(code).text() == "RTSP: Digest auth rejected ("@ + decimal(
            code as nat,
        ) + ")"@,
        ErrorView::NoSetupChallenge(code).text() == "RTSP: expected 401 challenge, got "@
            + decimal(code as nat),
        ErrorView::SetupFailed(kind, code).text() == "RTSP: SETUP "@ + (match kind {
            MediaKind::Video => "video"@,
            MediaKind::Audio => "audio"@,
        }) + " failed with "@ + decimal(code as nat),
        ErrorView::ForeignControlUrl(authority, host, port).text()
            == "RTSP: SDP a=control points at "@ + authority + ", expected "@ + host + ":"@
            + decimal(port as nat) + " — refusing"@,
{
}

} // verus!
