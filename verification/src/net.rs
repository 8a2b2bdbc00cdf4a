//! Which camera addresses may be dialed, and which pages may speak for them.
//!
//! A browser claims the camera's address at login. Before any dial the claim
//! is resolved, and it is refused when it leads to an address that is never a
//! camera in a local network: loopback, link-local (the metadata range
//! 169.254.169.254 among them), unspecified and multicast addresses.

use vstd::prelude::*;
use vstd::slice::slice_subrange;

use crate::text::{
    ascii_lowercase, chars_of, decimal, find, find_char, find_text, index_of, is_char, is_digit,
    is_white, last_index_of, law_decimal_reads_back, lemma_decimal_digits, lemma_ends_not_white,
    lemma_find_is, lemma_first_where_is, lemma_index_of, lemma_last_index_is, lemma_last_index_none,
    lemma_trim_back_of, lemma_trim_front_of,
    lemma_trimmed_already, parse_number, parse_u16, rfind_char, same, stands_at, string_of,
    to_ascii_lowercase, trim, trim_back, trimmed,
};

verus! {

// ---------------------------------------------------------------------------
// Addresses
// ---------------------------------------------------------------------------

/// An IP address: the four octets of one of version 4, or the eight segments
/// of one of version 6.
#[derive(Debug, Clone, Copy, PartialEq, Eq)]
pub enum IpAddr {
    V4([u8; 4]),
    V6([u16; 8]),
}

/// An IP address and a port.
#[derive(Debug, Clone, Copy, PartialEq, Eq)]
pub struct SocketAddr {
    pub ip: IpAddr,
    pub port: u16,
}

/// 0.0.0.0, 127.0.0.0/8 or 169.254.0.0/16.
pub open spec fn is_local_v4(o: Seq<u8>) -> bool {
    ||| o =~= seq![0u8, 0, 0, 0]
    ||| o[0] == 127
    ||| o[0] == 169 && o[1] == 254
}

/// 224.0.0.0/4.
pub open spec fn is_multicast_v4(o: Seq<u8>) -> bool {
    224 <= o[0] <= 239
}

/// The IPv4 address a.b.c.d of the IPv4-mapped address ::ffff:a.b.c.d.
pub open spec fn mapped_v4(s: Seq<u16>) -> Option<Seq<u8>> {
    if s.take(6) =~= seq![0u16, 0, 0, 0, 0, 0xffff] {
        Some(
            seq![
                (s[6] / 256) as u8,
                (s[6] % 256) as u8,
                (s[7] / 256) as u8,
                (s[7] % 256) as u8,
            ],
        )
    } else {
        None
    }
}

/// ::, ::1, ff00::/8 or fe80::/10.
pub open spec fn is_local_v6(s: Seq<u16>) -> bool {
    ||| s.take(7) =~= seq![0u16, 0, 0, 0, 0, 0, 0] && s[7] <= 1
    ||| 0xff00 <= s[0]
    ||| 0xfe80 <= s[0] <= 0xfebf
}

/// The addresses that are never dialed on behalf of a client.
pub open spec fn blocked(ip: IpAddr) -> bool {
    match ip {
        IpAddr::V4(o) => is_local_v4(o@) || is_multicast_v4(o@),
        IpAddr::V6(s) => is_local_v6(s@) || match mapped_v4(s@) {
            Some(o) => is_local_v4(o) || is_multicast_v4(o),
            None => false,
        },
    }
}

/// Whether this address must never be dialed on behalf of a client's claim.
pub fn is_blocked_ip(ip: IpAddr) -> (b: bool)
    ensures
        b == blocked(ip),
{
    match ip {
        IpAddr::V4(o) => {
            let unspecified = o[0] == 0 && o[1] == 0 && o[2] == 0 && o[3] == 0;
            let loopback = o[0] == 127;
            let link_local = o[0] == 169 && o[1] == 254;
            let multicast = 224 <= o[0] && o[0] <= 239;
            assert(unspecified == (o@ =~= seq![0u8, 0, 0, 0]));
            unspecified || loopback || link_local || multicast
        },
        IpAddr::V6(s) => {
            let zeros = s[0] == 0 && s[1] == 0 && s[2] == 0 && s[3] == 0 && s[4] == 0;
            assert(zeros && s[5] == 0 && s[6] == 0 <==> s@.take(7) =~= seq![
                0u16,
                0,
                0,
                0,
                0,
                0,
                0,
            ]);
            assert(zeros && s[5] == 0xffff <==> s@.take(6) =~= seq![0u16, 0, 0, 0, 0, 0xffff]);
            let unspecified_or_loopback = zeros && s[5] == 0 && s[6] == 0 && s[7] <= 1;
            let multicast = 0xff00 <= s[0];
            let link_local = 0xfe80 <= s[0] && s[0] <= 0xfebf;
            let mapped = if zeros && s[5] == 0xffff {
                let a: u8 = (s[6] / 256) as u8;
                let b: u8 = (s[6] % 256) as u8;
                let c: u8 = (s[7] / 256) as u8;
                let d: u8 = (s[7] % 256) as u8;
                let all_zero = a == 0 && b == 0 && c == 0 && d == 0;
                assert(all_zero == (seq![a, b, c, d] =~= seq![0u8, 0, 0, 0]));
                all_zero || a == 127 || (a == 169 && b == 254) || (224 <= a && a <= 239)
            } else {
                false
            };
            unspecified_or_loopback || multicast || link_local || mapped
        },
    }
}

/// Why a claimed camera address is refused.
#[derive(Debug, Clone, PartialEq, Eq)]
pub enum NetError {
    /// The claimed host is empty.
    EmptyHost,
    /// The claimed host is the literal of a blocked address.
    BlockedAddress(IpAddr),
    /// The claimed host could not be resolved.
    LookupFailed(String),
    /// The claimed host resolved to nothing.
    NoAddresses(String),
    /// The claimed host resolved to a blocked address, among others or alone.
    ResolvesToBlocked(String, IpAddr),
}

/// A `NetError` with its host as a sequence of characters.
pub enum Refusal {
    EmptyHost,
    BlockedAddress(IpAddr),
    LookupFailed(Seq<char>),
    NoAddresses(Seq<char>),
    ResolvesToBlocked(Seq<char>, IpAddr),
}

impl View for NetError {
    type V = Refusal;

    open spec fn view(&self) -> Refusal {
        match self {
            NetError::EmptyHost => Refusal::EmptyHost,
            NetError::BlockedAddress(ip) => Refusal::BlockedAddress(*ip),
            NetError::LookupFailed(h) => Refusal::LookupFailed(h@),
            NetError::NoAddresses(h) => Refusal::NoAddresses(h@),
            NetError::ResolvesToBlocked(h, ip) => Refusal::ResolvesToBlocked(h@, *ip),
        }
    }
}

/// Whether `r` is the outcome `s`.
pub open spec fn is_outcome<T>(r: Result<T, NetError>, s: Result<T, Refusal>) -> bool {
    match (r, s) {
        (Ok(a), Ok(b)) => a == b,
        (Err(e), Err(f)) => e@ == f,
        _ => false,
    }
}

/// What becomes of the claim `host:port` without a lookup, where `literal` is
/// the address that the trimmed host is the literal of, if it is one. There is
/// no outcome yet if the claim is a host name that has to be looked up.
pub open spec fn claim(host: Seq<char>, port: u16, literal: Option<IpAddr>) -> Option<
    Result<SocketAddr, Refusal>,
> {
    if trimmed(host).len() == 0 {
        Some(Err(Refusal::EmptyHost))
    } else {
        match literal {
            Some(ip) => if blocked(ip) {
                Some(Err(Refusal::BlockedAddress(ip)))
            } else {
                Some(Ok(SocketAddr { ip, port }))
            },
            None => None,
        }
    }
}

/// Decides a claim as far as it can be decided without a lookup.
pub fn check_claim(host: &str, port: u16, literal: Option<IpAddr>) -> (r: Option<
    Result<SocketAddr, NetError>,
>)
    ensures
        match (r, claim(host@, port, literal)) {
            (Some(x), Some(y)) => is_outcome(x, y),
            (None, None) => true,
            _ => false,
        },
{
    let cs = chars_of(host);
    if trim(cs.as_slice()).len() == 0 {
        return Some(Err(NetError::EmptyHost));
    }
    match literal {
        Some(ip) => {
            if is_blocked_ip(ip) {
                Some(Err(NetError::BlockedAddress(ip)))
            } else {
                Some(Ok(SocketAddr { ip, port }))
            }
        },
        None => None,
    }
}

/// The host that is looked up or read as a literal for a claim: the claimed
/// host without the whitespace around it.
pub fn claimed_host(host: &str) -> (r: String)
    ensures
        r@ == trimmed(host@),
{
    let cs = chars_of(host);
    string_of(trim(cs.as_slice()))
}

/// Index of the first blocked address, or the number of addresses.
pub open spec fn first_blocked(addrs: Seq<SocketAddr>) -> int
    decreases addrs.len(),
{
    if addrs.len() == 0 || blocked(addrs[0].ip) {
        0
    } else {
        1 + first_blocked(addrs.drop_first())
    }
}

/// What the answers to a lookup of `host` are worth: all of them must be
/// dialable.
pub open spec fn validated(host: Seq<char>, addrs: Seq<SocketAddr>) -> Result<(), Refusal> {
    if addrs.len() == 0 {
        Err(Refusal::NoAddresses(host))
    } else if first_blocked(addrs) < addrs.len() {
        Err(Refusal::ResolvesToBlocked(host, addrs[first_blocked(addrs)].ip))
    } else {
        Ok(())
    }
}

/// Validates the answers for a resolved camera host.
///
/// Every answer must be dialable: if any is blocked, the whole claim is
/// refused, so that a host name with mixed records cannot steer one of the
/// dials at a blocked range.
pub fn validate_resolved(host: &str, addrs: &[SocketAddr]) -> (r: Result<(), NetError>)
    ensures
        is_outcome(r, validated(host@, addrs@)),
{
    if addrs.len() == 0 {
        return Err(NetError::NoAddresses(host.to_owned()));
    }
    let mut i: usize = 0;
    assert(addrs@.skip(0) == addrs@);
    while i < addrs.len()
        invariant
            i <= addrs@.len(),
            addrs@.len() > 0,
            first_blocked(addrs@) == i + first_blocked(addrs@.skip(i as int)),
        decreases addrs@.len() - i,
    {
        assert(addrs@.skip(i as int).drop_first() == addrs@.skip(i + 1));
        if is_blocked_ip(addrs[i].ip) {
            return Err(NetError::ResolvesToBlocked(host.to_owned(), addrs[i].ip));
        }
        i += 1;
    }
    Ok(())
}

/// What becomes of a claim whose host was looked up: `answers` is what the
/// lookup gave, if it gave anything.
pub open spec fn looked_up(host: Seq<char>, answers: Option<Seq<SocketAddr>>) -> Result<
    SocketAddr,
    Refusal,
> {
    match answers {
        None => Err(Refusal::LookupFailed(host)),
        Some(addrs) => match validated(host, addrs) {
            Ok(()) => Ok(addrs[0]),
            Err(e) => Err(e),
        },
    }
}

/// The sequence of the answers to a lookup.
pub open spec fn answers_view(answers: Option<&[SocketAddr]>) -> Option<Seq<SocketAddr>> {
    match answers {
        Some(a) => Some(a@),
        None => None,
    }
}

/// The address that is dialed for a looked-up claim: the first answer, if
/// every answer is dialable.
pub fn pick_resolved(host: &str, answers: Option<&[SocketAddr]>) -> (r: Result<
    SocketAddr,
    NetError,
>)
    ensures
        is_outcome(r, looked_up(host@, answers_view(answers))),
{
    match answers {
        None => Err(NetError::LookupFailed(host.to_owned())),
        Some(addrs) => match validate_resolved(host, addrs) {
            Ok(()) => Ok(addrs[0]),
            Err(e) => Err(e),
        },
    }
}

/// What becomes of the claim `host:port`.
pub open spec fn resolved(
    host: Seq<char>,
    port: u16,
    literal: Option<IpAddr>,
    answers: Option<Seq<SocketAddr>>,
) -> Result<SocketAddr, Refusal> {
    match claim(host, port, literal) {
        Some(outcome) => outcome,
        None => looked_up(trimmed(host), answers),
    }
}

/// Decides the claim `host:port`, given the address that the trimmed host is
/// the literal of, if any, and the answers of a lookup of it, which count only
/// where it is no literal.
pub fn resolve_camera(
    host: &str,
    port: u16,
    literal: Option<IpAddr>,
    answers: Option<&[SocketAddr]>,
) -> (r: Result<SocketAddr, NetError>)
    ensures
        is_outcome(r, resolved(host@, port, literal, answers_view(answers))),
{
    match check_claim(host, port, literal) {
        Some(outcome) => outcome,
        None => pick_resolved(claimed_host(host).as_str(), answers),
    }
}

// ---------------------------------------------------------------------------
// Origins
// ---------------------------------------------------------------------------

/// The page that a browser request comes from, by host and port.
///
/// The browser sets the `Origin` header from the URL of the page, and a page
/// cannot forge another site's origin.
#[derive(Debug, Clone, PartialEq, Eq)]
pub struct OriginInfo {
    /// Host in small letters, without brackets or port.
    pub host: String,
    /// Port, or the default port of the scheme.
    pub port: u16,
}

/// The origin of the host `host` and a port, where both are there.
pub open spec fn origin_at(host: Seq<char>, port: Option<nat>) -> Option<(Seq<char>, nat)> {
    match port {
        Some(p) => if host.len() == 0 {
            None
        } else {
            Some((ascii_lowercase(host), p))
        },
        None => None,
    }
}

/// The origin that an authority `host`, `host:port`, `[host]` or `[host]:port`
/// names.
pub open spec fn authority_origin(a: Seq<char>, default_port: nat) -> Option<(Seq<char>, nat)> {
    if a.len() > 0 && a[0] == '[' {
        let inner = a.skip(1);
        let k = index_of(inner, ']');
        let rest = inner.skip(k + 1);
        if k == inner.len() {
            None
        } else if rest.len() == 0 {
            origin_at(inner.take(k), Some(default_port))
        } else if rest[0] == ':' {
            origin_at(inner.take(k), parse_number(rest.skip(1), 0xffff))
        } else {
            None
        }
    } else {
        let k = last_index_of(a, ':');
        if k >= 0 {
            origin_at(a.take(k), parse_number(a.skip(k + 1), 0xffff))
        } else {
            origin_at(a, Some(default_port))
        }
    }
}

/// The default port of a URL's scheme, which is given with its colon.
pub open spec fn default_port(scheme: Seq<char>) -> Option<nat> {
    if scheme == "http:"@ {
        Some(80)
    } else if scheme == "https:"@ {
        Some(443)
    } else {
        None
    }
}

/// The origin that an `Origin` header names, as host and port.
pub open spec fn parsed_origin(value: Seq<char>) -> Option<(Seq<char>, nat)> {
    let v = trimmed(value);
    if v.len() == 0 || v == "null"@ {
        None
    } else {
        match find(v, "//"@) {
            None => None,
            Some(k) => {
                let rest = v.skip(k + 2);
                match default_port(v.take(k)) {
                    None => None,
                    Some(d) => authority_origin(trimmed(rest.take(index_of(rest, '/'))), d),
                }
            },
        }
    }
}

/// Whether the origin `host:port` is the page of the camera that is claimed.
pub open spec fn origin_matches(
    host: Seq<char>,
    port: u16,
    claimed_host: Seq<char>,
    claimed_port: u16,
) -> bool {
    host == ascii_lowercase(trimmed(claimed_host)) && port == claimed_port
}

impl OriginInfo {
    /// Whether `o` is the origin that `s` names.
    pub open spec fn is(o: Option<OriginInfo>, s: Option<(Seq<char>, nat)>) -> bool {
        match (o, s) {
            (Some(x), Some((h, p))) => x.host@ == h && x.port == p,
            (None, None) => true,
            _ => false,
        }
    }

    fn at(host: &[char], port: Option<u16>) -> (r: Option<OriginInfo>)
        ensures
            OriginInfo::is(
                r,
                origin_at(
                    host@,
                    match port {
                        Some(p) => Some(p as nat),
                        None => None,
                    },
                ),
            ),
    {
        match port {
            Some(p) => {
                if host.len() == 0 {
                    return None;
                }
                let lower = to_ascii_lowercase(host);
                Some(OriginInfo { host: string_of(lower.as_slice()), port: p })
            },
            None => None,
        }
    }

    fn of_authority(a: &[char], default: u16) -> (r: Option<OriginInfo>)
        ensures
            OriginInfo::is(r, authority_origin(a@, default as nat)),
    {
        if a.len() > 0 && a[0] == '[' {
            let n: usize = a.len();
            let k: usize = find_char(a, 1, n, ']');
            let ghost inner = a@.skip(1);
            proof {
                assert(a@.subrange(1, n as int) == inner);
                lemma_index_of(inner, ']');
            }
            if k == n {
                return None;
            }
            let host = slice_subrange(a, 1, k);
            assert(host@ == inner.take(k - 1));
            if k + 1 == n {
                return OriginInfo::at(host, Some(default));
            }
            if a[k + 1] != ':' {
                return None;
            }
            let port = slice_subrange(a, k + 2, n);
            assert(port@ == inner.skip(k as int).skip(1));
            OriginInfo::at(host, parse_u16(port))
        } else {
            match rfind_char(a, ':') {
                Some(k) => {
                    let host = slice_subrange(a, 0, k);
                    let port = slice_subrange(a, k + 1, a.len());
                    assert(host@ == a@.take(k as int));
                    assert(port@ == a@.skip(k + 1));
                    OriginInfo::at(host, parse_u16(port))
                },
                None => OriginInfo::at(a, Some(default)),
            }
        }
    }

    /// Parses an `Origin` header (`scheme://host[:port]`).
    ///
    /// There is no origin in a header that is empty or `null`, has another
    /// scheme than `http` and `https`, no host, or a port that is no number.
    pub fn parse(value: &str) -> (r: Option<OriginInfo>)
        ensures
            OriginInfo::is(r, parsed_origin(value@)),
    {
        let cs = chars_of(value);
        let v = trim(cs.as_slice());
        let null = chars_of("null");
        if v.len() == 0 || same(v, null.as_slice()) {
            return None;
        }
        let sep = chars_of("//");
        proof {
            reveal_strlit("//");
        }
        let k: usize = match find_text(v, sep.as_slice(), 0) {
            Some(k) => k,
            None => {
                return None;
            },
        };
        let n: usize = v.len();
        let scheme = slice_subrange(v, 0, k);
        let ghost rest = v@.skip(k + 2);
        let slash: usize = find_char(v, k + 2, n, '/');
        let authority = trim(slice_subrange(v, k + 2, slash));
        proof {
            assert(scheme@ == v@.take(k as int));
            assert(v@.subrange(k + 2, n as int) == rest);
            lemma_index_of(rest, '/');
            assert(v@.subrange(k + 2, slash as int) == rest.take(index_of(rest, '/')));
        }
        let http = chars_of("http:");
        let https = chars_of("https:");
        if same(scheme, http.as_slice()) {
            OriginInfo::of_authority(authority, 80)
        } else if same(scheme, https.as_slice()) {
            OriginInfo::of_authority(authority, 443)
        } else {
            None
        }
    }

    /// The origin matches a claimed camera iff host (whatever its ASCII case)
    /// and port are equal.
    pub fn matches(&self, claimed_host: &str, claimed_port: u16) -> (b: bool)
        ensures
            b == origin_matches(self.host@, self.port, claimed_host@, claimed_port),
    {
        let cs = chars_of(claimed_host);
        let lower = to_ascii_lowercase(trim(cs.as_slice()));
        let host = chars_of(self.host.as_str());
        same(host.as_slice(), lower.as_slice()) && self.port == claimed_port
    }
}

// ---------------------------------------------------------------------------
// Laws
// ---------------------------------------------------------------------------

proof fn lemma_first_blocked(addrs: Seq<SocketAddr>)
    ensures
        0 <= first_blocked(addrs) <= addrs.len(),
        first_blocked(addrs) == addrs.len() <==> (forall|i: int|
            0 <= i < addrs.len() ==> !blocked((#[trigger] addrs[i]).ip)),
        first_blocked(addrs) < addrs.len() ==> blocked(addrs[first_blocked(addrs)].ip),
    decreases addrs.len(),
{
    if addrs.len() > 0 && !blocked(addrs[0].ip) {
        let rest = addrs.drop_first();
        lemma_first_blocked(rest);
        assert forall|i: int| 0 <= i < addrs.len() && first_blocked(addrs) == addrs.len() implies
            !blocked((#[trigger] addrs[i]).ip) by {
            if i > 0 {
                assert(addrs[i] == rest[i - 1]);
            }
        }
        if first_blocked(addrs) < addrs.len() {
            assert(blocked(addrs[first_blocked(addrs)].ip));
        }
    }
}

/// One blocked answer refuses the whole claim, wherever it stands among the
/// answers, and a claim that is not refused is answered by its first address.
pub proof fn law_every_answer_counts(host: Seq<char>, addrs: Seq<SocketAddr>)
    ensures
        looked_up(host, Some(addrs)) is Ok <==> addrs.len() > 0 && (forall|i: int|
            0 <= i < addrs.len() ==> !blocked((#[trigger] addrs[i]).ip)),
        looked_up(host, Some(addrs)) matches Ok(a) ==> a == addrs[0],
{
    lemma_first_blocked(addrs);
}

/// Whatever a claim says and whatever its lookup answers, an address that is
/// dialed for it is not a blocked one.
pub proof fn law_no_blocked_address_is_dialed(
    host: Seq<char>,
    port: u16,
    literal: Option<IpAddr>,
    answers: Option<Seq<SocketAddr>>,
)
    ensures
        resolved(host, port, literal, answers) matches Ok(a) ==> !blocked(a.ip),
{
    if let Some(addrs) = answers {
        lemma_first_blocked(addrs);
    }
}

/// An IPv4-mapped address is refused exactly when the address that it stands for
/// is.
pub proof fn law_mapped_address_counts_as_its_own(v4: [u8; 4], v6: [u16; 8])
    requires
        mapped_v4(v6@) == Some(v4@),
    ensures
        blocked(IpAddr::V6(v6)) == blocked(IpAddr::V4(v4)),
{
    let head = seq![0u16, 0, 0, 0, 0, 0xffff];
    assert(v6@.take(6) == head);
    assert(v6@[0] == v6@.take(6)[0]);
    assert(v6@[5] == v6@.take(6)[5]);
    assert(v6@.take(7)[5] == v6@[5]);
}

/// The origin of a page: the scheme `https` or `http`, the host, in brackets or
/// not, the port if there is one, and the path behind a slash if there is one.
pub open spec fn origin_text(
    secure: bool,
    host: Seq<char>,
    in_brackets: bool,
    port: Option<u16>,
    path: Option<Seq<char>>,
) -> Seq<char> {
    let scheme = if secure {
        "https://"@
    } else {
        "http://"@
    };
    scheme + authority_text(host, in_brackets, port) + path_text(path)
}

/// The path of an origin behind a slash, if there is one.
pub open spec fn path_text(path: Option<Seq<char>>) -> Seq<char> {
    match path {
        Some(p) => "/"@ + p,
        None => Seq::empty(),
    }
}

/// The host of an origin, in brackets or not, and the port if there is one.
pub open spec fn authority_text(host: Seq<char>, in_brackets: bool, port: Option<u16>) -> Seq<
    char,
> {
    (if in_brackets {
        "["@ + host + "]"@
    } else {
        host
    }) + match port {
        Some(p) => ":"@ + decimal(p as nat),
        None => Seq::empty(),
    }
}

/// Whether `host` can stand in an origin. In brackets it has no bracket at its
/// end, and otherwise none at its start, no whitespace round it, and no colon if
/// there is no port.
pub open spec fn is_origin_host(host: Seq<char>, in_brackets: bool, has_port: bool) -> bool {
    &&& host.len() > 0
    &&& !host.contains('/')
    &&& if in_brackets {
        !host.contains(']')
    } else {
        host[0] != '[' && trimmed(host) == host && (has_port || !host.contains(':'))
    }
}

proof fn lemma_authority(
    host: Seq<char>,
    in_brackets: bool,
    port: Option<u16>,
    default_port: nat,
)
    requires
        is_origin_host(host, in_brackets, port is Some),
    ensures
        ({
            let a = authority_text(host, in_brackets, port);
            &&& a.len() > 0 && !a.contains('/')
            &&& !is_white(a[0]) && !is_white(a.last())
            &&& authority_origin(a, default_port) == Some(
                (
                    ascii_lowercase(host),
                    match port {
                        Some(p) => p as nat,
                        None => default_port,
                    },
                ),
            )
        }),
{
    reveal_strlit(":");
    reveal_strlit("[");
    reveal_strlit("]");
    let a = authority_text(host, in_brackets, port);
    let n = host.len() as int;
    let digits = match port {
        Some(p) => decimal(p as nat),
        None => Seq::empty(),
    };
    let end = match port {
        Some(_) => ":"@ + digits,
        None => Seq::empty(),
    };
    if let Some(p) = port {
        lemma_decimal_digits(p as nat);
        law_decimal_reads_back(p as nat, 0xffff);
        assert(is_digit(digits[digits.len() - 1]));
        assert(a.last() == digits.last());
    }
    assert forall|i: int| 0 <= i < n implies host[i] != '/' && (in_brackets ==> host[i] != ']')
        && (!in_brackets && port is None ==> host[i] != ':') by {
        assert(host.contains(host[i]));
    }
    assert forall|i: int| 0 <= i < end.len() implies #[trigger] end[i] != '/' by {
        if i > 0 {
            assert(is_digit(digits[i - 1]));
        }
    }
    if in_brackets {
        let inner = a.skip(1);
        assert(a =~= "["@ + host + "]"@ + end);
        assert(inner =~= host + "]"@ + end);
        assert forall|i: int| 0 <= i < n implies !is_char(']')(#[trigger] inner[i]) by {
            assert(inner[i] == host[i]);
        }
        assert(inner[n] == ']');
        lemma_first_where_is(inner, is_char(']'), n);
        assert(inner.take(n) =~= host);
        assert(inner.skip(n + 1) =~= end);
        assert(end.len() > 0 ==> end.skip(1) =~= digits);
        assert forall|i: int| 0 <= i < a.len() implies #[trigger] a[i] != '/' by {
            if 1 <= i <= n {
                assert(a[i] == host[i - 1]);
            } else if i > n + 1 {
                assert(a[i] == end[i - n - 2]);
            }
        }
    } else {
        assert(a =~= host + end);
        lemma_ends_not_white(host);
        assert(a[0] == host[0]);
        assert forall|i: int| 0 <= i < a.len() implies #[trigger] a[i] != '/' by {
            if i < n {
                assert(a[i] == host[i]);
            } else {
                assert(a[i] == end[i - n]);
            }
        }
        if port is Some {
            assert forall|i: int| n < i < a.len() implies #[trigger] a[i] != ':' by {
                assert(is_digit(digits[i - n - 1]));
            }
            assert(a[n] == ':');
            lemma_last_index_is(a, ':', n);
            assert(a.take(n) =~= host);
            assert(a.skip(n + 1) =~= digits);
        } else {
            assert(a =~= host);
            lemma_last_index_none(a, ':');
        }
    }
}

/// Whoever reads an origin finds the host and the port of the page: with either
/// scheme, with or without brackets, port and path. A missing port is the
/// default port of the scheme.
pub proof fn law_origin_names_host_and_port(
    secure: bool,
    host: Seq<char>,
    in_brackets: bool,
    port: Option<u16>,
    path: Option<Seq<char>>,
)
    requires
        is_origin_host(host, in_brackets, port is Some),
    ensures
        parsed_origin(origin_text(secure, host, in_brackets, port, path)) == Some(
            (
                ascii_lowercase(host),
                match port {
                    Some(p) => p as nat,
                    None => if secure {
                        443nat
                    } else {
                        80
                    },
                },
            ),
        ),
{
    reveal_strlit("http://");
    reveal_strlit("https://");
    reveal_strlit("http:");
    reveal_strlit("https:");
    reveal_strlit("//");
    reveal_strlit("/");
    reveal_strlit("null");
    let v = trimmed(origin_text(secure, host, in_brackets, port, path));
    let a = authority_text(host, in_brackets, port);
    let default: nat = if secure {
        443
    } else {
        80
    };
    lemma_authority(host, in_brackets, port, default);
    let scheme = if secure {
        "https://"@
    } else {
        "http://"@
    };
    let end = trim_back(path_text(path));
    let k = scheme.len() - 2;
    let n = a.len() as int;
    let front = scheme + a;
    assert(front.last() == a.last());
    assert(front[0] == 'h');
    lemma_trim_front_of(front, path_text(path));
    lemma_trim_back_of(front, path_text(path));
    assert(v =~= scheme + a + end);
    assert(end.len() > 0 ==> end[0] == '/') by {
        if let Some(p) = path {
            lemma_trim_back_of("/"@, p);
        }
    }
    assert(v[0] == 'h');
    assert("null"@.len() == 4);
    assert(v.len() > 4);
    assert(stands_at(v, "//"@, k)) by {
        assert(v.subrange(k, k + 2) =~= "//"@);
    }
    assert forall|i: int| 0 <= i < k implies !#[trigger] stands_at(v, "//"@, i) by {
        if stands_at(v, "//"@, i) {
            assert(v.subrange(i, i + 2)[0] == v[i]);
            assert("//"@[0] == '/');
            assert(v[i] == scheme[i]);
            assert(scheme[i] != '/');
        }
    }
    lemma_find_is(v, "//"@, k);
    assert(v.take(k) =~= (if secure {
        "https:"@
    } else {
        "http:"@
    }));
    assert("https:"@.len() == 6 && "http:"@.len() == 5);
    let rest = v.skip(k + 2);
    assert(rest =~= a + end);
    assert forall|i: int| 0 <= i < n implies !is_char('/')(#[trigger] rest[i]) by {
        assert(rest[i] == a[i]);
        assert(a.contains(a[i]));
    }
    if end.len() > 0 {
        assert(rest[n] == end[0]);
    }
    lemma_first_where_is(rest, is_char('/'), n);
    assert(rest.take(n) =~= a);
    lemma_trimmed_already(a);
}

/// The origin of the page at `http://host:port`.
pub open spec fn page_origin(host: Seq<char>, port: u16) -> Seq<char> {
    "http://"@ + host + ":"@ + decimal(port as nat)
}

/// The page of a camera is known by its origin: the header that a browser sends
/// for a page at a host and a port names that host and that port, and so
/// matches a claim of the same, whatever the case of its letters.
pub proof fn law_camera_page_matches_its_claim(host: Seq<char>, port: u16)
    requires
        host.len() > 0,
        trimmed(host) == host,
        !host.contains('/'),
        host[0] != '[',
    ensures
        parsed_origin(page_origin(host, port)) == Some((ascii_lowercase(host), port as nat)),
        origin_matches(ascii_lowercase(host), port, host, port),
{
    law_origin_names_host_and_port(false, host, false, Some(port), None);
    assert(page_origin(host, port) =~= origin_text(false, host, false, Some(port), None));
}

/// These addresses are never dialed, and no others: of version 4 the unspecified
/// one, the loopback and the link-local ones and those of multicast; of version 6
/// the same, and the mapped forms of the former.
pub proof fn law_blocked_addresses(o: [u8; 4], s: [u16; 8])
    ensures
        blocked(IpAddr::V4(o)) <==> {
            ||| o@[0] == 0 && o@[1] == 0 && o@[2] == 0 && o@[3] == 0
            ||| o@[0] == 127
            ||| o@[0] == 169 && o@[1] == 254
            ||| o@[0] / 16 == 14
        },
        blocked(IpAddr::V6(s)) <==> {
            let zeros = s@[0] == 0 && s@[1] == 0 && s@[2] == 0 && s@[3] == 0 && s@[4] == 0;
            ||| zeros && s@[5] == 0 && s@[6] == 0 && s@[7] <= 1
            ||| s@[0] / 256 == 0xff
            ||| s@[0] / 64 == 0x3fa
            ||| zeros && s@[5] == 0xffff && {
                ||| s@[6] == 0 && s@[7] == 0
                ||| s@[6] / 256 == 127
                ||| s@[6] == 0xa9fe
                ||| s@[6] / 4096 == 14
            }
        },
{
    let v = s@;
    if v.take(6) =~= seq![0u16, 0, 0, 0, 0, 0xffff] {
        assert(v[0] == v.take(6)[0] && v[1] == v.take(6)[1] && v[2] == v.take(6)[2] && v[3]
            == v.take(6)[3] && v[4] == v.take(6)[4] && v[5] == v.take(6)[5]);
        let m = mapped_v4(v)->0;
        assert(m[0] == v[6] / 256 && m[1] == v[6] % 256 && m[2] == v[7] / 256 && m[3] == v[7]
            % 256);
        assert(m =~= seq![0u8, 0, 0, 0] <==> v[6] == 0 && v[7] == 0);
    }
    if v.take(7) =~= seq![0u16, 0, 0, 0, 0, 0, 0] {
        assert(v[0] == v.take(7)[0] && v[1] == v.take(7)[1] && v[2] == v.take(7)[2] && v[3]
            == v.take(7)[3] && v[4] == v.take(7)[4] && v[5] == v.take(7)[5] && v[6]
            == v.take(7)[6]);
    }
    if v[0] == 0 && v[1] == 0 && v[2] == 0 && v[3] == 0 && v[4] == 0 && v[5] == 0xffff {
        assert(v.take(6) =~= seq![0u16, 0, 0, 0, 0, 0xffff]);
    }
    if v[0] == 0 && v[1] == 0 && v[2] == 0 && v[3] == 0 && v[4] == 0 && v[5] == 0 && v[6] == 0 {
        assert(v.take(7) =~= seq![0u16, 0, 0, 0, 0, 0, 0]);
    }
    assert(o@ =~= seq![0u8, 0, 0, 0] <==> o@[0] == 0 && o@[1] == 0 && o@[2] == 0 && o@[3] == 0);
}

/// A claim leads to the very address that it names: a literal to that address at
/// the claimed port, a name to the first answer of its lookup; a literal is not
/// looked up, and an empty claim leads nowhere.
pub proof fn law_claim_leads_to_its_address(
    host: Seq<char>,
    port: u16,
    ip: IpAddr,
    answers: Option<Seq<SocketAddr>>,
)
    ensures
        trimmed(host).len() == 0 ==> resolved(host, port, Some(ip), answers) is Err && resolved(
            host,
            port,
            None,
            answers,
        ) is Err,
        trimmed(host).len() > 0 && !blocked(ip) ==> resolved(host, port, Some(ip), answers) == Ok::<
            SocketAddr,
            Refusal,
        >(SocketAddr { ip, port }),
        trimmed(host).len() > 0 && blocked(ip) ==> resolved(host, port, Some(ip), answers) == Err::<
            SocketAddr,
            Refusal,
        >(Refusal::BlockedAddress(ip)),
        trimmed(host).len() > 0 && answers is None ==> resolved(host, port, None, answers) == Err::<
            SocketAddr,
            Refusal,
        >(Refusal::LookupFailed(trimmed(host))),
        answers matches Some(a) ==> trimmed(host).len() > 0 ==> {
            let r = resolved(host, port, None, answers);
            &&& a.len() == 0 ==> r == Err::<SocketAddr, Refusal>(
                Refusal::NoAddresses(trimmed(host)),
            )
            &&& a.len() > 0 && (forall|i: int| 0 <= i < a.len() ==> !blocked((#[trigger] a[i]).ip))
                ==> r == Ok::<SocketAddr, Refusal>(a[0])
            &&& (exists|i: int| 0 <= i < a.len() && blocked((#[trigger] a[i]).ip)) ==> (r
                matches Err(Refusal::ResolvesToBlocked(h, b)) && h == trimmed(host) && blocked(b)
                && exists|i: int| 0 <= i < a.len() && (#[trigger] a[i]).ip == b)
        },
{
    if let Some(a) = answers {
        lemma_first_blocked(a);
        if exists|i: int| 0 <= i < a.len() && blocked((#[trigger] a[i]).ip) {
            assert(a[first_blocked(a)].ip == a[first_blocked(a)].ip);
        }
    }
}

/// A page is that of a camera exactly if its host is the claimed one, which may
/// have whitespace around it and letters of any case, and its port is the claimed
/// one.
pub proof fn law_origin_must_match_in_both(
    host: Seq<char>,
    port: u16,
    claimed_host: Seq<char>,
    claimed_port: u16,
)
    ensures
        origin_matches(host, port, claimed_host, claimed_port) <==> port == claimed_port && host
            == ascii_lowercase(trimmed(claimed_host)),
        port != claimed_port ==> !origin_matches(host, port, claimed_host, claimed_port),
{
}

/// There is no origin in a header that is empty or `null`, without the two
/// slashes, or with another scheme than `http` and `https`.
pub proof fn law_no_origin_without_scheme(value: Seq<char>, scheme: Seq<char>, rest: Seq<char>)
    requires
        trimmed(value) == scheme + "//"@ + rest,
        !scheme.contains('/'),
    ensures
        scheme != "http:"@ && scheme != "https:"@ ==> parsed_origin(value) is None,
        parsed_origin(Seq::empty()) is None,
        parsed_origin("null"@) is None,
{
    reveal_strlit("//");
    reveal_strlit("null");
    let v = trimmed(value);
    let k = scheme.len() as int;
    assert(v.subrange(k, k + 2) =~= "//"@);
    assert forall|i: int| 0 <= i < k implies !#[trigger] stands_at(v, "//"@, i) by {
        if stands_at(v, "//"@, i) {
            assert(v.subrange(i, i + 2)[0] == v[i]);
            assert(v[i] == scheme[i]);
            assert(scheme.contains(scheme[i]));
        }
    }
    lemma_find_is(v, "//"@, k);
    assert(v.take(k) =~= scheme);
    lemma_trimmed_already("null"@);
    lemma_trimmed_already(Seq::empty());
}

/// What is stated of an origin and of an outcome is stated of all that they hold.
pub proof fn law_origins_and_outcomes_are_seen_whole(
    o: OriginInfo,
    host: Seq<char>,
    port: nat,
    a: SocketAddr,
    b: SocketAddr,
    e: NetError,
    f: Refusal,
)
    ensures
        OriginInfo::is(Some(o), Some((host, port))) <==> o.host@ == host && o.port == port,
        OriginInfo::is(None, None),
        !OriginInfo::is(Some(o), None),
        !OriginInfo::is(None, Some((host, port))),
        is_outcome(Ok(a), Ok(b)) <==> a == b,
        is_outcome::<SocketAddr>(Err(e), Err(f)) <==> e@ == f,
        !is_outcome(Ok(a), Err(f)),
        !is_outcome(Err(e), Ok(b)),
        e is EmptyHost ==> e@ is EmptyHost,
        e matches NetError::BlockedAddress(ip) ==> e@ == Refusal::BlockedAddress(ip),
        e matches NetError::LookupFailed(h) ==> e@ == Refusal::LookupFailed(h@),
        e matches NetError::NoAddresses(h) ==> e@ == Refusal::NoAddresses(h@),
        e matches NetError::ResolvesToBlocked(h, ip) ==> e@ == Refusal::ResolvesToBlocked(h@, ip),
{
}

/// What a lookup answered is seen as it came.
pub proof fn law_answers_are_seen_whole(answers: &[SocketAddr])
    ensures
        answers_view(Some(answers)) == Some(answers@),
        answers_view(None) is None,
{
}

/// The origin with the authority `a` and nothing behind it.
pub open spec fn bare_origin(secure: bool, a: Seq<char>) -> Seq<char> {
    (if secure {
        "https://"@
    } else {
        "http://"@
    }) + a
}

proof fn lemma_bare_origin(secure: bool, a: Seq<char>)
    requires
        a.len() > 0,
        !a.contains('/'),
        !is_white(a[0]),
        !is_white(a.last()),
    ensures
        parsed_origin(bare_origin(secure, a)) == authority_origin(
            a,
            if secure {
                443
            } else {
                80
            },
        ),
{
    reveal_strlit("http://");
    reveal_strlit("https://");
    reveal_strlit("http:");
    reveal_strlit("https:");
    reveal_strlit("//");
    reveal_strlit("null");
    let v = bare_origin(secure, a);
    let scheme = if secure {
        "https://"@
    } else {
        "http://"@
    };
    let k = scheme.len() - 2;
    assert(v[0] == 'h');
    assert(v.last() == a.last());
    lemma_trimmed_already(v);
    assert("null"@.len() == 4);
    assert(v.subrange(k, k + 2) =~= "//"@);
    assert forall|i: int| 0 <= i < k implies !#[trigger] stands_at(v, "//"@, i) by {
        if stands_at(v, "//"@, i) {
            assert(v.subrange(i, i + 2)[0] == v[i]);
            assert("//"@[0] == '/');
            assert(v[i] == scheme[i]);
            assert(scheme[i] != '/');
        }
    }
    lemma_find_is(v, "//"@, k);
    assert(v.take(k) =~= (if secure {
        "https:"@
    } else {
        "http:"@
    }));
    assert("https:"@.len() == 6 && "http:"@.len() == 5);
    let rest = v.skip(k + 2);
    assert(rest =~= a);
    assert forall|i: int| 0 <= i < a.len() implies !is_char('/')(#[trigger] rest[i]) by {
        assert(a.contains(a[i]));
    }
    lemma_first_where_is(rest, is_char('/'), a.len() as int);
    assert(rest.take(a.len() as int) =~= a);
    lemma_trimmed_already(a);
}

/// There is no origin with a bracket that is not closed, with anything but a colon
/// behind the brackets, or with nothing in them.
pub proof fn law_broken_brackets_name_no_origin(secure: bool, inner: Seq<char>, tail: Seq<char>)
    requires
        !inner.contains(']'),
        !inner.contains('/'),
        !tail.contains('/'),
        inner.len() > 0 ==> !is_white(inner.last()),
        tail.len() > 0 ==> !is_white(tail.last()),
    ensures
        parsed_origin(bare_origin(secure, seq!['['] + inner)) is None,
        tail.len() > 0 && tail[0] != ':' ==> parsed_origin(
            bare_origin(secure, seq!['['] + inner + seq![']'] + tail),
        ) is None,
        inner.len() == 0 ==> parsed_origin(
            bare_origin(secure, seq!['['] + inner + seq![']'] + tail),
        ) is None,
{
    let open = seq!['['] + inner;
    let n = inner.len() as int;
    assert forall|i: int| 0 <= i < n implies inner[i] != ']' && inner[i] != '/' by {
        assert(inner.contains(inner[i]));
    }
    assert(open.skip(1) =~= inner);
    assert forall|i: int| 0 <= i < n implies !is_char(']')(#[trigger] inner[i]) by {}
    lemma_first_where_is(inner, is_char(']'), n);
    assert forall|i: int| 0 <= i < open.len() implies #[trigger] open[i] != '/' by {
        if i > 0 {
            assert(open[i] == inner[i - 1]);
        }
    }
    assert(open.last() == if n == 0 {
        '['
    } else {
        inner.last()
    });
    lemma_bare_origin(secure, open);
    let a = seq!['['] + inner + seq![']'] + tail;
    let b = a.skip(1);
    assert(b =~= inner + seq![']'] + tail);
    assert forall|i: int| 0 <= i < n implies !is_char(']')(#[trigger] b[i]) by {
        assert(b[i] == inner[i]);
    }
    assert(b[n] == ']');
    lemma_first_where_is(b, is_char(']'), n);
    assert(b.take(n) =~= inner);
    assert(b.skip(n + 1) =~= tail);
    assert forall|i: int| 0 <= i < a.len() implies #[trigger] a[i] != '/' by {
        if 1 <= i <= n {
            assert(a[i] == inner[i - 1]);
        } else if i > n + 1 {
            assert(a[i] == tail[i - n - 2]);
            assert(tail.contains(tail[i - n - 2]));
        }
    }
    assert(a.last() == if tail.len() == 0 {
        ']'
    } else {
        tail.last()
    });
    lemma_bare_origin(secure, a);
}

/// There is no origin without a host, or with a port that is no number of 16 bits.
pub proof fn law_bad_port_names_no_origin(secure: bool, host: Seq<char>, port: Seq<char>)
    requires
        !host.contains('/'),
        !port.contains('/'),
        !port.contains(':'),
        host.len() > 0 ==> host[0] != '[' && !is_white(host[0]),
        port.len() > 0 ==> !is_white(port.last()),
        host.len() == 0 || parse_number(port, 0xffff) is None,
    ensures
        parsed_origin(bare_origin(secure, host + seq![':'] + port)) is None,
{
    let a = host + seq![':'] + port;
    let n = host.len() as int;
    assert forall|i: int| 0 <= i < a.len() implies #[trigger] a[i] != '/' by {
        if i < n {
            assert(host.contains(host[i]));
        } else if i > n {
            assert(port.contains(port[i - n - 1]));
        }
    }
    assert forall|i: int| n < i < a.len() implies #[trigger] a[i] != ':' by {
        assert(port.contains(port[i - n - 1]));
    }
    assert(a[n] == ':');
    assert(a[0] == if n == 0 {
        ':'
    } else {
        host[0]
    });
    assert(a.last() == if port.len() == 0 {
        ':'
    } else {
        port.last()
    });
    lemma_last_index_is(a, ':', n);
    assert(a.take(n) =~= host);
    assert(a.skip(n + 1) =~= port);
    lemma_bare_origin(secure, a);
}

} // verus!
