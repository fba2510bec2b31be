use vstd::prelude::*;
use vstd::string::{StrSliceExecFns, StringExecFns};

use crate::net::error::NetError;
use crate::net::ipv4::Ipv4Addr;
use crate::text::{
    find_last_char, find_text, is_spelled, read_number, stands_at, to_lowercase,
};

verus! {

/// The address of a stream: `udp://@<group>:<port>[?iface=<ip>]`, or the same
/// with `rtp`.
#[derive(Debug, Clone, Copy, PartialEq, Eq, Structural)]
pub enum StreamUrl {
    UdpMulticast { group: Ipv4Addr, port: u16, iface: Option<Ipv4Addr> },
    RtpMulticast { group: Ipv4Addr, port: u16, iface: Option<Ipv4Addr> },
}

/// Why a text is no stream URL.
#[verifier::ext_equal]
pub ghost enum UrlFault {
    NotMulticast(Ipv4Addr),
    InvalidPort,
    UnknownScheme(Seq<char>),
    Malformed(Seq<char>),
}

impl UrlFault {
    /// Whether an error says this.
    pub open spec fn is_told_by(self, e: NetError) -> bool {
        match self {
            UrlFault::NotMulticast(addr) => e == NetError::NotMulticast(addr),
            UrlFault::InvalidPort => e == NetError::InvalidPort,
            UrlFault::UnknownScheme(scheme) => e matches NetError::UnknownScheme(s) && s@
                == scheme,
            UrlFault::Malformed(what) => e matches NetError::MalformedUrl(s) && s@ == what,
        }
    }
}

/// The port that a text stands for: digits, after a plus sign or not.
pub open spec fn port_of(s: Seq<char>) -> Option<nat> {
    if s.len() > 0 && s[0] == '+' {
        crate::text::number_of(s.skip(1), 65535)
    } else {
        crate::text::number_of(s, 65535)
    }
}

/// The value of the first parameter `iface` at or after `from`.
pub open spec fn iface_value(query: Seq<char>, from: int) -> Option<Seq<char>>
    decreases query.len() - from,
{
    let i = crate::text::find(query, seq!['&'], from);
    let end = if i < 0 {
        query.len() as int
    } else {
        i
    };
    if from < 0 || from > query.len() {
        None
    } else if from + 6 <= end && query.subrange(from, from + 6) == "iface="@ {
        Some(query.subrange(from + 6, end))
    } else if i < from || i >= query.len() {
        None
    } else {
        iface_value(query, i + 1)
    }
}

/// The interface that a query names.
pub open spec fn iface_of(query: Seq<char>, url: Seq<char>) -> Result<Option<Ipv4Addr>, UrlFault> {
    match iface_value(query, 0) {
        None => Ok(None),
        Some(value) => match crate::net::ipv4::address_of(value) {
            Some(addr) => Ok(Some(addr)),
            None => Err(UrlFault::Malformed("iface inválido: "@ + value + " em "@ + url)),
        },
    }
}

/// The stream that the part of a URL behind the scheme names.
pub open spec fn stream_of(rtp: bool, target: Seq<char>, url: Seq<char>) -> Result<
    StreamUrl,
    UrlFault,
> {
    let rest = if target.len() > 0 && target[0] == '@' {
        target.skip(1)
    } else {
        target
    };
    let q = crate::text::find(rest, seq!['?'], 0);
    let place = if q < 0 {
        rest
    } else {
        rest.take(q)
    };
    let c = crate::text::find_last(place, ':', place.len() as int);
    if c < 0 {
        Err(UrlFault::Malformed(url))
    } else {
        let host = place.take(c);
        let port = place.skip(c + 1);
        match (crate::net::ipv4::address_of(host), port_of(port)) {
            (None, _) => Err(UrlFault::Malformed("endereço inválido: "@ + host)),
            (_, None) => Err(UrlFault::Malformed("porta inválida: "@ + port)),
            (Some(group), Some(port)) => {
                let iface = if q < 0 {
                    Ok(None)
                } else {
                    iface_of(rest.skip(q + 1), url)
                };
                if !group.multicast() {
                    Err(UrlFault::NotMulticast(group))
                } else if port == 0 {
                    Err(UrlFault::InvalidPort)
                } else {
                    match iface {
                        Err(fault) => Err(fault),
                        Ok(iface) => Ok(
                            if rtp {
                                StreamUrl::RtpMulticast { group, port: port as u16, iface }
                            } else {
                                StreamUrl::UdpMulticast { group, port: port as u16, iface }
                            },
                        ),
                    }
                }
            },
        }
    }
}

/// The stream that a URL names.
pub open spec fn url_of(url: Seq<char>) -> Result<StreamUrl, UrlFault> {
    let i = crate::text::find(url, "://"@, 0);
    if i < 0 {
        Err(UrlFault::Malformed(url))
    } else {
        let scheme = url.take(i);
        let target = url.skip(i + 3);
        if crate::text::spells(scheme, "udp"@) {
            stream_of(false, target, url)
        } else if crate::text::spells(scheme, "rtp"@) {
            stream_of(true, target, url)
        } else {
            Err(UrlFault::UnknownScheme(crate::text::lowercase(scheme)))
        }
    }
}

/// Whether a result is the given one.
pub open spec fn agrees<T>(r: Result<T, NetError>, expected: Result<T, UrlFault>) -> bool {
    match (r, expected) {
        (Ok(a), Ok(b)) => a == b,
        (Err(e), Err(fault)) => fault.is_told_by(e),
        _ => false,
    }
}

fn read_port(s: &str) -> (r: Option<u16>)
    ensures
        match r {
            Some(n) => port_of(s@) == Some(n as nat),
            None => port_of(s@) is None,
        },
{
    let n: usize = s.unicode_len();
    let number: Option<u32> = if n > 0 && s.get_char(0) == '+' {
        let digits = s.substring_char(1, n);
        assert(digits@ =~= s@.skip(1));
        read_number(digits, 65535)
    } else {
        read_number(s, 65535)
    };
    match number {
        Some(v) => Some(v as u16),
        None => None,
    }
}

fn parse_iface(query: &str, url: &str) -> (r: Result<Option<Ipv4Addr>, NetError>)
    ensures
        agrees(r, iface_of(query@, url@)),
{
    proof {
        reveal_strlit("&");
        assert("&"@ =~= seq!['&']);
        reveal_strlit("iface=");
    }
    let n: usize = query.unicode_len();
    let mut from: usize = 0;
    loop
        invariant
            from <= n == query@.len(),
            "&"@ == seq!['&'],
            "iface="@.len() == 6,
            iface_value(query@, 0) == iface_value(query@, from as int),
        decreases n - from,
    {
        let next = find_text(query, "&", from);
        let end: usize = match next {
            Some(i) => i,
            None => n,
        };
        if stands_at(query, "iface=", from) && 6 <= end - from {
            let value = query.substring_char(from + 6, end);
            return match Ipv4Addr::parse(value) {
                Some(addr) => Ok(Some(addr)),
                None => {
                    let mut what = String::from_str("iface inválido: ");
                    what.append(value);
                    what.append(" em ");
                    what.append(url);
                    Err(NetError::MalformedUrl(what))
                },
            };
        }
        match next {
            Some(i) => {
                from = i + 1;
            },
            None => {
                return Ok(None);
            },
        }
    }
}

impl StreamUrl {
    /// Reads the part of a URL behind the scheme.
    fn parse_target(rtp: bool, target: &str, url: &str) -> (r: Result<Self, NetError>)
        ensures
            agrees(r, stream_of(rtp, target@, url@)),
    {
        proof {
            reveal_strlit("?");
            assert("?"@ =~= seq!['?']);
        }
        let n: usize = target.unicode_len();
        let rest: &str = if n > 0 && target.get_char(0) == '@' {
            target.substring_char(1, n)
        } else {
            target
        };
        assert(rest@ =~= if target@.len() > 0 && target@[0] == '@' {
            target@.skip(1)
        } else {
            target@
        });
        let m: usize = rest.unicode_len();
        let question = find_text(rest, "?", 0);
        let place: &str = match question {
            Some(q) => rest.substring_char(0, q),
            None => rest,
        };
        let ghost q = crate::text::find(rest@, seq!['?'], 0);
        assert(place@ =~= if q < 0 {
            rest@
        } else {
            rest@.take(q)
        });
        let colon: usize = match find_last_char(place, ':') {
            Some(c) => c,
            None => return Err(NetError::MalformedUrl(String::from_str(url))),
        };
        let host = place.substring_char(0, colon);
        let port_text = place.substring_char(colon + 1, place.unicode_len());
        assert(host@ =~= place@.take(colon as int));
        assert(port_text@ =~= place@.skip(colon + 1));
        let group: Ipv4Addr = match Ipv4Addr::parse(host) {
            Some(addr) => addr,
            None => {
                let mut what = String::from_str("endereço inválido: ");
                what.append(host);
                return Err(NetError::MalformedUrl(what));
            },
        };
        let port: u16 = match read_port(port_text) {
            Some(port) => port,
            None => {
                let mut what = String::from_str("porta inválida: ");
                what.append(port_text);
                return Err(NetError::MalformedUrl(what));
            },
        };
        if !group.is_multicast() {
            return Err(NetError::NotMulticast(group));
        }
        if port == 0 {
            return Err(NetError::InvalidPort);
        }
        let iface: Option<Ipv4Addr> = match question {
            Some(q) => {
                let query = rest.substring_char(q + 1, m);
                assert(query@ =~= rest@.skip(q + 1));
                match parse_iface(query, url) {
                    Ok(iface) => iface,
                    Err(e) => return Err(e),
                }
            },
            None => None,
        };
        if rtp {
            Ok(StreamUrl::RtpMulticast { group, port, iface })
        } else {
            Ok(StreamUrl::UdpMulticast { group, port, iface })
        }
    }

    /// Reads a URL.
    pub fn parse(url: &str) -> (r: Result<Self, NetError>)
        ensures
            agrees(r, url_of(url@)),
    {
        proof {
            reveal_strlit("://");
        }
        let n: usize = url.unicode_len();
        let i: usize = match find_text(url, "://", 0) {
            Some(i) => i,
            None => return Err(NetError::MalformedUrl(String::from_str(url))),
        };
        let scheme = url.substring_char(0, i);
        let target = url.substring_char(i + 3, n);
        assert(scheme@ =~= url@.take(i as int));
        assert(target@ =~= url@.skip(i + 3));
        if is_spelled(scheme, "udp") {
            Self::parse_target(false, target, url)
        } else if is_spelled(scheme, "rtp") {
            Self::parse_target(true, target, url)
        } else {
            Err(NetError::UnknownScheme(to_lowercase(scheme)))
        }
    }
}

/// How a stream URL is written.
pub open spec fn url_text(url: StreamUrl) -> Seq<char> {
    match url {
        StreamUrl::UdpMulticast { group, port, iface } => "udp://@"@ + place_text(
            group,
            port,
            iface,
        ),
        StreamUrl::RtpMulticast { group, port, iface } => "rtp://@"@ + place_text(
            group,
            port,
            iface,
        ),
    }
}

pub open spec fn place_text(group: Ipv4Addr, port: u16, iface: Option<Ipv4Addr>) -> Seq<char> {
    group.text() + seq![':'] + crate::text::decimal(port as nat) + match iface {
        Some(addr) => "?iface="@ + addr.text(),
        None => Seq::empty(),
    }
}

/// Whether a URL names a group and a port.
pub open spec fn is_proper(url: StreamUrl) -> bool {
    match url {
        StreamUrl::UdpMulticast { group, port, .. } => group.multicast() && port > 0,
        StreamUrl::RtpMulticast { group, port, .. } => group.multicast() && port > 0,
    }
}

proof fn lemma_find_last_behind(before: Seq<char>, c: char, piece: Seq<char>, end: int)
    requires
        before.len() < end <= before.len() + 1 + piece.len(),
        forall|i: int| 0 <= i < piece.len() ==> piece[i] != c,
    ensures
        crate::text::find_last(before + seq![c] + piece, c, end) == before.len(),
    decreases end,
{
    let s = before + seq![c] + piece;
    if end - 1 == before.len() {
        assert(s[end - 1] == c);
    } else {
        assert(s[end - 1] == piece[end - 2 - before.len()]);
        lemma_find_last_behind(before, c, piece, end - 1);
    }
}

/// Addresses are written with digits and dots.
proof fn lemma_address_letters(addr: Ipv4Addr)
    ensures
        forall|i: int|
            0 <= i < addr.text().len() ==> '0' <= #[trigger] addr.text()[i] <= '9'
                || addr.text()[i] == '.',
        addr.text().len() > 0,
{
    crate::text::lemma_decimal_reads_back(addr.a as nat);
    crate::text::lemma_decimal_reads_back(addr.b as nat);
    crate::text::lemma_decimal_reads_back(addr.c as nat);
    crate::text::lemma_decimal_reads_back(addr.d as nat);
    let a = crate::text::decimal(addr.a as nat);
    let b = crate::text::decimal(addr.b as nat);
    let c = crate::text::decimal(addr.c as nat);
    let d = crate::text::decimal(addr.d as nat);
    let s = addr.text();
    let i = a.len() as int;
    let j = i + 1 + b.len();
    let k = j + 1 + c.len();
    assert forall|n: int| 0 <= n < s.len() implies '0' <= #[trigger] s[n] <= '9' || s[n] == '.' by {
        if n < i {
            assert(s[n] == a[n]);
        } else if n == i {
            assert(s[n] == '.');
        } else if n < j {
            assert(s[n] == b[n - i - 1]);
        } else if n == j {
            assert(s[n] == '.');
        } else if n < k {
            assert(s[n] == c[n - j - 1]);
        } else if n == k {
            assert(s[n] == '.');
        } else {
            assert(s[n] == d[n - k - 1]);
        }
    }
}

proof fn lemma_iface_reads_back(addr: Ipv4Addr, url: Seq<char>)
    ensures
        iface_of("iface="@ + addr.text(), url) == Ok::<Option<Ipv4Addr>, UrlFault>(Some(addr)),
{
    reveal_strlit("iface=");
    let query = "iface="@ + addr.text();
    lemma_address_letters(addr);
    assert forall|i: int| 0 <= i < query.len() implies query[i] != '&' by {
        if i >= 6 {
            assert(query[i] == addr.text()[i - 6]);
        }
    }
    crate::net::ipv4::lemma_find_nothing(Seq::empty(), query, '&');
    assert(Seq::<char>::empty() + query =~= query);
    assert(query.subrange(0, 6) =~= "iface="@);
    assert(query.subrange(6, query.len() as int) =~= addr.text());
    crate::net::ipv4::law_address_text_is_read_back(addr);
}

/// Where host, port and query stand in what is behind the scheme.
proof fn lemma_target_parts(host: Seq<char>, digits: Seq<char>, query: Option<Seq<char>>)
    requires
        !host.contains('?'),
        !digits.contains('?'),
        !digits.contains(':'),
    ensures
        ({
            let place = host + seq![':'] + digits;
            let rest = match query {
                Some(query) => place + seq!['?'] + query,
                None => place,
            };
            let n = place.len() as int;
            &&& crate::text::find(rest, seq!['?'], 0) == if query is Some {
                n
            } else {
                -1
            }
            &&& query is Some ==> rest.take(n) == place && rest.skip(n + 1) == query->0
            &&& crate::text::find_last(place, ':', n) == host.len()
            &&& place.take(host.len() as int) == host
            &&& place.skip(host.len() + 1int) == digits
        }),
{
    let place = host + seq![':'] + digits;
    assert forall|i: int| 0 <= i < place.len() implies place[i] != '?' by {
        if i < host.len() {
            assert(host.contains(host[i]));
        } else if i > host.len() {
            assert(digits.contains(digits[i - host.len() - 1]));
        }
    }
    assert forall|i: int| 0 <= i < digits.len() implies digits[i] != ':' by {
        assert(digits.contains(digits[i]));
    }
    let empty = Seq::<char>::empty();
    match query {
        Some(query) => {
            crate::net::ipv4::lemma_find_behind(empty, place, '?', query);
            let rest = place + seq!['?'] + query;
            assert(empty + place + seq!['?'] + query =~= rest);
            assert(rest.take(place.len() as int) =~= place);
            assert(rest.skip(place.len() + 1int) =~= query);
        },
        None => {
            crate::net::ipv4::lemma_find_nothing(empty, place, '?');
            assert(empty + place =~= place);
        },
    }
    lemma_find_last_behind(host, ':', digits, place.len() as int);
    assert(place.take(host.len() as int) =~= host);
    assert(place.skip(host.len() + 1int) =~= digits);
}

proof fn lemma_port_reads_back(port: u16)
    ensures
        port_of(crate::text::decimal(port as nat)) == Some(port as nat),
        !crate::text::decimal(port as nat).contains('?'),
        !crate::text::decimal(port as nat).contains(':'),
{
    crate::text::lemma_decimal_reads_back(port as nat);
}

proof fn lemma_host_reads_back(group: Ipv4Addr)
    ensures
        crate::net::ipv4::address_of(group.text()) == Some(group),
        !group.text().contains('?'),
{
    crate::net::ipv4::law_address_text_is_read_back(group);
    lemma_address_letters(group);
}

proof fn lemma_place_reads_back(
    rtp: bool,
    group: Ipv4Addr,
    port: u16,
    iface: Option<Ipv4Addr>,
    url: Seq<char>,
)
    requires
        group.multicast(),
        port > 0,
    ensures
        stream_of(rtp, seq!['@'] + place_text(group, port, iface), url) == Ok::<
            StreamUrl,
            UrlFault,
        >(
            if rtp {
                StreamUrl::RtpMulticast { group, port, iface }
            } else {
                StreamUrl::UdpMulticast { group, port, iface }
            },
        ),
{
    let rest = place_text(group, port, iface);
    let host = group.text();
    let digits = crate::text::decimal(port as nat);
    assert((seq!['@'] + rest).skip(1) =~= rest);
    lemma_host_reads_back(group);
    lemma_port_reads_back(port);
    match iface {
        Some(addr) => {
            reveal_strlit("?iface=");
            reveal_strlit("iface=");
            let query = "iface="@ + addr.text();
            lemma_target_parts(host, digits, Some(query));
            assert(rest =~= host + seq![':'] + digits + seq!['?'] + query);
            lemma_iface_reads_back(addr, url);
        },
        None => {
            lemma_target_parts(host, digits, None);
            assert(rest =~= host + seq![':'] + digits);
        },
    }
}

/// A stream URL is read back from how it is written.
pub proof fn law_url_text_is_read_back(url: StreamUrl)
    requires
        is_proper(url),
    ensures
        url_of(url_text(url)) == Ok::<StreamUrl, UrlFault>(url),
{
    reveal_strlit("udp://@");
    reveal_strlit("rtp://@");
    reveal_strlit("udp");
    reveal_strlit("rtp");
    reveal_strlit("://");
    let s = url_text(url);
    let (rtp, group, port, iface) = match url {
        StreamUrl::UdpMulticast { group, port, iface } => (false, group, port, iface),
        StreamUrl::RtpMulticast { group, port, iface } => (true, group, port, iface),
    };
    lemma_place_reads_back(rtp, group, port, iface, s);
    assert(crate::text::find(s, "://"@, 0) == 3) by {
        reveal_with_fuel(crate::text::find, 5);
        assert(s.subrange(0, 3)[0] != ':');
        assert(s.subrange(1, 4)[0] != ':');
        assert(s.subrange(2, 5)[0] != ':');
        assert(s.subrange(3, 6) =~= "://"@);
    }
    assert(s.take(3) =~= if rtp {
        "rtp"@
    } else {
        "udp"@
    });
    assert(s.skip(6) =~= seq!['@'] + place_text(group, port, iface));
    if rtp {
        assert(s.take(3)[0] == 'r');
    }
}

/// Only groups and ports above zero are streams.
pub proof fn law_streams_are_proper(url: Seq<char>)
    requires
        url_of(url) is Ok,
    ensures
        is_proper(url_of(url)->Ok_0),
{
}

/// A URL, in parts.
pub open spec fn joined(
    scheme: Seq<char>,
    at: bool,
    host: Seq<char>,
    digits: Seq<char>,
    query: Option<Seq<char>>,
) -> Seq<char> {
    scheme + "://"@ + (if at {
        seq!['@']
    } else {
        Seq::empty()
    }) + (match query {
        Some(query) => host + seq![':'] + digits + seq!['?'] + query,
        None => host + seq![':'] + digits,
    })
}

proof fn lemma_scheme_ends_at_its_mark(scheme: Seq<char>, target: Seq<char>, from: int)
    requires
        0 <= from <= scheme.len(),
        !scheme.contains(':'),
    ensures
        crate::text::find(scheme + "://"@ + target, "://"@, from) == scheme.len(),
    decreases scheme.len() - from,
{
    reveal_strlit("://");
    let s = scheme + "://"@ + target;
    if from == scheme.len() {
        assert(s.subrange(from, from + 3) =~= "://"@);
    } else {
        assert(scheme.contains(scheme[from]));
        assert(s.subrange(from, from + 3)[0] == scheme[from]);
        lemma_scheme_ends_at_its_mark(scheme, target, from + 1);
    }
}

/// A URL is judged part by part: its scheme, its host, its port, whether the
/// host is a group and the port above zero, and at last its query.  A mark `@`
/// before the host changes nothing.
pub proof fn law_urls_are_judged_part_by_part(
    scheme: Seq<char>,
    at: bool,
    host: Seq<char>,
    digits: Seq<char>,
    query: Option<Seq<char>>,
)
    requires
        !scheme.contains(':'),
        !host.contains('?'),
        !digits.contains('?'),
        !digits.contains(':'),
        !at ==> host.len() == 0 || host[0] != '@',
    ensures
        ({
            let url = joined(scheme, at, host, digits, query);
            let r = url_of(url);
            let udp = crate::text::spells(scheme, "udp"@);
            let rtp = crate::text::spells(scheme, "rtp"@);
            let address = crate::net::ipv4::address_of(host);
            let port = port_of(digits);
            let iface = match query {
                Some(query) => iface_of(query, url),
                None => Ok(None),
            };
            &&& !udp && !rtp ==> r == Err::<StreamUrl, UrlFault>(
                UrlFault::UnknownScheme(crate::text::lowercase(scheme)),
            )
            &&& (udp || rtp) && address is None ==> r == Err::<StreamUrl, UrlFault>(
                UrlFault::Malformed("endereço inválido: "@ + host),
            )
            &&& (udp || rtp) && address is Some && port is None ==> r == Err::<
                StreamUrl,
                UrlFault,
            >(UrlFault::Malformed("porta inválida: "@ + digits))
            &&& (udp || rtp) && address is Some && port is Some ==> {
                let (group, number) = (address->0, port->0);
                &&& group.a < 224 || group.a > 239 ==> r == Err::<StreamUrl, UrlFault>(
                    UrlFault::NotMulticast(group),
                )
                &&& 224 <= group.a <= 239 && number == 0 ==> r == Err::<StreamUrl, UrlFault>(
                    UrlFault::InvalidPort,
                )
                &&& 224 <= group.a <= 239 && number > 0 && iface is Err ==> r == Err::<
                    StreamUrl,
                    UrlFault,
                >(iface->Err_0)
                &&& 224 <= group.a <= 239 && number > 0 && iface is Ok ==> {
                    &&& udp ==> r == Ok::<StreamUrl, UrlFault>(
                        StreamUrl::UdpMulticast { group, port: number as u16, iface: iface->Ok_0 },
                    )
                    &&& rtp ==> r == Ok::<StreamUrl, UrlFault>(
                        StreamUrl::RtpMulticast { group, port: number as u16, iface: iface->Ok_0 },
                    )
                }
            }
        }),
{
    reveal_strlit("://");
    reveal_strlit("udp");
    reveal_strlit("rtp");
    let url = joined(scheme, at, host, digits, query);
    let rest = match query {
        Some(query) => host + seq![':'] + digits + seq!['?'] + query,
        None => host + seq![':'] + digits,
    };
    let target = (if at {
        seq!['@']
    } else {
        Seq::empty()
    }) + rest;
    assert(url =~= scheme + "://"@ + target);
    lemma_scheme_ends_at_its_mark(scheme, target, 0);
    assert(url.take(scheme.len() as int) =~= scheme);
    assert(url.skip(scheme.len() + 3int) =~= target);
    if at {
        assert(target[0] == '@');
        assert(target.skip(1) =~= rest);
    } else {
        assert(target =~= rest);
        assert(rest[0] == if host.len() > 0 {
            host[0]
        } else {
            ':'
        });
    }
    lemma_target_parts(host, digits, query);
    if crate::text::spells(scheme, "udp"@) && crate::text::spells(scheme, "rtp"@) {
        assert(crate::text::lower_letter(scheme[0]) == 'u');
        assert(crate::text::lower_letter(scheme[0]) == 'r');
    }
}

/// A text without the mark behind the scheme, or without a port, names no
/// stream.
pub proof fn law_urls_need_a_scheme_and_a_port(url: Seq<char>, scheme: Seq<char>, rest: Seq<char>)
    requires
        !scheme.contains(':'),
        !rest.contains(':'),
    ensures
        !url.contains(':') ==> url_of(url) == Err::<StreamUrl, UrlFault>(UrlFault::Malformed(url)),
        crate::text::spells(scheme, "udp"@) || crate::text::spells(scheme, "rtp"@) ==> url_of(
            scheme + "://"@ + rest,
        ) == Err::<StreamUrl, UrlFault>(UrlFault::Malformed(scheme + "://"@ + rest)),
{
    reveal_strlit("://");
    if !url.contains(':') {
        crate::text::law_found_places_hold_the_pattern(url, "://"@, 0);
        let i = crate::text::find(url, "://"@, 0);
        if i >= 0 {
            assert(url.subrange(i, i + 3)[0] == url[i]);
            assert(url.contains(url[i]));
        }
    }
    let whole = scheme + "://"@ + rest;
    lemma_scheme_ends_at_its_mark(scheme, rest, 0);
    assert(whole.take(scheme.len() as int) =~= scheme);
    assert(whole.skip(scheme.len() + 3int) =~= rest);
    let target = if rest.len() > 0 && rest[0] == '@' {
        rest.skip(1)
    } else {
        rest
    };
    let q = crate::text::find(target, seq!['?'], 0);
    crate::text::law_found_places_hold_the_pattern(target, seq!['?'], 0);
    let place = if q < 0 {
        target
    } else {
        target.take(q)
    };
    let c = crate::text::find_last(place, ':', place.len() as int);
    if c >= 0 {
        if place.len() > 0 {
            crate::text::law_search_from_the_end_finds_the_last_place(
                place,
                ':',
                place.len() as int,
                0,
            );
            assert(rest.contains(place[c]));
        }
    }
}

/// A port is a number up to 65535, after a plus sign or not.
pub proof fn law_ports_are_numbers(n: nat)
    ensures
        n <= 65_535 ==> port_of(crate::text::decimal(n)) == Some(n) && port_of(
            seq!['+'] + crate::text::decimal(n),
        ) == Some(n),
        n > 65_535 ==> port_of(crate::text::decimal(n)) is None && port_of(
            seq!['+'] + crate::text::decimal(n),
        ) is None,
{
    crate::text::lemma_decimal_reads_back(n);
    let digits = crate::text::decimal(n);
    assert((seq!['+'] + digits).skip(1) =~= digits);
    assert('0' <= digits[0] <= '9');
}

/// A port holds nothing but digits behind its sign, and at least one.
pub proof fn law_ports_hold_digits_only(s: Seq<char>, i: int)
    requires
        port_of(s) is Some,
        0 <= i < s.len(),
    ensures
        '0' <= s[i] <= '9' || (i == 0 && s[0] == '+' && s.len() > 1),
{
    if s[0] == '+' {
        if i > 0 {
            assert(s.skip(1)[i - 1] == s[i]);
        }
    }
}

proof fn lemma_search_shifted(s: Seq<char>, c: char, k: int, from: int)
    requires
        0 <= k <= s.len(),
        0 <= from,
    ensures
        ({
            let r = crate::text::find(s.skip(k), seq![c], from);
            crate::text::find(s, seq![c], k + from) == if r < 0 {
                -1
            } else {
                r + k
            }
        }),
    decreases s.len() - k - from,
{
    let tail = s.skip(k);
    if from < tail.len() {
        assert(tail.subrange(from, from + 1) =~= s.subrange(k + from, k + from + 1));
        lemma_search_shifted(s, c, k, from + 1);
    }
}

proof fn lemma_interface_shifted(query: Seq<char>, k: int, from: int)
    requires
        0 <= k <= query.len(),
        0 <= from,
    ensures
        iface_value(query, k + from) == iface_value(query.skip(k), from),
    decreases query.len() - k - from,
{
    reveal_strlit("iface=");
    let tail = query.skip(k);
    lemma_search_shifted(query, '&', k, from);
    if from <= tail.len() {
        crate::text::law_found_places_hold_the_pattern(tail, seq!['&'], from);
        let i = crate::text::find(tail, seq!['&'], from);
        let end = if i < 0 {
            tail.len() as int
        } else {
            i
        };
        if from + 6 <= end {
            assert(tail.subrange(from, from + 6) =~= query.subrange(k + from, k + from + 6));
            assert(tail.subrange(from + 6, end) =~= query.subrange(k + from + 6, k + end));
        }
        if i >= from && i < tail.len() {
            lemma_interface_shifted(query, k, i + 1);
        }
    }
}

/// The parameters of a query stand between `&`.  The first whose name is
/// `iface` names the interface; those before it are passed over.
pub proof fn law_first_interface_counts(parameter: Seq<char>, others: Seq<char>)
    requires
        !parameter.contains('&'),
    ensures
        ({
            let named = parameter.len() >= 6 && parameter.take(6) == "iface="@;
            &&& named ==> iface_value(parameter, 0) == Some(parameter.skip(6))
            &&& !named ==> iface_value(parameter, 0) is None
            &&& named ==> iface_value(parameter + seq!['&'] + others, 0) == Some(parameter.skip(6))
            &&& !named ==> iface_value(parameter + seq!['&'] + others, 0) == iface_value(others, 0)
        }),
{
    reveal_strlit("iface=");
    let empty = Seq::<char>::empty();
    assert forall|i: int| 0 <= i < parameter.len() implies parameter[i] != '&' by {
        assert(parameter.contains(parameter[i]));
    }
    crate::net::ipv4::lemma_find_nothing(empty, parameter, '&');
    assert(empty + parameter =~= parameter);
    crate::net::ipv4::lemma_find_behind(empty, parameter, '&', others);
    let query = parameter + seq!['&'] + others;
    assert(empty + parameter + seq!['&'] + others =~= query);
    let n = parameter.len() as int;
    if n >= 6 {
        assert(parameter.subrange(0, 6) =~= parameter.take(6));
        assert(query.subrange(0, 6) =~= parameter.take(6));
        assert(parameter.subrange(6, n) =~= parameter.skip(6));
        assert(query.subrange(6, n) =~= parameter.skip(6));
    }
    assert(query.skip(n + 1) =~= others);
    lemma_interface_shifted(query, n + 1, 0);
}

/// An interface that is named must be an address.
pub proof fn law_interfaces_are_addresses(query: Seq<char>, url: Seq<char>)
    ensures
        iface_value(query, 0) is None ==> iface_of(query, url) == Ok::<Option<Ipv4Addr>, UrlFault>(
            None,
        ),
        iface_value(query, 0) matches Some(value) ==> {
            let address = crate::net::ipv4::address_of(value);
            &&& address is Some ==> iface_of(query, url) == Ok::<Option<Ipv4Addr>, UrlFault>(
                address,
            )
            &&& address is None ==> iface_of(query, url) == Err::<Option<Ipv4Addr>, UrlFault>(
                UrlFault::Malformed("iface inválido: "@ + value + " em "@ + url),
            )
        },
{
}

} // verus!
