//! Which names are looked up, and what the answers are called.
use vstd::prelude::*;
use vstd::string::*;

use crate::base::addr::{EndpointAddr, Family, SocketAddr};
use crate::base::text::join;

verus! {

/// The service that is looked up where none is named.
pub const DEFAULT_SERVICE: &'static str = "443";

/// Where a record comes from.
#[derive(Debug)]
pub enum Source {
    /// The family is named as the caller shows it.
    Mdns { nic: String, family: String },
    Http { server: String },
    H3 { server: String },
    System,
    Dht,
}

impl Source {
    /// What the source is called.
    pub fn describe(&self) -> (text: String)
        ensures
            text@ == match *self {
                Source::Mdns { nic, family } => "MDNS Resolver("@ + nic@ + " "@ + family@ + ")"@,
                Source::Http { server } => "HTTP DNS Resolver("@ + server@ + ")"@,
                Source::H3 { server } => "H3 DNS Resolver("@ + server@ + ")"@,
                Source::System => "System DNS Resolver"@,
                Source::Dht => "DHT"@,
            },
    {
        match self {
            Source::Mdns { nic, family } => {
                let on = join(join("MDNS Resolver(", nic.as_str()).as_str(), " ");
                join(join(on.as_str(), family.as_str()).as_str(), ")")
            },
            Source::Http { server } => join(join("HTTP DNS Resolver(", server.as_str()).as_str(), ")"),
            Source::H3 { server } => join(join("H3 DNS Resolver(", server.as_str()).as_str(), ")"),
            Source::System => "System DNS Resolver".to_owned(),
            Source::Dht => "DHT".to_owned(),
        }
    }
}

/// Where a character first stands in a text, from some place on.
pub open spec fn first_at(text: Seq<char>, wanted: char, from: int) -> Option<int>
    decreases text.len() - from,
{
    if from < 0 || from >= text.len() {
        None
    } else if text[from] == wanted {
        Some(from)
    } else {
        first_at(text, wanted, from + 1)
    }
}

/// Where a character last stands in the first `end` characters of a text.
pub open spec fn last_at(text: Seq<char>, wanted: char, end: int) -> Option<int>
    decreases end,
{
    if end <= 0 || end > text.len() {
        None
    } else if text[end - 1] == wanted {
        Some(end - 1)
    } else {
        last_at(text, wanted, end - 1)
    }
}

/// The value of a decimal digit.
pub open spec fn digit_of(c: char) -> int {
    c as u32 - '0' as u32
}

pub open spec fn is_digit(c: char) -> bool {
    '0' as u32 <= c as u32 <= '9' as u32
}

/// Whether a text is made of decimal digits.
pub open spec fn all_digits(text: Seq<char>) -> bool {
    forall|i: int| #![trigger text[i]] 0 <= i < text.len() ==> is_digit(text[i])
}

/// The number that decimal digits write.
pub open spec fn decimal(text: Seq<char>) -> int
    decreases text.len(),
{
    if text.len() == 0 {
        0
    } else {
        decimal(text.drop_last()) * 10 + digit_of(text.last())
    }
}

/// The digits of a number that may have a plus sign.
pub open spec fn unsigned_part(text: Seq<char>) -> Seq<char> {
    if text.len() > 0 && text[0] == '+' {
        text.skip(1)
    } else {
        text
    }
}

/// Whether a text is a port: a number of 16 bits.
pub open spec fn is_port_text(text: Seq<char>) -> bool {
    let digits = unsigned_part(text);
    digits.len() > 0 && all_digits(digits) && decimal(digits) <= u16::MAX
}

proof fn lemma_decimal_grows(text: Seq<char>, n: int)
    requires
        0 <= n <= text.len(),
        all_digits(text),
    ensures
        0 <= decimal(text.take(n)) <= decimal(text),
    decreases text.len() - n,
{
    if n < text.len() {
        lemma_decimal_grows(text, n + 1);
        assert(text.take(n + 1).drop_last() =~= text.take(n));
        lemma_decimal_nonnegative(text.take(n));
        assert(is_digit(text[n]));
    } else {
        assert(text.take(n) =~= text);
        lemma_decimal_nonnegative(text);
    }
}

proof fn lemma_decimal_nonnegative(text: Seq<char>)
    requires
        all_digits(text),
    ensures
        decimal(text) >= 0,
    decreases text.len(),
{
    if text.len() > 0 {
        assert(is_digit(text[text.len() - 1]));
        lemma_decimal_nonnegative(text.drop_last());
    }
}

/// Whether a text is a port.
pub fn is_port(text: &str) -> (port: bool)
    ensures
        port == is_port_text(text@),
{
    let len = text.unicode_len();
    let start: usize = if len > 0 && text.get_char(0) == '+' {
        1
    } else {
        0
    };
    let ghost digits = unsigned_part(text@);
    assert(digits =~= text@.skip(start as int));
    if start == len {
        return false;
    }
    let mut value: u32 = 0;
    let mut at: usize = start;
    assert(digits.take(0) =~= Seq::empty());
    while at < len
        invariant
            start <= at <= len,
            len == text@.len(),
            digits == text@.skip(start as int),
            digits == unsigned_part(text@),
            all_digits(digits.take(at - start)),
            value == decimal(digits.take(at - start)),
            value <= u16::MAX,
        decreases len - at,
    {
        let c = text.get_char(at);
        let ghost n = at - start;
        assert(digits[n] == c);
        assert(digits.take(n + 1).drop_last() =~= digits.take(n));
        let code = c as u32;
        if code < 48 || code > 57 {
            assert(!is_digit(digits[n]));
            return false;
        }
        assert(all_digits(digits.take(n + 1))) by {
            assert forall|i: int| #![trigger digits.take(n + 1)[i]] 0 <= i < n + 1 implies is_digit(
                digits.take(n + 1)[i],
            ) by {
                if i < n {
                    assert(digits.take(n + 1)[i] == digits.take(n)[i]);
                }
            }
        }
        value = value * 10 + (code - 48);
        if value > 65535 {
            proof {
                if all_digits(digits) {
                    lemma_decimal_grows(digits, n + 1);
                }
            }
            return false;
        }
        at = at + 1;
    }
    assert(digits.take(digits.len() as int) =~= digits);
    true
}

/// A host with its port, if it has one.
pub open spec fn split(hostname: Seq<char>, is_ipv6: bool) -> (Seq<char>, Option<Seq<char>>) {
    match split_bracketed(hostname) {
        Some(parts) => parts,
        None => if is_ipv6 {
            (hostname, None)
        } else {
            match last_at(hostname, ':', hostname.len() as int) {
                Some(colon) if colon > 0 && first_at(hostname.take(colon), ':', 0) is None && is_port_text(
                    hostname.skip(colon + 1),
                ) => (hostname.take(colon), Some(hostname.skip(colon + 1))),
                _ => (hostname, None),
            }
        },
    }
}

/// The parts of a host in brackets, with nothing or a port behind them.
pub open spec fn split_bracketed(hostname: Seq<char>) -> Option<(Seq<char>, Option<Seq<char>>)> {
    if hostname.len() > 0 && hostname[0] == '[' {
        match first_at(hostname, ']', 1) {
            Some(close) => {
                let host = hostname.subrange(1, close);
                let suffix = hostname.skip(close + 1);
                if suffix.len() == 0 {
                    Some((host, None))
                } else if suffix[0] == ':' && is_port_text(suffix.skip(1)) {
                    Some((host, Some(suffix.skip(1))))
                } else {
                    None
                }
            },
            None => None,
        }
    } else {
        None
    }
}

fn find_first(text: &str, wanted: char, from: usize, end: usize) -> (place: Option<usize>)
    requires
        from <= end <= text@.len(),
    ensures
        match place {
            Some(place) => from <= place < end && first_at(text@.take(end as int), wanted, from as int) == Some(
                place as int,
            ),
            None => first_at(text@.take(end as int), wanted, from as int) is None,
        },
{
    let ghost part = text@.take(end as int);
    let mut at: usize = from;
    while at < end
        invariant
            from <= at <= end <= text@.len(),
            part == text@.take(end as int),
            first_at(part, wanted, from as int) == first_at(part, wanted, at as int),
        decreases end - at,
    {
        let c = text.get_char(at);
        assert(part[at as int] == c);
        if c == wanted {
            return Some(at);
        }
        at = at + 1;
    }
    None
}

fn find_last(text: &str, wanted: char, end: usize) -> (place: Option<usize>)
    requires
        end <= text@.len(),
    ensures
        match place {
            Some(place) => place < end && last_at(text@, wanted, end as int) == Some(place as int),
            None => last_at(text@, wanted, end as int) is None,
        },
{
    let mut at: usize = end;
    while at > 0
        invariant
            at <= end <= text@.len(),
            last_at(text@, wanted, end as int) == last_at(text@, wanted, at as int),
        decreases at,
    {
        if text.get_char(at - 1) == wanted {
            return Some(at - 1);
        }
        at = at - 1;
    }
    None
}

pub open spec fn parts_text(parts: (&str, Option<&str>)) -> (Seq<char>, Option<Seq<char>>) {
    (
        parts.0@,
        match parts.1 {
            Some(port) => Some(port@),
            None => None,
        },
    )
}

/// Parts a host from its port. A host in brackets ends where they close; `is_ipv6` says whether the
/// whole is an IPv6 address, which then has no port.
pub fn split_host_port(hostname: &str, is_ipv6: bool) -> (parts: (&str, Option<&str>))
    ensures
        parts_text(parts) == split(hostname@, is_ipv6),
{
    let len = hostname.unicode_len();
    let ghost whole = hostname@;
    if len > 0 && hostname.get_char(0) == '[' {
        assert(whole.take(len as int) =~= whole);
        if let Some(close) = find_first(hostname, ']', 1, len) {
            let host = hostname.substring_char(1, close);
            let suffix = hostname.substring_char(close + 1, len);
            assert(suffix@ =~= whole.skip(close + 1));
            let suffix_len = suffix.unicode_len();
            if suffix_len == 0 {
                return (host, None);
            }
            if suffix.get_char(0) == ':' {
                let port = suffix.substring_char(1, suffix_len);
                assert(port@ =~= suffix@.skip(1));
                if is_port(port) {
                    return (host, Some(port));
                }
            }
        }
    }
    assert(split_bracketed(whole) is None);
    if is_ipv6 {
        return (hostname, None);
    }
    if let Some(colon) = find_last(hostname, ':', len) {
        if colon > 0 && find_first(hostname, ':', 0, colon).is_none() {
            let host = hostname.substring_char(0, colon);
            let port = hostname.substring_char(colon + 1, len);
            assert(host@ =~= whole.take(colon as int));
            assert(port@ =~= whole.skip(colon + 1));
            if is_port(port) {
                return (host, Some(port));
            }
        }
    }
    (hostname, None)
}

/// What is asked of the system.
#[derive(Debug)]
pub struct LookupQuery {
    pub host: String,
    pub service: String,
    pub family: Option<Family>,
}

/// The service that is asked for: the port of the host, else the one named, else the default.
pub open spec fn service_for(port: Option<Seq<char>>, servname: Seq<char>) -> Seq<char> {
    match port {
        Some(port) => port,
        None => if servname.len() == 0 {
            DEFAULT_SERVICE@
        } else {
            servname
        },
    }
}

/// Makes a query of a host name, which may have a port, and a service name.
pub fn lookup_query(hostname: &str, servname: &str, family: Option<Family>, is_ipv6: bool) -> (query: LookupQuery)
    ensures
        query.host@ == split(hostname@, is_ipv6).0,
        query.service@ == service_for(split(hostname@, is_ipv6).1, servname@),
        query.family == family,
{
    let (host, port) = split_host_port(hostname, is_ipv6);
    let service = match port {
        Some(port) => port,
        None => if servname.unicode_len() == 0 {
            DEFAULT_SERVICE
        } else {
            servname
        },
    };
    LookupQuery { host: host.to_owned(), service: service.to_owned(), family }
}

/// The resolver of the system.
#[derive(Clone, Copy, Debug, PartialEq, Eq, Structural)]
pub struct SystemResolver;

impl SystemResolver {
    /// What the resolver is called.
    pub fn describe(&self) -> (text: String)
        ensures
            text@ == "System DNS Resolver"@,
    {
        Source::System.describe()
    }

    /// The records for addresses that the system found: direct endpoints, in the same order.
    pub fn records(&self, addrs: &Vec<SocketAddr>) -> (records: Vec<(Source, EndpointAddr)>)
        ensures
            records@.len() == addrs@.len(),
            forall|i: int|
                #![trigger records@[i]]
                0 <= i < records@.len() ==> records@[i].0 is System && records@[i].1 == (EndpointAddr::Direct {
                    addr: addrs@[i],
                }),
    {
        let mut records: Vec<(Source, EndpointAddr)> = Vec::new();
        let mut at: usize = 0;
        while at < addrs.len()
            invariant
                at <= addrs@.len(),
                records@.len() == at,
                forall|i: int|
                    #![trigger records@[i]]
                    0 <= i < records@.len() ==> records@[i].0 is System && records@[i].1 == (EndpointAddr::Direct {
                        addr: addrs@[i],
                    }),
            decreases addrs@.len() - at,
        {
            records.push((Source::System, EndpointAddr::Direct { addr: addrs[at] }));
            at = at + 1;
        }
        records
    }
}

proof fn lemma_last(text: Seq<char>, wanted: char, end: int)
    requires
        0 <= end <= text.len(),
    ensures
        match last_at(text, wanted, end) {
            Some(place) => 0 <= place < end && text[place] == wanted,
            None => forall|i: int| #![trigger text[i]] 0 <= i < end ==> text[i] != wanted,
        },
    decreases end,
{
    if end > 0 && text[end - 1] != wanted {
        lemma_last(text, wanted, end - 1);
    }
}

proof fn lemma_first(text: Seq<char>, wanted: char, from: int)
    requires
        0 <= from <= text.len(),
    ensures
        match first_at(text, wanted, from) {
            Some(place) => from <= place < text.len() && text[place] == wanted && forall|i: int|
                #![trigger text[i]]
                from <= i < place ==> text[i] != wanted,
            None => forall|i: int| #![trigger text[i]] from <= i < text.len() ==> text[i] != wanted,
        },
    decreases text.len() - from,
{
    if from < text.len() && text[from] != wanted {
        lemma_first(text, wanted, from + 1);
    }
}

/// A name without brackets and without a colon is a host without a port.
pub proof fn plain_name_has_no_port(hostname: Seq<char>)
    requires
        forall|i: int| #![trigger hostname[i]] 0 <= i < hostname.len() ==> hostname[i] != ':' && hostname[i] != '[',
    ensures
        split(hostname, false) == (hostname, None::<Seq<char>>),
{
    lemma_last(hostname, ':', hostname.len() as int);
}

/// A port in the host name takes precedence over the service name: a host without brackets or colons,
/// a colon and a port come apart as they were put together.
pub proof fn host_and_port_come_apart(host: Seq<char>, port: Seq<char>, servname: Seq<char>)
    requires
        host.len() > 0,
        forall|i: int| #![trigger host[i]] 0 <= i < host.len() ==> host[i] != ':' && host[i] != '[',
        is_port_text(port),
    ensures
        split(host.push(':') + port, false) == (host, Some(port)),
        service_for(Some(port), servname) == port,
{
    let whole = host.push(':') + port;
    assert(whole[0] == host[0]);
    assert forall|i: int| #![trigger port[i]] 0 <= i < port.len() implies port[i] != ':' by {
        let digits = unsigned_part(port);
        if port[0] == '+' {
            if i > 0 {
                assert(digits[i - 1] == port[i]);
            }
        } else {
            assert(digits[i] == port[i]);
        }
    }
    lemma_last(whole, ':', whole.len() as int);
    assert(whole[host.len() as int] == ':');
    let colon = last_at(whole, ':', whole.len() as int)->0;
    if colon > host.len() {
        assert(whole[colon] == port[colon - host.len() - 1]);
    }
    if colon < host.len() {
        assert(whole[colon] == host[colon]);
        lemma_last_is_last(whole, ':', whole.len() as int, host.len() as int);
    }
    assert(whole.take(colon) =~= host);
    assert(whole.skip(colon + 1) =~= port);
    lemma_first(host, ':', 0);
}

proof fn lemma_last_is_last(text: Seq<char>, wanted: char, end: int, place: int)
    requires
        0 <= place < end <= text.len(),
        text[place] == wanted,
    ensures
        last_at(text, wanted, end) matches Some(last) && last >= place,
    decreases end,
{
    if text[end - 1] != wanted {
        lemma_last_is_last(text, wanted, end - 1, place);
    }
}

/// A host in brackets with a port comes apart as it was put together, whatever stands in the
/// brackets but a closing one.
pub proof fn bracketed_host_and_port_come_apart(host: Seq<char>, port: Seq<char>, is_ipv6: bool)
    requires
        forall|i: int| #![trigger host[i]] 0 <= i < host.len() ==> host[i] != ']',
        is_port_text(port),
    ensures
        split(seq!['['] + host + seq![']', ':'] + port, is_ipv6) == (host, Some(port)),
        split(seq!['['] + host + seq![']'], is_ipv6) == (host, None::<Seq<char>>),
{
    let whole = seq!['['] + host + seq![']', ':'] + port;
    let close = host.len() as int + 1;
    lemma_first(whole, ']', 1);
    assert(whole[close] == ']');
    let found = first_at(whole, ']', 1)->0;
    if found < close {
        assert(whole[found] == host[found - 1]);
    }
    assert(found == close);
    assert(whole.subrange(1, close) =~= host);
    assert(whole.skip(close + 1) =~= seq![':'] + port);
    assert((seq![':'] + port).skip(1) =~= port);
    let bare = seq!['['] + host + seq![']'];
    lemma_first(bare, ']', 1);
    assert(bare[close] == ']');
    let bare_found = first_at(bare, ']', 1)->0;
    if bare_found < close {
        assert(bare[bare_found] == host[bare_found - 1]);
    }
    assert(bare.subrange(1, close) =~= host);
    assert(bare.skip(close + 1) =~= Seq::empty());
}

/// The service that is asked for: that of the port, if there is one; else the one that is named, and port 443
/// where none is.
pub proof fn service_is_port_name_or_default(port: Seq<char>, servname: Seq<char>)
    ensures
        service_for(Some(port), servname) == port,
        servname.len() > 0 ==> service_for(None, servname) == servname,
        service_for(None, Seq::empty()) == "443"@,
{
}

/// A port is a number of decimal digits that fits in sixteen bits, with or without a plus sign.
pub proof fn port_is_a_decimal_number(digits: Seq<char>, last: char)
    ensures
        !is_port_text(Seq::empty()),
        decimal(Seq::empty()) == 0,
        '0' as u32 <= last as u32 <= '9' as u32 ==> decimal(digits.push(last)) == decimal(digits) * 10 + (last as u32 - '0' as u32),
        digits.len() > 0 && digits[0] != '+' ==> (is_port_text(digits) <==> decimal(digits) < 65536 && forall|i: int|
            #![trigger digits[i]]
            0 <= i < digits.len() ==> '0' as u32 <= digits[i] as u32 <= '9' as u32),
        digits.len() > 0 && digits[0] != '+' ==> is_port_text(seq!['+'] + digits) == is_port_text(digits),
{
    assert(digits.push(last).drop_last() =~= digits);
    assert((seq!['+'] + digits).skip(1) =~= digits);
    if digits.len() > 0 && digits[0] != '+' {
        assert(unsigned_part(digits) == digits);
        assert(all_digits(digits) <==> forall|i: int|
            #![trigger digits[i]]
            0 <= i < digits.len() ==> '0' as u32 <= digits[i] as u32 <= '9' as u32);
    }
}

/// An IPv6 address that is not in brackets has no port.
pub proof fn bare_ipv6_address_has_no_port(hostname: Seq<char>)
    requires
        hostname.len() == 0 || hostname[0] != '[',
    ensures
        split(hostname, true) == (hostname, None::<Seq<char>>),
{
}

/// What stands behind the last colon stays with the host where it is no port, where nothing stands before the
/// colon, and where another colon does.
pub proof fn only_a_port_is_taken_off(host: Seq<char>, text: Seq<char>)
    requires
        host.len() == 0 || host[0] != '[',
        forall|i: int| #![trigger text[i]] 0 <= i < text.len() ==> text[i] != ':',
        host.len() == 0 || !is_port_text(text) || exists|i: int|
            #![trigger host[i]]
            0 <= i < host.len() && host[i] == ':',
    ensures
        split(host.push(':') + text, false) == (host.push(':') + text, None::<Seq<char>>),
{
    let whole = host.push(':') + text;
    assert(whole[host.len() as int] == ':');
    if host.len() > 0 {
        assert(whole[0] == host[0]);
    } else {
        assert(whole[0] == ':');
    }
    assert(split_bracketed(whole) is None);
    lemma_last(whole, ':', whole.len() as int);
    lemma_last_is_last(whole, ':', whole.len() as int, host.len() as int);
    let colon = last_at(whole, ':', whole.len() as int)->0;
    if colon > host.len() {
        assert(whole[colon] == text[colon - host.len() - 1]);
    }
    assert(whole.take(colon) =~= host);
    assert(whole.skip(colon + 1) =~= text);
    lemma_first(host, ':', 0);
    if exists|i: int| #![trigger host[i]] 0 <= i < host.len() && host[i] == ':' {
        let i = choose|i: int| #![trigger host[i]] 0 <= i < host.len() && host[i] == ':';
        assert(first_at(host, ':', 0) is Some);
    }
}

} // verus!
