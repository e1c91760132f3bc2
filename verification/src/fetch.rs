//! Which addresses a file may be fetched from.

use crate::ascii::{lowered, same_ignoring_case, to_lower};
use crate::handler_error::{fault, Fault, HandlerError};
use crate::policy::Policy;
use crate::text::{cat2, cat3, cat4, debug_text, opt_view, quoted, same, views};
use vstd::prelude::*;

verus! {

/// The scheme, the host and the port of a URL, or what is wrong with it. Where a
/// URL names no port, it is the usual one of its scheme.
pub uninterp spec fn url_parts(raw: Seq<char>) -> Result<(Seq<char>, Option<Seq<char>>, Option<int>), Seq<char>>;

/// What `parse_url` gives.
pub open spec fn parts_view(r: Result<(String, Option<String>, Option<u16>), String>) -> Result<
    (Seq<char>, Option<Seq<char>>, Option<int>),
    Seq<char>,
> {
    match r {
        Ok((scheme, host, port)) => Ok(
            (
                scheme@,
                opt_view(host),
                match port {
                    Some(p) => Some(p as int),
                    None => None,
                },
            ),
        ),
        Err(e) => Err(e@),
    }
}

/// `url::Url::parse`, with `scheme`, `host_str` and `port_or_known_default`; the
/// error by its `to_string`.
#[verifier::external_body]
pub(crate) fn parse_url(raw: &str) -> (r: Result<(String, Option<String>, Option<u16>), String>)
    ensures
        parts_view(r) == url_parts(raw@),
{
    match url::Url::parse(raw) {
        Ok(url) => Ok((url.scheme().to_owned(), url.host_str().map(|h| h.to_owned()), url.port_or_known_default())),
        Err(error) => Err(error.to_string()),
    }
}

/// An address in the network.
#[derive(Debug, Clone, Copy, PartialEq, Eq, Structural)]
pub enum Address {
    V4(u8, u8, u8, u8),
    V6(u16, u16, u16, u16, u16, u16, u16, u16),
}

/// Addresses shared by the customers of a provider.
pub open spec fn cgnat(a: u8, b: u8) -> bool {
    a == 100 && 64 <= b <= 127
}

/// An address of four bytes that belongs to nobody in the public network: of this
/// machine, of a private network or a link, for many receivers, for documentation, or
/// reserved.
pub open spec fn non_public_v4(a: u8, b: u8, c: u8, d: u8) -> bool {
    ||| a == 127
    ||| a == 10 || (a == 172 && 16 <= b <= 31) || (a == 192 && b == 168)
    ||| a == 169 && b == 254
    ||| 224 <= a <= 239
    ||| (a == 192 && b == 0 && c == 2) || (a == 198 && b == 51 && c == 100) || (a == 203 && b == 0 && c == 113)
    ||| a == 0
    ||| a >= 240
    ||| cgnat(a, b)
}

/// An address that belongs to nobody in the public network. One of four bytes that is
/// written in the longer form is what it is in the shorter.
pub open spec fn non_public(ip: Address) -> bool {
    match ip {
        Address::V4(a, b, c, d) => non_public_v4(a, b, c, d),
        Address::V6(a, b, c, d, e, f, g, h) => {
            ||| a == 0 && b == 0 && c == 0 && d == 0 && e == 0 && f == 0 && g == 0 && h <= 1
            ||| a >= 0xff00
            ||| 0xfc00 <= a <= 0xfdff
            ||| 0xfe80 <= a <= 0xfebf
            ||| a == 0x2001 && b == 0x0db8
            ||| a == 0 && b == 0 && c == 0 && d == 0 && e == 0 && f == 0xffff && non_public_v4(
                (g / 256) as u8,
                (g % 256) as u8,
                (h / 256) as u8,
                (h % 256) as u8,
            )
        },
    }
}

fn is_non_public_v4(a: u8, b: u8, c: u8, d: u8) -> (r: bool)
    ensures
        r == non_public_v4(a, b, c, d),
{
    a == 127 || a == 10 || (a == 172 && 16 <= b && b <= 31) || (a == 192 && b == 168) || (a == 169 && b == 254) || (224 <= a
        && a <= 239) || (a == 192 && b == 0 && c == 2) || (a == 198 && b == 51 && c == 100) || (a == 203 && b == 0 && c
        == 113) || a == 0 || a >= 240 || (a == 100 && 64 <= b && b <= 127)
}

/// Whether an address belongs to the public network.
pub fn is_safe_ip(ip: Address) -> (r: bool)
    ensures
        r == !non_public(ip),
{
    match ip {
        Address::V4(a, b, c, d) => !is_non_public_v4(a, b, c, d),
        Address::V6(a, b, c, d, e, f, g, h) => !((a == 0 && b == 0 && c == 0 && d == 0 && e == 0 && f == 0 && g == 0 && h
            <= 1) || a >= 0xff00 || (0xfc00 <= a && a <= 0xfdff) || (0xfe80 <= a && a <= 0xfebf) || (a == 0x2001 && b
            == 0x0db8) || (a == 0 && b == 0 && c == 0 && d == 0 && e == 0 && f == 0xffff && is_non_public_v4(
            (g / 256) as u8,
            (g % 256) as u8,
            (h / 256) as u8,
            (h % 256) as u8,
        ))),
    }
}

/// The host is one of the trusted ones, in whatever case.
pub open spec fn trusted(hosts: Seq<Seq<char>>, host: Seq<char>) -> bool {
    exists|i: int| 0 <= i < hosts.len() && lowered(#[trigger] hosts[i]) == lowered(host)
}

/// Where a file is fetched from: a host in lower case, and a port.
pub open spec fn fetch_target_of(hosts: Seq<Seq<char>>, raw: Seq<char>) -> Result<(Seq<char>, int), Fault> {
    match url_parts(raw) {
        Err(e) => Err(fault("invalid_payload"@, "bad file_url: "@ + e)),
        Ok(parts) => fetch_parts(hosts, parts.0, parts.1, parts.2),
    }
}

/// The same, for a URL that has been taken apart.
pub open spec fn fetch_parts(hosts: Seq<Seq<char>>, scheme: Seq<char>, host: Option<Seq<char>>, port: Option<int>) -> Result<
    (Seq<char>, int),
    Fault,
> {
    if scheme != "https"@ {
        Err(fault("invalid_payload"@, "file_url must be https"@))
    } else {
        match host {
            None => Err(fault("invalid_payload"@, "file_url has no hostname"@)),
            Some(h) => if hosts.len() == 0 {
                Err(
                    fault(
                        "fetch_blocked"@,
                        "file_url fetching is disabled because trusted_fetch_hosts is empty"@,
                    ),
                )
            } else if !trusted(hosts, lowered(h)) {
                Err(
                    fault(
                        "fetch_blocked"@,
                        "hostname "@ + debug_text(lowered(h)) + " is not in security.trusted_fetch_hosts"@,
                    ),
                )
            } else {
                Ok(
                    (
                        lowered(h),
                        match port {
                            Some(p) => p,
                            None => 443,
                        },
                    ),
                )
            },
        }
    }
}

pub open spec fn target_view(r: Result<(String, u16), HandlerError>) -> Result<(Seq<char>, int), Fault> {
    match r {
        Ok((host, port)) => Ok((host@, port as int)),
        Err(e) => Err(e@),
    }
}

fn is_trusted(hosts: &Vec<String>, host: &str) -> (r: bool)
    ensures
        r == trusted(views(hosts@), host@),
{
    let ghost all = views(hosts@);
    let mut i: usize = 0;
    while i < hosts.len()
        invariant
            i <= hosts@.len(),
            all == views(hosts@),
            forall|j: int| 0 <= j < i ==> lowered(#[trigger] all[j]) != lowered(host@),
        decreases hosts@.len() - i,
    {
        assert(all[i as int] == hosts@[i as int]@);
        if same_ignoring_case(&hosts[i], host) {
            assert(all.len() == hosts@.len());
            assert(trusted(all, host@));
            return true;
        }
        i = i + 1;
    }
    false
}

/// Where a file may be fetched from, for a URL that has been taken apart.
pub fn check_parts(policy: &Policy, scheme: &str, host: Option<String>, port: Option<u16>) -> (r: Result<
    (String, u16),
    HandlerError,
>)
    ensures
        target_view(r) == fetch_parts(
            views(policy.trusted_fetch_hosts@),
            scheme@,
            opt_view(host),
            match port {
                Some(p) => Some(p as int),
                None => None,
            },
        ),
{
    if !same(scheme, "https") {
        return Err(HandlerError::new("invalid_payload", "file_url must be https"));
    }
    let host = match host {
        Some(h) => to_lower(&h),
        None => return Err(HandlerError::new("invalid_payload", "file_url has no hostname")),
    };
    assert(views(policy.trusted_fetch_hosts@).len() == policy.trusted_fetch_hosts@.len());
    if policy.trusted_fetch_hosts.len() == 0 {
        return Err(
            HandlerError::new("fetch_blocked", "file_url fetching is disabled because trusted_fetch_hosts is empty"),
        );
    }
    if !is_trusted(&policy.trusted_fetch_hosts, &host) {
        return Err(
            HandlerError::new(
                "fetch_blocked",
                &cat3("hostname ", &quoted(&host), " is not in security.trusted_fetch_hosts"),
            ),
        );
    }
    let port = match port {
        Some(p) => p,
        None => 443,
    };
    Ok((host, port))
}

/// Where a file may be fetched from, by its URL.
pub fn fetch_target(policy: &Policy, raw: &str) -> (r: Result<(String, u16), HandlerError>)
    ensures
        target_view(r) == fetch_target_of(views(policy.trusted_fetch_hosts@), raw@),
{
    match parse_url(raw) {
        Ok((scheme, host, port)) => check_parts(policy, &scheme, host, port),
        Err(e) => Err(HandlerError::new("invalid_payload", &cat2("bad file_url: ", &e))),
    }
}

/// An address that a name resolved to, and how it is written.
pub struct Resolved {
    pub address: Address,
    pub shown: String,
}

/// The first address from `i` on that is not public.
pub open spec fn first_unsafe(found: Seq<Resolved>, i: int) -> Option<int>
    decreases found.len() - i,
{
    if i < 0 || i >= found.len() {
        None
    } else if non_public(found[i].address) {
        Some(i)
    } else {
        first_unsafe(found, i + 1)
    }
}

/// What is wrong with what a host resolved to.
pub open spec fn address_fault(host: Seq<char>, found: Seq<Resolved>) -> Option<Fault> {
    match first_unsafe(found, 0) {
        Some(i) => Some(
            fault(
                "fetch_blocked"@,
                "hostname "@ + debug_text(host) + " resolved to non-public IP "@ + found[i].shown@,
            ),
        ),
        None => if found.len() == 0 {
            Some(fault("fetch_failed"@, "DNS resolution returned no addresses"@))
        } else {
            None
        },
    }
}

/// A host is only used where it resolves, and all that it resolves to is public.
pub fn check_addresses(host: &str, found: &Vec<Resolved>) -> (r: Result<(), HandlerError>)
    ensures
        match r {
            Ok(_) => address_fault(host@, found@) is None,
            Err(e) => address_fault(host@, found@) == Some(e@),
        },
{
    let mut i: usize = 0;
    while i < found.len()
        invariant
            i <= found@.len(),
            first_unsafe(found@, 0) == first_unsafe(found@, i as int),
        decreases found@.len() - i,
    {
        if !is_safe_ip(found[i].address) {
            return Err(
                HandlerError::new(
                    "fetch_blocked",
                    &cat4("hostname ", &quoted(host), " resolved to non-public IP ", &found[i].shown),
                ),
            );
        }
        i = i + 1;
    }
    if found.len() == 0 {
        return Err(HandlerError::new("fetch_failed", "DNS resolution returned no addresses"));
    }
    Ok(())
}

proof fn lemma_none_unsafe(found: Seq<Resolved>, i: int, k: int)
    requires
        0 <= i <= k < found.len(),
        first_unsafe(found, i) is None,
    ensures
        !non_public(found[k].address),
    decreases k - i,
{
    if i < k {
        lemma_none_unsafe(found, i + 1, k);
    }
}

/// Nothing is fetched from a host that resolves to an address outside the public
/// network, whatever else it resolves to.
pub proof fn fetched_hosts_are_public(host: Seq<char>, found: Seq<Resolved>, k: int)
    requires
        address_fault(host, found) is None,
        0 <= k < found.len(),
    ensures
        !non_public(found[k].address),
{
    lemma_none_unsafe(found, 0, k);
}

/// A file is only fetched over HTTPS and from a trusted host.
pub proof fn fetched_hosts_are_trusted(hosts: Seq<Seq<char>>, scheme: Seq<char>, host: Option<Seq<char>>, port: Option<int>)
    ensures
        fetch_parts(hosts, scheme, host, port) matches Ok((h, _)) ==> scheme == "https"@ && trusted(hosts, h),
{
}

/// The longer form of an address of four bytes is public exactly where the shorter is.
pub proof fn mapped_addresses_are_alike(a: u8, b: u8, c: u8, d: u8)
    ensures
        non_public(Address::V6(0, 0, 0, 0, 0, 0xffff, (a * 256 + b) as u16, (c * 256 + d) as u16)) == non_public(
            Address::V4(a, b, c, d),
        ),
{
    let g = (a * 256 + b) as u16;
    let h = (c * 256 + d) as u16;
    assert(g == a * 256 + b && h == c * 256 + d);
    assert(g / 256 == a && g % 256 == b && h / 256 == c && h % 256 == d);
}

/// A file is fetched from a host that is trusted, whatever the case of its name, over a
/// secure connection, at the port that is named or the usual one.
pub proof fn trusted_hosts_are_fetched_from(hosts: Seq<Seq<char>>, host: Seq<char>, k: int, port: Option<int>)
    requires
        0 <= k < hosts.len(),
        lowered(hosts[k]) == lowered(host),
    ensures
        fetch_parts(hosts, "https"@, Some(host), port) == Ok::<(Seq<char>, int), Fault>(
            (
                lowered(host),
                match port {
                    Some(p) => p,
                    None => 443,
                },
            ),
        ),
{
    assert(lowered(lowered(host)) =~= lowered(host));
}

/// Nothing is fetched where no host is trusted, nor over another connection.
pub proof fn other_fetches_are_refused(hosts: Seq<Seq<char>>, scheme: Seq<char>, host: Seq<char>, port: Option<int>)
    ensures
        hosts.len() == 0 && scheme == "https"@ ==> (fetch_parts(hosts, scheme, Some(host), port) matches Err(f) && f.code
            == "fetch_blocked"@),
        scheme != "https"@ ==> (fetch_parts(hosts, scheme, Some(host), port) matches Err(f) && f.code == "invalid_payload"@),
        fetch_parts(hosts, scheme, None, port) is Err,
{
}

/// The addresses of private networks, of the machine itself and of its neighbours are not
/// public; those outside of the reserved ranges are.
pub proof fn private_addresses_are_known(a: u8, b: u8, c: u8, d: u8)
    ensures
        non_public(Address::V4(127, b, c, d)),
        non_public(Address::V4(10, b, c, d)),
        non_public(Address::V4(172, b, c, d)) <==> 16 <= b <= 31,
        non_public(Address::V4(192, 168, c, d)),
        non_public(Address::V4(169, 254, c, d)),
        non_public(Address::V4(0, b, c, d)),
        a >= 224 ==> non_public(Address::V4(a, b, c, d)),
        non_public(Address::V4(100, b, c, d)) <==> 64 <= b <= 127,
        non_public(Address::V6(0, 0, 0, 0, 0, 0, 0, 1)),
        0 < a < 224 && a != 10 && a != 100 && a != 127 && a != 169 && a != 172 && a != 192 && a != 198 && a != 203
            ==> !non_public(Address::V4(a, b, c, d)),
{
}

/// Of the longer addresses those of the machine itself, of its neighbours, of private
/// networks, of groups and of examples are not public, and the others are.
pub proof fn longer_addresses_are_known(a: u16, b: u16, c: u16, d: u16, e: u16, f: u16, g: u16, h: u16)
    ensures
        a >= 0xff00 ==> non_public(Address::V6(a, b, c, d, e, f, g, h)),
        0xfc00 <= a <= 0xfdff ==> non_public(Address::V6(a, b, c, d, e, f, g, h)),
        0xfe80 <= a <= 0xfebf ==> non_public(Address::V6(a, b, c, d, e, f, g, h)),
        non_public(Address::V6(0x2001, b, c, d, e, f, g, h)) <==> b == 0xdb8,
        0 < a < 0xfc00 && a != 0x2001 ==> !non_public(Address::V6(a, b, c, d, e, f, g, h)),
        0xfe00 <= a < 0xfe80 ==> !non_public(Address::V6(a, b, c, d, e, f, g, h)),
        non_public(Address::V6(0, 0, 0, 0, 0, 0, 0, h)) <==> h <= 1,
{
}

} // verus!
