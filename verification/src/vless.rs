//! Parsing of `vless://` share links.
//!
//! A link has the shape `vless://uuid@host:port?k1=v1&k2=v2#label`. The query
//! string carries the transport, the security layer and their parameters.

use vstd::prelude::*;

use crate::percent::{lemma_percent_decoded_plain, percent_decode, percent_decoded};
use crate::text::{
    decimal_text, digit_char, find_first, find_last, push_char, split_on, string_of, trim_bounds,
    trimmed,
};

verus! {

/// A parsed `vless://` share link.
#[derive(Debug, Clone, PartialEq, Eq)]
pub struct VlessLink {
    pub uuid: String,
    pub host: String,
    pub port: u16,
    /// Fragment after `#`, the human-readable label (e.g. `RedShieldVPN_Poland`).
    pub label: Option<String>,
    /// Transport: `tcp` (default), `ws`, `grpc`.
    pub transport: String,
    /// Security layer: `none` (default), `tls`, `reality`.
    pub security: String,
    pub flow: Option<String>,
    pub sni: Option<String>,
    /// uTLS fingerprint (`fp`), e.g. `firefox`, `chrome`.
    pub fingerprint: Option<String>,
    /// Reality public key (`pbk`).
    pub public_key: Option<String>,
    /// Reality short id (`sid`).
    pub short_id: Option<String>,
    /// ws/http path (`path`).
    pub path: Option<String>,
    /// ws `Host` header (`host`).
    pub host_header: Option<String>,
    /// gRPC service name (`serviceName`).
    pub service_name: Option<String>,
    /// Comma-separated ALPN list (`alpn`).
    pub alpn: Option<String>,
}

/// The text of a link's fields.
pub struct SpecVlessLink {
    pub uuid: Seq<char>,
    pub host: Seq<char>,
    pub port: u16,
    pub label: Option<Seq<char>>,
    pub transport: Seq<char>,
    pub security: Seq<char>,
    pub flow: Option<Seq<char>>,
    pub sni: Option<Seq<char>>,
    pub fingerprint: Option<Seq<char>>,
    pub public_key: Option<Seq<char>>,
    pub short_id: Option<Seq<char>>,
    pub path: Option<Seq<char>>,
    pub host_header: Option<Seq<char>>,
    pub service_name: Option<Seq<char>>,
    pub alpn: Option<Seq<char>>,
}

/// The text of an optional string.
pub open spec fn opt_text(o: Option<String>) -> Option<Seq<char>> {
    match o {
        Some(s) => Some(s@),
        None => None,
    }
}

impl View for VlessLink {
    type V = SpecVlessLink;

    open spec fn view(&self) -> SpecVlessLink {
        SpecVlessLink {
            uuid: self.uuid@,
            host: self.host@,
            port: self.port,
            label: opt_text(self.label),
            transport: self.transport@,
            security: self.security@,
            flow: opt_text(self.flow),
            sni: opt_text(self.sni),
            fingerprint: opt_text(self.fingerprint),
            public_key: opt_text(self.public_key),
            short_id: opt_text(self.short_id),
            path: opt_text(self.path),
            host_header: opt_text(self.host_header),
            service_name: opt_text(self.service_name),
            alpn: opt_text(self.alpn),
        }
    }
}

// ---------------------------------------------------------------------------
// Ports
// ---------------------------------------------------------------------------

pub open spec fn is_digit(c: char) -> bool {
    0x30 <= (c as u32) <= 0x39
}

pub open spec fn all_digits(s: Seq<char>) -> bool {
    forall|i: int| 0 <= i < s.len() ==> is_digit(#[trigger] s[i])
}

/// The number that a string of decimal digits spells.
pub open spec fn decimal_value(s: Seq<char>) -> nat
    decreases s.len(),
{
    if s.len() == 0 {
        0
    } else {
        decimal_value(s.drop_last()) * 10 + ((s.last() as u32) - 0x30) as nat
    }
}

/// What `str::parse::<u16>` accepts: an optional `+`, then at least one
/// decimal digit, spelling a number that fits in 16 bits.
pub open spec fn spec_parse_u16(s: Seq<char>) -> Option<u16> {
    let d = if s.len() > 0 && s[0] == '+' {
        s.skip(1)
    } else {
        s
    };
    if d.len() > 0 && all_digits(d) && decimal_value(d) <= 0xffff {
        Some(decimal_value(d) as u16)
    } else {
        None
    }
}

proof fn lemma_decimal_prefix_le(d: Seq<char>, k: int)
    requires
        all_digits(d),
        0 <= k <= d.len(),
    ensures
        decimal_value(d.take(k)) <= decimal_value(d),
    decreases d.len() - k,
{
    if k == d.len() {
        assert(d.take(k) =~= d);
    } else {
        assert(d.take(k + 1).drop_last() =~= d.take(k));
        assert(is_digit(d[k]));
        lemma_decimal_prefix_le(d, k + 1);
    }
}

/// Parses `v[lo..hi]` as a port number.
fn parse_u16(v: &Vec<char>, lo: usize, hi: usize) -> (r: Option<u16>)
    requires
        lo <= hi <= v.len(),
    ensures
        r == spec_parse_u16(v@.subrange(lo as int, hi as int)),
{
    let ghost s = v@.subrange(lo as int, hi as int);
    let mut start = lo;
    if start < hi && v[start] == '+' {
        start = start + 1;
    }
    let ghost d = v@.subrange(start as int, hi as int);
    assert(d =~= (if s.len() > 0 && s[0] == '+' {
        s.skip(1)
    } else {
        s
    }));
    if start == hi {
        return None;
    }
    let mut acc: u32 = 0;
    let mut i = start;
    assert(d.take(0) =~= Seq::<char>::empty());
    while i < hi
        invariant
            lo <= start <= i <= hi <= v.len(),
            d == v@.subrange(start as int, hi as int),
            d.len() > 0,
            spec_parse_u16(v@.subrange(lo as int, hi as int)) == (if all_digits(d)
                && decimal_value(d) <= 0xffff {
                Some(decimal_value(d) as u16)
            } else {
                None
            }),
            all_digits(d.take(i - start)),
            acc == decimal_value(d.take(i - start)),
            acc <= 0xffff,
        decreases hi - i,
    {
        let c = v[i];
        let cu = c as u32;
        if !(0x30 <= cu && cu <= 0x39) {
            assert(!is_digit(d[i - start]));
            return None;
        }
        assert(d.take(i - start + 1).drop_last() =~= d.take(i - start));
        assert(all_digits(d.take(i - start + 1)));
        acc = acc * 10 + (cu - 0x30);
        i = i + 1;
        if acc > 0xffff {
            proof {
                if all_digits(d) {
                    lemma_decimal_prefix_le(d, i - start);
                }
            }
            return None;
        }
    }
    assert(d.take(i - start) =~= d);
    Some(acc as u16)
}

// ---------------------------------------------------------------------------
// host:port
// ---------------------------------------------------------------------------

/// Splits `host:port`; a host in square brackets is an IPv6 literal
/// (`[::1]:443`) and may contain `:` itself.
pub open spec fn spec_split_host_port(hp: Seq<char>) -> Result<(Seq<char>, u16), Seq<char>> {
    if hp.len() > 0 && hp[0] == '[' {
        let rest = hp.skip(1);
        match rest.index_of_first(']') {
            None => Err("unterminated IPv6 literal"@),
            Some(i) => {
                let after = rest.skip(i + 1);
                if after.len() > 0 && after[0] == ':' {
                    let port = after.skip(1);
                    match spec_parse_u16(port) {
                        Some(p) => Ok((rest.take(i), p)),
                        None => Err("invalid port: "@ + port),
                    }
                } else {
                    Err("missing port after IPv6 host"@)
                }
            },
        }
    } else {
        match hp.index_of_last(':') {
            None => Err("missing ':port'"@),
            Some(i) => {
                let port = hp.skip(i + 1);
                if i == 0 {
                    Err("empty host"@)
                } else {
                    match spec_parse_u16(port) {
                        Some(p) => Ok((hp.take(i), p)),
                        None => Err("invalid port: "@ + port),
                    }
                }
            },
        }
    }
}

/// `"invalid port: "` followed by `v[lo..hi]`.
fn invalid_port(v: &Vec<char>, lo: usize, hi: usize) -> (e: String)
    requires
        lo <= hi <= v.len(),
    ensures
        e@ == "invalid port: "@ + v@.subrange(lo as int, hi as int),
{
    let mut e = "invalid port: ".to_string();
    let ghost prefix = e@;
    let mut i = lo;
    while i < hi
        invariant
            lo <= i <= hi <= v.len(),
            e@ == prefix + v@.subrange(lo as int, i as int),
        decreases hi - i,
    {
        push_char(&mut e, v[i]);
        i = i + 1;
        assert(e@ =~= prefix + v@.subrange(lo as int, i as int));
    }
    e
}

/// Splits `v[lo..hi]` into host and port.
fn split_host_port_at(v: &Vec<char>, lo: usize, hi: usize) -> (r: Result<(String, u16), String>)
    requires
        lo <= hi <= v.len(),
    ensures
        match r {
            Ok((h, p)) => spec_split_host_port(v@.subrange(lo as int, hi as int)) == Ok::<
                (Seq<char>, u16),
                Seq<char>,
            >((h@, p)),
            Err(e) => spec_split_host_port(v@.subrange(lo as int, hi as int)) == Err::<
                (Seq<char>, u16),
                Seq<char>,
            >(e@),
        },
{
    let ghost hp = v@.subrange(lo as int, hi as int);
    if lo < hi && v[lo] == '[' {
        let ghost rest = hp.skip(1);
        assert(rest =~= v@.subrange(lo + 1, hi as int));
        match find_first(v, lo + 1, hi, ']') {
            None => Err("unterminated IPv6 literal".to_string()),
            Some(j) => {
                let ghost i = j - (lo + 1);
                assert(rest.skip(i + 1) =~= v@.subrange(j + 1, hi as int));
                assert(rest.take(i) =~= v@.subrange(lo + 1, j as int));
                if j + 1 < hi && v[j + 1] == ':' {
                    assert(rest.skip(i + 1).skip(1) =~= v@.subrange(j + 2, hi as int));
                    match parse_u16(v, j + 2, hi) {
                        Some(p) => Ok((string_of(v, lo + 1, j), p)),
                        None => Err(invalid_port(v, j + 2, hi)),
                    }
                } else {
                    Err("missing port after IPv6 host".to_string())
                }
            },
        }
    } else {
        match find_last(v, lo, hi, ':') {
            None => Err("missing ':port'".to_string()),
            Some(j) => {
                assert(hp.skip(j - lo + 1) =~= v@.subrange(j + 1, hi as int));
                assert(hp.take(j - lo) =~= v@.subrange(lo as int, j as int));
                if j == lo {
                    Err("empty host".to_string())
                } else {
                    match parse_u16(v, j + 1, hi) {
                        Some(p) => Ok((string_of(v, lo, j), p)),
                        None => Err(invalid_port(v, j + 1, hi)),
                    }
                }
            },
        }
    }
}

/// Split `host:port`, handling bracketed IPv6 literals (`[::1]:443`).
pub fn split_host_port(hostport: &str) -> (r: Result<(String, u16), String>)
    ensures
        match r {
            Ok((h, p)) => spec_split_host_port(hostport@) == Ok::<(Seq<char>, u16), Seq<char>>(
                (h@, p),
            ),
            Err(e) => spec_split_host_port(hostport@) == Err::<(Seq<char>, u16), Seq<char>>(e@),
        },
{
    let v = crate::text::chars_of(hostport);
    assert(v@.subrange(0, v@.len() as int) =~= hostport@);
    split_host_port_at(&v, 0, v.len())
}

// ---------------------------------------------------------------------------
// Query string
// ---------------------------------------------------------------------------

/// The key/value pair a non-empty `k=v` (or bare `k`) segment stands for,
/// both percent-decoded; nothing for an empty segment.
pub open spec fn query_pair(seg: Seq<char>) -> Seq<(Seq<char>, Seq<char>)> {
    if seg.len() == 0 {
        seq![]
    } else {
        match seg.index_of_first('=') {
            Some(i) => seq![(percent_decoded(seg.take(i)), percent_decoded(seg.skip(i + 1)))],
            None => seq![(percent_decoded(seg), percent_decoded(Seq::<char>::empty()))],
        }
    }
}

pub open spec fn pairs_of(segs: Seq<Seq<char>>) -> Seq<(Seq<char>, Seq<char>)>
    decreases segs.len(),
{
    if segs.len() == 0 {
        seq![]
    } else {
        pairs_of(segs.drop_last()) + query_pair(segs.last())
    }
}

/// The decoded key/value pairs of a query string, in order.
pub open spec fn query_pairs(q: Seq<char>) -> Seq<(Seq<char>, Seq<char>)> {
    pairs_of(split_on(q, '&'))
}

/// The value given last for `key`: a later pair overrides an earlier one.
pub open spec fn lookup_last(pairs: Seq<(Seq<char>, Seq<char>)>, key: Seq<char>) -> Option<
    Seq<char>,
>
    decreases pairs.len(),
{
    if pairs.len() == 0 {
        None
    } else if pairs.last().0 == key {
        Some(pairs.last().1)
    } else {
        lookup_last(pairs.drop_last(), key)
    }
}

/// A query parameter's value; an empty value counts as absent.
pub open spec fn query_param(q: Seq<char>, key: Seq<char>) -> Option<Seq<char>> {
    match lookup_last(query_pairs(q), key) {
        Some(v) => if v.len() > 0 {
            Some(v)
        } else {
            None
        },
        None => None,
    }
}

pub open spec fn pairs_text(p: Seq<(String, String)>) -> Seq<(Seq<char>, Seq<char>)> {
    p.map_values(|x: (String, String)| (x.0@, x.1@))
}

/// Appends the pair of the segment `v[lo..hi]`, if it has one.
fn push_pair(v: &Vec<char>, lo: usize, hi: usize, pairs: &mut Vec<(String, String)>)
    requires
        lo <= hi <= v.len(),
    ensures
        pairs_text(final(pairs)@) == pairs_text(old(pairs)@) + query_pair(
            v@.subrange(lo as int, hi as int),
        ),
{
    let ghost seg = v@.subrange(lo as int, hi as int);
    if lo == hi {
        assert(pairs_text(pairs@) =~= pairs_text(pairs@) + query_pair(seg));
        return ;
    }
    let pair = match find_first(v, lo, hi, '=') {
        Some(j) => {
            assert(seg.take(j - lo) =~= v@.subrange(lo as int, j as int));
            assert(seg.skip(j - lo + 1) =~= v@.subrange(j + 1, hi as int));
            (percent_decode(v, lo, j), percent_decode(v, j + 1, hi))
        },
        None => {
            assert(v@.subrange(hi as int, hi as int) =~= Seq::<char>::empty());
            (percent_decode(v, lo, hi), percent_decode(v, hi, hi))
        },
    };
    let ghost before = pairs@;
    pairs.push(pair);
    assert(pairs_text(pairs@) =~= pairs_text(before) + query_pair(seg));
}

/// Splits the query string `v[lo..hi]` into decoded key/value pairs.
fn parse_query(v: &Vec<char>, lo: usize, hi: usize) -> (pairs: Vec<(String, String)>)
    requires
        lo <= hi <= v.len(),
    ensures
        pairs_text(pairs@) == query_pairs(v@.subrange(lo as int, hi as int)),
{
    let ghost q = v@.subrange(lo as int, hi as int);
    let mut pairs: Vec<(String, String)> = Vec::new();
    let mut seg_start = lo;
    let mut i = lo;
    assert(q.take(0) =~= Seq::<char>::empty());
    assert(v@.subrange(lo as int, lo as int) =~= Seq::<char>::empty());
    assert(pairs_text(pairs@) =~= pairs_of(split_on(q.take(0), '&').drop_last()));
    while i < hi
        invariant
            lo <= seg_start <= i <= hi <= v.len(),
            q == v@.subrange(lo as int, hi as int),
            split_on(q.take(i - lo), '&').len() >= 1,
            split_on(q.take(i - lo), '&').last() == v@.subrange(seg_start as int, i as int),
            pairs_text(pairs@) == pairs_of(split_on(q.take(i - lo), '&').drop_last()),
        decreases hi - i,
    {
        let ghost segs = split_on(q.take(i - lo), '&');
        assert(q.take(i - lo + 1).drop_last() =~= q.take(i - lo));
        assert(q.take(i - lo + 1).last() == v[i as int]);
        if v[i] == '&' {
            push_pair(v, seg_start, i, &mut pairs);
            let ghost nsegs = split_on(q.take(i - lo + 1), '&');
            assert(nsegs == segs.push(Seq::<char>::empty()));
            assert(nsegs.drop_last() =~= segs);
            assert(segs =~= segs.drop_last().push(segs.last()));
            seg_start = i + 1;
            i = i + 1;
            assert(v@.subrange(seg_start as int, i as int) =~= Seq::<char>::empty());
        } else {
            let ghost nsegs = split_on(q.take(i - lo + 1), '&');
            assert(nsegs.drop_last() =~= segs.drop_last());
            assert(nsegs.last() =~= v@.subrange(seg_start as int, i + 1));
            i = i + 1;
        }
    }
    let ghost segs = split_on(q.take(i - lo), '&');
    assert(q.take(i - lo) =~= q);
    push_pair(v, seg_start, hi, &mut pairs);
    assert(segs =~= segs.drop_last().push(segs.last()));
    pairs
}

/// The value of query parameter `key`; empty values count as absent.
fn param(pairs: &Vec<(String, String)>, key: &str) -> (r: Option<String>)
    ensures
        opt_text(r) == (match lookup_last(pairs_text(pairs@), key@) {
            Some(v) => if v.len() > 0 {
                Some(v)
            } else {
                None
            },
            None => None,
        }),
{
    let k = key.to_string();
    let mut i = pairs.len();
    assert(pairs@.take(i as int) =~= pairs@);
    while i > 0
        invariant
            i <= pairs.len(),
            k@ == key@,
            lookup_last(pairs_text(pairs@), key@) == lookup_last(
                pairs_text(pairs@.take(i as int)),
                key@,
            ),
        decreases i,
    {
        let ghost pre = pairs_text(pairs@.take(i as int));
        assert(pairs_text(pairs@.take(i - 1)) =~= pre.drop_last());
        if pairs[i - 1].0 == k {
            if !pairs[i - 1].1.as_str().is_empty() {
                return Some(pairs[i - 1].1.clone());
            } else {
                return None;
            }
        }
        i = i - 1;
    }
    None
}

// ---------------------------------------------------------------------------
// The link
// ---------------------------------------------------------------------------

pub open spec fn vless_prefix() -> Seq<char> {
    seq!['v', 'l', 'e', 's', 's', ':', '/', '/']
}

/// A parameter's value, or `default` when it is absent or empty.
pub open spec fn param_or(query: Seq<char>, key: Seq<char>, default: Seq<char>) -> Seq<char> {
    match query_param(query, key) {
        Some(v) => v,
        None => default,
    }
}

/// The link that `uuid`, the `host:port` text, the label and the query
/// string describe, or the error that the `host:port` text gives.
pub open spec fn spec_link(
    uuid: Seq<char>,
    hostport: Seq<char>,
    label: Option<Seq<char>>,
    query: Seq<char>,
) -> Result<SpecVlessLink, Seq<char>> {
    match spec_split_host_port(hostport) {
        Err(e) => Err(e),
        Ok((host, port)) => Ok(
            SpecVlessLink {
                uuid,
                host,
                port,
                label,
                transport: param_or(query, "type"@, "tcp"@),
                security: param_or(query, "security"@, "none"@),
                flow: query_param(query, "flow"@),
                sni: query_param(query, "sni"@),
                fingerprint: query_param(query, "fp"@),
                public_key: query_param(query, "pbk"@),
                short_id: query_param(query, "sid"@),
                path: query_param(query, "path"@),
                host_header: query_param(query, "host"@),
                service_name: query_param(query, "serviceName"@),
                alpn: query_param(query, "alpn"@),
            },
        ),
    }
}

/// The link that the text after the fragment and query are split off
/// describes: the first `@` ends the uuid, which must not be empty.
pub open spec fn spec_parse_authority(
    authority: Seq<char>,
    label: Option<Seq<char>>,
    query: Seq<char>,
) -> Result<SpecVlessLink, Seq<char>> {
    match authority.index_of_first('@') {
        None => Err("missing '@' separating uuid from host"@),
        Some(i) => if i == 0 {
            Err("empty uuid"@)
        } else {
            spec_link(authority.take(i), authority.skip(i + 1), label, query)
        },
    }
}

/// The link that the text after `vless://` describes: the fragment (from
/// the first `#`) is the percent-decoded label, and the query runs from the
/// first `?` before it.
pub open spec fn spec_parse_rest(rest0: Seq<char>) -> Result<SpecVlessLink, Seq<char>> {
    let rest = match rest0.index_of_first('#') {
        Some(i) => rest0.take(i),
        None => rest0,
    };
    let label = match rest0.index_of_first('#') {
        Some(i) => Some(percent_decoded(rest0.skip(i + 1))),
        None => None,
    };
    match rest.index_of_first('?') {
        Some(i) => spec_parse_authority(rest.take(i), label, rest.skip(i + 1)),
        None => spec_parse_authority(rest, label, Seq::<char>::empty()),
    }
}

/// What a `vless://uuid@host:port?params#label` link says, once surrounding
/// whitespace is trimmed, or the error message it gets.
pub open spec fn spec_parse(link: Seq<char>) -> Result<SpecVlessLink, Seq<char>> {
    let t = trimmed(link);
    if !(t.len() >= 8 && t.take(8) == vless_prefix()) {
        Err("not a vless:// link"@)
    } else {
        spec_parse_rest(t.skip(8))
    }
}

/// A parameter's value, or `default` when it is absent or empty.
fn param_or_default(pairs: &Vec<(String, String)>, key: &str, default: &str) -> (r: String)
    ensures
        r@ == (match lookup_last(pairs_text(pairs@), key@) {
            Some(v) => if v.len() > 0 {
                v
            } else {
                default@
            },
            None => default@,
        }),
{
    match param(pairs, key) {
        Some(v) => v,
        None => default.to_string(),
    }
}

/// The link with uuid `v[u_lo..u_hi]`, `host:port` text `v[u_hi + 1..hp_hi]`
/// and query string `v[q_lo..q_hi]`.
fn build_link(
    v: &Vec<char>,
    u_lo: usize,
    u_hi: usize,
    hp_hi: usize,
    label: Option<String>,
    q_lo: usize,
    q_hi: usize,
) -> (res: Result<VlessLink, String>)
    requires
        u_lo <= u_hi < hp_hi <= v.len(),
        q_lo <= q_hi <= v.len(),
    ensures
        match res {
            Ok(l) => spec_link(
                v@.subrange(u_lo as int, u_hi as int),
                v@.subrange(u_hi + 1, hp_hi as int),
                opt_text(label),
                v@.subrange(q_lo as int, q_hi as int),
            ) == Ok::<SpecVlessLink, Seq<char>>(l@),
            Err(e) => spec_link(
                v@.subrange(u_lo as int, u_hi as int),
                v@.subrange(u_hi + 1, hp_hi as int),
                opt_text(label),
                v@.subrange(q_lo as int, q_hi as int),
            ) == Err::<SpecVlessLink, Seq<char>>(e@),
        },
{
    let (host, port) = match split_host_port_at(v, u_hi + 1, hp_hi) {
        Ok(hp) => hp,
        Err(e) => {
            return Err(e);
        },
    };
    let params = parse_query(v, q_lo, q_hi);
    Ok(
        VlessLink {
            uuid: string_of(v, u_lo, u_hi),
            host,
            port,
            label,
            transport: param_or_default(&params, "type", "tcp"),
            security: param_or_default(&params, "security", "none"),
            flow: param(&params, "flow"),
            sni: param(&params, "sni"),
            fingerprint: param(&params, "fp"),
            public_key: param(&params, "pbk"),
            short_id: param(&params, "sid"),
            path: param(&params, "path"),
            host_header: param(&params, "host"),
            service_name: param(&params, "serviceName"),
            alpn: param(&params, "alpn"),
        },
    )
}

/// Parses the authority `v[lo..hi]` (`uuid@host:port`) with the given label
/// and query string `v[q_lo..q_hi]`.
fn parse_authority(
    v: &Vec<char>,
    lo: usize,
    hi: usize,
    label: Option<String>,
    q_lo: usize,
    q_hi: usize,
) -> (res: Result<VlessLink, String>)
    requires
        lo <= hi <= v.len(),
        q_lo <= q_hi <= v.len(),
    ensures
        match res {
            Ok(l) => spec_parse_authority(
                v@.subrange(lo as int, hi as int),
                opt_text(label),
                v@.subrange(q_lo as int, q_hi as int),
            ) == Ok::<SpecVlessLink, Seq<char>>(l@),
            Err(e) => spec_parse_authority(
                v@.subrange(lo as int, hi as int),
                opt_text(label),
                v@.subrange(q_lo as int, q_hi as int),
            ) == Err::<SpecVlessLink, Seq<char>>(e@),
        },
{
    let ghost authority = v@.subrange(lo as int, hi as int);
    let at = match find_first(v, lo, hi, '@') {
        None => {
            return Err("missing '@' separating uuid from host".to_string());
        },
        Some(i) => i,
    };
    if at == lo {
        return Err("empty uuid".to_string());
    }
    assert(authority.take(at - lo) =~= v@.subrange(lo as int, at as int));
    assert(authority.skip(at - lo + 1) =~= v@.subrange(at + 1, hi as int));
    build_link(v, lo, at, hi, label, q_lo, q_hi)
}

/// Parses `v[lo..hi]`, the text after `vless://`.
fn parse_rest(v: &Vec<char>, lo: usize, hi: usize) -> (res: Result<VlessLink, String>)
    requires
        lo <= hi <= v.len(),
    ensures
        match res {
            Ok(l) => spec_parse_rest(v@.subrange(lo as int, hi as int)) == Ok::<
                SpecVlessLink,
                Seq<char>,
            >(l@),
            Err(e) => spec_parse_rest(v@.subrange(lo as int, hi as int)) == Err::<
                SpecVlessLink,
                Seq<char>,
            >(e@),
        },
{
    let ghost rest0 = v@.subrange(lo as int, hi as int);
    let (rest_hi, label) = match find_first(v, lo, hi, '#') {
        Some(i) => {
            assert(rest0.take(i - lo) =~= v@.subrange(lo as int, i as int));
            assert(rest0.skip(i - lo + 1) =~= v@.subrange(i + 1, hi as int));
            (i, Some(percent_decode(v, i + 1, hi)))
        },
        None => (hi, None),
    };
    let ghost rest = v@.subrange(lo as int, rest_hi as int);
    match find_first(v, lo, rest_hi, '?') {
        Some(i) => {
            assert(rest.take(i - lo) =~= v@.subrange(lo as int, i as int));
            assert(rest.skip(i - lo + 1) =~= v@.subrange(i + 1, rest_hi as int));
            parse_authority(v, lo, i, label, i + 1, rest_hi)
        },
        None => {
            assert(v@.subrange(rest_hi as int, rest_hi as int) =~= Seq::<char>::empty());
            parse_authority(v, lo, rest_hi, label, rest_hi, rest_hi)
        },
    }
}

impl VlessLink {
    /// Parse a `vless://uuid@host:port?params#label` link.
    pub fn parse(link: &str) -> (res: Result<Self, String>)
        ensures
            match res {
                Ok(l) => spec_parse(link@) == Ok::<SpecVlessLink, Seq<char>>(l@),
                Err(e) => spec_parse(link@) == Err::<SpecVlessLink, Seq<char>>(e@),
            },
    {
        let v = crate::text::chars_of(link);
        assert(v@.subrange(0, v@.len() as int) =~= link@);
        let (a, b) = trim_bounds(&v, 0, v.len());
        let ghost t = v@.subrange(a as int, b as int);
        if !(b - a >= 8 && v[a] == 'v' && v[a + 1] == 'l' && v[a + 2] == 'e' && v[a + 3] == 's'
            && v[a + 4] == 's' && v[a + 5] == ':' && v[a + 6] == '/' && v[a + 7] == '/') {
            proof {
                if t.len() >= 8 && t.take(8) == vless_prefix() {
                    assert(t.take(8)[0] == 'v');
                    assert(t.take(8)[1] == 'l');
                    assert(t.take(8)[2] == 'e');
                    assert(t.take(8)[3] == 's');
                    assert(t.take(8)[4] == 's');
                    assert(t.take(8)[5] == ':');
                    assert(t.take(8)[6] == '/');
                    assert(t.take(8)[7] == '/');
                }
            }
            return Err("not a vless:// link".to_string());
        }
        assert(t.take(8) =~= vless_prefix());
        assert(t.skip(8) =~= v@.subrange(a + 8, b as int));
        parse_rest(&v, a + 8, b)
    }
}

/// The decimal text of a port number.
pub open spec fn port_text(p: u16) -> Seq<char> {
    decimal_text(p as nat)
}

proof fn lemma_digit_char(d: nat)
    requires
        d < 10,
    ensures
        is_digit(digit_char(d)),
        (digit_char(d) as u32) - 0x30 == d,
{
    vstd::utf8::char_u32_cast(digit_char(d), (0x30 + d) as u32);
}

/// A number's decimal text is digits that spell it.
pub proof fn lemma_decimal_text(n: nat)
    ensures
        decimal_text(n).len() > 0,
        all_digits(decimal_text(n)),
        decimal_value(decimal_text(n)) == n,
    decreases n,
{
    let t = decimal_text(n);
    if n < 10 {
        lemma_digit_char(n);
        assert(t.drop_last() =~= Seq::<char>::empty());
        assert(decimal_value(t.drop_last()) == 0);
        assert(t.last() == digit_char(n));
    } else {
        lemma_decimal_text(n / 10);
        lemma_digit_char(n % 10);
        let d = decimal_text(n / 10);
        assert(t.drop_last() =~= d);
        assert(t.last() == digit_char(n % 10));
        assert(decimal_value(t) == decimal_value(d) * 10 + ((t.last() as u32) - 0x30) as nat);
        assert((n / 10) * 10 + n % 10 == n);
        assert forall|i: int| 0 <= i < t.len() implies is_digit(#[trigger] t[i]) by {
            if i < d.len() {
                assert(t[i] == d[i]);
            }
        }
    }
}

/// A port's decimal text parses back to the port.
pub proof fn lemma_port_text_parses(p: u16)
    ensures
        spec_parse_u16(port_text(p)) == Some(p),
        all_digits(port_text(p)),
{
    lemma_decimal_text(p as nat);
    let t = port_text(p);
    assert(is_digit(t[0]));
    assert(t[0] != '+');
}

/// `host:port` splits back into the host and the port: the split is at the
/// last `:`, so the host may itself contain `:` as long as it does not start
/// with `[`.
pub proof fn lemma_host_port_round_trip(h: Seq<char>, p: u16)
    requires
        h.len() > 0,
        h[0] != '[',
    ensures
        spec_split_host_port(h + seq![':'] + port_text(p)) == Ok::<(Seq<char>, u16), Seq<char>>(
            (h, p),
        ),
{
    lemma_port_text_parses(p);
    let t = port_text(p);
    let hp = h + seq![':'] + t;
    let k = h.len() as int;
    assert(hp[0] == h[0]);
    assert(hp[k] == ':');
    hp.index_of_last_ensures(':');
    assert forall|j: int| k < j < hp.len() implies hp[j] != ':' by {
        assert(hp[j] == t[j - k - 1]);
        assert(is_digit(t[j - k - 1]));
    }
    match hp.index_of_last(':') {
        Some(i) => {
            assert(i == k);
        },
        None => {
            assert(hp.contains(':'));
        },
    }
    assert(hp.skip(k + 1) =~= t);
    assert(hp.take(k) =~= h);
}

/// `[host]:port` splits back into the bracketed host and the port, for a
/// host without `]` (such as an IPv6 literal).
pub proof fn lemma_bracketed_host_port_round_trip(g: Seq<char>, p: u16)
    requires
        !g.contains(']'),
    ensures
        spec_split_host_port(seq!['['] + g + seq![']', ':'] + port_text(p)) == Ok::<
            (Seq<char>, u16),
            Seq<char>,
        >((g, p)),
{
    lemma_port_text_parses(p);
    let t = port_text(p);
    let hp = seq!['['] + g + seq![']', ':'] + t;
    let rest = hp.skip(1);
    let k = g.len() as int;
    assert(rest =~= g + seq![']', ':'] + t);
    assert(rest[k] == ']');
    rest.index_of_first_ensures(']');
    match rest.index_of_first(']') {
        Some(i) => {
            if i < k {
                assert(rest[i] == g[i]);
            }
            assert(i == k);
        },
        None => {
            assert(rest.contains(']'));
        },
    }
    let after = rest.skip(k + 1);
    assert(after =~= seq![':'] + t);
    assert(after.skip(1) =~= t);
    assert(rest.take(k) =~= g);
}

/// A query segment is split at its first `=`: a segment `k=v` whose key has
/// no `=` stands for the pair of the decoded key and the decoded value,
/// whatever the value holds (`=` included); a segment without `=` is a key
/// with an empty value; an empty segment stands for no pair.
pub proof fn lemma_query_pair(k: Seq<char>, v: Seq<char>)
    ensures
        !k.contains('=') ==> query_pair(k + seq!['='] + v) == seq![
            (percent_decoded(k), percent_decoded(v)),
        ],
        !k.contains('=') && k.len() > 0 ==> query_pair(k) == seq![
            (percent_decoded(k), percent_decoded(Seq::<char>::empty())),
        ],
        query_pair(Seq::<char>::empty()) == Seq::<(Seq<char>, Seq<char>)>::empty(),
{
    let seg = k + seq!['='] + v;
    let n = k.len() as int;
    seg.index_of_first_ensures('=');
    k.index_of_first_ensures('=');
    if !k.contains('=') {
        assert(seg[n] == '=');
        match seg.index_of_first('=') {
            Some(i) => {
                if i < n {
                    assert(seg[i] == k[i]);
                    assert(k.contains('='));
                }
                assert(i == n);
            },
            None => {
                assert(seg.contains('='));
            },
        }
        assert(seg.take(n) =~= k);
        assert(seg.skip(n + 1) =~= v);
    }
}

/// Text without the separator is one piece.
pub proof fn lemma_split_single(s: Seq<char>, d: char)
    requires
        !s.contains(d),
    ensures
        split_on(s, d) == seq![s],
    decreases s.len(),
{
    if s.len() > 0 {
        assert(!s.drop_last().contains(d)) by {
            if s.drop_last().contains(d) {
                let k = choose|k: int| 0 <= k < s.drop_last().len() && s.drop_last()[k] == d;
                assert(s[k] == d);
            }
        }
        assert(s[s.len() - 1] != d);
        lemma_split_single(s.drop_last(), d);
        assert(s.drop_last().push(s.last()) =~= s);
        assert(seq![s.drop_last()].update(0, s.drop_last().push(s.last())) =~= seq![s]);
    } else {
        assert(split_on(s, d) =~= seq![Seq::<char>::empty()]);
        assert(s =~= Seq::<char>::empty());
    }
}

/// A query `k=v` with one parameter gives that parameter its value, whatever
/// the value holds (`=` and `?` included), when the value is not empty; for
/// a key without `=`, `&` or `%`, such as `path`.
pub proof fn lemma_single_param(k: Seq<char>, v: Seq<char>)
    requires
        k.len() > 0,
        !k.contains('='),
        !k.contains('&'),
        !k.contains('%'),
        !v.contains('&'),
    ensures
        query_param(k + seq!['='] + v, k) == if percent_decoded(v).len() > 0 {
            Some(percent_decoded(v))
        } else {
            None
        },
{
    let q = k + seq!['='] + v;
    assert(!q.contains('&')) by {
        if q.contains('&') {
            let i = choose|i: int| 0 <= i < q.len() && q[i] == '&';
            if i < k.len() {
                assert(k[i] == '&');
            } else if i > k.len() {
                assert(v[i - k.len() - 1] == '&');
            }
        }
    }
    lemma_split_single(q, '&');
    lemma_query_pair(k, v);
    lemma_percent_decoded_plain(k);
    let segs = split_on(q, '&');
    assert(segs.drop_last() =~= Seq::<Seq<char>>::empty());
    assert(pairs_of(segs) == pairs_of(segs.drop_last()) + query_pair(q));
    let pairs = query_pairs(q);
    assert(pairs =~= seq![(k, percent_decoded(v))]);
    assert(pairs.drop_last() =~= Seq::<(Seq<char>, Seq<char>)>::empty());
}

/// The first `c` in `a`, `c`, `b` is the one after `a` when `a` has none.
proof fn lemma_first_after(a: Seq<char>, c: char, b: Seq<char>)
    requires
        !a.contains(c),
    ensures
        (a + seq![c] + b).index_of_first(c) == Some(a.len() as int),
        (a + seq![c] + b).take(a.len() as int) == a,
        (a + seq![c] + b).skip(a.len() + 1int) == b,
{
    let s = a + seq![c] + b;
    s.index_of_first_ensures(c);
    assert(s[a.len() as int] == c);
    match s.index_of_first(c) {
        Some(i) => {
            if i < a.len() {
                assert(s[i] == a[i]);
            }
        },
        None => {
            assert(s.contains(c));
        },
    }
    assert(s.take(a.len() as int) =~= a);
    assert(s.skip(a.len() + 1int) =~= b);
}

/// A concatenation holds `c` only when one of its parts does.
proof fn lemma_concat_lacks(a: Seq<char>, b: Seq<char>, c: char)
    requires
        !a.contains(c),
        !b.contains(c),
    ensures
        !(a + b).contains(c),
{
    if (a + b).contains(c) {
        let i = choose|i: int| 0 <= i < (a + b).len() && (a + b)[i] == c;
        if i < a.len() {
            assert(a[i] == c);
        } else {
            assert(b[i - a.len()] == c);
        }
    }
}

/// The text after `vless://` of the share link with uuid `u`, host `h`,
/// port `p`, and the query string and label when given.
pub open spec fn share_body(
    u: Seq<char>,
    h: Seq<char>,
    p: u16,
    query: Option<Seq<char>>,
    label: Option<Seq<char>>,
) -> Seq<char> {
    u + seq!['@'] + h + seq![':'] + port_text(p) + match query {
        Some(q) => seq!['?'] + q,
        None => Seq::<char>::empty(),
    } + match label {
        Some(f) => seq!['#'] + f,
        None => Seq::<char>::empty(),
    }
}

/// The `vless://` share link with uuid `u`, host `h`, port `p`, and the
/// query string and label when given.
pub open spec fn share_link(
    u: Seq<char>,
    h: Seq<char>,
    p: u16,
    query: Option<Seq<char>>,
    label: Option<Seq<char>>,
) -> Seq<char> {
    vless_prefix() + share_body(u, h, p, query, label)
}

proof fn lemma_port_text_plain(p: u16)
    ensures
        !port_text(p).contains('@'),
        !port_text(p).contains('?'),
        !port_text(p).contains('#'),
{
    lemma_port_text_parses(p);
    let t = port_text(p);
    if t.contains('@') || t.contains('?') || t.contains('#') {
        let i = choose|i: int| 0 <= i < t.len() && (t[i] == '@' || t[i] == '?' || t[i] == '#');
        assert(is_digit(t[i]));
    }
}

proof fn lemma_share_link_prefix(body: Seq<char>)
    requires
        !crate::text::is_white_space((vless_prefix() + body).last()),
    ensures
        spec_parse(vless_prefix() + body) == spec_parse_rest(body),
{
    let link = vless_prefix() + body;
    assert(link[0] == 'v');
    assert(crate::text::trim_start(link) == link);
    assert(crate::text::trim_end(link) == link);
    assert(link.take(8) =~= vless_prefix());
    assert(link.skip(8) =~= body);
}

proof fn lemma_share_body_rest(
    u: Seq<char>,
    h: Seq<char>,
    p: u16,
    query: Option<Seq<char>>,
    label: Option<Seq<char>>,
)
    requires
        !u.contains('?'),
        !u.contains('#'),
        !h.contains('?'),
        !h.contains('#'),
        query matches Some(q) ==> !q.contains('#'),
    ensures
        spec_parse_rest(share_body(u, h, p, query, label)) == spec_parse_authority(
            u + seq!['@'] + h + seq![':'] + port_text(p),
            match label {
                Some(f) => Some(percent_decoded(f)),
                None => None,
            },
            match query {
                Some(q) => q,
                None => Seq::<char>::empty(),
            },
        ),
{
    let t = port_text(p);
    lemma_port_text_plain(p);
    let hp = h + seq![':'] + t;
    let authority = u + seq!['@'] + hp;
    lemma_concat_lacks(h, seq![':'], '#');
    lemma_concat_lacks(h + seq![':'], t, '#');
    lemma_concat_lacks(u, seq!['@'], '#');
    lemma_concat_lacks(u + seq!['@'], hp, '#');
    lemma_concat_lacks(h, seq![':'], '?');
    lemma_concat_lacks(h + seq![':'], t, '?');
    lemma_concat_lacks(u, seq!['@'], '?');
    lemma_concat_lacks(u + seq!['@'], hp, '?');
    assert(authority =~= u + seq!['@'] + h + seq![':'] + t);
    let before = authority + match query {
        Some(q) => seq!['?'] + q,
        None => Seq::<char>::empty(),
    };
    match query {
        Some(q) => {
            lemma_concat_lacks(authority, seq!['?'], '#');
            lemma_concat_lacks(authority + seq!['?'], q, '#');
            assert(before =~= authority + seq!['?'] + q);
            lemma_first_after(authority, '?', q);
        },
        None => {
            assert(before =~= authority);
            authority.index_of_first_ensures('?');
        },
    }
    let body = share_body(u, h, p, query, label);
    match label {
        Some(f) => {
            assert(body =~= before + seq!['#'] + f);
            lemma_first_after(before, '#', f);
        },
        None => {
            assert(body =~= before);
            body.index_of_first_ensures('#');
        },
    }
}

/// A share link made of a uuid, a host, a port, a query string and a label
/// parses back into them: the uuid, host and port as given, the label
/// percent-decoded, and every parameter read from the query string (with
/// `tcp` and `none` when transport and security are not given). For a uuid
/// without `@`, `?` or `#`, a host not starting with `[` and without `?` or
/// `#`, a query without `#`, and a link not ending in whitespace.
pub proof fn lemma_parse_share_link(
    u: Seq<char>,
    h: Seq<char>,
    p: u16,
    query: Option<Seq<char>>,
    label: Option<Seq<char>>,
)
    requires
        u.len() > 0,
        !u.contains('@'),
        !u.contains('?'),
        !u.contains('#'),
        h.len() > 0,
        h[0] != '[',
        !h.contains('?'),
        !h.contains('#'),
        query matches Some(q) ==> !q.contains('#'),
        !crate::text::is_white_space(share_link(u, h, p, query, label).last()),
    ensures
        ({
            let q = match query {
                Some(q) => q,
                None => Seq::<char>::empty(),
            };
            spec_parse(share_link(u, h, p, query, label)) == Ok::<SpecVlessLink, Seq<char>>(
                SpecVlessLink {
                    uuid: u,
                    host: h,
                    port: p,
                    label: match label {
                        Some(f) => Some(percent_decoded(f)),
                        None => None,
                    },
                    transport: param_or(q, "type"@, "tcp"@),
                    security: param_or(q, "security"@, "none"@),
                    flow: query_param(q, "flow"@),
                    sni: query_param(q, "sni"@),
                    fingerprint: query_param(q, "fp"@),
                    public_key: query_param(q, "pbk"@),
                    short_id: query_param(q, "sid"@),
                    path: query_param(q, "path"@),
                    host_header: query_param(q, "host"@),
                    service_name: query_param(q, "serviceName"@),
                    alpn: query_param(q, "alpn"@),
                },
            )
        }),
{
    lemma_share_link_prefix(share_body(u, h, p, query, label));
    lemma_share_body_rest(u, h, p, query, label);
    let hp = h + seq![':'] + port_text(p);
    assert(u + seq!['@'] + h + seq![':'] + port_text(p) =~= u + seq!['@'] + hp);
    lemma_first_after(u, '@', hp);
    lemma_host_port_round_trip(h, p);
}

proof fn lemma_pairs_concat(a: Seq<Seq<char>>, b: Seq<Seq<char>>)
    ensures
        pairs_of(a + b) == pairs_of(a) + pairs_of(b),
    decreases b.len(),
{
    if b.len() == 0 {
        assert(a + b =~= a);
        assert(pairs_of(a) + pairs_of(b) =~= pairs_of(a));
    } else {
        lemma_pairs_concat(a, b.drop_last());
        assert((a + b).drop_last() =~= a + b.drop_last());
        assert((a + b).last() == b.last());
        assert(pairs_of(a) + pairs_of(b.drop_last()) + query_pair(b.last()) =~= pairs_of(a) + (
        pairs_of(b.drop_last()) + query_pair(b.last())));
    }
}

proof fn lemma_lookup_concat(a: Seq<(Seq<char>, Seq<char>)>, b: Seq<(Seq<char>, Seq<char>)>, key: Seq<char>)
    ensures
        lookup_last(a + b, key) == match lookup_last(b, key) {
            Some(v) => Some(v),
            None => lookup_last(a, key),
        },
    decreases b.len(),
{
    if b.len() == 0 {
        assert(a + b =~= a);
    } else {
        lemma_lookup_concat(a, b.drop_last(), key);
        assert((a + b).drop_last() =~= a + b.drop_last());
        assert((a + b).last() == b.last());
    }
}

/// A parameter given again later in the query overrides the earlier value;
/// a parameter the later part does not give keeps the earlier value.
pub proof fn lemma_later_param_wins(q1: Seq<char>, q2: Seq<char>, key: Seq<char>)
    ensures
        lookup_last(query_pairs(q2), key) is Some ==> query_param(q1.push('&') + q2, key)
            == query_param(q2, key),
        lookup_last(query_pairs(q2), key) is None ==> query_param(q1.push('&') + q2, key)
            == query_param(q1, key),
{
    crate::text::lemma_split_concat(q1, q2, '&');
    lemma_pairs_concat(split_on(q1, '&'), split_on(q2, '&'));
    lemma_lookup_concat(query_pairs(q1), query_pairs(q2), key);
}

/// Whitespace around a link does not change how it parses.
pub proof fn lemma_parse_ignores_surrounding_whitespace(link: Seq<char>, c: char)
    requires
        crate::text::is_white_space(c),
    ensures
        spec_parse(seq![c] + link) == spec_parse(link),
        spec_parse(link.push(c)) == spec_parse(link),
{
    crate::text::lemma_trim_leading(c, link);
    crate::text::lemma_trim_trailing(link, c);
}

/// Only `vless://` links parse.
pub proof fn lemma_parse_needs_prefix(link: Seq<char>)
    ensures
        spec_parse(link) is Ok ==> trimmed(link).len() >= 8 && trimmed(link).take(8)
            == vless_prefix(),
        !(trimmed(link).len() >= 8 && trimmed(link).take(8) == vless_prefix()) ==> spec_parse(
            link,
        ) == Err::<SpecVlessLink, Seq<char>>("not a vless:// link"@),
{
}

} // verus!
