//! Connection information of a request: the scheme, host and client
//! address it was made with, resolved from the proxy headers it carries.
use vstd::prelude::*;

use crate::configuration::ServerSettings;
use crate::text::{
    lemma_first_from_is, chars_of, find_from, first_from, lemma_first_from, name_is, range_name_is, range_pieces,
    split_range, split_seq, trim, trim_range,
};

verus! {

/// What a request carries that decides its connection information. A
/// header whose value is not visible ASCII counts as absent.
pub struct RequestHead {
    /// The values of the `Forwarded` headers, in order.
    pub forwarded: Vec<String>,
    /// The first `X-Forwarded-For` header.
    pub x_forwarded_for: Option<String>,
    /// The first `X-Forwarded-Proto` header.
    pub x_forwarded_proto: Option<String>,
    /// The first `X-Forwarded-Host` header.
    pub x_forwarded_host: Option<String>,
    /// The first `Host` header.
    pub host: Option<String>,
    /// The scheme of the request's URI.
    pub uri_scheme: Option<String>,
    /// The authority of the request's URI.
    pub uri_authority: Option<String>,
    /// The address of the peer of the connection.
    pub peer_addr: Option<String>,
}

/// The connection information as plain values.
pub struct ConnectionModel {
    pub scheme: Seq<char>,
    pub host: Seq<char>,
    pub realip_remote_addr: Option<Seq<char>>,
    pub remote_addr: Option<Seq<char>>,
}

pub struct ConnectionInfo {
    scheme: String,
    host: String,
    realip_remote_addr: Option<String>,
    remote_addr: Option<String>,
}

pub open spec fn opt_view(o: Option<String>) -> Option<Seq<char>> {
    match o {
        Some(s) => Some(s@),
        None => None,
    }
}

impl View for ConnectionInfo {
    type V = ConnectionModel;

    closed spec fn view(&self) -> ConnectionModel {
        ConnectionModel {
            scheme: self.scheme@,
            host: self.host@,
            realip_remote_addr: opt_view(self.realip_remote_addr),
            remote_addr: opt_view(self.remote_addr),
        }
    }
}

pub open spec fn key_for() -> Seq<char> {
    seq!['f', 'o', 'r']
}

pub open spec fn key_proto() -> Seq<char> {
    seq!['p', 'r', 'o', 't', 'o']
}

pub open spec fn key_host() -> Seq<char> {
    seq!['h', 'o', 's', 't']
}

/// The value of one `name=value` element of a `Forwarded` header when its
/// name is `key` up to ASCII case: the element is trimmed, split at its
/// first `=`, and the value trimmed.
pub open spec fn element_value(el: Seq<char>, key: Seq<char>) -> Option<Seq<char>> {
    let t = trim(el);
    let i = first_from(t, 0, '=');
    if i < t.len() && name_is(t.take(i), key) {
        Some(trim(t.skip(i + 1)))
    } else {
        None
    }
}

/// The value of the first element named `key`.
pub open spec fn first_element_value(els: Seq<Seq<char>>, key: Seq<char>) -> Option<Seq<char>>
    decreases els.len(),
{
    if els.len() == 0 {
        None
    } else {
        match first_element_value(els.drop_last(), key) {
            Some(v) => Some(v),
            None => element_value(els.last(), key),
        }
    }
}

/// The elements of one `Forwarded` header value: its `;`-separated pairs,
/// each split again at `,`.
pub open spec fn forwarded_elements(value: Seq<char>) -> Seq<Seq<char>> {
    split_seq(value, ';', ',')
}

/// The first value for `key` over all `Forwarded` headers, in order.
pub open spec fn forwarded_value(values: Seq<Seq<char>>, key: Seq<char>) -> Option<Seq<char>>
    decreases values.len(),
{
    if values.len() == 0 {
        None
    } else {
        match forwarded_value(values.drop_last(), key) {
            Some(v) => Some(v),
            None => first_element_value(forwarded_elements(values.last()), key),
        }
    }
}

/// The first comma-separated item of a header value, trimmed.
pub open spec fn first_item(x: Seq<char>) -> Seq<char> {
    trim(x.take(first_from(x, 0, ',')))
}

pub open spec fn forwarded_views(h: RequestHead) -> Seq<Seq<char>> {
    h.forwarded@.map_values(|s: String| s@)
}

/// The client address: `Forwarded: for=`, else the first item of
/// `X-Forwarded-For`.
pub open spec fn resolved_realip(h: RequestHead) -> Option<Seq<char>> {
    match forwarded_value(forwarded_views(h), key_for()) {
        Some(v) => Some(v),
        None => match h.x_forwarded_for {
            Some(x) => Some(first_item(x@)),
            None => None,
        },
    }
}

/// The scheme: `Forwarded: proto=`, else the first item of
/// `X-Forwarded-Proto`, else the URI's, else `https` for a secure server
/// and `http` otherwise.
pub open spec fn resolved_scheme(h: RequestHead, secure: bool) -> Seq<char> {
    match forwarded_value(forwarded_views(h), key_proto()) {
        Some(v) => v,
        None => match h.x_forwarded_proto {
            Some(x) => first_item(x@),
            None => match h.uri_scheme {
                Some(u) => u@,
                None => if secure {
                    "https"@
                } else {
                    "http"@
                },
            },
        },
    }
}

/// The host: `Forwarded: host=`, else the first item of
/// `X-Forwarded-Host`, else the `Host` header, else the URI's authority,
/// else the server's own host.
pub open spec fn resolved_host(h: RequestHead, server_host: Seq<char>) -> Seq<char> {
    match forwarded_value(forwarded_views(h), key_host()) {
        Some(v) => v,
        None => match h.x_forwarded_host {
            Some(x) => first_item(x@),
            None => match h.host {
                Some(x) => x@,
                None => match h.uri_authority {
                    Some(x) => x@,
                    None => server_host,
                },
            },
        },
    }
}

/// The connection information of a request made to a server with `cfg`.
pub open spec fn resolved_connection(h: RequestHead, cfg: crate::configuration::ServerSettingsInner) -> ConnectionModel {
    ConnectionModel {
        scheme: resolved_scheme(h, cfg.secure),
        host: resolved_host(h, cfg.host@),
        realip_remote_addr: resolved_realip(h),
        remote_addr: opt_view(h.peer_addr),
    }
}

proof fn lemma_first_from_sub(v: Seq<char>, lo: int, hi: int, i: int, c: char)
    requires
        0 <= lo <= i <= hi <= v.len(),
    ensures
        first_from(v.subrange(lo, hi), i - lo, c) == (if first_from(v, i, c) < hi {
            first_from(v, i, c)
        } else {
            hi
        }) - lo,
    decreases hi - i,
{
    lemma_first_from(v, i, c);
    if i < hi && v[i] != c {
        lemma_first_from_sub(v, lo, hi, i + 1, c);
    }
}

proof fn lemma_first_element_prefix(els: Seq<Seq<char>>, k: int, key: Seq<char>, v: Seq<char>)
    requires
        0 <= k <= els.len(),
        first_element_value(els.take(k), key) == Some(v),
    ensures
        first_element_value(els, key) == Some(v),
    decreases els.len() - k,
{
    if k < els.len() {
        assert(els.take(k + 1).drop_last() =~= els.take(k));
        lemma_first_element_prefix(els, k + 1, key, v);
    } else {
        assert(els.take(k) =~= els);
    }
}

proof fn lemma_forwarded_prefix(vals: Seq<Seq<char>>, k: int, key: Seq<char>, v: Seq<char>)
    requires
        0 <= k <= vals.len(),
        forwarded_value(vals.take(k), key) == Some(v),
    ensures
        forwarded_value(vals, key) == Some(v),
    decreases vals.len() - k,
{
    if k < vals.len() {
        assert(vals.take(k + 1).drop_last() =~= vals.take(k));
        lemma_forwarded_prefix(vals, k + 1, key, v);
    } else {
        assert(vals.take(k) =~= vals);
    }
}

/// The value of the element `s[lo..hi]` for `key`, if it has one.
fn element_lookup(s: &str, v: &Vec<char>, lo: usize, hi: usize, key: &Vec<char>) -> (r: Option<
    String,
>)
    requires
        v@ == s@,
        lo <= hi <= v@.len(),
    ensures
        opt_view(r) == element_value(v@.subrange(lo as int, hi as int), key@),
{
    let ghost el = v@.subrange(lo as int, hi as int);
    let (ta, tb) = trim_range(v, lo, hi);
    let ghost t = trim(el);
    assert(t == v@.subrange(ta as int, tb as int));
    let e = find_from(v, ta, '=');
    proof {
        lemma_first_from(v@, ta as int, '=');
        lemma_first_from_sub(v@, ta as int, tb as int, ta as int, '=');
        assert(v@.subrange(ta as int, tb as int).subrange(0, tb - ta) =~= v@.subrange(
            ta as int,
            tb as int,
        ));
    }
    if e >= tb {
        return None;
    }
    assert(t.take(e - ta) =~= v@.subrange(ta as int, e as int));
    if !range_name_is(v, ta, e, key) {
        return None;
    }
    let (va, vb) = trim_range(v, e + 1, tb);
    assert(t.skip(e - ta + 1) =~= v@.subrange(e + 1, tb as int));
    Some(String::from_str(s.substring_char(va, vb)))
}

/// `first_element_value` over the elements of one `Forwarded` value.
fn header_lookup(s: &str, key: &Vec<char>) -> (r: Option<String>)
    ensures
        opt_view(r) == first_element_value(forwarded_elements(s@), key@),
{
    let v = chars_of(s);
    let n = v.len();
    let ranges = split_range(&v, 0, n, ';', ',');
    let ghost els = forwarded_elements(s@);
    assert(v@.subrange(0, n as int) =~= s@);
    let mut j: usize = 0;
    assert(els.take(0) =~= Seq::<Seq<char>>::empty());
    while j < ranges.len()
        invariant
            v@ == s@,
            n == v@.len(),
            els == forwarded_elements(s@),
            range_pieces(v@, ranges@) == els,
            forall|k: int| 0 <= k < ranges@.len() ==> 0 <= #[trigger] ranges@[k].0 <= ranges@[k].1 <= n,
            j <= ranges@.len(),
            first_element_value(els.take(j as int), key@) is None,
        decreases ranges@.len() - j,
    {
        let (a, b) = ranges[j];
        assert(els.take(j + 1).drop_last() =~= els.take(j as int));
        assert(els[j as int] == v@.subrange(a as int, b as int));
        match element_lookup(s, &v, a, b, key) {
            Some(found) => {
                proof {
                    lemma_first_element_prefix(els, j + 1, key@, found@);
                }
                return Some(found);
            },
            None => {},
        }
        j = j + 1;
    }
    assert(els.take(j as int) =~= els);
    None
}

/// `forwarded_value` over all `Forwarded` values.
fn forwarded_lookup(values: &Vec<String>, key: &Vec<char>) -> (r: Option<String>)
    ensures
        opt_view(r) == forwarded_value(values@.map_values(|s: String| s@), key@),
{
    let ghost vals = values@.map_values(|s: String| s@);
    let mut k: usize = 0;
    assert(vals.take(0) =~= Seq::<Seq<char>>::empty());
    while k < values.len()
        invariant
            vals == values@.map_values(|s: String| s@),
            k <= values@.len(),
            forwarded_value(vals.take(k as int), key@) is None,
        decreases values@.len() - k,
    {
        assert(vals.take(k + 1).drop_last() =~= vals.take(k as int));
        assert(vals[k as int] == values@[k as int]@);
        match header_lookup(values[k].as_str(), key) {
            Some(found) => {
                proof {
                    lemma_forwarded_prefix(vals, k + 1, key@, found@);
                }
                return Some(found);
            },
            None => {},
        }
        k = k + 1;
    }
    assert(vals.take(k as int) =~= vals);
    None
}

/// The first comma-separated item of `s`, trimmed.
fn first_item_of(s: &str) -> (r: String)
    ensures
        r@ == first_item(s@),
{
    let v = chars_of(s);
    let e = find_from(&v, 0, ',');
    proof {
        lemma_first_from(v@, 0, ',');
    }
    let (a, b) = trim_range(&v, 0, e);
    assert(v@.subrange(0, e as int) =~= s@.take(e as int));
    String::from_str(s.substring_char(a, b))
}

fn copy_opt(o: &Option<String>) -> (r: Option<String>)
    ensures
        opt_view(r) == opt_view(*o),
{
    match o {
        Some(s) => Some(String::from_str(s.as_str())),
        None => None,
    }
}

impl ConnectionInfo {
    /// Resolves the connection information of a request made to a server
    /// with the settings `cfg`.
    pub fn new(req: &RequestHead, cfg: &ServerSettings) -> (r: ConnectionInfo)
        ensures
            r@ == resolved_connection(*req, cfg@),
    {
        let key_for_v = vec!['f', 'o', 'r'];
        let key_proto_v = vec!['p', 'r', 'o', 't', 'o'];
        let key_host_v = vec!['h', 'o', 's', 't'];
        assert(key_for_v@ =~= key_for());
        assert(key_proto_v@ =~= key_proto());
        assert(key_host_v@ =~= key_host());

        let realip_remote_addr = match forwarded_lookup(&req.forwarded, &key_for_v) {
            Some(v) => Some(v),
            None => match &req.x_forwarded_for {
                Some(x) => Some(first_item_of(x.as_str())),
                None => None,
            },
        };

        let scheme = match forwarded_lookup(&req.forwarded, &key_proto_v) {
            Some(v) => v,
            None => match &req.x_forwarded_proto {
                Some(x) => first_item_of(x.as_str()),
                None => match &req.uri_scheme {
                    Some(u) => String::from_str(u.as_str()),
                    None => if cfg.secure() {
                        String::from_str("https")
                    } else {
                        String::from_str("http")
                    },
                },
            },
        };

        let host = match forwarded_lookup(&req.forwarded, &key_host_v) {
            Some(v) => v,
            None => match &req.x_forwarded_host {
                Some(x) => first_item_of(x.as_str()),
                None => match &req.host {
                    Some(h) => String::from_str(h.as_str()),
                    None => match &req.uri_authority {
                        Some(a) => String::from_str(a.as_str()),
                        None => String::from_str(cfg.host()),
                    },
                },
            },
        };

        ConnectionInfo { scheme, host, realip_remote_addr, remote_addr: copy_opt(&req.peer_addr) }
    }

    /// Scheme of the request.
    ///
    /// Scheme is resolved through the following headers, in order:
    ///
    /// 1. Forwarded
    /// 2. X-Forwarded-Proto
    /// 3. Uri
    pub fn scheme(&self) -> (r: &str)
        ensures
            r@ == self@.scheme,
    {
        self.scheme.as_str()
    }

    /// Hostname of the request.
    ///
    /// Hostname is resolved through the following headers, in order:
    ///
    /// 1. Forwarded
    /// 2. X-Forwarded-Host
    /// 3. Host
    /// 4. Uri
    /// 5. Server hostname
    pub fn host(&self) -> (r: &str)
        ensures
            r@ == self@.host,
    {
        self.host.as_str()
    }

    /// remote_addr address of the request, from the socket address.
    pub fn remote_addr(&self) -> (r: Option<&str>)
        ensures
            (match r {
                Some(x) => Some(x@),
                None => None,
            }) == self@.remote_addr,
    {
        if let Some(remote_addr) = &self.remote_addr {
            Some(remote_addr.as_str())
        } else {
            None
        }
    }

    /// Real ip remote addr of the client that made the request.
    ///
    /// Address is resolved through the following headers, in order:
    ///
    /// 1. Forwarded
    /// 2. X-Forwarded-For
    /// 3. remote_addr name of opened socket
    ///
    /// Do not rely on it for security unless the Forwarded and
    /// X-Forwarded-For headers cannot be spoofed by the client.
    pub fn realip_remote_addr(&self) -> (r: Option<&str>)
        ensures
            (match r {
                Some(x) => Some(x@),
                None => None,
            }) == (match self@.realip_remote_addr {
                Some(x) => Some(x),
                None => self@.remote_addr,
            }),
    {
        if let Some(r) = &self.realip_remote_addr {
            Some(r.as_str())
        } else if let Some(remote_addr) = &self.remote_addr {
            Some(remote_addr.as_str())
        } else {
            None
        }
    }
}

/// Law: the first item of a header value without `,` is the whole value,
/// trimmed; and what follows the first `,` never changes the first item.
pub proof fn lemma_first_item_stops_at_comma(x: Seq<char>, y: Seq<char>)
    requires
        forall|i: int| 0 <= i < x.len() ==> x[i] != ',',
    ensures
        first_item(x) == trim(x),
        first_item(x + seq![','] + y) == trim(x),
{
    lemma_first_from_is(x, 0, ',', x.len() as int);
    assert(x.take(x.len() as int) =~= x);
    let z = x + seq![','] + y;
    assert forall|i: int| 0 <= i < x.len() implies z[i] != ',' by {
        assert(z[i] == x[i]);
    }
    lemma_first_from_is(z, 0, ',', x.len() as int);
    assert(z.take(x.len() as int) =~= x);
}

/// Law: the order in which the scheme is resolved. A `proto=` of the
/// `Forwarded` headers wins; without one, the first item of
/// `X-Forwarded-Proto` wins over the URI's scheme; without both, the URI's
/// scheme; without any, `https` for a secure server and `http` otherwise.
pub proof fn lemma_scheme_precedence(
    h: RequestHead,
    cfg: crate::configuration::ServerSettingsInner,
)
    ensures
        forwarded_value(forwarded_views(h), key_proto()) matches Some(v) ==> resolved_connection(
            h,
            cfg,
        ).scheme == v,
        forwarded_value(forwarded_views(h), key_proto()) is None ==> (h.x_forwarded_proto matches Some(x)
            ==> resolved_connection(h, cfg).scheme == first_item(x@)),
        forwarded_value(forwarded_views(h), key_proto()) is None && h.x_forwarded_proto is None ==> (
        h.uri_scheme matches Some(u) ==> resolved_connection(h, cfg).scheme == u@),
        forwarded_value(forwarded_views(h), key_proto()) is None && h.x_forwarded_proto is None
            && h.uri_scheme is None ==> resolved_connection(h, cfg).scheme == (if cfg.secure {
            "https"@
        } else {
            "http"@
        }),
{
}

/// Law: the order in which the host is resolved. A `host=` of the
/// `Forwarded` headers wins; then the first item of `X-Forwarded-Host`;
/// then the `Host` header; then the URI's authority; then the server's host.
pub proof fn lemma_host_precedence(h: RequestHead, cfg: crate::configuration::ServerSettingsInner)
    ensures
        forwarded_value(forwarded_views(h), key_host()) matches Some(v) ==> resolved_connection(
            h,
            cfg,
        ).host == v,
        forwarded_value(forwarded_views(h), key_host()) is None ==> (h.x_forwarded_host matches Some(x)
            ==> resolved_connection(h, cfg).host == first_item(x@)),
        forwarded_value(forwarded_views(h), key_host()) is None && h.x_forwarded_host is None ==> (
        h.host matches Some(x) ==> resolved_connection(h, cfg).host == x@),
        forwarded_value(forwarded_views(h), key_host()) is None && h.x_forwarded_host is None
            && h.host is None ==> (h.uri_authority matches Some(x) ==> resolved_connection(
            h,
            cfg,
        ).host == x@),
        forwarded_value(forwarded_views(h), key_host()) is None && h.x_forwarded_host is None
            && h.host is None && h.uri_authority is None ==> resolved_connection(h, cfg).host
            == cfg.host@,
{
}

/// Law: the order in which the client address is resolved. A `for=` of the
/// `Forwarded` headers wins; then the first item of `X-Forwarded-For`;
/// without both there is none. The remote address is the peer's.
pub proof fn lemma_realip_precedence(h: RequestHead, cfg: crate::configuration::ServerSettingsInner)
    ensures
        forwarded_value(forwarded_views(h), key_for()) matches Some(v) ==> resolved_connection(
            h,
            cfg,
        ).realip_remote_addr == Some(v),
        forwarded_value(forwarded_views(h), key_for()) is None ==> (h.x_forwarded_for matches Some(x)
            ==> resolved_connection(h, cfg).realip_remote_addr == Some(first_item(x@))),
        forwarded_value(forwarded_views(h), key_for()) is None && h.x_forwarded_for is None
            ==> resolved_connection(h, cfg).realip_remote_addr is None,
        resolved_connection(h, cfg).remote_addr == opt_view(h.peer_addr),
{
}

} // verus!
