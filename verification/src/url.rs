use vstd::prelude::*;

use crate::unreal::{text_of, FString};

verus! {

/// `:` as a UTF-16 unit.
pub const COLON: u16 = 58;

/// `/` as a UTF-16 unit.
pub const SLASH: u16 = 47;

/// `?` as a UTF-16 unit.
pub const QUESTION: u16 = 63;

/// Index of the first `c` in `u` at or after `from`; `u.len()` when there is
/// none, and `from` itself when `from` is already past the end.
pub open spec fn find_from(u: Seq<u16>, from: int, c: u16) -> int
    decreases u.len() - from,
{
    if from < 0 || from >= u.len() {
        from
    } else if u[from] == c {
        from
    } else {
        find_from(u, from + 1, c)
    }
}

pub proof fn lemma_find_from(u: Seq<u16>, from: int, c: u16)
    requires
        0 <= from,
    ensures
        from <= find_from(u, from, c),
        from <= u.len() ==> find_from(u, from, c) <= u.len(),
        from > u.len() ==> find_from(u, from, c) == from,
        forall|i: int| from <= i < find_from(u, from, c) ==> u[i] != c,
        find_from(u, from, c) < u.len() ==> u[find_from(u, from, c)] == c,
    decreases u.len() - from,
{
    if from < u.len() && u[from] != c {
        lemma_find_from(u, from + 1, c);
    }
}

/// Number of units of a string model (0 for the null string).
pub open spec fn units_len(m: Option<Seq<u16>>) -> int {
    match m {
        Some(u) => u.len() as int,
        None => 0,
    }
}

/// The string that `substring` makes: `count` units from `offset`, cut
/// before the source's last unit, plus a terminator; null when the source is
/// null or `offset` is not below its length.
pub open spec fn sub_model(s: Option<Seq<u16>>, offset: int, count: int) -> Option<Seq<u16>> {
    match s {
        None => None,
        Some(u) => if offset >= u.len() {
            None
        } else {
            let n = if count < u.len() - offset - 1 {
                count
            } else {
                u.len() - offset - 1
            };
            Some(u.subrange(offset, offset + n).push(0u16))
        },
    }
}

/// Where the scheme ends: the first `:`.
pub open spec fn scheme_end(u: Seq<u16>) -> int {
    find_from(u, 0, COLON)
}

/// 3 for `://`, else 1.
pub open spec fn separator_len(u: Seq<u16>) -> int {
    let p = scheme_end(u);
    if p + 2 < u.len() && u[p + 1] == SLASH && u[p + 2] == SLASH {
        3
    } else {
        1
    }
}

/// Where host and port begin.
pub open spec fn authority_start(u: Seq<u16>) -> int {
    scheme_end(u) + separator_len(u)
}

/// Where host and port end: the first `/` after the separator.
pub open spec fn authority_end(u: Seq<u16>) -> int {
    find_from(u, authority_start(u), SLASH)
}

/// Position of the `:` that starts the port, within host-and-port.
pub open spec fn port_start(dap: Option<Seq<u16>>) -> int {
    match dap {
        Some(u) => find_from(u, 0, COLON),
        None => 0,
    }
}

pub open spec fn has_port(dap: Option<Seq<u16>>) -> bool {
    port_start(dap) < units_len(dap)
}

/// The host part of host-and-port.
pub open spec fn domain_part(dap: Option<Seq<u16>>) -> Option<Seq<u16>> {
    if has_port(dap) {
        sub_model(dap, 0, port_start(dap))
    } else {
        dap
    }
}

/// The port part of host-and-port, colon included.
pub open spec fn port_part(dap: Option<Seq<u16>>) -> Option<Seq<u16>> {
    sub_model(dap, port_start(dap), units_len(dap) - port_start(dap))
}

/// Host and port of a URL, as a string.
pub open spec fn authority_model(u: Seq<u16>) -> Option<Seq<u16>> {
    sub_model(Some(u), authority_start(u), authority_end(u) - authority_start(u))
}

/// The six pieces of a URL, each as a string model.
pub struct UrlModel {
    pub protocol: Option<Seq<u16>>,
    pub separator: Option<Seq<u16>>,
    pub domain: Option<Seq<u16>>,
    pub port: Option<Seq<u16>>,
    pub path: Option<Seq<u16>>,
    pub query: Option<Seq<u16>>,
}

/// What `ParsedUrl::parse` makes of a string.
pub open spec fn parse_model(url: Option<Seq<u16>>) -> UrlModel {
    match url {
        None => UrlModel {
            protocol: None,
            separator: None,
            domain: None,
            port: None,
            path: None,
            query: None,
        },
        Some(u) => {
            let dap = authority_model(u);
            let path_str = sub_model(Some(u), authority_end(u), u.len() - authority_end(u));
            let qo = match path_str {
                Some(p) => find_from(p, 0, QUESTION),
                None => 0,
            };
            UrlModel {
                protocol: sub_model(Some(u), 0, scheme_end(u)),
                separator: sub_model(Some(u), scheme_end(u), separator_len(u)),
                domain: domain_part(dap),
                port: if has_port(dap) {
                    port_part(dap)
                } else {
                    None
                },
                path: sub_model(path_str, 0, qo),
                query: if qo < units_len(path_str) {
                    sub_model(path_str, qo, units_len(path_str) - qo)
                } else {
                    None
                },
            }
        },
    }
}

/// What `ParsedUrl::set_host` makes of the pieces: scheme, separator and
/// host come from `host`, and so does the port when `host` names one.
pub open spec fn set_host_model(m: UrlModel, host: Option<Seq<u16>>) -> UrlModel {
    match host {
        None => m,
        Some(h) => {
            let dap = authority_model(h);
            UrlModel {
                protocol: sub_model(Some(h), 0, scheme_end(h)),
                separator: sub_model(Some(h), scheme_end(h), separator_len(h)),
                domain: domain_part(dap),
                port: if has_port(dap) {
                    port_part(dap)
                } else {
                    m.port
                },
                path: m.path,
                query: m.query,
            }
        },
    }
}

/// The text that `get_url` joins: the pieces without their terminators.
pub open spec fn joined_text(m: UrlModel) -> Seq<u16> {
    text_of(m.protocol) + text_of(m.separator) + text_of(m.domain) + text_of(m.port) + text_of(
        m.path,
    ) + text_of(m.query)
}

/// A URL split into scheme, separator, host, port, path and query.
pub struct ParsedUrl {
    pub protocol: FString,
    pub separator: FString,
    pub domain: FString,
    pub port: FString,
    pub path: FString,
    pub query: FString,
}

impl View for ParsedUrl {
    type V = UrlModel;

    open spec fn view(&self) -> UrlModel {
        UrlModel {
            protocol: self.protocol@,
            separator: self.separator@,
            domain: self.domain@,
            port: self.port@,
            path: self.path@,
            query: self.query@,
        }
    }
}

/// Position of the first `c` at or after `from` among the first `len` units.
fn find_unit(v: &Vec<u16>, len: usize, from: usize, c: u16) -> (r: usize)
    requires
        len <= v@.len(),
    ensures
        r == find_from(v@.take(len as int), from as int, c),
{
    let ghost u = v@.take(len as int);
    let mut i = from;
    while i < len && v[i] != c
        invariant
            from <= i,
            len <= v@.len(),
            u == v@.take(len as int),
            find_from(u, from as int, c) == find_from(u, i as int, c),
        decreases len - i,
    {
        assert(u[i as int] == v@[i as int]);
        i = i + 1;
    }
    proof {
        if i < len {
            assert(u[i as int] == v@[i as int]);
        }
    }
    i
}

/// `count` units of `s` from `offset`, cut before its last unit, with a
/// terminator of its own.
fn substring(s: &FString, offset: usize, count: usize) -> (r: FString)
    requires
        s.wf(),
    ensures
        r.wf(),
        r@ == sub_model(s@, offset as int, count as int),
        r.is_compact(),
{
    match &s.string {
        None => FString::new(),
        Some(v) => {
            let len = s.length as usize;
            if offset >= len {
                return FString::new();
            }
            let avail = len - offset - 1;
            let actual = if count < avail {
                count
            } else {
                avail
            };
            let mut out: Vec<u16> = Vec::new();
            let mut k: usize = 0;
            while k < actual
                invariant
                    k <= actual,
                    offset + actual < len,
                    len <= v@.len(),
                    out@ == v@.subrange(offset as int, offset + k),
                decreases actual - k,
            {
                out.push(v[offset + k]);
                k = k + 1;
            }
            out.push(0u16);
            let n = (actual + 1) as u32;
            let r = FString { string: Some(out), length: n, max_size: n };
            assert(v@.take(len as int).subrange(offset as int, offset + actual) =~= v@.subrange(
                offset as int,
                offset + actual,
            ));
            assert(r@ == Some(out@.take(n as int)));
            assert(out@.take(n as int) =~= out@);
            r
        },
    }
}

/// Scheme, separator and host-and-port of `host`, and where host-and-port
/// ends (at most the length of `host`).
fn split_authority(host: &FString) -> (r: (FString, FString, FString, usize))
    requires
        host.wf(),
        host.string is Some,
    ensures
        ({
            let u = host@->0;
            &&& r.0.wf() && r.1.wf() && r.2.wf()
            &&& r.0.is_compact() && r.1.is_compact() && r.2.is_compact()
            &&& r.0@ == sub_model(Some(u), 0, scheme_end(u))
            &&& r.1@ == sub_model(Some(u), scheme_end(u), separator_len(u))
            &&& r.2@ == authority_model(u)
            &&& r.3 == if authority_end(u) < u.len() {
                authority_end(u)
            } else {
                u.len() as int
            }
        }),
{
    let v = host.string.as_ref().unwrap();
    let len = host.length as usize;
    let ghost u = v@.take(len as int);
    let p = find_unit(v, len, 0, COLON);
    proof {
        lemma_find_from(u, 0, COLON);
    }
    let protocol = substring(host, 0, p);
    if p >= len {
        proof {
            lemma_find_from(u, len + 1, SLASH);
        }
        return (protocol, FString::new(), FString::new(), len);
    }
    let sep: usize = if len - p > 2 && v[p + 1] == SLASH && v[p + 2] == SLASH {
        3
    } else {
        1
    };
    proof {
        if p + 2 < len {
            assert(u[p + 1] == v@[p + 1]);
            assert(u[p + 2] == v@[p + 2]);
        }
    }
    let separator = substring(host, p, sep);
    let ds = p + sep;
    let de = find_unit(v, len, ds, SLASH);
    proof {
        lemma_find_from(u, ds as int, SLASH);
    }
    let dap = substring(host, ds, de - ds);
    (protocol, separator, dap, de)
}

/// Host and port of host-and-port; the port is `None` when there is no `:`.
fn split_port(dap: FString) -> (r: (FString, Option<FString>))
    requires
        dap.wf(),
        dap.is_compact(),
    ensures
        r.0.wf(),
        r.0.is_compact(),
        r.1 matches Some(p) ==> p.is_compact(),
        r.0@ == domain_part(dap@),
        r.1 is Some <==> has_port(dap@),
        r.1 matches Some(p) ==> p.wf() && p@ == port_part(dap@),
{
    match &dap.string {
        None => (dap, None),
        Some(v) => {
            let len = dap.length as usize;
            let po = find_unit(v, len, 0, COLON);
            if po < len {
                let domain = substring(&dap, 0, po);
                let port = substring(&dap, po, len - po);
                (domain, Some(port))
            } else {
                (dap, None)
            }
        },
    }
}

impl ParsedUrl {
    pub open spec fn wf(&self) -> bool {
        &&& self.protocol.wf()
        &&& self.separator.wf()
        &&& self.domain.wf()
        &&& self.port.wf()
        &&& self.path.wf()
        &&& self.query.wf()
    }

    /// Each piece's capacity is its length, and null pieces have length 0.
    pub open spec fn is_compact(&self) -> bool {
        &&& self.protocol.is_compact()
        &&& self.separator.is_compact()
        &&& self.domain.is_compact()
        &&& self.port.is_compact()
        &&& self.path.is_compact()
        &&& self.query.is_compact()
    }

    /// All six pieces null, with length 0 and capacity 0.
    pub fn new() -> (r: ParsedUrl)
        ensures
            r.wf(),
            r@ == parse_model(None),
            r.is_compact(),
            r.protocol.length == 0 && r.separator.length == 0 && r.domain.length == 0,
            r.port.length == 0 && r.path.length == 0 && r.query.length == 0,
    {
        ParsedUrl {
            protocol: FString::new(),
            separator: FString::new(),
            domain: FString::new(),
            port: FString::new(),
            path: FString::new(),
            query: FString::new(),
        }
    }

    /// Splits `url` into its six pieces.
    pub fn parse(url: &FString) -> (r: ParsedUrl)
        requires
            url.wf(),
        ensures
            r.wf(),
            r@ == parse_model(url@),
            r.is_compact(),
    {
        if url.string.is_none() {
            return Self::new();
        }
        let len = url.length as usize;
        let (protocol, separator, dap, de) = split_authority(url);
        let path_str = substring(url, de, len - de);
        let (domain, port) = split_port(dap);
        let port = match port {
            Some(p) => p,
            None => FString::new(),
        };
        let (path, query) = match &path_str.string {
            None => (FString::new(), FString::new()),
            Some(v) => {
                let plen = path_str.length as usize;
                let qo = find_unit(v, plen, 0, QUESTION);
                let path = substring(&path_str, 0, qo);
                let query = if qo < plen {
                    substring(&path_str, qo, plen - qo)
                } else {
                    FString::new()
                };
                (path, query)
            },
        };
        ParsedUrl { protocol, separator, domain, port, path, query }
    }

    /// Takes scheme, separator and host from `host`, and its port when it
    /// names one; path and query stay. A null `host` changes nothing.
    pub fn set_host(&mut self, host: &FString)
        requires
            old(self).wf(),
            host.wf(),
        ensures
            final(self).wf(),
            final(self)@ == set_host_model(old(self)@, host@),
            host.string is None ==> *final(self) == *old(self),
            final(self).path == old(self).path,
            final(self).query == old(self).query,
            host.string is Some && !has_port(authority_model(host@->0)) ==> final(self).port
                == old(self).port,
            host.string is Some ==> final(self).protocol.is_compact()
                && final(self).separator.is_compact() && final(self).domain.is_compact(),
            host.string is Some && has_port(authority_model(host@->0))
                ==> final(self).port.is_compact(),
            old(self).is_compact() ==> final(self).is_compact(),
    {
        if host.string.is_none() {
            return ;
        }
        let (protocol, separator, dap, _de) = split_authority(host);
        self.protocol = protocol;
        self.separator = separator;
        let (domain, port) = split_port(dap);
        self.domain = domain;
        match port {
            Some(p) => {
                self.port = p;
            },
            None => {},
        }
    }

    /// Joins the six pieces into one terminated string.
    pub fn get_url(&self) -> (r: FString)
        requires
            self.wf(),
        ensures
            r.wf(),
            r.string matches Some(v) && v@ == joined_text(self@).push(0u16),
            r.length as int == (joined_text(self@).len() + 1) % 0x1_0000_0000,
            r.max_size == r.length,
    {
        let mut out: Vec<u16> = Vec::new();
        append_text(&mut out, &self.protocol);
        append_text(&mut out, &self.separator);
        append_text(&mut out, &self.domain);
        append_text(&mut out, &self.port);
        append_text(&mut out, &self.path);
        append_text(&mut out, &self.query);
        out.push(0u16);
        let total = out.len();
        let n = (total as u64 % 0x1_0000_0000) as u32;
        FString { string: Some(out), length: n, max_size: n }
    }
}

/// Appends the characters of `s` before its terminator.
fn append_text(out: &mut Vec<u16>, s: &FString)
    requires
        s.wf(),
    ensures
        final(out)@ == old(out)@ + text_of(s@),
{
    match &s.string {
        None => {
            assert(old(out)@ + text_of(s@) =~= old(out)@);
        },
        Some(v) => {
            let n: usize = if s.length > 0 {
                (s.length - 1) as usize
            } else {
                0
            };
            let ghost start = out@;
            let mut k: usize = 0;
            while k < n
                invariant
                    k <= n,
                    n <= v@.len(),
                    out@ == start + v@.subrange(0, k as int),
                decreases n - k,
            {
                out.push(v[k]);
                k = k + 1;
                assert(out@ =~= start + v@.subrange(0, k as int));
            }
            assert(text_of(s@) =~= v@.subrange(0, n as int));
        },
    }
}


/// The characters of a `substring` result.
proof fn lemma_text_sub(u: Seq<u16>, offset: int, count: int)
    requires
        0 <= offset < u.len(),
        0 <= count,
    ensures
        sub_model(Some(u), offset, count) is Some,
        text_of(sub_model(Some(u), offset, count)) =~= u.subrange(
            offset,
            offset + if count < u.len() - offset - 1 {
                count
            } else {
                u.len() - offset - 1
            },
        ),
{
}

/// Splitting a terminated string at its first occurrence of `c` loses no
/// characters: the part before it and the part from it (when present) join
/// back to the whole text.
proof fn lemma_split_text(w: Seq<u16>, c: u16)
    requires
        w.len() >= 1,
        w.last() != c,
    ensures
        ({
            let k = find_from(w, 0, c);
            let head = if k < w.len() {
                sub_model(Some(w), 0, k)
            } else {
                Some(w)
            };
            let tail = if k < w.len() {
                text_of(sub_model(Some(w), k, w.len() - k))
            } else {
                Seq::<u16>::empty()
            };
            &&& k < w.len() ==> k < w.len() - 1
            &&& text_of(head) + tail =~= w.drop_last()
        }),
{
    lemma_find_from(w, 0, c);
    let k = find_from(w, 0, c);
    if k < w.len() {
        lemma_text_sub(w, 0, k);
        lemma_text_sub(w, k, w.len() - k);
    }
}

/// Scheme, separator, host and port of a terminated URL, joined: everything
/// before the path.
pub open spec fn origin_text(u: Seq<u16>) -> Seq<u16> {
    let e = if authority_end(u) < u.len() - 1 {
        authority_end(u)
    } else {
        u.len() - 1
    };
    u.take(e)
}

/// Path and query of a terminated URL, joined: everything from the first `/`
/// after the host on.
pub open spec fn rest_text(u: Seq<u16>) -> Seq<u16> {
    let e = if authority_end(u) < u.len() - 1 {
        authority_end(u)
    } else {
        u.len() - 1
    };
    u.subrange(e, u.len() - 1)
}

/// A terminated string: non-null, non-empty, with a final unit of 0.
pub open spec fn terminated(m: Option<Seq<u16>>) -> bool {
    m matches Some(u) && u.len() >= 1 && u.last() == 0
}

/// The scheme-to-port pieces of a terminated URL join to `origin_text`.
proof fn lemma_origin_pieces(u: Seq<u16>)
    requires
        terminated(Some(u)),
    ensures
        ({
            let dap = authority_model(u);
            text_of(sub_model(Some(u), 0, scheme_end(u))) + text_of(
                sub_model(Some(u), scheme_end(u), separator_len(u)),
            ) + text_of(domain_part(dap)) + (if has_port(dap) {
                text_of(port_part(dap))
            } else {
                Seq::<u16>::empty()
            }) =~= origin_text(u)
        }),
        authority_end(u) < u.len() ==> authority_end(u) < u.len() - 1,
{
    let len = u.len() as int;
    lemma_find_from(u, 0, COLON);
    let p = scheme_end(u);
    if p >= len {
        lemma_text_sub(u, 0, p);
        lemma_find_from(u, len + 1, SLASH);
        assert(authority_end(u) == len + 1);
    } else {
        assert(p < len - 1);
        let s = separator_len(u);
        lemma_text_sub(u, 0, p);
        lemma_text_sub(u, p, s);
        let ds = p + s;
        assert(ds <= len - 1);
        lemma_find_from(u, ds, SLASH);
        let de = authority_end(u);
        let e = if de < len - 1 {
            de
        } else {
            len - 1
        };
        lemma_text_sub(u, ds, de - ds);
        let dap = authority_model(u);
        let w = dap->0;
        assert(w =~= u.subrange(ds, e).push(0u16));
        lemma_split_text(w, COLON);
        assert(u.take(e) =~= u.take(p) + u.subrange(p, ds) + u.subrange(ds, e));
    }
}

/// The path and query pieces of a terminated URL join to `rest_text`.
proof fn lemma_rest_pieces(u: Seq<u16>)
    requires
        terminated(Some(u)),
    ensures
        ({
            let m = parse_model(Some(u));
            text_of(m.path) + text_of(m.query) =~= rest_text(u)
        }),
{
    let len = u.len() as int;
    lemma_origin_pieces(u);
    lemma_find_from(u, 0, COLON);
    let p = scheme_end(u);
    if p < len {
        lemma_find_from(u, p + separator_len(u), SLASH);
    } else {
        lemma_find_from(u, len + 1, SLASH);
    }
    let de = authority_end(u);
    let path_str = sub_model(Some(u), de, len - de);
    if de < len {
        lemma_text_sub(u, de, len - de);
        let w = path_str->0;
        assert(w =~= u.subrange(de, len - 1).push(0u16));
        lemma_split_text(w, QUESTION);
        lemma_find_from(w, 0, QUESTION);
        let qo = find_from(w, 0, QUESTION);
        if qo >= w.len() {
            lemma_text_sub(w, 0, qo);
        }
    } else {
        assert(rest_text(u) =~= Seq::<u16>::empty());
    }
}

/// Parsing a terminated URL and joining the pieces again gives back its text:
/// nothing is lost or reordered.
pub proof fn law_parse_then_join(u: Seq<u16>)
    requires
        terminated(Some(u)),
    ensures
        joined_text(parse_model(Some(u))) =~= text_of(Some(u)),
        joined_text(parse_model(Some(u))) =~= origin_text(u) + rest_text(u),
{
    lemma_origin_pieces(u);
    lemma_rest_pieces(u);
    let m = parse_model(Some(u));
    let dap = authority_model(u);
    if !has_port(dap) {
        assert(text_of(m.port) =~= Seq::<u16>::empty());
    }
    lemma_find_from(u, 0, COLON);
    lemma_find_from(u, authority_start(u), SLASH);
    let e = if authority_end(u) < u.len() - 1 {
        authority_end(u)
    } else {
        u.len() - 1
    };
    assert(u.drop_last() =~= u.take(e) + u.subrange(e, u.len() - 1));
}

/// Setting the host keeps path and query as they were.
pub proof fn law_set_host_keeps_path_and_query(m: UrlModel, host: Option<Seq<u16>>)
    ensures
        set_host_model(m, host).path == m.path,
        set_host_model(m, host).query == m.query,
{
}

/// Rewriting a URL to a backend: the result is the backend's scheme, host and
/// port, then the URL's own port when the backend names none, then the URL's
/// path and query unchanged.
pub proof fn law_rewrite_keeps_path_and_query(u: Seq<u16>, h: Seq<u16>)
    requires
        terminated(Some(u)),
        terminated(Some(h)),
    ensures
        joined_text(set_host_model(parse_model(Some(u)), Some(h))) =~= origin_text(h) + (if has_port(
            authority_model(h),
        ) {
            Seq::<u16>::empty()
        } else {
            text_of(parse_model(Some(u)).port)
        }) + rest_text(u),
{
    lemma_origin_pieces(h);
    lemma_rest_pieces(u);
}

} // verus!
