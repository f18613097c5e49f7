//! Outbound requests: a base address plus query parameters, their
//! serialization, the provider-specific builders, and the handling of
//! continuation addresses.

use vstd::prelude::*;

use crate::calendar::spec_date_chars;
use crate::calendar::date_to_string;
use crate::calendar::Date;
use crate::strnum::push_char;
use crate::types::Granularity;
use crate::urlenc::append_encoded;
use crate::urlenc::pct_decode;
use crate::urlenc::spec_pct_decode;
use crate::urlenc::spec_pct_encode;
use crate::urlenc::str_eq;

verus! {

/// Query parameters as sequences of characters.
pub type ParamsView = Seq<(Seq<char>, Seq<char>)>;

/// A fully formed outbound request: base address (scheme, host, path) and
/// query parameters, kept unencoded until serialization.
pub struct Request {
    pub base: String,
    pub params: Vec<(String, String)>,
}

impl Request {
    pub open spec fn params_view(self) -> ParamsView {
        self.params@.map_values(|p: (String, String)| (p.0@, p.1@))
    }
}

/// `key=value`, both sides percent-encoded.
pub open spec fn spec_pair_chars(p: (Seq<char>, Seq<char>)) -> Seq<char> {
    spec_pct_encode(p.0) + seq!['='] + spec_pct_encode(p.1)
}

/// The query string of a parameter list, pairs joined by '&'.
pub open spec fn spec_query_chars(ps: ParamsView) -> Seq<char>
    decreases ps.len(),
{
    if ps.len() == 0 {
        Seq::<char>::empty()
    } else if ps.len() == 1 {
        spec_pair_chars(ps[0])
    } else {
        spec_query_chars(ps.drop_last()) + seq!['&'] + spec_pair_chars(ps.last())
    }
}

/// The serialized address of a request.
pub open spec fn spec_url_chars(base: Seq<char>, ps: ParamsView) -> Seq<char> {
    if ps.len() == 0 {
        base
    } else {
        base + seq!['?'] + spec_query_chars(ps)
    }
}

/// Serializes the request: base address, then '?' and the encoded pairs.
pub fn to_url(req: &Request) -> (r: String)
    ensures
        r@ == spec_url_chars(req.base@, req.params_view()),
{
    let ghost pv = req.params_view();
    let mut out = req.base.clone();
    let n = req.params.len();
    let mut i: usize = 0;
    proof {
        assert(pv.len() == n);
    }
    while i < n
        invariant
            i <= n,
            n == req.params.len(),
            pv == req.params_view(),
            pv.len() == n,
            i == 0 ==> out@ == req.base@,
            i > 0 ==> out@ == req.base@ + seq!['?'] + spec_query_chars(pv.take(i as int)),
        decreases n - i,
    {
        if i == 0 {
            push_char(&mut out, '?');
        } else {
            push_char(&mut out, '&');
        }
        append_encoded(&mut out, req.params[i].0.as_str());
        push_char(&mut out, '=');
        append_encoded(&mut out, req.params[i].1.as_str());
        proof {
            assert(pv[i as int] == (req.params@[i as int].0@, req.params@[i as int].1@));
            assert(pv.take((i + 1) as int).drop_last() =~= pv.take(i as int));
            assert(pv.take((i + 1) as int).last() == pv[i as int]);
            if i == 0 {
                assert(spec_query_chars(pv.take(1)) == spec_pair_chars(pv[0]));
                assert(out@ =~= req.base@ + seq!['?'] + spec_query_chars(pv.take(1)));
            } else {
                assert(out@ =~= req.base@ + seq!['?'] + spec_query_chars(pv.take((i + 1) as int)));
            }
        }
        i = i + 1;
    }
    proof {
        if n > 0 {
            assert(pv.take(n as int) =~= pv);
        }
    }
    out
}

/// The query keys that carry a page cursor.
pub open spec fn is_page_token_key(k: Seq<char>) -> bool {
    k == "page_token"@ || k == "next_page_token"@
}

/// The parameter list without any page-cursor pair.
pub open spec fn strip_page_tokens(ps: ParamsView) -> ParamsView
    decreases ps.len(),
{
    if ps.len() == 0 {
        Seq::<(Seq<char>, Seq<char>)>::empty()
    } else if is_page_token_key(ps.last().0) {
        strip_page_tokens(ps.drop_last())
    } else {
        strip_page_tokens(ps.drop_last()).push(ps.last())
    }
}

/// How many pairs carry the key `k`.
pub open spec fn count_key(ps: ParamsView, k: Seq<char>) -> nat
    decreases ps.len(),
{
    if ps.len() == 0 {
        0
    } else {
        count_key(ps.drop_last(), k) + if ps.last().0 == k {
            1nat
        } else {
            0nat
        }
    }
}

/// Stripping removes every page-cursor pair.
pub proof fn lemma_strip_removes_tokens(ps: ParamsView, k: Seq<char>)
    requires
        is_page_token_key(k),
    ensures
        count_key(strip_page_tokens(ps), k) == 0,
    decreases ps.len(),
{
    if ps.len() > 0 {
        lemma_strip_removes_tokens(ps.drop_last(), k);
        if !is_page_token_key(ps.last().0) {
            assert(strip_page_tokens(ps).drop_last() =~= strip_page_tokens(ps.drop_last()));
        }
    }
}

/// Builds the next token-cursor request from the previous one: every old
/// page-cursor pair is dropped and the new token appended as the single
/// `page_token` parameter.
pub fn build_next_twelvedata(prev: &Request, token: &str) -> (r: Request)
    ensures
        r.base@ == prev.base@,
        r.params_view() == strip_page_tokens(prev.params_view()).push(("page_token"@, token@)),
{
    let ghost pv = prev.params_view();
    let mut params: Vec<(String, String)> = Vec::new();
    let n = prev.params.len();
    let mut i: usize = 0;
    while i < n
        invariant
            i <= n,
            n == prev.params.len(),
            pv == prev.params_view(),
            pv.len() == n,
            params@.map_values(|p: (String, String)| (p.0@, p.1@)) == strip_page_tokens(
                pv.take(i as int),
            ),
        decreases n - i,
    {
        let keep = !(str_eq(prev.params[i].0.as_str(), "page_token") || str_eq(
            prev.params[i].0.as_str(),
            "next_page_token",
        ));
        proof {
            assert(pv[i as int] == (prev.params@[i as int].0@, prev.params@[i as int].1@));
            assert(pv.take((i + 1) as int).drop_last() =~= pv.take(i as int));
            assert(pv.take((i + 1) as int).last() == pv[i as int]);
        }
        if keep {
            let pair = (prev.params[i].0.clone(), prev.params[i].1.clone());
            params.push(pair);
            proof {
                assert(params@.map_values(|p: (String, String)| (p.0@, p.1@))
                    =~= strip_page_tokens(pv.take((i + 1) as int)));
            }
        } else {
            proof {
                assert(params@.map_values(|p: (String, String)| (p.0@, p.1@))
                    =~= strip_page_tokens(pv.take((i + 1) as int)));
            }
        }
        i = i + 1;
    }
    proof {
        assert(pv.take(n as int) =~= pv);
    }
    let tok = (String::from_str("page_token"), token.to_owned());
    params.push(tok);
    let r = Request { base: prev.base.clone(), params };
    proof {
        assert(r.params_view() =~= strip_page_tokens(pv).push(("page_token"@, token@)));
    }
    r
}

/// Building a next request twice, with two tokens in turn, leaves exactly
/// one `page_token` pair, carrying the later token, and no
/// `next_page_token` pair.
pub proof fn lemma_token_replacement(ps: ParamsView, t1: Seq<char>, t2: Seq<char>)
    ensures
        ({
            let ps1 = strip_page_tokens(ps).push(("page_token"@, t1));
            let ps2 = strip_page_tokens(ps1).push(("page_token"@, t2));
            &&& count_key(ps2, "page_token"@) == 1
            &&& count_key(ps2, "next_page_token"@) == 0
            &&& ps2.len() > 0
            &&& ps2.last() == ("page_token"@, t2)
        }),
{
    let ps1 = strip_page_tokens(ps).push(("page_token"@, t1));
    let ps2 = strip_page_tokens(ps1).push(("page_token"@, t2));
    assert(ps1.drop_last() =~= strip_page_tokens(ps));
    assert(strip_page_tokens(ps1) == strip_page_tokens(strip_page_tokens(ps)));
    lemma_strip_idempotent(ps);
    lemma_strip_removes_tokens(ps, "page_token"@);
    lemma_strip_removes_tokens(ps, "next_page_token"@);
    assert(ps2.drop_last() =~= strip_page_tokens(ps));
    reveal_strlit("page_token");
    reveal_strlit("next_page_token");
    assert("page_token"@.len() == 10);
    assert("next_page_token"@.len() == 15);
    assert("page_token"@ != "next_page_token"@);
}

/// Stripping an already stripped list changes nothing.
pub proof fn lemma_strip_idempotent(ps: ParamsView)
    ensures
        strip_page_tokens(strip_page_tokens(ps)) == strip_page_tokens(ps),
    decreases ps.len(),
{
    if ps.len() > 0 {
        lemma_strip_idempotent(ps.drop_last());
        if !is_page_token_key(ps.last().0) {
            assert(strip_page_tokens(ps).drop_last() =~= strip_page_tokens(ps.drop_last()));
            assert(strip_page_tokens(ps).last() == ps.last());
        }
    }
}

/// The label the URL-cursor provider uses for a granularity.
pub open spec fn spec_gran_polygon(g: Granularity) -> Seq<char> {
    match g {
        Granularity::Minute => "minute"@,
        Granularity::Day => "day"@,
    }
}

/// The label the token-cursor provider uses for a granularity.
pub open spec fn spec_gran_twelvedata(g: Granularity) -> Seq<char> {
    match g {
        Granularity::Minute => "1min"@,
        Granularity::Day => "1day"@,
    }
}

/// The initial URL-cursor request: ticker (percent-encoded), granularity
/// and date range in the path; paging, sorting and the key as parameters.
pub fn build_initial_polygon(
    ticker: &str,
    from: &Date,
    to: &Date,
    granularity: Granularity,
    api_key: &str,
) -> (r: Request)
    ensures
        r.base@ == "https://api.polygon.io/v2/aggs/ticker/"@ + spec_pct_encode(ticker@)
            + "/range/1/"@ + spec_gran_polygon(granularity) + seq!['/'] + spec_date_chars(
            from.y as int,
            from.m as nat,
            from.d as nat,
        ) + seq!['/'] + spec_date_chars(to.y as int, to.m as nat, to.d as nat),
        r.params_view() =~= seq![
            ("adjusted"@, "true"@),
            ("sort"@, "asc"@),
            ("limit"@, "50000"@),
            ("apiKey"@, api_key@),
        ],
{
    let mut base = String::new();
    base.append("https://api.polygon.io/v2/aggs/ticker/");
    append_encoded(&mut base, ticker);
    base.append("/range/1/");
    match granularity {
        Granularity::Minute => base.append("minute"),
        Granularity::Day => base.append("day"),
    }
    push_char(&mut base, '/');
    let fs = date_to_string(from);
    base.append(fs.as_str());
    push_char(&mut base, '/');
    let ts = date_to_string(to);
    base.append(ts.as_str());
    let mut params: Vec<(String, String)> = Vec::new();
    params.push((String::from_str("adjusted"), String::from_str("true")));
    params.push((String::from_str("sort"), String::from_str("asc")));
    params.push((String::from_str("limit"), String::from_str("50000")));
    params.push((String::from_str("apiKey"), api_key.to_owned()));
    let r = Request { base, params };
    proof {
        assert(r.params_view() =~= seq![
            ("adjusted"@, "true"@),
            ("sort"@, "asc"@),
            ("limit"@, "50000"@),
            ("apiKey"@, api_key@),
        ]);
    }
    r
}

/// The initial token-cursor request: everything as query parameters.
pub fn build_initial_twelvedata(
    ticker: &str,
    from: &Date,
    to: &Date,
    granularity: Granularity,
    api_key: &str,
) -> (r: Request)
    ensures
        r.base@ == "https://api.twelvedata.com/time_series"@,
        r.params_view() =~= seq![
            ("symbol"@, ticker@),
            ("interval"@, spec_gran_twelvedata(granularity)),
            ("start_date"@, spec_date_chars(from.y as int, from.m as nat, from.d as nat)),
            ("end_date"@, spec_date_chars(to.y as int, to.m as nat, to.d as nat)),
            ("order"@, "ASC"@),
            ("timezone"@, "UTC"@),
            ("format"@, "JSON"@),
            ("outputsize"@, "5000"@),
            ("apikey"@, api_key@),
        ],
{
    let base = {
        let mut b = String::new();
        b.append("https://api.twelvedata.com/time_series");
        b
    };
    let interval = match granularity {
        Granularity::Minute => "1min",
        Granularity::Day => "1day",
    };
    let mut params: Vec<(String, String)> = Vec::new();
    params.push((String::from_str("symbol"), ticker.to_owned()));
    params.push((String::from_str("interval"), String::from_str(interval)));
    params.push((String::from_str("start_date"), date_to_string(from)));
    params.push((String::from_str("end_date"), date_to_string(to)));
    params.push((String::from_str("order"), String::from_str("ASC")));
    params.push((String::from_str("timezone"), String::from_str("UTC")));
    params.push((String::from_str("format"), String::from_str("JSON")));
    params.push((String::from_str("outputsize"), String::from_str("5000")));
    params.push((String::from_str("apikey"), api_key.to_owned()));
    let r = Request { base, params };
    proof {
        assert(r.params_view() =~= seq![
            ("symbol"@, ticker@),
            ("interval"@, spec_gran_twelvedata(granularity)),
            ("start_date"@, spec_date_chars(from.y as int, from.m as nat, from.d as nat)),
            ("end_date"@, spec_date_chars(to.y as int, to.m as nat, to.d as nat)),
            ("order"@, "ASC"@),
            ("timezone"@, "UTC"@),
            ("format"@, "JSON"@),
            ("outputsize"@, "5000"@),
            ("apikey"@, api_key@),
        ]);
    }
    r
}

/// The serialized initial request of a provider.
pub open spec fn spec_initial_url(
    provider: crate::types::Provider,
    ticker: Seq<char>,
    from: Date,
    to: Date,
    g: Granularity,
    key: Seq<char>,
) -> Seq<char> {
    match provider {
        crate::types::Provider::Polygon => spec_url_chars(
            "https://api.polygon.io/v2/aggs/ticker/"@ + spec_pct_encode(ticker) + "/range/1/"@
                + spec_gran_polygon(g) + seq!['/'] + spec_date_chars(
                from.y as int,
                from.m as nat,
                from.d as nat,
            ) + seq!['/'] + spec_date_chars(to.y as int, to.m as nat, to.d as nat),
            seq![
                ("adjusted"@, "true"@),
                ("sort"@, "asc"@),
                ("limit"@, "50000"@),
                ("apiKey"@, key),
            ],
        ),
        crate::types::Provider::TwelveData => spec_url_chars(
            "https://api.twelvedata.com/time_series"@,
            seq![
                ("symbol"@, ticker),
                ("interval"@, spec_gran_twelvedata(g)),
                ("start_date"@, spec_date_chars(from.y as int, from.m as nat, from.d as nat)),
                ("end_date"@, spec_date_chars(to.y as int, to.m as nat, to.d as nat)),
                ("order"@, "ASC"@),
                ("timezone"@, "UTC"@),
                ("format"@, "JSON"@),
                ("outputsize"@, "5000"@),
                ("apikey"@, key),
            ],
        ),
    }
}

/// An address already carrying an `apiKey` parameter keeps its text — and
/// so its original key value — whatever key is supplied; one without gains
/// exactly `apiKey=<encoded key>` at the end of its query, and nothing
/// else.
pub proof fn lemma_key_injection(url: Seq<char>, k1: Seq<char>, k2: Seq<char>)
    ensures
        spec_url_has_key(url, "apiKey"@) ==> spec_with_key(url, k1) == url && spec_with_key(
            url,
            k2,
        ) == url,
        !spec_url_has_key(url, "apiKey"@) ==> spec_with_key(url, k1) == url + (if find_from(
            url,
            '?',
            0,
        ) == url.len() {
            seq!['?']
        } else {
            seq!['&']
        }) + "apiKey="@ + spec_pct_encode(k1),
{
}

/// The first position of `c` in `s` at or after `i`, or the length.
pub open spec fn find_from(s: Seq<char>, c: char, i: int) -> int
    decreases s.len() - i,
{
    if i < 0 || i >= s.len() {
        s.len() as int
    } else if s[i] == c {
        i
    } else {
        find_from(s, c, i + 1)
    }
}

pub proof fn lemma_find_from(s: Seq<char>, c: char, i: int)
    requires
        0 <= i <= s.len(),
    ensures
        i <= find_from(s, c, i) <= s.len(),
        find_from(s, c, i) < s.len() ==> s[find_from(s, c, i)] == c,
        forall|j: int| i <= j < find_from(s, c, i) ==> s[j] != c,
    decreases s.len() - i,
{
    if i < s.len() && s[i] != c {
        lemma_find_from(s, c, i + 1);
    }
}

/// The first position of `c` at or after `from`.
pub fn find_char(s: &str, c: char, from: usize) -> (r: usize)
    requires
        from <= s@.len(),
    ensures
        r == find_from(s@, c, from as int),
        from <= r <= s@.len(),
    decreases s@.len() - from,
{
    let len = s.unicode_len();
    let mut j = from;
    while j < len
        invariant
            from <= j <= len,
            len == s@.len(),
            find_from(s@, c, from as int) == find_from(s@, c, j as int),
            forall|k: int| from <= k < j ==> s@[k] != c,
        decreases len - j,
    {
        if s.get_char(j) == c {
            return j;
        }
        j = j + 1;
    }
    j
}

/// Whether the query segment (a `key=value` or bare `key` slice) carries
/// the decoded key `name`.
pub open spec fn segment_key_matches(seg: Seq<char>, name: Seq<char>) -> bool {
    spec_pct_decode(seg.take(find_from(seg, '=', 0))) == name
}

/// Whether any '&'-separated segment from position `i` on carries the key.
pub open spec fn has_key_from(url: Seq<char>, name: Seq<char>, i: int) -> bool
    decreases url.len() - i,
{
    if i < 0 || i > url.len() {
        false
    } else {
        let amp = find_from(url, '&', i);
        if i <= amp <= url.len() {
            segment_key_matches(url.subrange(i, amp), name) || (amp < url.len() && has_key_from(
                url,
                name,
                amp + 1,
            ))
        } else {
            false
        }
    }
}

/// Whether the address has a query part with a parameter whose decoded
/// key is `name`.
pub open spec fn spec_url_has_key(url: Seq<char>, name: Seq<char>) -> bool {
    let q = find_from(url, '?', 0);
    q < url.len() && has_key_from(url, name, q + 1)
}

/// Whether the address carries a parameter with the decoded key `name`.
pub fn url_has_key(url: &str, name: &str) -> (r: bool)
    ensures
        r == spec_url_has_key(url@, name@),
{
    let len = url.unicode_len();
    let q = find_char(url, '?', 0);
    proof {
        lemma_find_from(url@, '?', 0);
    }
    if q == len {
        return false;
    }
    let mut i = q + 1;
    loop
        invariant
            q < len,
            q + 1 <= i <= len,
            len == url@.len(),
            spec_url_has_key(url@, name@) == has_key_from(url@, name@, i as int),
        decreases len - i,
    {
        let amp = find_char(url, '&', i);
        proof {
            lemma_find_from(url@, '&', i as int);
        }
        let seg = url.substring_char(i, amp);
        let keyend = find_char(seg, '=', 0);
        let keypart = seg.substring_char(0, keyend);
        let dec = pct_decode(keypart);
        proof {
            assert(seg@.take(find_from(seg@, '=', 0)) =~= keypart@);
        }
        if str_eq(dec.as_str(), name) {
            proof {
                assert(segment_key_matches(url@.subrange(i as int, amp as int), name@));
            }
            return true;
        }
        if amp == len {
            return false;
        }
        i = amp + 1;
    }
}

/// What `ensure_api_key_present` returns: the address unchanged when a
/// (decoded) `apiKey` parameter is already present, whatever its value;
/// otherwise the address with `apiKey=<encoded key>` appended to its query
/// (a '?' is opened when the address had none).
pub open spec fn spec_with_key(url: Seq<char>, key: Seq<char>) -> Seq<char> {
    if spec_url_has_key(url, "apiKey"@) {
        url
    } else {
        let sep: Seq<char> = if find_from(url, '?', 0) == url.len() {
            seq!['?']
        } else {
            seq!['&']
        };
        url + sep + "apiKey="@ + spec_pct_encode(key)
    }
}

/// Appends the caller's key to a continuation address unless the address
/// already carries one; an existing key keeps its original value.
pub fn ensure_api_key_present(url: &str, api_key: &str) -> (r: String)
    ensures
        r@ == spec_with_key(url@, api_key@),
{
    if url_has_key(url, "apiKey") {
        return url.to_owned();
    }
    let mut out = url.to_owned();
    let len = url.unicode_len();
    let q = find_char(url, '?', 0);
    if q == len {
        push_char(&mut out, '?');
    } else {
        push_char(&mut out, '&');
    }
    out.append("apiKey=");
    append_encoded(&mut out, api_key);
    proof {
        assert(out@ =~= spec_with_key(url@, api_key@));
    }
    out
}

} // verus!
