//! Reading the providers' JSON envelopes.
//!
//! serde_json parses the body and hands fields out through small trusted
//! accessors; the walk over the envelope and every decision about its
//! shape is verified code.  What the parse yields is named (`json_doc` for
//! a body's document, `json_view` for an opaque value's contents), each
//! accessor's contract is exact over those names, and the decoded page is
//! thereby a function of the body alone.  Numbers are taken as their
//! rendered text and parsed into exact decimals by the verified parser.

use vstd::prelude::*;

use crate::decimal::spec_parse_dec;
use crate::strnum::pow10;
use crate::types::DownloadError;

verus! {

#[verifier::external_type_specification]
#[verifier::external_body]
pub struct ExJsonValue(serde_json::Value);

/// A JSON document as serde_json holds it: null, booleans, numbers (their
/// rendered text, and their value when stored as an integer), strings,
/// arrays, and objects (member names mapped to values; duplicate names
/// keep the last).
pub enum JsonView {
    Null,
    Bool { b: bool },
    Num { int_val: Option<int>, repr: Seq<char> },
    Str { s: Seq<char> },
    Arr { items: Seq<JsonView> },
    Obj { fields: Map<Seq<char>, JsonView> },
}

/// What `serde_json::from_str::<Value>` yields on a body: `None` on
/// malformed input, otherwise the parsed document.
pub uninterp spec fn json_doc(body: Seq<char>) -> Option<JsonView>;

/// The contents of a parsed value.
pub uninterp spec fn json_view(v: serde_json::Value) -> JsonView;

/// The members of an object (empty for any other value).
pub open spec fn obj_fields(j: JsonView) -> Map<Seq<char>, JsonView> {
    match j {
        JsonView::Obj { fields } => fields,
        _ => Map::<Seq<char>, JsonView>::empty(),
    }
}

/// The elements of an array (empty for any other value).
pub open spec fn arr_items(j: JsonView) -> Seq<JsonView> {
    match j {
        JsonView::Arr { items } => items,
        _ => Seq::<JsonView>::empty(),
    }
}

/// Relies on `serde_json::from_str::<Value>`: succeeds exactly on the
/// bodies whose document `json_doc` names, and yields that document.
#[verifier::external_body]
fn json_parse(body: &str) -> (r: Option<serde_json::Value>)
    ensures
        r is Some <==> json_doc(body@) is Some,
        r matches Some(v) ==> json_view(v) == json_doc(body@)->0,
{
    serde_json::from_str::<serde_json::Value>(body).ok()
}

/// Relies on `serde_json::Value::is_object`.
#[verifier::external_body]
fn json_is_object(v: &serde_json::Value) -> (r: bool)
    ensures
        r == (json_view(*v) is Obj),
{
    v.is_object()
}

/// Relies on `serde_json::Value::get`: the named member when the value is
/// an object that has it, `None` otherwise.
#[verifier::external_body]
fn json_get<'a>(v: &'a serde_json::Value, key: &str) -> (r: Option<&'a serde_json::Value>)
    ensures
        match json_view(*v) {
            JsonView::Obj { fields } => if fields.contains_key(key@) {
                r matches Some(f) && json_view(*f) == fields[key@]
            } else {
                r is None
            },
            _ => r is None,
        },
{
    v.get(key)
}

/// Relies on `serde_json::Value::as_str`: the text of a JSON string,
/// `None` for any other value.
#[verifier::external_body]
fn json_as_str(v: &serde_json::Value) -> (r: Option<String>)
    ensures
        match json_view(*v) {
            JsonView::Str { s } => r matches Some(rs) && rs@ == s,
            _ => r is None,
        },
{
    v.as_str().map(|s| s.to_string())
}

/// Relies on `serde_json::Value::is_null`.
#[verifier::external_body]
fn json_is_null(v: &serde_json::Value) -> (r: bool)
    ensures
        r == (json_view(*v) is Null),
{
    v.is_null()
}

/// Relies on `serde_json::Value::as_i64`: the value of a number the
/// parser stored as an integer, when it fits a signed 64-bit word.
#[verifier::external_body]
fn json_as_i64(v: &serde_json::Value) -> (r: Option<i64>)
    ensures
        match json_view(*v) {
            JsonView::Num { int_val, repr } => match int_val {
                Option::Some(x) => if i64::MIN <= x <= i64::MAX {
                    r == Some(x as i64)
                } else {
                    r is None
                },
                Option::None => r is None,
            },
            _ => r is None,
        },
{
    v.as_i64()
}

/// Relies on `serde_json::Value::as_array` and `[T]::len`.
#[verifier::external_body]
fn json_array_len(v: &serde_json::Value) -> (r: Option<usize>)
    ensures
        match json_view(*v) {
            JsonView::Arr { items } => r matches Some(n) && n == items.len(),
            _ => r is None,
        },
{
    v.as_array().map(|a| a.len())
}

/// Relies on `serde_json::Value::as_array` and `[T]::get`.
#[verifier::external_body]
fn json_array_get<'a>(v: &'a serde_json::Value, i: usize) -> (r: Option<&'a serde_json::Value>)
    ensures
        match json_view(*v) {
            JsonView::Arr { items } => if i < items.len() {
                r matches Some(f) && json_view(*f) == items[i as int]
            } else {
                r is None
            },
            _ => r is None,
        },
{
    v.as_array().and_then(|a| a.get(i))
}

/// A decimal literal as serde_json renders numbers: the grammar of
/// `spec_parse_dec`, with at most 25 significant digits (itoa integers
/// have at most 20, shortest-form floats at most 17) and a power-of-ten
/// exponent within the decimal range of finite doubles.
pub open spec fn is_json_number_repr(s: Seq<char>) -> bool {
    spec_parse_dec(s) matches Some((n, m, e)) && m < pow10(25) && -1100 <= e <= 1100
}

/// Relies on `serde_json::Number`'s `Display` (itoa for integers, the
/// shortest scheme for finite floats): the rendered text of a JSON
/// number, `None` for any other value.
#[verifier::external_body]
fn json_number_string(v: &serde_json::Value) -> (r: Option<String>)
    ensures
        match json_view(*v) {
            JsonView::Num { int_val, repr } => r matches Some(s) && s@ == repr
                && is_json_number_repr(repr),
            _ => r is None,
        },
{
    match v {
        serde_json::Value::Number(n) => Some(n.to_string()),
        _ => None,
    }
}

/// One bar of the URL-cursor provider, fields still as rendered text.
pub struct RawBarA {
    pub t: i64,
    pub o: String,
    pub h: String,
    pub l: String,
    pub c: String,
    pub v: Option<String>,
    pub vw: Option<String>,
    pub n: Option<i64>,
}

/// The same bar over character sequences.
pub struct RawBarAView {
    pub t: i64,
    pub o: Seq<char>,
    pub h: Seq<char>,
    pub l: Seq<char>,
    pub c: Seq<char>,
    pub v: Option<Seq<char>>,
    pub vw: Option<Seq<char>>,
    pub n: Option<i64>,
}

pub open spec fn opt_string_view(s: Option<String>) -> Option<Seq<char>> {
    match s {
        Option::Some(x) => Some(x@),
        Option::None => None,
    }
}

pub open spec fn raw_bar_a_view(rb: RawBarA) -> RawBarAView {
    RawBarAView {
        t: rb.t,
        o: rb.o@,
        h: rb.h@,
        l: rb.l@,
        c: rb.c@,
        v: opt_string_view(rb.v),
        vw: opt_string_view(rb.vw),
        n: rb.n,
    }
}

impl RawBarAView {
    /// Every numeric field is a rendered JSON number.
    pub open spec fn fields_are_numbers(self) -> bool {
        &&& is_json_number_repr(self.o)
        &&& is_json_number_repr(self.h)
        &&& is_json_number_repr(self.l)
        &&& is_json_number_repr(self.c)
        &&& (self.v matches Some(s) ==> is_json_number_repr(s))
        &&& (self.vw matches Some(s) ==> is_json_number_repr(s))
    }
}

/// A decoded page of the URL-cursor provider.
pub struct RawPageA {
    pub bars: Vec<RawBarA>,
    pub next_url: Option<String>,
}

/// The same page over character sequences.
pub struct RawPageAView {
    pub bars: Seq<RawBarAView>,
    pub next_url: Option<Seq<char>>,
}

pub open spec fn raw_bars_a_view(bars: Seq<RawBarA>) -> Seq<RawBarAView> {
    bars.map_values(|rb: RawBarA| raw_bar_a_view(rb))
}

pub open spec fn raw_page_a_view(p: RawPageA) -> RawPageAView {
    RawPageAView { bars: raw_bars_a_view(p.bars@), next_url: opt_string_view(p.next_url) }
}

/// One value row of the token-cursor provider, fields as the provider's
/// strings.
pub struct RawValB {
    pub datetime: String,
    pub open: String,
    pub high: String,
    pub low: String,
    pub close: String,
    pub volume: Option<String>,
}

/// The same row over character sequences.
pub struct RawValBView {
    pub datetime: Seq<char>,
    pub open: Seq<char>,
    pub high: Seq<char>,
    pub low: Seq<char>,
    pub close: Seq<char>,
    pub volume: Option<Seq<char>>,
}

pub open spec fn raw_val_b_view(v: RawValB) -> RawValBView {
    RawValBView {
        datetime: v.datetime@,
        open: v.open@,
        high: v.high@,
        low: v.low@,
        close: v.close@,
        volume: opt_string_view(v.volume),
    }
}

/// A decoded page of the token-cursor provider.
pub struct RawPageB {
    pub status: Option<String>,
    pub message: Option<String>,
    pub values: Vec<RawValB>,
    pub next_page_token: Option<String>,
}

/// The same page over character sequences.
pub struct RawPageBView {
    pub status: Option<Seq<char>>,
    pub message: Option<Seq<char>>,
    pub values: Seq<RawValBView>,
    pub next_page_token: Option<Seq<char>>,
}

pub open spec fn raw_vals_b_view(vals: Seq<RawValB>) -> Seq<RawValBView> {
    vals.map_values(|v: RawValB| raw_val_b_view(v))
}

pub open spec fn raw_page_b_view(p: RawPageB) -> RawPageBView {
    RawPageBView {
        status: opt_string_view(p.status),
        message: opt_string_view(p.message),
        values: raw_vals_b_view(p.values@),
        next_page_token: opt_string_view(p.next_page_token),
    }
}

/// A mandatory integer member (a number the parser stored as an integer,
/// fitting 64 signed bits).
pub open spec fn spec_req_i64(fields: Map<Seq<char>, JsonView>, k: Seq<char>) -> Option<i64> {
    if fields.contains_key(k) {
        match fields[k] {
            JsonView::Num { int_val, repr } => match int_val {
                Option::Some(x) => if i64::MIN <= x <= i64::MAX {
                    Some(x as i64)
                } else {
                    None
                },
                Option::None => None,
            },
            _ => None,
        }
    } else {
        None
    }
}

/// An optional integer member: absent or null is fine, any other
/// non-integer shape is not.
pub open spec fn spec_opt_i64(fields: Map<Seq<char>, JsonView>, k: Seq<char>) -> Option<
    Option<i64>,
> {
    if !fields.contains_key(k) {
        Some(None)
    } else {
        match fields[k] {
            JsonView::Null => Some(None),
            JsonView::Num { int_val, repr } => match int_val {
                Option::Some(x) => if i64::MIN <= x <= i64::MAX {
                    Some(Some(x as i64))
                } else {
                    None
                },
                Option::None => None,
            },
            _ => None,
        }
    }
}

/// A mandatory number member, as its rendered text.
pub open spec fn spec_req_num(fields: Map<Seq<char>, JsonView>, k: Seq<char>) -> Option<
    Seq<char>,
> {
    if fields.contains_key(k) {
        match fields[k] {
            JsonView::Num { int_val, repr } => Some(repr),
            _ => None,
        }
    } else {
        None
    }
}

/// An optional number member: absent or null is fine.
pub open spec fn spec_opt_num(fields: Map<Seq<char>, JsonView>, k: Seq<char>) -> Option<
    Option<Seq<char>>,
> {
    if !fields.contains_key(k) {
        Some(None)
    } else {
        match fields[k] {
            JsonView::Null => Some(None),
            JsonView::Num { int_val, repr } => Some(Some(repr)),
            _ => None,
        }
    }
}

/// A mandatory string member.
pub open spec fn spec_req_str(fields: Map<Seq<char>, JsonView>, k: Seq<char>) -> Option<
    Seq<char>,
> {
    if fields.contains_key(k) {
        match fields[k] {
            JsonView::Str { s } => Some(s),
            _ => None,
        }
    } else {
        None
    }
}

/// An optional string member: absent or null is fine.
pub open spec fn spec_opt_str(fields: Map<Seq<char>, JsonView>, k: Seq<char>) -> Option<
    Option<Seq<char>>,
> {
    if !fields.contains_key(k) {
        Some(None)
    } else {
        match fields[k] {
            JsonView::Null => Some(None),
            JsonView::Str { s } => Some(Some(s)),
            _ => None,
        }
    }
}

/// One URL-cursor result row: an object with a millisecond timestamp
/// `t`, numbers `o`/`h`/`l`/`c`, optional numbers `v`/`vw`, an optional
/// integer `n`.
pub open spec fn spec_raw_bar_a(j: JsonView) -> Option<RawBarAView> {
    match j {
        JsonView::Obj { fields } => {
            let t = spec_req_i64(fields, "t"@);
            let o = spec_req_num(fields, "o"@);
            let h = spec_req_num(fields, "h"@);
            let l = spec_req_num(fields, "l"@);
            let c = spec_req_num(fields, "c"@);
            let v = spec_opt_num(fields, "v"@);
            let vw = spec_opt_num(fields, "vw"@);
            let n = spec_opt_i64(fields, "n"@);
            if t is Some && o is Some && h is Some && l is Some && c is Some && v is Some && vw
                is Some && n is Some {
                Some(
                    RawBarAView {
                        t: t->0,
                        o: o->0,
                        h: h->0,
                        l: l->0,
                        c: c->0,
                        v: v->0,
                        vw: vw->0,
                        n: n->0,
                    },
                )
            } else {
                None
            }
        },
        _ => None,
    }
}

/// The rows of the `results` array; any malformed row fails the page.
pub open spec fn spec_raw_bars_a(items: Seq<JsonView>) -> Option<Seq<RawBarAView>>
    decreases items.len(),
{
    if items.len() == 0 {
        Some(Seq::<RawBarAView>::empty())
    } else {
        match (spec_raw_bars_a(items.drop_last()), spec_raw_bar_a(items.last())) {
            (Option::Some(pre), Option::Some(b)) => Some(pre.push(b)),
            _ => None,
        }
    }
}

/// The URL-cursor envelope `{ results: [...]?, next_url: string? }`:
/// absent or null `results` is an empty page; any member of the wrong
/// shape fails the page.
pub open spec fn spec_page_a(doc: JsonView) -> Option<RawPageAView> {
    match doc {
        JsonView::Obj { fields } => {
            let bars: Option<Seq<RawBarAView>> = if !fields.contains_key("results"@) {
                Some(Seq::<RawBarAView>::empty())
            } else {
                match fields["results"@] {
                    JsonView::Null => Some(Seq::<RawBarAView>::empty()),
                    JsonView::Arr { items } => spec_raw_bars_a(items),
                    _ => None,
                }
            };
            let nu = spec_opt_str(fields, "next_url"@);
            if bars is Some && nu is Some {
                Some(RawPageAView { bars: bars->0, next_url: nu->0 })
            } else {
                None
            }
        },
        _ => None,
    }
}

/// What the URL-cursor provider's body decodes to: `None` exactly when
/// the body is not valid JSON or not the expected envelope.
pub open spec fn spec_decode_a(body: Seq<char>) -> Option<RawPageAView> {
    match json_doc(body) {
        Option::Some(doc) => spec_page_a(doc),
        Option::None => None,
    }
}

/// One token-cursor value row: an object of strings, the volume optional.
pub open spec fn spec_raw_val_b(j: JsonView) -> Option<RawValBView> {
    match j {
        JsonView::Obj { fields } => {
            let dt = spec_req_str(fields, "datetime"@);
            let o = spec_req_str(fields, "open"@);
            let h = spec_req_str(fields, "high"@);
            let l = spec_req_str(fields, "low"@);
            let c = spec_req_str(fields, "close"@);
            let v = spec_opt_str(fields, "volume"@);
            if dt is Some && o is Some && h is Some && l is Some && c is Some && v is Some {
                Some(
                    RawValBView {
                        datetime: dt->0,
                        open: o->0,
                        high: h->0,
                        low: l->0,
                        close: c->0,
                        volume: v->0,
                    },
                )
            } else {
                None
            }
        },
        _ => None,
    }
}

/// The rows of the `values` array; any malformed row fails the page.
pub open spec fn spec_raw_vals_b(items: Seq<JsonView>) -> Option<Seq<RawValBView>>
    decreases items.len(),
{
    if items.len() == 0 {
        Some(Seq::<RawValBView>::empty())
    } else {
        match (spec_raw_vals_b(items.drop_last()), spec_raw_val_b(items.last())) {
            (Option::Some(pre), Option::Some(v)) => Some(pre.push(v)),
            _ => None,
        }
    }
}

/// The token-cursor envelope
/// `{ status?, message?, values: [...]?, next_page_token? }`.
pub open spec fn spec_page_b(doc: JsonView) -> Option<RawPageBView> {
    match doc {
        JsonView::Obj { fields } => {
            let vals: Option<Seq<RawValBView>> = if !fields.contains_key("values"@) {
                Some(Seq::<RawValBView>::empty())
            } else {
                match fields["values"@] {
                    JsonView::Null => Some(Seq::<RawValBView>::empty()),
                    JsonView::Arr { items } => spec_raw_vals_b(items),
                    _ => None,
                }
            };
            let status = spec_opt_str(fields, "status"@);
            let message = spec_opt_str(fields, "message"@);
            let tok = spec_opt_str(fields, "next_page_token"@);
            if vals is Some && status is Some && message is Some && tok is Some {
                Some(
                    RawPageBView {
                        status: status->0,
                        message: message->0,
                        values: vals->0,
                        next_page_token: tok->0,
                    },
                )
            } else {
                None
            }
        },
        _ => None,
    }
}

/// What the token-cursor provider's body decodes to.
pub open spec fn spec_decode_b(body: Seq<char>) -> Option<RawPageBView> {
    match json_doc(body) {
        Option::Some(doc) => spec_page_b(doc),
        Option::None => None,
    }
}

/// One malformed row fails the whole array.
proof fn lemma_raw_bars_a_fail(items: Seq<JsonView>, i: int)
    requires
        0 <= i < items.len(),
        spec_raw_bar_a(items[i]) is None,
    ensures
        spec_raw_bars_a(items) is None,
    decreases items.len(),
{
    if i == items.len() - 1 {
    } else {
        assert(items.drop_last()[i] == items[i]);
        lemma_raw_bars_a_fail(items.drop_last(), i);
    }
}

/// One malformed row fails the whole array.
proof fn lemma_raw_vals_b_fail(items: Seq<JsonView>, i: int)
    requires
        0 <= i < items.len(),
        spec_raw_val_b(items[i]) is None,
    ensures
        spec_raw_vals_b(items) is None,
    decreases items.len(),
{
    if i == items.len() - 1 {
    } else {
        assert(items.drop_last()[i] == items[i]);
        lemma_raw_vals_b_fail(items.drop_last(), i);
    }
}

fn decode_error_a() -> (r: DownloadError)
    ensures
        r matches DownloadError::Decode { detail } && detail@ == "Invalid JSON from API"@,
{
    let mut s = String::new();
    s.append("Invalid JSON from API");
    DownloadError::Decode { detail: s }
}

fn decode_error_b() -> (r: DownloadError)
    ensures
        r matches DownloadError::Decode { detail } && detail@
            == "Invalid JSON from Twelve Data API"@,
{
    let mut s = String::new();
    s.append("Invalid JSON from Twelve Data API");
    DownloadError::Decode { detail: s }
}

/// Reads an optional string member (a JSON null counts as absent).
fn optional_string(v: &serde_json::Value, key: &str) -> (r: Result<Option<String>, ()>)
    requires
        json_view(*v) is Obj,
    ensures
        match spec_opt_str(obj_fields(json_view(*v)), key@) {
            Option::Some(os) => r matches Ok(s) && opt_string_view(s) == os,
            Option::None => r is Err,
        },
{
    match json_get(v, key) {
        None => Ok(None),
        Some(f) => {
            if json_is_null(f) {
                Ok(None)
            } else {
                match json_as_str(f) {
                    Some(s) => Ok(Some(s)),
                    None => Err(()),
                }
            }
        },
    }
}

/// Reads an optional number member as its rendered text.
fn optional_number_string(v: &serde_json::Value, key: &str) -> (r: Result<Option<String>, ()>)
    requires
        json_view(*v) is Obj,
    ensures
        match spec_opt_num(obj_fields(json_view(*v)), key@) {
            Option::Some(os) => r matches Ok(s) && opt_string_view(s) == os && (s
                matches Some(ss) ==> is_json_number_repr(ss@)),
            Option::None => r is Err,
        },
{
    match json_get(v, key) {
        None => Ok(None),
        Some(f) => {
            if json_is_null(f) {
                Ok(None)
            } else {
                match json_number_string(f) {
                    Some(s) => Ok(Some(s)),
                    None => Err(()),
                }
            }
        },
    }
}

/// Reads a mandatory number member as its rendered text.
fn required_number_string(v: &serde_json::Value, key: &str) -> (r: Result<String, ()>)
    requires
        json_view(*v) is Obj,
    ensures
        match spec_req_num(obj_fields(json_view(*v)), key@) {
            Option::Some(t) => r matches Ok(s) && s@ == t && is_json_number_repr(t),
            Option::None => r is Err,
        },
{
    match json_get(v, key) {
        None => Err(()),
        Some(f) => match json_number_string(f) {
            Some(s) => Ok(s),
            None => Err(()),
        },
    }
}

/// Reads a mandatory string member.
fn required_string(v: &serde_json::Value, key: &str) -> (r: Result<String, ()>)
    requires
        json_view(*v) is Obj,
    ensures
        match spec_req_str(obj_fields(json_view(*v)), key@) {
            Option::Some(t) => r matches Ok(s) && s@ == t,
            Option::None => r is Err,
        },
{
    match json_get(v, key) {
        None => Err(()),
        Some(f) => match json_as_str(f) {
            Some(s) => Ok(s),
            None => Err(()),
        },
    }
}

/// Reads a mandatory integer member.
fn required_i64(v: &serde_json::Value, key: &str) -> (r: Result<i64, ()>)
    requires
        json_view(*v) is Obj,
    ensures
        match spec_req_i64(obj_fields(json_view(*v)), key@) {
            Option::Some(t) => r == Ok::<i64, ()>(t),
            Option::None => r is Err,
        },
{
    match json_get(v, key) {
        None => Err(()),
        Some(f) => match json_as_i64(f) {
            Some(x) => Ok(x),
            None => Err(()),
        },
    }
}

/// Reads an optional integer member (a JSON null counts as absent).
fn optional_i64(v: &serde_json::Value, key: &str) -> (r: Result<Option<i64>, ()>)
    requires
        json_view(*v) is Obj,
    ensures
        match spec_opt_i64(obj_fields(json_view(*v)), key@) {
            Option::Some(ox) => r == Ok::<Option<i64>, ()>(ox),
            Option::None => r is Err,
        },
{
    match json_get(v, key) {
        None => Ok(None),
        Some(f) => {
            if json_is_null(f) {
                Ok(None)
            } else {
                match json_as_i64(f) {
                    Some(x) => Ok(Some(x)),
                    None => Err(()),
                }
            }
        },
    }
}

/// Decodes the URL-cursor envelope: succeeds exactly on the bodies whose
/// document has the envelope's shape, and yields exactly the envelope's
/// rows and continuation address.
#[verifier::loop_isolation(false)]
pub fn decode_body_a(body: &str) -> (r: Result<RawPageA, DownloadError>)
    ensures
        match spec_decode_a(body@) {
            Option::Some(pv) => r matches Ok(page) && raw_page_a_view(page) == pv,
            Option::None => r matches Err(e) && (e matches DownloadError::Decode { detail }
                && detail@ == "Invalid JSON from API"@),
        },
        r matches Ok(page) ==> forall|i: int|
            0 <= i < page.bars@.len() ==> (#[trigger] raw_bar_a_view(
                page.bars@[i],
            )).fields_are_numbers(),
{
    let v = match json_parse(body) {
        Some(v) => v,
        None => {
            return Err(decode_error_a());
        },
    };
    if !json_is_object(&v) {
        return Err(decode_error_a());
    }
    let ghost fields = obj_fields(json_view(v));
    let mut bars: Vec<RawBarA> = Vec::new();
    match json_get(&v, "results") {
        None => {
            proof {
                assert(raw_bars_a_view(bars@) =~= Seq::<RawBarAView>::empty());
            }
        },
        Some(results) => {
            if json_is_null(results) {
                proof {
                    assert(raw_bars_a_view(bars@) =~= Seq::<RawBarAView>::empty());
                }
            } else {
                let n = match json_array_len(results) {
                    Some(n) => n,
                    None => {
                        return Err(decode_error_a());
                    },
                };
                let ghost items = arr_items(json_view(*results));
                let mut i: usize = 0;
                proof {
                    assert(items.take(0) =~= Seq::<JsonView>::empty());
                    assert(raw_bars_a_view(bars@) =~= Seq::<RawBarAView>::empty());
                }
                while i < n
                    invariant
                        i <= n,
                        n == items.len(),
                        json_view(*results) == (JsonView::Arr { items }),
                        bars@.len() == i,
                        spec_raw_bars_a(items.take(i as int)) == Some(raw_bars_a_view(bars@)),
                        forall|k: int|
                            0 <= k < bars@.len() ==> (#[trigger] raw_bar_a_view(
                                bars@[k],
                            )).fields_are_numbers(),
                    decreases n - i,
                {
                    let item = json_array_get(results, i).unwrap();
                    let ghost jb = items[i as int];
                    if !json_is_object(item) {
                        proof {
                            lemma_raw_bars_a_fail(items, i as int);
                        }
                        return Err(decode_error_a());
                    }
                    let t = match required_i64(item, "t") {
                        Ok(t) => t,
                        Err(()) => {
                            proof {
                                lemma_raw_bars_a_fail(items, i as int);
                            }
                            return Err(decode_error_a());
                        },
                    };
                    let o = match required_number_string(item, "o") {
                        Ok(s) => s,
                        Err(()) => {
                            proof {
                                lemma_raw_bars_a_fail(items, i as int);
                            }
                            return Err(decode_error_a());
                        },
                    };
                    let h = match required_number_string(item, "h") {
                        Ok(s) => s,
                        Err(()) => {
                            proof {
                                lemma_raw_bars_a_fail(items, i as int);
                            }
                            return Err(decode_error_a());
                        },
                    };
                    let l = match required_number_string(item, "l") {
                        Ok(s) => s,
                        Err(()) => {
                            proof {
                                lemma_raw_bars_a_fail(items, i as int);
                            }
                            return Err(decode_error_a());
                        },
                    };
                    let c = match required_number_string(item, "c") {
                        Ok(s) => s,
                        Err(()) => {
                            proof {
                                lemma_raw_bars_a_fail(items, i as int);
                            }
                            return Err(decode_error_a());
                        },
                    };
                    let vol = match optional_number_string(item, "v") {
                        Ok(s) => s,
                        Err(()) => {
                            proof {
                                lemma_raw_bars_a_fail(items, i as int);
                            }
                            return Err(decode_error_a());
                        },
                    };
                    let vw = match optional_number_string(item, "vw") {
                        Ok(s) => s,
                        Err(()) => {
                            proof {
                                lemma_raw_bars_a_fail(items, i as int);
                            }
                            return Err(decode_error_a());
                        },
                    };
                    let nn = match optional_i64(item, "n") {
                        Ok(x) => x,
                        Err(()) => {
                            proof {
                                lemma_raw_bars_a_fail(items, i as int);
                            }
                            return Err(decode_error_a());
                        },
                    };
                    let bar = RawBarA { t, o, h, l, c, v: vol, vw, n: nn };
                    proof {
                        assert(spec_raw_bar_a(jb) == Some(raw_bar_a_view(bar)));
                        assert(items.take((i + 1) as int).drop_last() =~= items.take(i as int));
                        assert(items.take((i + 1) as int).last() == jb);
                        assert(raw_bars_a_view(bars@.push(bar)) =~= raw_bars_a_view(bars@).push(
                            raw_bar_a_view(bar),
                        ));
                    }
                    bars.push(bar);
                    i = i + 1;
                }
                proof {
                    assert(items.take(n as int) =~= items);
                }
            }
        },
    }
    let next_url = match optional_string(&v, "next_url") {
        Ok(s) => s,
        Err(()) => {
            return Err(decode_error_a());
        },
    };
    let page = RawPageA { bars, next_url };
    proof {
        assert(raw_page_a_view(page) == spec_decode_a(body@)->0);
    }
    Ok(page)
}

/// Decodes the token-cursor envelope: succeeds exactly on the bodies
/// whose document has the envelope's shape, and yields exactly its
/// status, message, rows and continuation token.
#[verifier::loop_isolation(false)]
pub fn decode_body_b(body: &str) -> (r: Result<RawPageB, DownloadError>)
    ensures
        match spec_decode_b(body@) {
            Option::Some(pv) => r matches Ok(page) && raw_page_b_view(page) == pv,
            Option::None => r matches Err(e) && (e matches DownloadError::Decode { detail }
                && detail@ == "Invalid JSON from Twelve Data API"@),
        },
{
    let v = match json_parse(body) {
        Some(v) => v,
        None => {
            return Err(decode_error_b());
        },
    };
    if !json_is_object(&v) {
        return Err(decode_error_b());
    }
    let status = match optional_string(&v, "status") {
        Ok(s) => s,
        Err(()) => {
            return Err(decode_error_b());
        },
    };
    let message = match optional_string(&v, "message") {
        Ok(s) => s,
        Err(()) => {
            return Err(decode_error_b());
        },
    };
    let next_page_token = match optional_string(&v, "next_page_token") {
        Ok(s) => s,
        Err(()) => {
            return Err(decode_error_b());
        },
    };
    let mut values: Vec<RawValB> = Vec::new();
    match json_get(&v, "values") {
        None => {
            proof {
                assert(raw_vals_b_view(values@) =~= Seq::<RawValBView>::empty());
            }
        },
        Some(vals) => {
            if json_is_null(vals) {
                proof {
                    assert(raw_vals_b_view(values@) =~= Seq::<RawValBView>::empty());
                }
            } else {
                let n = match json_array_len(vals) {
                    Some(n) => n,
                    None => {
                        return Err(decode_error_b());
                    },
                };
                let ghost items = arr_items(json_view(*vals));
                let mut i: usize = 0;
                proof {
                    assert(items.take(0) =~= Seq::<JsonView>::empty());
                    assert(raw_vals_b_view(values@) =~= Seq::<RawValBView>::empty());
                }
                while i < n
                    invariant
                        i <= n,
                        n == items.len(),
                        json_view(*vals) == (JsonView::Arr { items }),
                        values@.len() == i,
                        spec_raw_vals_b(items.take(i as int)) == Some(raw_vals_b_view(values@)),
                    decreases n - i,
                {
                    let item = json_array_get(vals, i).unwrap();
                    let ghost jv = items[i as int];
                    if !json_is_object(item) {
                        proof {
                            lemma_raw_vals_b_fail(items, i as int);
                        }
                        return Err(decode_error_b());
                    }
                    let datetime = match required_string(item, "datetime") {
                        Ok(s) => s,
                        Err(()) => {
                            proof {
                                lemma_raw_vals_b_fail(items, i as int);
                            }
                            return Err(decode_error_b());
                        },
                    };
                    let open = match required_string(item, "open") {
                        Ok(s) => s,
                        Err(()) => {
                            proof {
                                lemma_raw_vals_b_fail(items, i as int);
                            }
                            return Err(decode_error_b());
                        },
                    };
                    let high = match required_string(item, "high") {
                        Ok(s) => s,
                        Err(()) => {
                            proof {
                                lemma_raw_vals_b_fail(items, i as int);
                            }
                            return Err(decode_error_b());
                        },
                    };
                    let low = match required_string(item, "low") {
                        Ok(s) => s,
                        Err(()) => {
                            proof {
                                lemma_raw_vals_b_fail(items, i as int);
                            }
                            return Err(decode_error_b());
                        },
                    };
                    let close = match required_string(item, "close") {
                        Ok(s) => s,
                        Err(()) => {
                            proof {
                                lemma_raw_vals_b_fail(items, i as int);
                            }
                            return Err(decode_error_b());
                        },
                    };
                    let volume = match optional_string(item, "volume") {
                        Ok(s) => s,
                        Err(()) => {
                            proof {
                                lemma_raw_vals_b_fail(items, i as int);
                            }
                            return Err(decode_error_b());
                        },
                    };
                    let val = RawValB { datetime, open, high, low, close, volume };
                    proof {
                        assert(spec_raw_val_b(jv) == Some(raw_val_b_view(val)));
                        assert(items.take((i + 1) as int).drop_last() =~= items.take(i as int));
                        assert(items.take((i + 1) as int).last() == jv);
                        assert(raw_vals_b_view(values@.push(val)) =~= raw_vals_b_view(
                            values@,
                        ).push(raw_val_b_view(val)));
                    }
                    values.push(val);
                    i = i + 1;
                }
                proof {
                    assert(items.take(n as int) =~= items);
                }
            }
        },
    }
    let page = RawPageB { status, message, values, next_page_token };
    proof {
        assert(raw_page_b_view(page) == spec_decode_b(body@)->0);
    }
    Ok(page)
}

} // verus!
