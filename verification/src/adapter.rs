//! Interpretation of decoded provider pages: canonical bars and the
//! continuation, with exact contracts over the raw field texts.

use vstd::prelude::*;

use crate::calendar::spec_parse_datetime_ms;
use crate::calendar::parse_datetime_ms;
use crate::decimal::exp_limit;
use crate::decimal::mant_limit;
use crate::decimal::parse_decimal;
use crate::decimal::spec_parse_dec;
use crate::decimal::Dec;
use crate::jsonval::is_json_number_repr;
use crate::jsonval::raw_bar_a_view;
use crate::jsonval::raw_page_b_view;
use crate::jsonval::raw_val_b_view;
use crate::jsonval::RawBarAView;
use crate::jsonval::RawPageA;
use crate::jsonval::RawPageB;
use crate::jsonval::RawPageBView;
use crate::jsonval::RawValBView;
use crate::strnum::lemma_pow10_monotone;
use crate::types::Bar;
use crate::types::DownloadError;

verus! {

/// A text that parses as a decimal within the representable bounds.
pub open spec fn spec_dec_ok(s: Seq<char>) -> bool {
    spec_parse_dec(s) matches Some((n, m, e)) && m < mant_limit() && -exp_limit() <= e
        <= exp_limit()
}

/// The decimal a text parses to (meaningful when `spec_dec_ok` holds).
pub open spec fn spec_dec_of(s: Seq<char>) -> Dec {
    let (n, m, e) = spec_parse_dec(s)->0;
    Dec { neg: n, mant: m as u128, exp: e as i32 }
}

/// A rendered JSON number always parses within bounds.
pub proof fn lemma_number_repr_parses(s: Seq<char>)
    requires
        is_json_number_repr(s),
    ensures
        spec_dec_ok(s),
{
    lemma_pow10_monotone(25, 37);
}

/// ASCII lowercase of one character.
pub open spec fn lower_ascii(c: char) -> char {
    let v = c as int;
    if 65 <= v <= 90 {
        ((v + 32) as u8) as char
    } else {
        c
    }
}

/// Equality of two texts up to ASCII case.
pub open spec fn eq_ignore_ascii_case(a: Seq<char>, b: Seq<char>) -> bool {
    a.map_values(|c: char| lower_ascii(c)) == b.map_values(|c: char| lower_ascii(c))
}

/// Character-wise comparison up to ASCII case.
pub fn str_eq_ignore_ascii_case(a: &str, b: &str) -> (r: bool)
    ensures
        r == eq_ignore_ascii_case(a@, b@),
{
    let ghost la = a@.map_values(|c: char| lower_ascii(c));
    let ghost lb = b@.map_values(|c: char| lower_ascii(c));
    let n = a.unicode_len();
    let m = b.unicode_len();
    if n != m {
        proof {
            assert(la.len() != lb.len());
        }
        return false;
    }
    let mut i: usize = 0;
    while i < n
        invariant
            i <= n,
            n == a@.len(),
            n == b@.len(),
            la == a@.map_values(|c: char| lower_ascii(c)),
            lb == b@.map_values(|c: char| lower_ascii(c)),
            forall|j: int| 0 <= j < i ==> la[j] == lb[j],
        decreases n - i,
    {
        let ca = a.get_char(i);
        let cb = b.get_char(i);
        let va = ca as u32;
        let vb = cb as u32;
        let fa = if 65 <= va && va <= 90 {
            (va + 32) as u8 as char
        } else {
            ca
        };
        let fb = if 65 <= vb && vb <= 90 {
            (vb + 32) as u8 as char
        } else {
            cb
        };
        if fa != fb {
            proof {
                assert(la[i as int] == lower_ascii(a@[i as int]));
                assert(lb[i as int] == lower_ascii(b@[i as int]));
            }
            return false;
        }
        i = i + 1;
    }
    proof {
        assert(la =~= lb);
    }
    true
}

/// The canonical bar of one URL-cursor result row.
pub open spec fn spec_bar_a(rb: RawBarAView) -> Bar {
    Bar {
        t: rb.t,
        o: spec_dec_of(rb.o),
        h: spec_dec_of(rb.h),
        l: spec_dec_of(rb.l),
        c: spec_dec_of(rb.c),
        v: match rb.v {
            Option::Some(s) => Some(spec_dec_of(s)),
            Option::None => None,
        },
        vw: match rb.vw {
            Option::Some(s) => Some(spec_dec_of(s)),
            Option::None => None,
        },
        n: rb.n,
    }
}

/// The canonical bars of a URL-cursor page's rows.
pub open spec fn spec_bars_a(bs: Seq<RawBarAView>) -> Seq<Bar> {
    bs.map_values(|b: RawBarAView| spec_bar_a(b))
}

/// Turns a URL-cursor page into bars and its continuation address.  The
/// numeric texts of such a page always parse, so this never fails.
pub fn interpret_page_a(page: &RawPageA) -> (r: (Vec<Bar>, Option<String>))
    requires
        forall|i: int|
            0 <= i < page.bars@.len() ==> (#[trigger] raw_bar_a_view(
                page.bars@[i],
            )).fields_are_numbers(),
    ensures
        r.0@ == spec_bars_a(crate::jsonval::raw_bars_a_view(page.bars@)),
        forall|i: int| 0 <= i < r.0@.len() ==> (#[trigger] r.0@[i]).wf(),
        r.1 == page.next_url,
{
    let mut bars: Vec<Bar> = Vec::new();
    let n = page.bars.len();
    let mut i: usize = 0;
    proof {
        assert(bars@ =~= spec_bars_a(crate::jsonval::raw_bars_a_view(page.bars@.take(0))));
    }
    while i < n
        invariant
            i <= n,
            n == page.bars@.len(),
            forall|k: int|
                0 <= k < n ==> (#[trigger] raw_bar_a_view(page.bars@[k])).fields_are_numbers(),
            bars@.len() == i,
            bars@ == spec_bars_a(crate::jsonval::raw_bars_a_view(page.bars@.take(i as int))),
            forall|k: int| 0 <= k < bars@.len() ==> (#[trigger] bars@[k]).wf(),
        decreases n - i,
    {
        let rb = &page.bars[i];
        proof {
            assert(raw_bar_a_view(page.bars@[i as int]).fields_are_numbers());
            lemma_number_repr_parses(rb.o@);
            lemma_number_repr_parses(rb.h@);
            lemma_number_repr_parses(rb.l@);
            lemma_number_repr_parses(rb.c@);
            if rb.v is Some {
                lemma_number_repr_parses(rb.v->0@);
            }
            if rb.vw is Some {
                lemma_number_repr_parses(rb.vw->0@);
            }
        }
        let o = parse_decimal(rb.o.as_str()).unwrap();
        let h = parse_decimal(rb.h.as_str()).unwrap();
        let l = parse_decimal(rb.l.as_str()).unwrap();
        let c = parse_decimal(rb.c.as_str()).unwrap();
        let v = match &rb.v {
            Some(s) => Some(parse_decimal(s.as_str()).unwrap()),
            None => None,
        };
        let vw = match &rb.vw {
            Some(s) => Some(parse_decimal(s.as_str()).unwrap()),
            None => None,
        };
        let bar = Bar { t: rb.t, o, h, l, c, v, vw, n: rb.n };
        proof {
            assert(bar == spec_bar_a(raw_bar_a_view(page.bars@[i as int])));
            assert(bars@.push(bar) =~= spec_bars_a(
                crate::jsonval::raw_bars_a_view(page.bars@.take((i + 1) as int)),
            ));
        }
        bars.push(bar);
        i = i + 1;
    }
    proof {
        assert(page.bars@.take(n as int) =~= page.bars@);
    }
    let next = match &page.next_url {
        Some(u) => Some(u.clone()),
        None => None,
    };
    (bars, next)
}

/// Whether the token-cursor page reports a logical error.
pub open spec fn b_status_error(pv: RawPageBView) -> bool {
    pv.status matches Some(s) && eq_ignore_ascii_case(s, "error"@)
}

/// Whether one value row of the token-cursor page parses completely:
/// datetime in one of the two accepted shapes, prices within bounds, and
/// the volume (when present and nonempty) likewise.
pub open spec fn spec_val_b_ok(v: RawValBView) -> bool {
    &&& spec_parse_datetime_ms(v.datetime) is Some
    &&& spec_dec_ok(v.open)
    &&& spec_dec_ok(v.high)
    &&& spec_dec_ok(v.low)
    &&& spec_dec_ok(v.close)
    &&& (v.volume is Some && v.volume->0.len() > 0 ==> spec_dec_ok(v.volume->0))
}

pub open spec fn spec_vals_b_all_ok(vs: Seq<RawValBView>) -> bool {
    forall|i: int| 0 <= i < vs.len() ==> spec_val_b_ok(#[trigger] vs[i])
}

/// The canonical bar of one token-cursor value row (meaningful when
/// `spec_val_b_ok` holds).
pub open spec fn spec_bar_b(v: RawValBView) -> Bar {
    Bar {
        t: spec_parse_datetime_ms(v.datetime)->0 as i64,
        o: spec_dec_of(v.open),
        h: spec_dec_of(v.high),
        l: spec_dec_of(v.low),
        c: spec_dec_of(v.close),
        v: match v.volume {
            Option::Some(s) => if s.len() > 0 {
                Some(spec_dec_of(s))
            } else {
                None
            },
            Option::None => None,
        },
        vw: None,
        n: None,
    }
}

/// The canonical bars of a token-cursor page's rows.
pub open spec fn spec_bars_b(vs: Seq<RawValBView>) -> Seq<Bar> {
    vs.map_values(|v: RawValBView| spec_bar_b(v))
}

/// The message of a provider-reported logical error.
pub open spec fn spec_b_error_message(pv: RawPageBView) -> Seq<char> {
    "Twelve Data API error: "@ + match pv.message {
        Option::Some(m) => m,
        Option::None => "Unknown Twelve Data error"@,
    }
}

/// The parse-error text of one malformed row: the first field, in the
/// order datetime, open, high, low, close, volume, that does not parse.
pub open spec fn spec_val_b_error_detail(v: RawValBView) -> Seq<char> {
    if !(spec_parse_datetime_ms(v.datetime) is Some) {
        "Invalid datetime in Twelve Data response: "@ + v.datetime
    } else if !spec_dec_ok(v.open) {
        "Invalid numeric value in Twelve Data response: "@ + v.open
    } else if !spec_dec_ok(v.high) {
        "Invalid numeric value in Twelve Data response: "@ + v.high
    } else if !spec_dec_ok(v.low) {
        "Invalid numeric value in Twelve Data response: "@ + v.low
    } else if !spec_dec_ok(v.close) {
        "Invalid numeric value in Twelve Data response: "@ + v.close
    } else {
        "Invalid numeric value in Twelve Data response: "@ + v.volume->0
    }
}

/// Turns a token-cursor page into bars and its continuation token.
/// Succeeds exactly when the page reports no logical error and every value
/// row parses; a reported error becomes a decode error carrying the
/// provider's message, the first malformed row a parse error naming its
/// first malformed field.
#[verifier::loop_isolation(false)]
pub fn interpret_page_b(page: &RawPageB) -> (r: Result<(Vec<Bar>, Option<String>), DownloadError>)
    ensures
        ({
            let pv = raw_page_b_view(*page);
            match r {
                Ok(out) => {
                    &&& !b_status_error(pv)
                    &&& spec_vals_b_all_ok(pv.values)
                    &&& out.0@ == spec_bars_b(pv.values)
                    &&& (forall|i: int| 0 <= i < out.0@.len() ==> (#[trigger] out.0@[i]).wf())
                    &&& out.1 == page.next_page_token
                },
                Err(e) => {
                    ||| (b_status_error(pv) && (e matches DownloadError::Decode { detail }
                        && detail@ == spec_b_error_message(pv)))
                    ||| (!b_status_error(pv) && (exists|i: int|
                        0 <= i < pv.values.len() && !spec_val_b_ok(#[trigger] pv.values[i]) && (
                        forall|j: int| 0 <= j < i ==> spec_val_b_ok(#[trigger] pv.values[j])) && (e
                            matches DownloadError::Parse { detail } && detail@
                            == spec_val_b_error_detail(pv.values[i]))))
                },
            }
        }),
{
    let ghost pv = raw_page_b_view(*page);
    match &page.status {
        Some(s) => {
            if str_eq_ignore_ascii_case(s.as_str(), "error") {
                let mut detail = String::new();
                detail.append("Twelve Data API error: ");
                match &page.message {
                    Some(m) => detail.append(m.as_str()),
                    None => detail.append("Unknown Twelve Data error"),
                }
                proof {
                    assert(detail@ =~= spec_b_error_message(pv));
                }
                return Err(DownloadError::Decode { detail });
            }
        },
        None => {},
    }
    let mut bars: Vec<Bar> = Vec::new();
    let n = page.values.len();
    let mut i: usize = 0;
    proof {
        assert(pv.values.len() == n);
        assert(bars@ =~= spec_bars_b(pv.values.take(0)));
    }
    while i < n
        invariant
            i <= n,
            n == page.values@.len(),
            pv == raw_page_b_view(*page),
            pv.values.len() == n,
            !b_status_error(pv),
            bars@.len() == i,
            forall|k: int| 0 <= k < i ==> spec_val_b_ok(#[trigger] pv.values[k]),
            bars@ == spec_bars_b(pv.values.take(i as int)),
            forall|k: int| 0 <= k < bars@.len() ==> (#[trigger] bars@[k]).wf(),
        decreases n - i,
    {
        let v = &page.values[i];
        let ghost vv = pv.values[i as int];
        proof {
            assert(vv == raw_val_b_view(page.values@[i as int]));
        }
        let t = match parse_datetime_ms(v.datetime.as_str()) {
            Some(t) => t,
            None => {
                return Err(
                    parse_error_b("Invalid datetime in Twelve Data response: ", &v.datetime),
                );
            },
        };
        let o = match parse_decimal(v.open.as_str()) {
            Some(d) => d,
            None => {
                return Err(
                    parse_error_b("Invalid numeric value in Twelve Data response: ", &v.open),
                );
            },
        };
        let h = match parse_decimal(v.high.as_str()) {
            Some(d) => d,
            None => {
                return Err(
                    parse_error_b("Invalid numeric value in Twelve Data response: ", &v.high),
                );
            },
        };
        let l = match parse_decimal(v.low.as_str()) {
            Some(d) => d,
            None => {
                return Err(
                    parse_error_b("Invalid numeric value in Twelve Data response: ", &v.low),
                );
            },
        };
        let c = match parse_decimal(v.close.as_str()) {
            Some(d) => d,
            None => {
                return Err(
                    parse_error_b("Invalid numeric value in Twelve Data response: ", &v.close),
                );
            },
        };
        let vol = match &v.volume {
            Some(s) => {
                if s.as_str().unicode_len() > 0 {
                    match parse_decimal(s.as_str()) {
                        Some(d) => Some(d),
                        None => {
                            return Err(
                                parse_error_b("Invalid numeric value in Twelve Data response: ", s),
                            );
                        },
                    }
                } else {
                    None
                }
            },
            None => None,
        };
        let bar = Bar { t, o, h, l, c, v: vol, vw: None, n: None };
        proof {
            assert(spec_val_b_ok(vv));
            assert(bar == spec_bar_b(vv));
            assert(bars@.push(bar) =~= spec_bars_b(pv.values.take((i + 1) as int)));
        }
        bars.push(bar);
        i = i + 1;
    }
    proof {
        assert(pv.values.take(n as int) =~= pv.values);
    }
    let next = match &page.next_page_token {
        Some(u) => Some(u.clone()),
        None => None,
    };
    Ok((bars, next))
}

/// A parse error whose detail names the offending text.
fn parse_error_b(prefix: &str, text: &String) -> (r: DownloadError)
    ensures
        r matches DownloadError::Parse { detail } && detail@ == prefix@ + text@,
{
    let mut detail = String::new();
    detail.append(prefix);
    detail.append(text.as_str());
    DownloadError::Parse { detail }
}

} // verus!
