//! Rendering bars as CSV rows and JSON objects, with exact text
//! specifications.

use vstd::prelude::*;

use crate::calendar::spec_fmt_ts;
use crate::calendar::fmt_ts;
use crate::decimal::spec_format_dec;
use crate::decimal::format_fixed;
use crate::strnum::push_char;
use crate::strnum::spec_int_str;
use crate::strnum::i64_to_string;
use crate::types::Bar;

verus! {

/// Whether a CSV field must be quoted: it holds a comma, a quote or a
/// line break.
pub open spec fn needs_quote(s: Seq<char>) -> bool {
    exists|i: int|
        0 <= i < s.len() && ((#[trigger] s[i]) == ',' || s[i] == '"' || s[i] == '\n' || s[i]
            == '\r')
}

/// The field text with every quote doubled.
pub open spec fn escape_quotes(s: Seq<char>) -> Seq<char>
    decreases s.len(),
{
    if s.len() == 0 {
        Seq::<char>::empty()
    } else if s.last() == '"' {
        escape_quotes(s.drop_last()) + seq!['"', '"']
    } else {
        escape_quotes(s.drop_last()).push(s.last())
    }
}

/// A CSV field: quoted and escaped exactly when it needs to be.
pub open spec fn spec_csv_field(s: Seq<char>) -> Seq<char> {
    if needs_quote(s) {
        seq!['"'] + escape_quotes(s) + seq!['"']
    } else {
        s
    }
}

fn is_special(c: char) -> (r: bool)
    ensures
        r == (c == ',' || c == '"' || c == '\n' || c == '\r'),
{
    c == ',' || c == '"' || c == '\n' || c == '\r'
}

/// Renders one CSV field, quoting when necessary.
pub fn csv_field(s: &str) -> (r: String)
    ensures
        r@ == spec_csv_field(s@),
{
    let len = s.unicode_len();
    let mut quote = false;
    let mut i: usize = 0;
    while i < len
        invariant
            i <= len,
            len == s@.len(),
            !quote ==> forall|j: int|
                0 <= j < i ==> !((#[trigger] s@[j]) == ',' || s@[j] == '"' || s@[j] == '\n'
                    || s@[j] == '\r'),
            quote ==> needs_quote(s@),
        decreases len - i,
    {
        if is_special(s.get_char(i)) {
            quote = true;
        }
        i = i + 1;
    }
    if !quote {
        proof {
            assert(!needs_quote(s@));
        }
        return s.to_owned();
    }
    let mut out = String::new();
    push_char(&mut out, '"');
    let ghost head = out@;
    let mut k: usize = 0;
    proof {
        assert(escape_quotes(s@.take(0)) =~= Seq::<char>::empty());
        assert(out@ =~= head + escape_quotes(s@.take(0)));
    }
    while k < len
        invariant
            k <= len,
            len == s@.len(),
            needs_quote(s@),
            head == seq!['"'],
            out@ == head + escape_quotes(s@.take(k as int)),
        decreases len - k,
    {
        let c = s.get_char(k);
        proof {
            assert(s@.take((k + 1) as int).drop_last() =~= s@.take(k as int));
            assert(s@.take((k + 1) as int).last() == s@[k as int]);
        }
        if c == '"' {
            push_char(&mut out, '"');
            push_char(&mut out, '"');
            proof {
                assert(out@ =~= head + escape_quotes(s@.take((k + 1) as int)));
            }
        } else {
            push_char(&mut out, c);
            proof {
                assert(out@ =~= head + escape_quotes(s@.take((k + 1) as int)));
            }
        }
        k = k + 1;
    }
    push_char(&mut out, '"');
    proof {
        assert(s@.take(len as int) =~= s@);
        assert(out@ =~= spec_csv_field(s@));
    }
    out
}

/// One CSV row: ticker, timestamp and the five numeric fields (an absent
/// volume is an empty field), each quoted when necessary, ending in a
/// newline.
pub open spec fn spec_csv_row(ticker: Seq<char>, bar: Bar, p: nat) -> Seq<char> {
    spec_csv_field(ticker) + seq![','] + spec_csv_field(spec_fmt_ts(bar.t as int)) + seq![',']
        + spec_csv_field(spec_format_dec(bar.o, p)) + seq![','] + spec_csv_field(
        spec_format_dec(bar.h, p),
    ) + seq![','] + spec_csv_field(spec_format_dec(bar.l, p)) + seq![','] + spec_csv_field(
        spec_format_dec(bar.c, p),
    ) + seq![','] + (match bar.v {
        Option::Some(v) => spec_csv_field(spec_format_dec(v, p)),
        Option::None => Seq::<char>::empty(),
    }) + seq!['\n']
}

/// Renders one CSV row.
pub fn csv_row(ticker: &str, bar: &Bar, p: u8) -> (r: String)
    requires
        bar.wf(),
    ensures
        r@ == spec_csv_row(ticker@, *bar, p as nat),
{
    let mut out = csv_field(ticker);
    push_char(&mut out, ',');
    let ts = fmt_ts(bar.t);
    let tsf = csv_field(ts.as_str());
    out.append(tsf.as_str());
    push_char(&mut out, ',');
    let of = format_fixed(&bar.o, p);
    let off = csv_field(of.as_str());
    out.append(off.as_str());
    push_char(&mut out, ',');
    let hf = format_fixed(&bar.h, p);
    let hff = csv_field(hf.as_str());
    out.append(hff.as_str());
    push_char(&mut out, ',');
    let lf = format_fixed(&bar.l, p);
    let lff = csv_field(lf.as_str());
    out.append(lff.as_str());
    push_char(&mut out, ',');
    let cf = format_fixed(&bar.c, p);
    let cff = csv_field(cf.as_str());
    out.append(cff.as_str());
    push_char(&mut out, ',');
    match &bar.v {
        Some(v) => {
            let vf = format_fixed(v, p);
            let vff = csv_field(vf.as_str());
            out.append(vff.as_str());
        },
        None => {},
    }
    push_char(&mut out, '\n');
    proof {
        assert(out@ =~= spec_csv_row(ticker@, *bar, p as nat));
    }
    out
}

/// The rows of a batch, in order.
pub open spec fn spec_csv_rows(ticker: Seq<char>, bars: Seq<Bar>, p: nat) -> Seq<char>
    decreases bars.len(),
{
    if bars.len() == 0 {
        Seq::<char>::empty()
    } else {
        spec_csv_rows(ticker, bars.drop_last(), p) + spec_csv_row(ticker, bars.last(), p)
    }
}

/// The rows of concatenated batches are the concatenated rows.
pub proof fn lemma_csv_rows_concat(ticker: Seq<char>, a: Seq<Bar>, b: Seq<Bar>, p: nat)
    ensures
        spec_csv_rows(ticker, a + b, p) == spec_csv_rows(ticker, a, p) + spec_csv_rows(
            ticker,
            b,
            p,
        ),
    decreases b.len(),
{
    if b.len() == 0 {
        assert(a + b =~= a);
        assert(spec_csv_rows(ticker, a, p) + spec_csv_rows(ticker, b, p) =~= spec_csv_rows(
            ticker,
            a,
            p,
        ));
    } else {
        lemma_csv_rows_concat(ticker, a, b.drop_last(), p);
        assert((a + b).drop_last() =~= a + b.drop_last());
        assert((a + b).last() == b.last());
        assert(spec_csv_rows(ticker, a, p) + (spec_csv_rows(ticker, b.drop_last(), p)
            + spec_csv_row(ticker, b.last(), p)) =~= (spec_csv_rows(ticker, a, p) + spec_csv_rows(
            ticker,
            b.drop_last(),
            p,
        )) + spec_csv_row(ticker, b.last(), p));
    }
}

/// Renders the rows of a batch.
pub fn csv_rows(ticker: &str, bars: &Vec<Bar>, p: u8) -> (r: String)
    requires
        forall|i: int| 0 <= i < bars@.len() ==> (#[trigger] bars@[i]).wf(),
    ensures
        r@ == spec_csv_rows(ticker@, bars@, p as nat),
{
    let mut out = String::new();
    let n = bars.len();
    let mut i: usize = 0;
    proof {
        assert(out@ =~= spec_csv_rows(ticker@, bars@.take(0), p as nat));
    }
    while i < n
        invariant
            i <= n,
            n == bars@.len(),
            forall|k: int| 0 <= k < n ==> (#[trigger] bars@[k]).wf(),
            out@ == spec_csv_rows(ticker@, bars@.take(i as int), p as nat),
        decreases n - i,
    {
        let row = csv_row(ticker, &bars[i], p);
        out.append(row.as_str());
        proof {
            assert(bars@.take((i + 1) as int).drop_last() =~= bars@.take(i as int));
            assert(bars@.take((i + 1) as int).last() == bars@[i as int]);
        }
        i = i + 1;
    }
    proof {
        assert(bars@.take(n as int) =~= bars@);
    }
    out
}

/// One JSON object: timestamp as a string, prices rounded to the
/// precision, an absent volume as `null`; the pass-through fields `vw`
/// and `n` appear only when the provider supplied them.
pub open spec fn spec_json_obj(bar: Bar, p: nat) -> Seq<char> {
    "{\"timestamp\":\""@ + spec_fmt_ts(bar.t as int) + "\",\"open\":"@ + spec_format_dec(bar.o, p)
        + ",\"high\":"@ + spec_format_dec(bar.h, p) + ",\"low\":"@ + spec_format_dec(bar.l, p)
        + ",\"close\":"@ + spec_format_dec(bar.c, p) + ",\"volume\":"@ + (match bar.v {
        Option::Some(v) => spec_format_dec(v, p),
        Option::None => "null"@,
    }) + (match bar.vw {
        Option::Some(v) => ",\"vw\":"@ + spec_format_dec(v, p),
        Option::None => Seq::<char>::empty(),
    }) + (match bar.n {
        Option::Some(n) => ",\"n\":"@ + spec_int_str(n as int),
        Option::None => Seq::<char>::empty(),
    }) + "}"@
}

/// Renders one JSON object.
pub fn json_obj(bar: &Bar, p: u8) -> (r: String)
    requires
        bar.wf(),
    ensures
        r@ == spec_json_obj(*bar, p as nat),
{
    let mut out = String::new();
    out.append("{\"timestamp\":\"");
    let ts = fmt_ts(bar.t);
    out.append(ts.as_str());
    out.append("\",\"open\":");
    let of = format_fixed(&bar.o, p);
    out.append(of.as_str());
    out.append(",\"high\":");
    let hf = format_fixed(&bar.h, p);
    out.append(hf.as_str());
    out.append(",\"low\":");
    let lf = format_fixed(&bar.l, p);
    out.append(lf.as_str());
    out.append(",\"close\":");
    let cf = format_fixed(&bar.c, p);
    out.append(cf.as_str());
    out.append(",\"volume\":");
    match &bar.v {
        Some(v) => {
            let vf = format_fixed(v, p);
            out.append(vf.as_str());
        },
        None => out.append("null"),
    }
    match &bar.vw {
        Some(v) => {
            out.append(",\"vw\":");
            let vf = format_fixed(v, p);
            out.append(vf.as_str());
        },
        None => {},
    }
    match &bar.n {
        Some(nv) => {
            out.append(",\"n\":");
            let nf = i64_to_string(*nv);
            out.append(nf.as_str());
        },
        None => {},
    }
    out.append("}");
    proof {
        assert(out@ =~= spec_json_obj(*bar, p as nat));
    }
    out
}

/// The objects of a batch joined by commas (empty for an empty batch).
pub open spec fn spec_json_objs(bars: Seq<Bar>, p: nat) -> Seq<char>
    decreases bars.len(),
{
    if bars.len() == 0 {
        Seq::<char>::empty()
    } else if bars.len() == 1 {
        spec_json_obj(bars[0], p)
    } else {
        spec_json_objs(bars.drop_last(), p) + seq![','] + spec_json_obj(bars.last(), p)
    }
}

/// Joining concatenated nonempty batches inserts one comma between them.
pub proof fn lemma_json_objs_concat(a: Seq<Bar>, b: Seq<Bar>, p: nat)
    requires
        a.len() > 0,
        b.len() > 0,
    ensures
        spec_json_objs(a + b, p) == spec_json_objs(a, p) + seq![','] + spec_json_objs(b, p),
    decreases b.len(),
{
    if b.len() == 1 {
        assert((a + b).drop_last() =~= a);
        assert((a + b).last() == b.last());
        assert(b.last() == b[0]);
    } else {
        lemma_json_objs_concat(a, b.drop_last(), p);
        assert((a + b).drop_last() =~= a + b.drop_last());
        assert((a + b).last() == b.last());
        assert((spec_json_objs(a, p) + seq![','] + spec_json_objs(b.drop_last(), p)) + seq![',']
            + spec_json_obj(b.last(), p) =~= spec_json_objs(a, p) + seq![','] + (spec_json_objs(
            b.drop_last(),
            p,
        ) + seq![','] + spec_json_obj(b.last(), p)));
    }
}

/// Renders the comma-joined objects of a batch.
pub fn json_objs(bars: &Vec<Bar>, p: u8) -> (r: String)
    requires
        forall|i: int| 0 <= i < bars@.len() ==> (#[trigger] bars@[i]).wf(),
    ensures
        r@ == spec_json_objs(bars@, p as nat),
{
    let mut out = String::new();
    let n = bars.len();
    let mut i: usize = 0;
    proof {
        assert(out@ =~= spec_json_objs(bars@.take(0), p as nat));
    }
    while i < n
        invariant
            i <= n,
            n == bars@.len(),
            forall|k: int| 0 <= k < n ==> (#[trigger] bars@[k]).wf(),
            out@ == spec_json_objs(bars@.take(i as int), p as nat),
        decreases n - i,
    {
        if i > 0 {
            push_char(&mut out, ',');
        }
        let obj = json_obj(&bars[i], p);
        out.append(obj.as_str());
        proof {
            assert(bars@.take((i + 1) as int).drop_last() =~= bars@.take(i as int));
            assert(bars@.take((i + 1) as int).last() == bars@[i as int]);
            if i == 0 {
                assert(bars@.take(1).len() == 1);
                assert(bars@.take(1)[0] == bars@[0]);
                assert(out@ =~= spec_json_objs(bars@.take(1), p as nat));
            } else {
                assert(out@ =~= spec_json_objs(bars@.take((i + 1) as int), p as nat));
            }
        }
        i = i + 1;
    }
    proof {
        assert(bars@.take(n as int) =~= bars@);
    }
    out
}

} // verus!
