//! Run-level laws of the sink: what the single output file holds after
//! any sequence of appended batches.

use vstd::prelude::*;

use crate::render::lemma_csv_rows_concat;
use crate::render::lemma_json_objs_concat;
use crate::render::spec_csv_rows;
use crate::render::spec_json_objs;
use crate::sink::spec_append_ops;
use crate::sink::spec_csv_header;
use crate::sink::spec_finalize_ops;
use crate::sink::spec_open_ops;
use crate::sink::OpView;
use crate::sink::SinkState;
use crate::types::Bar;
use crate::types::OutputFormat;

verus! {

/// All the bars of a sequence of batches, in order.
pub open spec fn flatten_batches(batches: Seq<Seq<Bar>>) -> Seq<Bar>
    decreases batches.len(),
{
    if batches.len() == 0 {
        Seq::<Bar>::empty()
    } else {
        batches[0] + flatten_batches(batches.drop_first())
    }
}

/// The text a list of operations appends to the output file.
pub open spec fn appended_text(ops: Seq<OpView>) -> Seq<char>
    decreases ops.len(),
{
    if ops.len() == 0 {
        Seq::<char>::empty()
    } else {
        appended_text(ops.drop_last()) + (match ops.last() {
            OpView::Append { text, .. } => text,
            _ => Seq::<char>::empty(),
        })
    }
}

proof fn lemma_appended_concat(a: Seq<OpView>, b: Seq<OpView>)
    ensures
        appended_text(a + b) == appended_text(a) + appended_text(b),
    decreases b.len(),
{
    if b.len() == 0 {
        assert(a + b =~= a);
        assert(appended_text(a) + appended_text(b) =~= appended_text(a));
    } else {
        lemma_appended_concat(a, b.drop_last());
        assert((a + b).drop_last() =~= a + b.drop_last());
        assert((a + b).last() == b.last());
        let t = match b.last() {
            OpView::Append { text, .. } => text,
            _ => Seq::<char>::empty(),
        };
        assert(appended_text(a) + (appended_text(b.drop_last()) + t) =~= (appended_text(a)
            + appended_text(b.drop_last())) + t);
    }
}

proof fn lemma_appended_one(op: OpView)
    ensures
        appended_text(seq![op]) == (match op {
            OpView::Append { text, .. } => text,
            _ => Seq::<char>::empty(),
        }),
{
    let s = seq![op];
    let t = match op {
        OpView::Append { text, .. } => text,
        _ => Seq::<char>::empty(),
    };
    assert(s.drop_last() =~= Seq::<OpView>::empty());
    assert(appended_text(s.drop_last()) == Seq::<char>::empty());
    assert(Seq::<char>::empty() + t =~= t);
}

/// The sink's state after one batch.
pub open spec fn st_after(st: SinkState, batch: Seq<Bar>) -> SinkState {
    SinkState { wrote_any: st.wrote_any || batch.len() > 0, ..st }
}

/// The text of the whole run: each batch's operations in turn.
pub open spec fn run_text(st: SinkState, batches: Seq<Seq<Bar>>) -> Seq<char>
    decreases batches.len(),
{
    if batches.len() == 0 {
        Seq::<char>::empty()
    } else {
        appended_text(spec_append_ops(st, batches[0])) + run_text(
            st_after(st, batches[0]),
            batches.drop_first(),
        )
    }
}

/// What one batch appends to a single-file sink.
proof fn lemma_step_text(st: SinkState, bars: Seq<Bar>)
    requires
        !st.split_by_day,
    ensures
        appended_text(spec_append_ops(st, bars)) == (if bars.len() == 0 {
            Seq::<char>::empty()
        } else {
            (if st.wrote_any {
                Seq::<char>::empty()
            } else {
                match st.format {
                    OutputFormat::Csv => if st.no_header {
                        Seq::<char>::empty()
                    } else {
                        spec_csv_header()
                    },
                    OutputFormat::Json => "["@,
                }
            }) + (match st.format {
                OutputFormat::Csv => spec_csv_rows(st.ticker@, bars, st.precision as nat),
                OutputFormat::Json => if st.wrote_any {
                    seq![','] + spec_json_objs(bars, st.precision as nat)
                } else {
                    spec_json_objs(bars, st.precision as nat)
                },
            })
        }),
{
    if bars.len() == 0 {
    } else {
        let open: Seq<OpView> = if st.wrote_any {
            Seq::<OpView>::empty()
        } else {
            spec_open_ops(st)
        };
        let tail = seq![
            OpView::Append {
                path: st.out_path@,
                text: crate::sink::spec_batch_text(st, bars),
            },
        ];
        lemma_appended_concat(open, tail);
        lemma_appended_one(tail[0]);
        if !st.wrote_any {
            let dirs: Seq<OpView> = match crate::sink::spec_parent_dir(st.out_path@) {
                Option::Some(d) => seq![OpView::MkDirs { dir: d }],
                Option::None => Seq::<OpView>::empty(),
            };
            if dirs.len() > 0 {
                lemma_appended_one(dirs[0]);
            }
            assert(appended_text(dirs) == Seq::<char>::empty());
            match st.format {
                OutputFormat::Csv => {
                    if st.no_header {
                        let create = seq![OpView::Create { path: st.out_path@ }];
                        lemma_appended_concat(dirs, create);
                        lemma_appended_one(create[0]);
                        assert(appended_text(spec_open_ops(st)) =~= Seq::<char>::empty());
                    } else {
                        let rest = seq![
                            OpView::Create { path: st.out_path@ },
                            OpView::Append { path: st.out_path@, text: spec_csv_header() },
                        ];
                        lemma_appended_concat(dirs, rest);
                        assert(rest.drop_last() =~= seq![OpView::Create { path: st.out_path@ }]);
                        lemma_appended_one(rest.drop_last()[0]);
                        assert(appended_text(rest) =~= spec_csv_header());
                        assert(appended_text(spec_open_ops(st)) =~= spec_csv_header());
                    }
                },
                OutputFormat::Json => {
                    let rest = seq![
                        OpView::Create { path: st.out_path@ },
                        OpView::Append { path: st.out_path@, text: "["@ },
                    ];
                    lemma_appended_concat(dirs, rest);
                    assert(rest.drop_last() =~= seq![OpView::Create { path: st.out_path@ }]);
                    lemma_appended_one(rest.drop_last()[0]);
                    assert(appended_text(rest) =~= "["@);
                    assert(appended_text(spec_open_ops(st)) =~= "["@);
                },
            }
        }
    }
}

/// After any sequence of batches, a single-file CSV sink has written
/// nothing at all when no batch held a bar; otherwise it has written the
/// header — exactly when header suppression is off — followed by the rows
/// of every bar, in order.  The header line is therefore present in the
/// output exactly when suppression is off and at least one bar was ever
/// written.
pub proof fn lemma_csv_header_iff(st: SinkState, batches: Seq<Seq<Bar>>)
    requires
        st.format is Csv,
        !st.split_by_day,
        !st.wrote_any,
    ensures
        ({
            let all = flatten_batches(batches);
            let text = run_text(st, batches);
            &&& (all.len() == 0 ==> text == Seq::<char>::empty())
            &&& (all.len() > 0 && !st.no_header ==> text == spec_csv_header() + spec_csv_rows(
                st.ticker@,
                all,
                st.precision as nat,
            ))
            &&& (all.len() > 0 && st.no_header ==> text == spec_csv_rows(
                st.ticker@,
                all,
                st.precision as nat,
            ))
        }),
{
    lemma_csv_run(st, batches);
}

proof fn lemma_csv_run(st: SinkState, batches: Seq<Seq<Bar>>)
    requires
        st.format is Csv,
        !st.split_by_day,
    ensures
        ({
            let all = flatten_batches(batches);
            let text = run_text(st, batches);
            &&& (st.wrote_any ==> text == spec_csv_rows(st.ticker@, all, st.precision as nat))
            &&& (!st.wrote_any && all.len() == 0 ==> text == Seq::<char>::empty())
            &&& (!st.wrote_any && all.len() > 0 ==> text == (if st.no_header {
                Seq::<char>::empty()
            } else {
                spec_csv_header()
            }) + spec_csv_rows(st.ticker@, all, st.precision as nat))
        }),
    decreases batches.len(),
{
    let all = flatten_batches(batches);
    let p = st.precision as nat;
    if batches.len() == 0 {
        assert(spec_csv_rows(st.ticker@, all, p) =~= Seq::<char>::empty());
    } else {
        let b0 = batches[0];
        let rest = batches.drop_first();
        let st1 = st_after(st, b0);
        lemma_step_text(st, b0);
        lemma_csv_run(st1, rest);
        lemma_csv_rows_concat(st.ticker@, b0, flatten_batches(rest), p);
        assert(all == b0 + flatten_batches(rest));
        if st.wrote_any {
            assert(run_text(st, batches) =~= spec_csv_rows(st.ticker@, all, p));
        } else if b0.len() == 0 {
            assert(b0 + flatten_batches(rest) =~= flatten_batches(rest));
            assert(run_text(st, batches) =~= run_text(st1, rest));
        } else {
            if st.no_header {
                assert(run_text(st, batches) =~= spec_csv_rows(st.ticker@, all, p));
            } else {
                assert(run_text(st, batches) =~= spec_csv_header() + spec_csv_rows(
                    st.ticker@,
                    all,
                    p,
                ));
            }
        }
    }
}

/// After any sequence of batches plus finalization, a single-file JSON
/// sink has written nothing at all when no batch held a bar; otherwise
/// the file holds exactly `[`, the comma-joined objects of every bar in
/// order, and `]` — a well-formed JSON array of objects.
pub proof fn lemma_json_array_shape(st: SinkState, batches: Seq<Seq<Bar>>)
    requires
        st.format is Json,
        !st.split_by_day,
        !st.wrote_any,
    ensures
        ({
            let all = flatten_batches(batches);
            let stf = SinkState { wrote_any: st.wrote_any || all.len() > 0, ..st };
            let text = run_text(st, batches) + appended_text(spec_finalize_ops(stf));
            &&& (all.len() == 0 ==> text == Seq::<char>::empty())
            &&& (all.len() > 0 ==> text == "["@ + spec_json_objs(all, st.precision as nat)
                + "]"@)
        }),
{
    let all = flatten_batches(batches);
    lemma_json_run(st, batches);
    let stf = SinkState { wrote_any: st.wrote_any || all.len() > 0, ..st };
    if all.len() == 0 {
        assert(spec_finalize_ops(stf) =~= Seq::<OpView>::empty());
        assert(run_text(st, batches) + appended_text(spec_finalize_ops(stf))
            =~= Seq::<char>::empty());
    } else {
        let fin = spec_finalize_ops(stf);
        lemma_appended_one(fin[0]);
        assert(fin =~= seq![fin[0]]);
        assert(appended_text(fin) =~= "]"@);
        assert(run_text(st, batches) + appended_text(fin) =~= "["@ + spec_json_objs(
            all,
            st.precision as nat,
        ) + "]"@);
    }
}

#[verifier::rlimit(80)]
proof fn lemma_json_run(st: SinkState, batches: Seq<Seq<Bar>>)
    requires
        st.format is Json,
        !st.split_by_day,
    ensures
        ({
            let all = flatten_batches(batches);
            let text = run_text(st, batches);
            &&& (!st.wrote_any && all.len() == 0 ==> text == Seq::<char>::empty())
            &&& (!st.wrote_any && all.len() > 0 ==> text == "["@ + spec_json_objs(
                all,
                st.precision as nat,
            ))
            &&& (st.wrote_any && all.len() == 0 ==> text == Seq::<char>::empty())
            &&& (st.wrote_any && all.len() > 0 ==> text == seq![','] + spec_json_objs(
                all,
                st.precision as nat,
            ))
        }),
    decreases batches.len(),
{
    let all = flatten_batches(batches);
    let p = st.precision as nat;
    if batches.len() == 0 {
    } else {
        let b0 = batches[0];
        let rest = batches.drop_first();
        let st1 = st_after(st, b0);
        lemma_step_text(st, b0);
        lemma_json_run(st1, rest);
        assert(all == b0 + flatten_batches(rest));
        if b0.len() == 0 {
            assert(b0 + flatten_batches(rest) =~= flatten_batches(rest));
            assert(run_text(st, batches) =~= run_text(st1, rest));
        } else {
            let frest = flatten_batches(rest);
            if frest.len() == 0 {
                assert(b0 + frest =~= b0);
                assert(run_text(st1, rest) =~= Seq::<char>::empty());
                if st.wrote_any {
                    assert(run_text(st, batches) =~= seq![','] + spec_json_objs(all, p));
                } else {
                    assert(run_text(st, batches) =~= "["@ + spec_json_objs(all, p));
                }
            } else {
                lemma_json_objs_concat(b0, frest, p);
                if st.wrote_any {
                    assert(run_text(st, batches) =~= seq![','] + spec_json_objs(all, p));
                } else {
                    assert(run_text(st, batches) =~= "["@ + spec_json_objs(all, p));
                }
            }
        }
    }
}

} // verus!
