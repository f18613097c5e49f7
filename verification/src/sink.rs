//! The output sink as a pure state machine.
//!
//! Appending a batch yields the exact file operations to perform — lazy
//! creation on the first nonempty batch, header and bracket bookkeeping,
//! per-day routing — and finalizing yields the closing operations.  The
//! embedding program executes the operations; nothing here touches a file.

use vstd::prelude::*;

use crate::calendar::civil_of_ms;
use crate::calendar::day_of_ms;
use crate::render::csv_rows;
use crate::render::json_objs;
use crate::render::spec_csv_row;
use crate::render::spec_csv_rows;
use crate::render::spec_json_objs;
use crate::render::csv_row;
use crate::strnum::push_char;
use crate::strnum::spec_digits_padded;
use crate::strnum::spec_int_str;
use crate::strnum::u128_to_string_padded;
use crate::strnum::i64_to_string;
use crate::types::Bar;
use crate::types::OutputFormat;

verus! {

/// One file operation the embedding program performs on the sink's behalf.
pub enum WriteOp {
    /// Create the directory chain.
    MkDirs { dir: String },
    /// Create (truncate) the file and keep it open.
    Create { path: String },
    /// Append text to the file opened by `Create`.
    Append { path: String, text: String },
    /// Open (or create) a per-day file in append mode; write the header
    /// first when the file is new or empty, then the line.
    AppendDay { dir: String, path: String, header: Option<String>, line: String },
}

/// The same operation over character sequences, for specifications.
pub enum OpView {
    MkDirs { dir: Seq<char> },
    Create { path: Seq<char> },
    Append { path: Seq<char>, text: Seq<char> },
    AppendDay { dir: Seq<char>, path: Seq<char>, header: Option<Seq<char>>, line: Seq<char> },
}

pub open spec fn op_view(op: WriteOp) -> OpView {
    match op {
        WriteOp::MkDirs { dir } => OpView::MkDirs { dir: dir@ },
        WriteOp::Create { path } => OpView::Create { path: path@ },
        WriteOp::Append { path, text } => OpView::Append { path: path@, text: text@ },
        WriteOp::AppendDay { dir, path, header, line } => OpView::AppendDay {
            dir: dir@,
            path: path@,
            header: match header {
                Option::Some(h) => Some(h@),
                Option::None => None,
            },
            line: line@,
        },
    }
}

pub open spec fn ops_view(ops: Seq<WriteOp>) -> Seq<OpView> {
    ops.map_values(|op: WriteOp| op_view(op))
}

/// The CSV header row.
pub open spec fn spec_csv_header() -> Seq<char> {
    "ticker,timestamp,open,high,low,close,volume\n"@
}

fn csv_header() -> (r: String)
    ensures
        r@ == spec_csv_header(),
{
    let mut s = String::new();
    s.append("ticker,timestamp,open,high,low,close,volume\n");
    s
}

/// The position after the last '/' marker: index of the last slash, or -1.
pub open spec fn rfind_slash(s: Seq<char>) -> int
    decreases s.len(),
{
    if s.len() == 0 {
        -1
    } else if s.last() == '/' {
        s.len() - 1
    } else {
        rfind_slash(s.drop_last())
    }
}

/// The textual parent directory of a path: the part before the last
/// slash, when that part is nonempty.
pub open spec fn spec_parent_dir(path: Seq<char>) -> Option<Seq<char>> {
    let i = rfind_slash(path);
    if i >= 1 {
        Some(path.take(i))
    } else {
        None
    }
}

/// The textual parent directory of a path.
fn parent_dir(path: &str) -> (r: Option<String>)
    ensures
        match spec_parent_dir(path@) {
            Option::Some(d) => r matches Some(rd) && rd@ == d,
            Option::None => r is None,
        },
{
    let len = path.unicode_len();
    let mut last: usize = 0;
    let mut found = false;
    let mut i: usize = 0;
    proof {
        assert(path@.take(0) =~= Seq::<char>::empty());
    }
    while i < len
        invariant
            i <= len,
            len == path@.len(),
            found ==> last < i && rfind_slash(path@.take(i as int)) == last,
            !found ==> rfind_slash(path@.take(i as int)) == -1,
        decreases len - i,
    {
        proof {
            assert(path@.take((i + 1) as int).drop_last() =~= path@.take(i as int));
            assert(path@.take((i + 1) as int).last() == path@[i as int]);
        }
        if path.get_char(i) == '/' {
            last = i;
            found = true;
        }
        i = i + 1;
    }
    proof {
        assert(path@.take(len as int) =~= path@);
    }
    if found && last >= 1 {
        Some(path.substring_char(0, last).to_owned())
    } else {
        None
    }
}

/// The sink configuration and its one piece of mutable state: whether any
/// bar has ever been written.
pub struct SinkState {
    pub format: OutputFormat,
    pub split_by_day: bool,
    pub ticker: String,
    pub out_path: String,
    pub precision: u8,
    pub no_header: bool,
    pub wrote_any: bool,
}

/// The directory of a day file: `output/{year}/{month:02}`.
pub open spec fn spec_day_dir(y: int, mo: nat) -> Seq<char> {
    "output/"@ + spec_int_str(y) + seq!['/'] + spec_digits_padded(mo, 2)
}

/// The path of a day file:
/// `output/{year}/{month:02}/{ticker}_{year}-{month:02}-{day:02}.csv`.
pub open spec fn spec_day_path(ticker: Seq<char>, y: int, mo: nat, d: nat) -> Seq<char> {
    spec_day_dir(y, mo) + seq!['/'] + ticker + seq!['_'] + spec_int_str(y) + seq!['-']
        + spec_digits_padded(mo, 2) + seq!['-'] + spec_digits_padded(d, 2) + ".csv"@
}

/// The per-day operation of one bar: its row appended to its own UTC
/// day's file.  A bar whose timestamp has no civil decomposition has no
/// day file and is skipped.
pub open spec fn spec_split_op(st: SinkState, bar: Bar) -> Seq<OpView> {
    match civil_of_ms(bar.t as int) {
        Option::Some((y, mo, d, h, mi, s)) => seq![
            OpView::AppendDay {
                dir: spec_day_dir(y as int, mo as nat),
                path: spec_day_path(st.ticker@, y as int, mo as nat, d as nat),
                header: if st.no_header {
                    None
                } else {
                    Some(spec_csv_header())
                },
                line: spec_csv_row(st.ticker@, bar, st.precision as nat),
            },
        ],
        Option::None => Seq::<OpView>::empty(),
    }
}

/// The per-day operations of a batch, in order.
pub open spec fn spec_split_ops(st: SinkState, bars: Seq<Bar>) -> Seq<OpView>
    decreases bars.len(),
{
    if bars.len() == 0 {
        Seq::<OpView>::empty()
    } else {
        spec_split_ops(st, bars.drop_last()) + spec_split_op(st, bars.last())
    }
}

/// The operations that open the single output file: parent directories as
/// needed, the file itself, and for JSON the opening bracket, for CSV the
/// header unless suppressed.
pub open spec fn spec_open_ops(st: SinkState) -> Seq<OpView> {
    let dirs: Seq<OpView> = match spec_parent_dir(st.out_path@) {
        Option::Some(d) => seq![OpView::MkDirs { dir: d }],
        Option::None => Seq::<OpView>::empty(),
    };
    let create = OpView::Create { path: st.out_path@ };
    match st.format {
        OutputFormat::Csv => if st.no_header {
            dirs + seq![create]
        } else {
            dirs + seq![
                create,
                OpView::Append { path: st.out_path@, text: spec_csv_header() },
            ]
        },
        OutputFormat::Json => dirs + seq![
            create,
            OpView::Append { path: st.out_path@, text: "["@ },
        ],
    }
}

/// The text a batch appends to the single output file (for a nonempty
/// batch): CSV rows, or comma-joined JSON objects with a leading comma
/// when objects were already written.
pub open spec fn spec_batch_text(st: SinkState, bars: Seq<Bar>) -> Seq<char> {
    match st.format {
        OutputFormat::Csv => spec_csv_rows(st.ticker@, bars, st.precision as nat),
        OutputFormat::Json => if st.wrote_any {
            seq![','] + spec_json_objs(bars, st.precision as nat)
        } else {
            spec_json_objs(bars, st.precision as nat)
        },
    }
}

/// Everything `append_batch` emits: nothing for an empty batch; per-day
/// operations in split mode; otherwise the opening operations on the
/// first nonempty batch, then the batch text.
pub open spec fn spec_append_ops(st: SinkState, bars: Seq<Bar>) -> Seq<OpView> {
    if bars.len() == 0 {
        Seq::<OpView>::empty()
    } else if st.split_by_day {
        spec_split_ops(st, bars)
    } else {
        let open: Seq<OpView> = if st.wrote_any {
            Seq::<OpView>::empty()
        } else {
            spec_open_ops(st)
        };
        open + seq![
            OpView::Append { path: st.out_path@, text: spec_batch_text(st, bars) },
        ]
    }
}

/// What finalizing emits: the closing bracket of a JSON array that was
/// opened, nothing otherwise.
pub open spec fn spec_finalize_ops(st: SinkState) -> Seq<OpView> {
    if st.format is Json && !st.split_by_day && st.wrote_any {
        seq![OpView::Append { path: st.out_path@, text: "]"@ }]
    } else {
        Seq::<OpView>::empty()
    }
}

impl SinkState {
    /// Appends a batch: returns the file operations to perform, in order,
    /// and records whether anything has ever been written.
    pub fn append_batch(&mut self, bars: &Vec<Bar>) -> (ops: Vec<WriteOp>)
        requires
            forall|i: int| 0 <= i < bars@.len() ==> (#[trigger] bars@[i]).wf(),
        ensures
            ops_view(ops@) == spec_append_ops(*old(self), bars@),
            final(self).wrote_any == (old(self).wrote_any || bars@.len() > 0),
            final(self).format == old(self).format,
            final(self).split_by_day == old(self).split_by_day,
            final(self).ticker == old(self).ticker,
            final(self).out_path == old(self).out_path,
            final(self).precision == old(self).precision,
            final(self).no_header == old(self).no_header,
    {
        let mut ops: Vec<WriteOp> = Vec::new();
        if bars.len() == 0 {
            proof {
                assert(ops_view(ops@) =~= spec_append_ops(*old(self), bars@));
            }
            return ops;
        }
        if self.split_by_day {
            let n = bars.len();
            let mut i: usize = 0;
            proof {
                assert(ops_view(ops@) =~= spec_split_ops(*old(self), bars@.take(0)));
            }
            while i < n
                invariant
                    i <= n,
                    n == bars@.len(),
                    *self == *old(self),
                    self.split_by_day,
                    forall|k: int| 0 <= k < n ==> (#[trigger] bars@[k]).wf(),
                    ops_view(ops@) == spec_split_ops(*old(self), bars@.take(i as int)),
                decreases n - i,
            {
                let bar = &bars[i];
                proof {
                    assert(bars@.take((i + 1) as int).drop_last() =~= bars@.take(i as int));
                    assert(bars@.take((i + 1) as int).last() == bars@[i as int]);
                }
                match day_of_ms(bar.t) {
                    Some(date) => {
                        let mut dir = String::new();
                        dir.append("output/");
                        let ys = i64_to_string(date.y as i64);
                        dir.append(ys.as_str());
                        push_char(&mut dir, '/');
                        let mos = u128_to_string_padded(date.m as u128, 2);
                        dir.append(mos.as_str());
                        let mut path = dir.clone();
                        push_char(&mut path, '/');
                        path.append(self.ticker.as_str());
                        push_char(&mut path, '_');
                        path.append(ys.as_str());
                        push_char(&mut path, '-');
                        path.append(mos.as_str());
                        push_char(&mut path, '-');
                        let ds = u128_to_string_padded(date.d as u128, 2);
                        path.append(ds.as_str());
                        path.append(".csv");
                        let header = if self.no_header {
                            None
                        } else {
                            Some(csv_header())
                        };
                        let line = csv_row(self.ticker.as_str(), bar, self.precision);
                        proof {
                            assert(dir@ =~= spec_day_dir(date.y as int, date.m as nat));
                            assert(path@ =~= spec_day_path(
                                self.ticker@,
                                date.y as int,
                                date.m as nat,
                                date.d as nat,
                            ));
                        }
                        let op = WriteOp::AppendDay { dir, path, header, line };
                        ops.push(op);
                        proof {
                            assert(ops_view(ops@) =~= spec_split_ops(
                                *old(self),
                                bars@.take((i + 1) as int),
                            ));
                        }
                    },
                    None => {
                        proof {
                            assert(ops_view(ops@) =~= spec_split_ops(
                                *old(self),
                                bars@.take((i + 1) as int),
                            ));
                        }
                    },
                }
                i = i + 1;
            }
            proof {
                assert(bars@.take(n as int) =~= bars@);
            }
            self.wrote_any = true;
            return ops;
        }
        if !self.wrote_any {
            match parent_dir(self.out_path.as_str()) {
                Some(d) => {
                    let op = WriteOp::MkDirs { dir: d };
                    ops.push(op);
                },
                None => {},
            }
            let cr = WriteOp::Create { path: self.out_path.clone() };
            ops.push(cr);
            match self.format {
                OutputFormat::Csv => {
                    if !self.no_header {
                        let op = WriteOp::Append {
                            path: self.out_path.clone(),
                            text: csv_header(),
                        };
                        ops.push(op);
                    }
                },
                OutputFormat::Json => {
                    let mut br = String::new();
                    br.append("[");
                    let op = WriteOp::Append { path: self.out_path.clone(), text: br };
                    ops.push(op);
                },
            }
            proof {
                assert(ops_view(ops@) =~= spec_open_ops(*old(self)));
            }
        }
        let text = match self.format {
            OutputFormat::Csv => csv_rows(self.ticker.as_str(), bars, self.precision),
            OutputFormat::Json => {
                let objs = json_objs(bars, self.precision);
                if self.wrote_any {
                    let mut t = String::new();
                    push_char(&mut t, ',');
                    t.append(objs.as_str());
                    t
                } else {
                    objs
                }
            },
        };
        proof {
            assert(text@ == spec_batch_text(*old(self), bars@));
        }
        let op = WriteOp::Append { path: self.out_path.clone(), text };
        ops.push(op);
        self.wrote_any = true;
        proof {
            assert(ops_view(ops@) =~= spec_append_ops(*old(self), bars@));
        }
        ops
    }

    /// Emits the closing operations of the sink (the JSON array bracket,
    /// when one was opened).
    pub fn finalize(&self) -> (ops: Vec<WriteOp>)
        ensures
            ops_view(ops@) == spec_finalize_ops(*self),
    {
        let mut ops: Vec<WriteOp> = Vec::new();
        let json = match self.format {
            OutputFormat::Json => true,
            OutputFormat::Csv => false,
        };
        if json && !self.split_by_day && self.wrote_any {
            let mut br = String::new();
            br.append("]");
            let op = WriteOp::Append { path: self.out_path.clone(), text: br };
            ops.push(op);
        }
        proof {
            assert(ops_view(ops@) =~= spec_finalize_ops(*self));
        }
        ops
    }
}

} // verus!
