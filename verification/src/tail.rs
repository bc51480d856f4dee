//! The tail-style engine: totals, window resolution, extraction and the
//! per-file run.
//!
//! A textual count (see [`crate::take_value`]) is resolved against a
//! file's totals to an absolute start index; the window `[start, total)`
//! is then emitted either line by line or as one byte range.

use vstd::prelude::*;

use crate::chunks::chunk_count;
use crate::chunks::chunk_end_u8;
use crate::chunks::chunk_start;
use crate::chunks::count_chunks_u8;
use crate::chunks::lemma_chunk_end_bounds;
use crate::chunks::lemma_chunk_start_count;
use crate::chunks::lemma_chunk_start_monotone;
use crate::chunks::lemma_chunk_start_saturates;
use crate::chunks::lemma_split_rejoin;
use crate::take_value::TakeValue;
use vstd::string::StringExecFns;

verus! {

/// The line terminator.
pub const NEWLINE: u8 = 10;

/// A file's totals: its number of newline-delimited lines (a trailing
/// unterminated line counts) and its number of bytes.
pub struct LineCounter {
    pub lines: usize,
    pub bytes: usize,
}

impl LineCounter {
    /// Probe a file's contents for its totals.
    pub fn new(data: &[u8]) -> (r: LineCounter)
        ensures
            r.lines == chunk_count(data@, NEWLINE),
            r.bytes == data@.len(),
    {
        LineCounter { lines: count_chunks_u8(data, NEWLINE), bytes: data.len() }
    }
}

/// The start index a count resolves to against a total:
/// "the last `n`" clamps to the whole content, "starting at `n`" clamps
/// to the end, and positions 0 and 1 both mean the very start.
pub open spec fn spec_start_index(take_val: TakeValue, total: nat) -> nat {
    match take_val {
        TakeValue::FromEnd(n) => if n >= total {
            0
        } else {
            (total - n) as nat
        },
        TakeValue::FromStart(n) => if n > total {
            total
        } else if n <= 1 {
            0
        } else {
            (n - 1) as nat
        },
    }
}

/// Resolve a count against a total. Pure and total: every pair has a
/// defined answer.
pub fn get_start_index(take_val: TakeValue, total: usize) -> (r: usize)
    ensures
        r == spec_start_index(take_val, total as nat),
{
    match take_val {
        TakeValue::FromEnd(n) => {
            if n >= total {
                0
            } else {
                total - n
            }
        },
        TakeValue::FromStart(n) => {
            if n > total {
                total
            } else if n == 0 {
                0
            } else {
                n - 1
            }
        },
    }
}

/// The byte window `[start, total)`, empty once `start` passes the end.
pub open spec fn spec_byte_window(data: Seq<u8>, start: nat) -> Seq<u8> {
    if start < data.len() {
        data.subrange(start as int, data.len() as int)
    } else {
        Seq::empty()
    }
}

/// The bytes of all lines with index at least `start`: the suffix of the
/// content from the offset where line `start` begins.
pub open spec fn spec_line_window(data: Seq<u8>, start: nat) -> Seq<u8> {
    data.subrange(chunk_start(data, NEWLINE, start), data.len() as int)
}

/// Streaming line extraction: one forward pass over the lines, emitting
/// each line (terminator included) whose zero-based index is at least
/// `start`.
pub fn select_lines(data: &[u8], start: usize) -> (r: Vec<u8>)
    ensures
        r@ == spec_line_window(data@, start as nat),
{
    let n = data.len();
    let mut out: Vec<u8> = Vec::new();
    let mut i: usize = 0;
    let mut k: usize = 0;
    while i < n
        invariant
            0 <= i <= n,
            k <= i,
            n == data@.len(),
            i == chunk_start(data@, NEWLINE, k as nat),
            out@ == if k <= start {
                Seq::<u8>::empty()
            } else {
                data@.subrange(chunk_start(data@, NEWLINE, start as nat), i as int)
            },
        decreases n - i,
    {
        let j = chunk_end_u8(data, NEWLINE, i);
        proof {
            lemma_chunk_end_bounds(data@, NEWLINE, i as int);
        }
        if k >= start {
            out.extend_from_slice(&data[i..j]);
            proof {
                if k > start {
                    let off = chunk_start(data@, NEWLINE, start as nat);
                    lemma_chunk_start_count(data@, NEWLINE, start as nat);
                    lemma_chunk_start_monotone(data@, NEWLINE, start as nat, k as nat);
                    assert(data@.subrange(off, i as int) + data@.subrange(i as int, j as int)
                        =~= data@.subrange(off, j as int));
                }
            }
        }
        i = j;
        k += 1;
    }
    proof {
        if k <= start {
            lemma_chunk_start_count(data@, NEWLINE, k as nat);
            lemma_chunk_start_saturates(data@, NEWLINE, start as nat);
        }
        assert(out@ =~= spec_line_window(data@, start as nat));
    }
    out
}

/// Seeking byte extraction: nothing once `start` passes the end, else
/// exactly the bytes from `start` to the end, in order.
pub fn select_bytes(data: &[u8], start: usize) -> (r: Vec<u8>)
    ensures
        r@ == spec_byte_window(data@, start as nat),
{
    let n = data.len();
    let mut out: Vec<u8> = Vec::new();
    if start < n {
        out.extend_from_slice(&data[start..n]);
    }
    proof {
        assert(out@ =~= spec_byte_window(data@, start as nat));
    }
    out
}

/// The resolver's boundary table, row by row, for every count and total.
pub proof fn lemma_resolver_table(n: usize, total: nat)
    ensures
        n >= total ==> spec_start_index(TakeValue::FromEnd(n), total) == 0,
        n < total ==> spec_start_index(TakeValue::FromEnd(n), total) == total - n,
        n > total ==> spec_start_index(TakeValue::FromStart(n), total) == total,
        n <= total ==> spec_start_index(TakeValue::FromStart(n), total) == if n <= 1 {
            0
        } else {
            (n - 1) as nat
        },
{
}

/// Position 0 behaves exactly as position 1: against any total both
/// resolve to the very start, so on any content they select identical
/// windows, in line units and in byte units alike.
pub proof fn lemma_from_start_zero_one(data: Seq<u8>, total: nat)
    ensures
        spec_start_index(TakeValue::FromStart(0), total) == spec_start_index(
            TakeValue::FromStart(1),
            total,
        ),
        spec_start_index(TakeValue::FromStart(0), total) == 0,
        spec_window(data, TakeValue::FromStart(0), None) == spec_window(
            data,
            TakeValue::FromStart(1),
            None,
        ),
        spec_window(data, TakeValue::FromStart(0), Some(TakeValue::FromStart(0))) == spec_window(
            data,
            TakeValue::FromStart(1),
            Some(TakeValue::FromStart(1)),
        ),
{
}

/// Partition: the content before the resolved start, followed by the
/// extracted window, reconstructs the content exactly — in line units
/// and in byte units alike.
pub proof fn lemma_window_partition(data: Seq<u8>, start: nat)
    ensures
        data.subrange(0, chunk_start(data, NEWLINE, start)) + spec_line_window(data, start)
            == data,
        start <= data.len() ==> data.subrange(0, start as int) + spec_byte_window(data, start)
            == data,
{
    lemma_chunk_start_count(data, NEWLINE, start);
    lemma_split_rejoin(data, chunk_start(data, NEWLINE, start));
    if start <= data.len() {
        if start < data.len() {
            lemma_split_rejoin(data, start as int);
        } else {
            assert(data.subrange(0, start as int) + spec_byte_window(data, start) =~= data);
        }
    }
}

/// An oversized request: asking for more than everything from the end
/// yields the whole content; a start position past the end yields
/// nothing.
pub proof fn lemma_oversized_request(data: Seq<u8>, n: usize)
    ensures
        n >= chunk_count(data, NEWLINE) ==> spec_line_window(
            data,
            spec_start_index(TakeValue::FromEnd(n), chunk_count(data, NEWLINE)),
        ) == data,
        n >= data.len() ==> spec_byte_window(
            data,
            spec_start_index(TakeValue::FromEnd(n), data.len() as nat),
        ) == data,
        n > chunk_count(data, NEWLINE) ==> spec_line_window(
            data,
            spec_start_index(TakeValue::FromStart(n), chunk_count(data, NEWLINE)),
        ) == Seq::<u8>::empty(),
        n > data.len() ==> spec_byte_window(
            data,
            spec_start_index(TakeValue::FromStart(n), data.len() as nat),
        ) == Seq::<u8>::empty(),
{
    if n >= chunk_count(data, NEWLINE) {
        assert(spec_line_window(data, 0) =~= data);
    }
    if n >= data.len() {
        assert(spec_byte_window(data, 0) =~= data);
    }
    if n > chunk_count(data, NEWLINE) {
        lemma_chunk_start_saturates(data, NEWLINE, chunk_count(data, NEWLINE));
        assert(spec_line_window(data, chunk_count(data, NEWLINE)) =~= Seq::<u8>::empty());
    }
}

/// One input to a run: a file's name, and either its contents or the
/// reason it could not be opened.
pub struct TailInput {
    pub name: String,
    pub source: TailSource,
}

/// A file's contents, or the failure that opening it produced.
pub enum TailSource {
    Loaded(Vec<u8>),
    Unopened(String),
}

/// One item a run emits, in order: a `==> name <==` banner, a window of
/// raw bytes, a blank separator line, or a per-file diagnostic.
pub enum TailEvent {
    Banner(String),
    Data(Vec<u8>),
    Blank,
    Diagnostic(String),
}

/// The mathematical image of a [`TailInput`].
pub struct TailInputView {
    pub name: Seq<char>,
    pub source: TailSourceView,
}

/// The mathematical image of a [`TailSource`].
pub enum TailSourceView {
    Loaded(Seq<u8>),
    Unopened(Seq<char>),
}

/// The mathematical image of a [`TailEvent`].
pub enum TailEventView {
    Banner(Seq<char>),
    Data(Seq<u8>),
    Blank,
    Diagnostic(Seq<char>),
}

impl View for TailSource {
    type V = TailSourceView;

    open spec fn view(&self) -> TailSourceView {
        match self {
            TailSource::Loaded(d) => TailSourceView::Loaded(d@),
            TailSource::Unopened(e) => TailSourceView::Unopened(e@),
        }
    }
}

impl View for TailInput {
    type V = TailInputView;

    open spec fn view(&self) -> TailInputView {
        TailInputView { name: self.name@, source: self.source@ }
    }
}

impl View for TailEvent {
    type V = TailEventView;

    open spec fn view(&self) -> TailEventView {
        match self {
            TailEvent::Banner(s) => TailEventView::Banner(s@),
            TailEvent::Data(d) => TailEventView::Data(d@),
            TailEvent::Blank => TailEventView::Blank,
            TailEvent::Diagnostic(s) => TailEventView::Diagnostic(s@),
        }
    }
}

/// The banner printed before a file's output.
pub open spec fn spec_banner(name: Seq<char>) -> Seq<char> {
    "==> "@ + name + " <=="@
}

/// The diagnostic reported for a file that could not be opened.
pub open spec fn spec_diagnostic(name: Seq<char>, error: Seq<char>) -> Seq<char> {
    name + ": "@ + error
}

/// The window a file's contents resolve to: a byte window when a byte
/// count is given, else a line window.
pub open spec fn spec_window(data: Seq<u8>, lines: TakeValue, bytes: Option<TakeValue>) -> Seq<
    u8,
> {
    match bytes {
        Some(b) => spec_byte_window(data, spec_start_index(b, data.len())),
        None => spec_line_window(data, spec_start_index(lines, chunk_count(data, NEWLINE))),
    }
}

/// The events one file contributes to a run of `n` files, as file number
/// `i`: a diagnostic if it could not be opened; otherwise a banner
/// (unless quiet, or the run has a single file), its window, and a blank
/// separator (unless quiet, or it is the last file).
pub open spec fn spec_file_events(
    inp: TailInputView,
    lines: TakeValue,
    bytes: Option<TakeValue>,
    quiet: bool,
    i: int,
    n: int,
) -> Seq<TailEventView> {
    match inp.source {
        TailSourceView::Unopened(e) => seq![
            TailEventView::Diagnostic(spec_diagnostic(inp.name, e)),
        ],
        TailSourceView::Loaded(data) => (if !quiet && n > 1 {
            seq![TailEventView::Banner(spec_banner(inp.name))]
        } else {
            Seq::empty()
        }) + seq![TailEventView::Data(spec_window(data, lines, bytes))] + (if !quiet && i < n
            - 1 {
            seq![TailEventView::Blank]
        } else {
            Seq::empty()
        }),
    }
}

/// The events of files `i` onward.
pub open spec fn spec_run_from(
    inputs: Seq<TailInputView>,
    lines: TakeValue,
    bytes: Option<TakeValue>,
    quiet: bool,
    i: int,
) -> Seq<TailEventView>
    decreases inputs.len() - i,
{
    if i < 0 || i >= inputs.len() {
        Seq::empty()
    } else {
        spec_file_events(inputs[i], lines, bytes, quiet, i, inputs.len() as int)
            + spec_run_from(inputs, lines, bytes, quiet, i + 1)
    }
}

/// Everything a whole run emits, in order.
pub open spec fn spec_run(
    inputs: Seq<TailInputView>,
    lines: TakeValue,
    bytes: Option<TakeValue>,
    quiet: bool,
) -> Seq<TailEventView> {
    spec_run_from(inputs, lines, bytes, quiet, 0)
}

/// Did at least one input fail to open?
pub open spec fn spec_any_failure(inputs: Seq<TailInputView>) -> bool {
    exists|j: int| 0 <= j < inputs.len() && inputs[j].source is Unopened
}

/// The images of a run's inputs.
pub open spec fn inputs_view(v: Seq<TailInput>) -> Seq<TailInputView> {
    v.map_values(|x: TailInput| x@)
}

/// The images of a run's events.
pub open spec fn events_view(v: Seq<TailEvent>) -> Seq<TailEventView> {
    v.map_values(|x: TailEvent| x@)
}

/// Run the engine over every input in order. Files are isolated: one
/// that could not be opened yields a diagnostic and the run continues
/// with the rest. The second result says whether any file failed, so
/// that a caller can signal partial failure; the run itself never stops
/// early on that account.
pub fn run_tail(
    inputs: &Vec<TailInput>,
    lines: TakeValue,
    bytes: Option<TakeValue>,
    quiet: bool,
) -> (r: (Vec<TailEvent>, bool))
    ensures
        events_view(r.0@) == spec_run(inputs_view(inputs@), lines, bytes, quiet),
        r.1 == spec_any_failure(inputs_view(inputs@)),
{
    let ghost iv = inputs_view(inputs@);
    let n = inputs.len();
    let mut out: Vec<TailEvent> = Vec::new();
    let mut failed = false;
    let mut i: usize = 0;
    while i < n
        invariant
            0 <= i <= n,
            n == inputs@.len(),
            iv == inputs_view(inputs@),
            iv.len() == n,
            events_view(out@) + spec_run_from(iv, lines, bytes, quiet, i as int) == spec_run(
                iv,
                lines,
                bytes,
                quiet,
            ),
            failed == exists|j: int| 0 <= j < i && iv[j].source is Unopened,
        decreases n - i,
    {
        let ghost pre = out@;
        let inp = &inputs[i];
        match &inp.source {
            TailSource::Unopened(e) => {
                let msg = inp.name.clone().concat(": ").concat(e.as_str());
                out.push(TailEvent::Diagnostic(msg));
                failed = true;
            },
            TailSource::Loaded(data) => {
                if !quiet && n > 1 {
                    let banner = String::from_str("==> ").concat(inp.name.as_str()).concat(
                        " <==",
                    );
                    out.push(TailEvent::Banner(banner));
                }
                let window = match bytes {
                    Some(b) => {
                        let start = get_start_index(b, data.len());
                        select_bytes(data.as_slice(), start)
                    },
                    None => {
                        let counter = LineCounter::new(data.as_slice());
                        let start = get_start_index(lines, counter.lines);
                        select_lines(data.as_slice(), start)
                    },
                };
                out.push(TailEvent::Data(window));
                if !quiet && i < n - 1 {
                    out.push(TailEvent::Blank);
                }
            },
        }
        proof {
            assert(iv[i as int] == inputs@[i as int]@);
            assert(events_view(out@) =~= events_view(pre) + spec_file_events(
                iv[i as int],
                lines,
                bytes,
                quiet,
                i as int,
                n as int,
            ));
        }
        i += 1;
    }
    proof {
        assert(events_view(out@) =~= spec_run(iv, lines, bytes, quiet));
    }
    (out, failed)
}

/// Multi-file isolation: in a three-file run whose middle file cannot be
/// opened, the run still emits the first and third files' events in
/// full, the middle file contributes exactly one diagnostic, and the
/// failure is signalled.
pub proof fn lemma_partial_failure_isolated(
    inputs: Seq<TailInputView>,
    lines: TakeValue,
    bytes: Option<TakeValue>,
    quiet: bool,
)
    requires
        inputs.len() == 3,
        inputs[0].source is Loaded,
        inputs[1].source is Unopened,
        inputs[2].source is Loaded,
    ensures
        spec_run(inputs, lines, bytes, quiet) == spec_file_events(inputs[0], lines, bytes, quiet, 0, 3)
            + spec_file_events(inputs[1], lines, bytes, quiet, 1, 3) + spec_file_events(
            inputs[2],
            lines,
            bytes,
            quiet,
            2,
            3,
        ),
        spec_file_events(inputs[1], lines, bytes, quiet, 1, 3) == seq![
            TailEventView::Diagnostic(spec_diagnostic(inputs[1].name, inputs[1].source->Unopened_0)),
        ],
        spec_file_events(inputs[0], lines, bytes, quiet, 0, 3)[if quiet { 0int } else { 1int }]
            == TailEventView::Data(spec_window(inputs[0].source->Loaded_0, lines, bytes)),
        spec_file_events(inputs[2], lines, bytes, quiet, 2, 3)[if quiet { 0int } else { 1int }]
            == TailEventView::Data(spec_window(inputs[2].source->Loaded_0, lines, bytes)),
        spec_any_failure(inputs),
{
    let ev0 = spec_file_events(inputs[0], lines, bytes, quiet, 0, 3);
    let ev1 = spec_file_events(inputs[1], lines, bytes, quiet, 1, 3);
    let ev2 = spec_file_events(inputs[2], lines, bytes, quiet, 2, 3);
    assert(spec_run_from(inputs, lines, bytes, quiet, 3) =~= Seq::<TailEventView>::empty());
    assert(spec_run_from(inputs, lines, bytes, quiet, 2) == ev2 + spec_run_from(
        inputs,
        lines,
        bytes,
        quiet,
        3,
    ));
    assert(ev2 + Seq::<TailEventView>::empty() =~= ev2);
    assert(spec_run_from(inputs, lines, bytes, quiet, 1) == ev1 + ev2);
    assert(spec_run(inputs, lines, bytes, quiet) == ev0 + (ev1 + ev2));
    assert(ev0 + (ev1 + ev2) =~= ev0 + ev1 + ev2);
    assert(spec_run(inputs, lines, bytes, quiet) =~= spec_file_events(
        inputs[0],
        lines,
        bytes,
        quiet,
        0,
        3,
    ) + spec_file_events(inputs[1], lines, bytes, quiet, 1, 3) + spec_file_events(
        inputs[2],
        lines,
        bytes,
        quiet,
        2,
        3,
    ));
}

} // verus!
