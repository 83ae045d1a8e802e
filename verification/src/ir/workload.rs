//! Workload trace: an SLO header line, then one request record a line.
//!
//! Lines that are blank are skipped, and every error names the line of the file.
//! Reading one line as JSON is the caller's: the functions here take what came of it.

use vstd::prelude::*;

use crate::ieee::Ieee64;
use crate::ir::error::WorkloadError;
use crate::text::{
    blank, is_blank, lines, lines_of_both, one_line, split_lines, starts_with_after_space, trim_start,
    trimming_drops_leading_space, white_space,
};

verus! {

#[derive(Debug, Clone, Copy, PartialEq)]
pub struct Slo {
    pub ttft_p95_ms: u32,
    pub tpot_p95_ms: u32,
    /// Ceiling of the KL divergence from the reference.
    pub max_accuracy_drift: Ieee64,
    /// Divergence of the workload from the compile-time trace that triggers a
    /// recompile.
    pub recompile_drift_threshold_kl: Ieee64,
}

#[derive(Debug, Clone, Copy, PartialEq, Eq, Hash, Structural)]
pub struct RequestRecord {
    pub prompt_tokens: u32,
    pub output_tokens: u32,
    pub arrival_ms: u64,
}

#[derive(Debug, Clone, PartialEq)]
pub struct Workload {
    pub slo: Slo,
    pub requests: Vec<RequestRecord>,
}

/// A line of the trace that is not blank, with its number in the file, from one.
#[derive(Debug, Clone, PartialEq, Eq)]
pub struct TraceLine {
    pub number: usize,
    pub text: String,
}

/// What a [`TraceLine`] is.
pub struct TraceLineView {
    pub number: nat,
    pub text: Seq<char>,
}

impl View for TraceLine {
    type V = TraceLineView;

    open spec fn view(&self) -> TraceLineView {
        TraceLineView { number: self.number as nat, text: self.text@ }
    }
}

/// The lines that are not blank, numbered from one.
pub open spec fn numbered(all: Seq<Seq<char>>) -> Seq<TraceLineView>
    decreases all.len(),
{
    if all.len() == 0 {
        seq![]
    } else if blank(all.last()) {
        numbered(all.drop_last())
    } else {
        numbered(all.drop_last()).push(TraceLineView { number: all.len(), text: all.last() })
    }
}

/// The lines of a trace that count.
pub open spec fn trace(s: Seq<char>) -> Seq<TraceLineView> {
    numbered(lines(s))
}

/// The views of some lines.
pub open spec fn line_views(v: Seq<TraceLine>) -> Seq<TraceLineView> {
    v.map_values(|l: TraceLine| l@)
}

/// The arrival before request `n`: that of its predecessor, or zero.
pub open spec fn previous_arrival(records: Seq<Result<RequestRecord, String>>, n: int) -> u64 {
    if n <= 0 {
        0
    } else {
        records[n - 1]->Ok_0.arrival_ms
    }
}

/// Whether record `i` was read and does not precede the one before.
pub open spec fn record_ok(records: Seq<Result<RequestRecord, String>>, i: int) -> bool {
    records[i] is Ok && records[i]->Ok_0.arrival_ms >= previous_arrival(records, i)
}

/// Whether the first `n` records were read and arrive in order.
pub open spec fn records_ok(records: Seq<Result<RequestRecord, String>>, n: int) -> bool {
    forall|i: int| 0 <= i < n ==> #[trigger] record_ok(records, i)
}

/// Whether the outcome is that a line was not read, for this reason.
pub open spec fn unread(
    res: Result<Workload, WorkloadError>,
    number: nat,
    reason: Seq<char>,
) -> bool {
    match res {
        Err(WorkloadError::Json { line, source }) => line == number && source@ == reason,
        _ => false,
    }
}

/// Whether the outcome is the error owed for the record at `i`, the first that is not
/// in order.
pub open spec fn record_error(
    line: TraceLineView,
    records: Seq<Result<RequestRecord, String>>,
    i: int,
    res: Result<Workload, WorkloadError>,
) -> bool {
    match records[i] {
        Err(reason) => unread(res, line.number, reason@),
        Ok(r) => res == Err::<Workload, _>(
            WorkloadError::NonMonotonicArrival {
                line: line.number as usize,
                arrival: r.arrival_ms,
                previous: previous_arrival(records, i),
            },
        ),
    }
}

/// The workload of a trace: `header` is what came of reading its first line as an SLO
/// header, and `records` what came of reading the others as request records.
pub open spec fn workload_of(
    trace: Seq<TraceLineView>,
    header: Result<Slo, String>,
    records: Seq<Result<RequestRecord, String>>,
    res: Result<Workload, WorkloadError>,
) -> bool {
    if trace.len() == 0 {
        res == Err::<Workload, _>(WorkloadError::Empty)
    } else if header is Err {
        let first = trim_start(trace[0].text);
        if first.len() > 0 && first[0] == '{' {
            res == Err::<Workload, _>(WorkloadError::MissingSlo)
        } else {
            unread(res, trace[0].number, header->Err_0@)
        }
    } else if records_ok(records, records.len() as int) {
        &&& res is Ok
        &&& res->Ok_0.slo == header->Ok_0
        &&& res->Ok_0.requests@.len() == records.len()
        &&& forall|i: int|
            0 <= i < records.len() ==> #[trigger] res->Ok_0.requests@[i] == records[i]->Ok_0
    } else {
        exists|i: int|
            {
                &&& 0 <= i < records.len()
                &&& records_ok(records, i)
                &&& !(#[trigger] record_ok(records, i))
                &&& record_error(trace[i + 1], records, i, res)
            }
    }
}

/// The lines of a trace that are not blank, with their numbers.
pub fn trace_lines(s: &str) -> (res: Vec<TraceLine>)
    ensures
        line_views(res@) == trace(s@),
{
    let all = split_lines(s);
    let ghost texts = lines(s@);
    assert(all@.len() == texts.len());
    let mut out: Vec<TraceLine> = Vec::new();
    let mut i: usize = 0;
    assert(line_views(out@) =~= seq![]);
    while i < all.len()
        invariant
            i <= all@.len(),
            texts == all@.map_values(|l: String| l@),
            line_views(out@) == numbered(texts.take(i as int)),
        decreases all.len() - i,
    {
        let ghost before = out@;
        assert(texts.take(i + 1).drop_last() =~= texts.take(i as int));
        assert(texts[i as int] == all@[i as int]@);
        if !is_blank(all[i].as_str()) {
            out.push(TraceLine { number: i + 1, text: all[i].clone() });
            assert(line_views(out@) =~= line_views(before).push(out@.last()@));
        }
        i += 1;
    }
    assert(texts.take(i as int) =~= texts);
    out
}

/// Puts a workload together from what came of reading the lines.
pub fn assemble(
    trace: &Vec<TraceLine>,
    header: Result<Slo, String>,
    records: &Vec<Result<RequestRecord, String>>,
) -> (res: Result<Workload, WorkloadError>)
    requires
        trace@.len() > 0 ==> records@.len() == trace@.len() - 1,
    ensures
        workload_of(line_views(trace@), header, records@, res),
{
    let ghost views = line_views(trace@);
    if trace.len() == 0 {
        return Err(WorkloadError::Empty);
    }
    assert(views[0] == trace@[0]@);
    let slo = match header {
        Ok(slo) => slo,
        Err(source) => {
            if starts_with_after_space(trace[0].text.as_str(), '{') {
                return Err(WorkloadError::MissingSlo);
            }
            return Err(WorkloadError::Json { line: trace[0].number, source });
        },
    };
    let mut requests: Vec<RequestRecord> = Vec::new();
    let mut prev_arrival: u64 = 0;
    let mut i: usize = 0;
    while i < records.len()
        invariant
            views == line_views(trace@),
            trace@.len() == records@.len() + 1,
            header == Ok::<Slo, String>(slo),
            i <= records@.len(),
            prev_arrival == previous_arrival(records@, i as int),
            records_ok(records@, i as int),
            requests@.len() == i,
            forall|j: int| 0 <= j < i ==> #[trigger] requests@[j] == records@[j]->Ok_0,
        decreases records.len() - i,
    {
        assert(views[i + 1] == trace@[i + 1]@);
        let line: usize = trace[i + 1].number;
        match &records[i] {
            Err(reason) => {
                assert(!record_ok(records@, i as int));
                return Err(WorkloadError::Json { line, source: reason.clone() });
            },
            Ok(read) => {
                let r: RequestRecord = *read;
                if r.arrival_ms < prev_arrival {
                    assert(!record_ok(records@, i as int));
                    return Err(
                        WorkloadError::NonMonotonicArrival {
                            line,
                            arrival: r.arrival_ms,
                            previous: prev_arrival,
                        },
                    );
                }
                assert(record_ok(records@, i as int));
                prev_arrival = r.arrival_ms;
                requests.push(r);
            },
        }
        i += 1;
    }
    Ok(Workload { slo, requests })
}

impl Workload {
    /// Reads a trace. `read_slo` reads a line as the SLO header and `read_record` as a
    /// request record; both give the reason where a line is something else.
    pub fn from_jsonl_str<H: Fn(&str) -> Result<Slo, String>, R: Fn(&str) -> Result<RequestRecord, String>>(
        s: &str,
        read_slo: H,
        read_record: R,
    ) -> (res: Result<Self, WorkloadError>)
        requires
            forall|l: &str| call_requires(read_slo, (l,)),
            forall|l: &str| call_requires(read_record, (l,)),
        ensures
            workload_read(trace(s@), read_slo, read_record, res),
    {
        let lines = trace_lines(s);
        let ghost views = trace(s@);
        assert(views.len() == lines@.len());
        let mut header: Result<Slo, String> = Err(String::new());
        let mut records: Vec<Result<RequestRecord, String>> = Vec::new();
        if lines.len() > 0 {
            let first: &str = lines[0].text.as_str();
            assert(views[0] == lines@[0]@);
            header = read_slo(first);
            assert(reads(read_slo, views[0].text, header));
            let mut i: usize = 1;
            while i < lines.len()
                invariant
                    views == line_views(lines@),
                    1 <= i <= lines@.len(),
                    records@.len() == i - 1,
                    forall|l: &str| call_requires(read_record, (l,)),
                    forall|j: int|
                        0 <= j < records@.len() ==> reads(
                            read_record,
                            views[j + 1].text,
                            #[trigger] records@[j],
                        ),
                decreases lines.len() - i,
            {
                let line: &str = lines[i].text.as_str();
                assert(views[i as int] == lines@[i as int]@);
                let record = read_record(line);
                assert(reads(read_record, views[i as int].text, record));
                records.push(record);
                i += 1;
            }
        }
        assert(lines_read(views, read_slo, read_record, header, records@));
        assemble(&lines, header, &records)
    }
}

/// Whether reading a line with this text can give this outcome.
pub open spec fn reads<T, F: Fn(&str) -> Result<T, String>>(
    read: F,
    text: Seq<char>,
    out: Result<T, String>,
) -> bool {
    exists|l: &str| l@ == text && #[trigger] call_ensures(read, (l,), out)
}

/// Whether the header and the records are what reading the lines gave, one line each.
pub open spec fn lines_read<H: Fn(&str) -> Result<Slo, String>, R: Fn(&str) -> Result<RequestRecord, String>>(
    trace: Seq<TraceLineView>,
    read_slo: H,
    read_record: R,
    header: Result<Slo, String>,
    records: Seq<Result<RequestRecord, String>>,
) -> bool {
    trace.len() > 0 ==> {
        &&& reads(read_slo, trace[0].text, header)
        &&& records.len() == trace.len() - 1
        &&& forall|i: int|
            0 <= i < records.len() ==> reads(
                read_record,
                trace[i + 1].text,
                #[trigger] records[i],
            )
    }
}

/// Whether a trace whose lines are read so can give this outcome.
pub open spec fn workload_read<
    H: Fn(&str) -> Result<Slo, String>,
    R: Fn(&str) -> Result<RequestRecord, String>,
>(
    trace: Seq<TraceLineView>,
    read_slo: H,
    read_record: R,
    res: Result<Workload, WorkloadError>,
) -> bool {
    exists|header: Result<Slo, String>, records: Seq<Result<RequestRecord, String>>|
        #[trigger] lines_read(trace, read_slo, read_record, header, records) && workload_of(
            trace,
            header,
            records,
            res,
        )
}

/// The texts of some lines, without their numbers.
pub open spec fn texts(trace: Seq<TraceLineView>) -> Seq<Seq<char>> {
    trace.map_values(|l: TraceLineView| l.text)
}

proof fn numbered_texts(a: Seq<Seq<char>>, b: Seq<Seq<char>>)
    ensures
        texts(numbered(a + b)) == texts(numbered(a)) + texts(numbered(b)),
    decreases b.len(),
{
    if b.len() == 0 {
        assert(a + b =~= a);
        assert(texts(numbered(b)) =~= seq![]);
        assert(texts(numbered(a)) + texts(numbered(b)) =~= texts(numbered(a)));
    } else {
        numbered_texts(a, b.drop_last());
        assert((a + b).drop_last() =~= a + b.drop_last());
        assert((a + b).last() == b.last());
        if !blank(b.last()) {
            assert(texts(numbered(a + b)) =~= texts(numbered(a + b.drop_last())).push(b.last()));
            assert(texts(numbered(b)) =~= texts(numbered(b.drop_last())).push(b.last()));
            assert(texts(numbered(a)) + texts(numbered(b)) =~= (texts(numbered(a)) + texts(
                numbered(b.drop_last()),
            )).push(b.last()));
        }
    }
}

/// A blank line changes nothing but the numbers of the lines behind it: with `p` empty
/// or ended by a line feed and `b` a blank line, the text `p`, `b`, a line feed and `q`
/// has the lines that `p` and `q` alone have.
pub proof fn blank_lines_do_not_count(p: Seq<char>, b: Seq<char>, q: Seq<char>)
    requires
        p.len() > 0 ==> p.last() == '\n',
        blank(b),
        forall|i: int| 0 <= i < b.len() ==> b[i] != '\n',
    ensures
        texts(trace(p + (b.push('\n') + q))) == texts(trace(p + q)),
{
    let line = if b.len() > 0 && b.last() == '\r' {
        b.drop_last()
    } else {
        b
    };
    one_line(b);
    lines_of_both(b.push('\n'), q);
    lines_of_both(p, b.push('\n') + q);
    lines_of_both(p, q);
    assert(seq![line].drop_last() =~= seq![]);
    assert(seq![line].last() == line);
    assert(blank(line));
    assert(numbered(seq![line]) == numbered(seq![line].drop_last()));
    assert(numbered(seq![line].drop_last()) =~= seq![]);
    assert(texts(numbered(seq![line])) =~= seq![]);
    numbered_texts(seq![line], lines(q));
    numbered_texts(lines(p), seq![line] + lines(q));
    numbered_texts(lines(p), lines(q));
    assert(seq![] + texts(numbered(lines(q))) =~= texts(numbered(lines(q))));
}

/// What a trace gives goes by the texts of its lines that are not blank: two traces in
/// which they are the same give the same workloads.
pub proof fn same_lines_give_the_same_workload<
    H: Fn(&str) -> Result<Slo, String>,
    R: Fn(&str) -> Result<RequestRecord, String>,
>(a: Seq<TraceLineView>, b: Seq<TraceLineView>, read_slo: H, read_record: R, w: Workload)
    requires
        texts(a) == texts(b),
        workload_read(a, read_slo, read_record, Ok::<Workload, WorkloadError>(w)),
    ensures
        workload_read(b, read_slo, read_record, Ok::<Workload, WorkloadError>(w)),
{
    let ok = Ok::<Workload, WorkloadError>(w);
    assert(a.len() == texts(a).len() == texts(b).len() == b.len());
    assert forall|i: int| 0 <= i < a.len() implies (#[trigger] a[i]).text == b[i].text by {
        assert(texts(a)[i] == texts(b)[i]);
    }
    let (header, records) = choose|
        header: Result<Slo, String>,
        records: Seq<Result<RequestRecord, String>>,
    |
        #[trigger] lines_read(a, read_slo, read_record, header, records) && workload_of(
            a,
            header,
            records,
            ok,
        );
    assert(lines_read(b, read_slo, read_record, header, records)) by {
        if b.len() > 0 {
            assert forall|i: int| 0 <= i < records.len() implies reads(
                read_record,
                b[i + 1].text,
                #[trigger] records[i],
            ) by {
                assert(a[i + 1].text == b[i + 1].text);
            }
        }
    }
    assert(workload_of(b, header, records, ok));
}

/// Adding or dropping a blank line leaves the workload of a text as it is.
pub proof fn blank_lines_leave_the_workload<
    H: Fn(&str) -> Result<Slo, String>,
    R: Fn(&str) -> Result<RequestRecord, String>,
>(p: Seq<char>, b: Seq<char>, q: Seq<char>, read_slo: H, read_record: R, w: Workload)
    requires
        p.len() > 0 ==> p.last() == '\n',
        blank(b),
        forall|i: int| 0 <= i < b.len() ==> b[i] != '\n',
    ensures
        workload_read(
            trace(p + (b.push('\n') + q)),
            read_slo,
            read_record,
            Ok::<Workload, WorkloadError>(w),
        ) == workload_read(
            trace(p + q),
            read_slo,
            read_record,
            Ok::<Workload, WorkloadError>(w),
        ),
{
    let with = trace(p + (b.push('\n') + q));
    let without = trace(p + q);
    let ok = Ok::<Workload, WorkloadError>(w);
    blank_lines_do_not_count(p, b, q);
    if workload_read(with, read_slo, read_record, ok) {
        same_lines_give_the_same_workload(with, without, read_slo, read_record, w);
    }
    if workload_read(without, read_slo, read_record, ok) {
        same_lines_give_the_same_workload(without, with, read_slo, read_record, w);
    }
}

/// Requests of a workload that was read arrive in order: none before its predecessor.
pub proof fn arrivals_never_decrease(
    trace: Seq<TraceLineView>,
    header: Result<Slo, String>,
    records: Seq<Result<RequestRecord, String>>,
    w: Workload,
    i: int,
    j: int,
)
    requires
        workload_of(trace, header, records, Ok::<Workload, WorkloadError>(w)),
        0 <= i <= j < w.requests@.len(),
    ensures
        w.requests@[i].arrival_ms <= w.requests@[j].arrival_ms,
    decreases j,
{
    if i < j {
        arrivals_never_decrease(trace, header, records, w, i, j - 1);
        assert(record_ok(records, j));
        assert(w.requests@[j] == records[j]->Ok_0);
        assert(w.requests@[j - 1] == records[j - 1]->Ok_0);
    }
}

/// Lines are numbered as in the file, from one, blank ones counted: entry `k` of a trace has
/// the text of the line with its number, every line that is not blank has an entry, and the
/// numbers ascend.
pub proof fn lines_are_numbered_as_in_the_file(all: Seq<Seq<char>>, k: int, n: nat)
    ensures
        0 <= k < numbered(all).len() ==> {
            let l = numbered(all)[k];
            &&& 1 <= l.number <= all.len()
            &&& l.text == all[l.number - 1]
            &&& !blank(l.text)
            &&& k > 0 ==> numbered(all)[k - 1].number < l.number
        },
        1 <= n <= all.len() && !blank(all[n - 1]) ==> exists|j: int|
            0 <= j < numbered(all).len() && (#[trigger] numbered(all)[j]).number == n,
    decreases all.len(),
{
    if all.len() > 0 {
        let front = all.drop_last();
        let before = numbered(front);
        let now = numbered(all);
        lines_are_numbered_as_in_the_file(front, k, n);
        if before.len() > 0 {
            lines_are_numbered_as_in_the_file(front, before.len() - 1, n);
        }
        if !blank(all.last()) {
            assert(now[before.len() as int].number == all.len());
            assert(now[before.len() as int].text == all[all.len() - 1]);
        }
        if 0 <= k < before.len() {
            assert(now[k] == before[k]);
            assert(front[before[k].number - 1] == all[before[k].number - 1]);
            if k > 0 {
                assert(now[k - 1] == before[k - 1]);
            }
        } else if k == before.len() && k > 0 && k < now.len() {
            assert(now[k - 1] == before[k - 1]);
        }
        if 1 <= n <= front.len() && !blank(all[n - 1]) {
            assert(front[n - 1] == all[n - 1]);
            let j = choose|j: int| 0 <= j < before.len() && (#[trigger] before[j]).number == n;
            assert(now[j] == before[j]);
        }
    }
}

/// A workload is what its lines say: the SLO is what the first line that counts is read as, and
/// request `i` what the `i`-th line behind it is read as, all of them, in the order of the
/// file and of their arrival. This is stated of readers that give one outcome for one text.
pub proof fn workloads_are_what_their_lines_say<
    H: Fn(&str) -> Result<Slo, String>,
    R: Fn(&str) -> Result<RequestRecord, String>,
>(
    trace: Seq<TraceLineView>,
    read_slo: H,
    read_record: R,
    slo: spec_fn(Seq<char>) -> Result<Slo, String>,
    record: spec_fn(Seq<char>) -> Result<RequestRecord, String>,
    res: Result<Workload, WorkloadError>,
    i: int,
)
    requires
        workload_read(trace, read_slo, read_record, res),
        forall|l: &str, o: Result<Slo, String>| #[trigger]
            call_ensures(read_slo, (l,), o) ==> o == slo(l@),
        forall|l: &str, o: Result<RequestRecord, String>| #[trigger]
            call_ensures(read_record, (l,), o) ==> o == record(l@),
    ensures
        trace.len() == 0 ==> res == Err::<Workload, _>(WorkloadError::Empty),
        res matches Ok(w) ==> {
            &&& trace.len() > 0
            &&& slo(trace[0].text) == Ok::<Slo, String>(w.slo)
            &&& w.requests@.len() == trace.len() - 1
            &&& 0 <= i < w.requests@.len() ==> record(trace[i + 1].text) is Ok && record(
                trace[i + 1].text,
            )->Ok_0 == w.requests@[i]
            &&& 0 < i < w.requests@.len() ==> w.requests@[i - 1].arrival_ms
                <= w.requests@[i].arrival_ms
        },
        trace.len() > 0 && slo(trace[0].text) is Ok && (forall|k: int|
            0 < k < trace.len() ==> record((#[trigger] trace[k]).text) is Ok) && (forall|k: int|
            1 < k < trace.len() ==> record((#[trigger] trace[k]).text)->Ok_0.arrival_ms >= record(
                trace[k - 1].text,
            )->Ok_0.arrival_ms) ==> res is Ok,
        res matches Err(WorkloadError::NonMonotonicArrival { line, arrival, previous }) ==> {
            &&& arrival < previous
            &&& exists|k: int|
                {
                    &&& 1 < k < trace.len()
                    &&& (#[trigger] trace[k]).number as usize == line
                    &&& record(trace[k].text)->Ok_0.arrival_ms == arrival
                    &&& record(trace[k - 1].text)->Ok_0.arrival_ms == previous
                }
        },
        res matches Err(WorkloadError::Json { line, source }) ==> exists|k: int|
            {
                &&& 0 <= k < trace.len()
                &&& (#[trigger] trace[k]).number == line
                &&& k == 0 ==> slo(trace[k].text) is Err && source@ == slo(trace[k].text)->Err_0@
                &&& k > 0 ==> record(trace[k].text) is Err && source@ == record(
                    trace[k].text,
                )->Err_0@
            },
{
    let (header, records) = choose|
        header: Result<Slo, String>,
        records: Seq<Result<RequestRecord, String>>,
    |
        #[trigger] lines_read(trace, read_slo, read_record, header, records) && workload_of(
            trace,
            header,
            records,
            res,
        );
    if trace.len() > 0 {
        let l = choose|l: &str|
            l@ == trace[0].text && #[trigger] call_ensures(read_slo, (l,), header);
        assert(header == slo(trace[0].text));
        assert forall|k: int| 0 <= k < records.len() implies #[trigger] records[k] == record(
            trace[k + 1].text,
        ) by {
            assert(reads(read_record, trace[k + 1].text, records[k]));
            let l = choose|l: &str|
                l@ == trace[k + 1].text && #[trigger] call_ensures(read_record, (l,), records[k]);
        }
        if header is Ok && records_ok(records, records.len() as int) {
            let w = res->Ok_0;
            if 0 <= i < w.requests@.len() {
                assert(record_ok(records, i));
                assert(w.requests@[i] == records[i]->Ok_0);
                if i > 0 {
                    assert(record_ok(records, i - 1));
                    assert(w.requests@[i - 1] == records[i - 1]->Ok_0);
                }
            }
        } else if header is Ok {
            let k = choose|k: int|
                {
                    &&& 0 <= k < records.len()
                    &&& records_ok(records, k)
                    &&& !(#[trigger] record_ok(records, k))
                    &&& record_error(trace[k + 1], records, k, res)
                };
            assert(records[k] == record(trace[k + 1].text));
            assert(trace[k + 1].text == trace[k + 1].text);
            if k > 0 {
                assert(record_ok(records, k - 1));
                assert(records[k - 1] == record(trace[k].text));
            }
        } else {
            assert(trace[0].number == trace[0].number);
        }
    }
}

/// A first line that is no SLO header is told apart by how it begins: an object lacks the header,
/// anything else is no such line at all.
pub proof fn objects_without_a_header_are_told_apart(
    trace: Seq<TraceLineView>,
    header: Result<Slo, String>,
    records: Seq<Result<RequestRecord, String>>,
    res: Result<Workload, WorkloadError>,
    n: int,
)
    requires
        workload_of(trace, header, records, res),
        trace.len() > 0,
        header is Err,
        0 <= n < trace[0].text.len(),
        blank(trace[0].text.take(n)),
        !white_space(trace[0].text[n]),
    ensures
        trace[0].text[n] == '{' ==> res == Err::<Workload, _>(WorkloadError::MissingSlo),
        trace[0].text[n] != '{' ==> res is Err && res->Err_0 is Json && res->Err_0->Json_line
            == trace[0].number && res->Err_0->source@ == header->Err_0@,
{
    let s = trace[0].text;
    trimming_drops_leading_space(s);
    let m = s.len() - trim_start(s).len();
    if m < n {
        assert(trim_start(s)[0] == s[m]);
        assert(s.take(n)[m] == s[m]);
    } else if n < m {
        assert(s.take(m)[n] == s[n]);
    }
    assert(trim_start(s)[0] == s[n]);
}

} // verus!
