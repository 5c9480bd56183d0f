//! The status record of a process: one line of numbers around a name.
use crate::error::{ReadFailure, RecordError};
use crate::number::{
    decimal_text, decimal_within, lemma_decimal_round_trip, lemma_decimal_text_chars, parse_i128,
    parse_i64, push_decimal,
};
use crate::procfs::listing::{Processes, PROC};
use crate::procfs::state::ProcessState;
use crate::text::{
    is_token, join, join_range, lemma_tokens_are_tokens, lemma_tokens_of_join, push_chars,
    split_whitespace, to_chars, tokens, views,
};
use vstd::prelude::*;
use vstd::std_specs::cmp::PartialEqSpecImpl;

verus! {

/// What `Process::cmdline` answers for a process that cannot be found.
pub const NO_CMDLINE: &'static str = "Failed to find PID";

/// How many numeric fields follow the state in a status line.
pub const COUNTERS: usize = 48;

/// The status of one process, as its line under `PROC` states it.
#[derive(Clone, Debug)]
pub struct Process {
    /// The process id.
    pub pid: i64,
    /// The name of the command, in its parentheses.
    pub comm: String,
    /// The state.
    pub state: ProcessState,
    /// The process id of the parent.
    pub ppid: i64,
    /// The process group.
    pub pgrp: i64,
    /// The session.
    pub session: i64,
    /// The controlling terminal.
    pub tty_nr: i64,
    /// The foreground process group of the controlling terminal.
    pub tpgid: i64,
    /// The kernel's flags word.
    pub flags: i64,
    /// Minor faults.
    pub minflt: i64,
    /// Minor faults of the children that were waited for.
    pub cminflt: i64,
    /// Major faults.
    pub majflt: i64,
    /// Major faults of the children that were waited for.
    pub cmajflt: i64,
    /// Time in user mode, in clock ticks.
    pub utime: i64,
    /// Time in kernel mode, in clock ticks.
    pub stime: i64,
    /// Time of the waited-for children in user mode.
    pub cutime: i64,
    /// Time of the waited-for children in kernel mode.
    pub cstime: i64,
    /// The scheduling priority.
    pub priority: i64,
    /// The nice value.
    pub nice: i64,
    /// The number of threads.
    pub num_threads: i64,
    /// Ticks before the next interval timer signal.
    pub itrealvalue: i64,
    /// When the process started, in clock ticks after boot.
    pub starttime: i128,
    /// The size of the virtual memory, in bytes.
    pub vsize: i64,
    /// The resident set size, in pages.
    pub rss: i64,
    /// The soft limit of the resident set size, in bytes.
    pub rsslim: i128,
    /// The address above which program text can run.
    pub startcode: i64,
    /// The address below which program text can run.
    pub endcode: i64,
    /// The address of the bottom of the stack.
    pub startstack: i64,
    /// The stack pointer.
    pub kstkesp: i64,
    /// The pending signals.
    pub signal: i64,
    /// The blocked signals.
    pub blocked: i64,
    /// The ignored signals.
    pub sigignore: i64,
    /// The caught signals.
    pub sigcatch: i64,
    /// The channel in which the process waits.
    pub wchan: i64,
    /// Pages swapped.
    pub nswap: i64,
    /// Pages swapped by the children.
    pub cnswap: i64,
    /// The signal sent to the parent at the end.
    pub exit_signal: i64,
    /// The processor last run on.
    pub processor: i64,
    /// The real-time scheduling priority.
    pub rt_priority: i64,
    /// The scheduling policy.
    pub policy: i64,
    /// Block I/O delays, in clock ticks.
    pub delayacct_blkio_ticks: i128,
    /// Guest time, in clock ticks.
    pub guest_time: i64,
    /// Guest time of the children.
    pub cguest_time: i64,
    /// The address above which initialised data lie.
    pub start_data: i64,
    /// The address below which initialised data lie.
    pub end_data: i64,
    /// The address above which the heap can grow.
    pub start_brk: i64,
    /// The address above which the arguments lie.
    pub arg_start: i64,
    /// The address below which the arguments lie.
    pub arg_end: i64,
    /// The address above which the environment lies.
    pub env_start: i64,
    /// The address below which the environment lies.
    pub env_end: i64,
    /// The exit status.
    pub exit_code: i64,
}

/// A status record: the process id, the command, the state, and the numeric
/// fields that follow the state, in the order of the line.
pub struct ProcessView {
    pub pid: int,
    pub comm: Seq<char>,
    pub state: ProcessState,
    pub counters: Seq<int>,
}

impl View for Process {
    type V = ProcessView;

    open spec fn view(&self) -> ProcessView {
        ProcessView {
            pid: self.pid as int,
            comm: self.comm@,
            state: self.state,
            counters: seq![
                self.ppid as int,
                self.pgrp as int,
                self.session as int,
                self.tty_nr as int,
                self.tpgid as int,
                self.flags as int,
                self.minflt as int,
                self.cminflt as int,
                self.majflt as int,
                self.cmajflt as int,
                self.utime as int,
                self.stime as int,
                self.cutime as int,
                self.cstime as int,
                self.priority as int,
                self.nice as int,
                self.num_threads as int,
                self.itrealvalue as int,
                self.starttime as int,
                self.vsize as int,
                self.rss as int,
                self.rsslim as int,
                self.startcode as int,
                self.endcode as int,
                self.startstack as int,
                self.kstkesp as int,
                self.signal as int,
                self.blocked as int,
                self.sigignore as int,
                self.sigcatch as int,
                self.wchan as int,
                self.nswap as int,
                self.cnswap as int,
                self.exit_signal as int,
                self.processor as int,
                self.rt_priority as int,
                self.policy as int,
                self.delayacct_blkio_ticks as int,
                self.guest_time as int,
                self.cguest_time as int,
                self.start_data as int,
                self.end_data as int,
                self.start_brk as int,
                self.arg_start as int,
                self.arg_end as int,
                self.env_start as int,
                self.env_end as int,
                self.exit_code as int,
            ],
        }
    }
}

/// Where `starttime` stands among the numeric fields.
pub const STARTTIME: usize = 18;

/// Where `rsslim` stands among the numeric fields.
pub const RSSLIM: usize = 21;

/// Where `delayacct_blkio_ticks` stands among the numeric fields.
pub const DELAYACCT_BLKIO_TICKS: usize = 37;

/// Whether the numeric field `k` after the state is kept in 128 bits:
/// `starttime`, `rsslim` and `delayacct_blkio_ticks` are, the others in 64.
/// The kernel writes `rsslim` as an unsigned number of 64 bits, and "no
/// limit" as the largest of them.
pub open spec fn is_wide(k: int) -> bool {
    k == STARTTIME || k == RSSLIM || k == DELAYACCT_BLKIO_TICKS
}

/// Whether `v` is a value that the numeric field `k` can hold.
pub open spec fn fits(k: int, v: int) -> bool {
    if is_wide(k) {
        i128::MIN <= v <= i128::MAX
    } else {
        i64::MIN <= v <= i64::MAX
    }
}

impl PartialEq for Process {
    /// Two records are equal where they agree in every field but the process
    /// id: two processes that do the same count as equal.
    fn eq(&self, other: &Process) -> (r: bool) {
        let mine = self.counters();
        let theirs = other.counters();
        let same = mine == theirs;
        assert(same == (self@.counters == other@.counters)) by {
            assert(self@.counters.len() == COUNTERS);
            assert(other@.counters.len() == COUNTERS);
            if same {
                assert forall|k: int| 0 <= k < COUNTERS implies self@.counters[k]
                    == other@.counters[k] by {
                    assert(mine@[k] == theirs@[k]);
                }
                assert(self@.counters =~= other@.counters);
            } else {
                let k = choose|k: int| 0 <= k < mine.len() && mine@[k] != theirs@[k];
                assert(mine@[k] == self@.counters[k]);
                assert(theirs@[k] == other@.counters[k]);
            }
        }
        self.comm == other.comm && self.state == other.state && same
    }
}

impl PartialEqSpecImpl for Process {
    open spec fn obeys_eq_spec() -> bool {
        true
    }

    open spec fn eq_spec(&self, other: &Process) -> bool {
        &&& self@.comm == other@.comm
        &&& self@.state == other@.state
        &&& self@.counters == other@.counters
    }
}

/// The path of the file `name` of the process `pid`: the directory `PROC`,
/// in it the directory that is named by the process id, in that the file.
pub open spec fn file_of(pid: int, name: Seq<char>) -> Seq<char> {
    PROC@ + seq!['/'] + decimal_text(pid) + seq!['/'] + name
}

/// Whether the field `t` begins the command name.
pub open spec fn opens(t: Seq<char>) -> bool {
    t.len() > 0 && t[0] == '('
}

/// Whether the field `t` ends the command name.
pub open spec fn closes(t: Seq<char>) -> bool {
    t.len() > 0 && t.last() == ')'
}

/// The index of the first of the fields `toks`, from `from` on, that ends in
/// `)`; the number of fields where none does.
pub open spec fn first_closing(toks: Seq<Seq<char>>, from: int) -> int
    decreases toks.len() - from,
{
    if from < 0 || from >= toks.len() {
        toks.len() as int
    } else if closes(toks[from]) {
        from
    } else {
        first_closing(toks, from + 1)
    }
}

/// The index of the last field of the command name. The name begins with the
/// second field. Where that field begins with `(`, the name goes on to the
/// first field that ends in `)`; where it does not, or no field ends in `)`,
/// the second field alone is the name.
pub open spec fn comm_end(toks: Seq<Seq<char>>) -> int
    recommends
        toks.len() >= 2,
{
    if opens(toks[1]) && first_closing(toks, 1) < toks.len() {
        first_closing(toks, 1)
    } else {
        1
    }
}

/// The numeric field `k` of a record whose numeric fields begin at the field
/// `base` of `toks`: its value, `TruncatedRecord` where the line ends before
/// it, or `InvalidNumber` where it is no number that the field can hold.
pub open spec fn counter(toks: Seq<Seq<char>>, base: int, k: int) -> Result<int, RecordError> {
    if base + k >= toks.len() {
        Err(RecordError::TruncatedRecord)
    } else {
        let read = if is_wide(k) {
            decimal_within(toks[base + k], i128::MIN as int, i128::MAX as int)
        } else {
            decimal_within(toks[base + k], i64::MIN as int, i64::MAX as int)
        };
        match read {
            Some(v) => Ok(v),
            None => Err(RecordError::InvalidNumber),
        }
    }
}

/// The first of the numeric fields, from `k` on, that cannot be read;
/// `COUNTERS` where all can.
pub open spec fn first_bad(toks: Seq<Seq<char>>, base: int, k: int) -> int
    decreases COUNTERS - k,
{
    if k < 0 || k >= COUNTERS {
        COUNTERS as int
    } else if counter(toks, base, k) is Err {
        k
    } else {
        first_bad(toks, base, k + 1)
    }
}

/// What the status line `line` states. The line is read field by field:
/// the process id, the command name, the state, then `COUNTERS` numbers; what
/// follows them is not read. A line that ends before its state is a
/// `MalformedRecord`. Otherwise the first field that cannot be read decides
/// the error: `InvalidNumber` for the process id, `UnknownState` for the
/// state, and for a number what `counter` says.
pub open spec fn record(line: Seq<char>) -> Result<ProcessView, RecordError> {
    let toks = tokens(line);
    if toks.len() < 2 || comm_end(toks) + 1 >= toks.len() {
        Err(RecordError::MalformedRecord)
    } else {
        let end = comm_end(toks);
        let base = end + 2;
        match decimal_within(toks[0], i64::MIN as int, i64::MAX as int) {
            None => Err(RecordError::InvalidNumber),
            Some(pid) => match ProcessState::of_text(toks[end + 1]) {
                Err(e) => Err(e),
                Ok(state) => if first_bad(toks, base, 0) < COUNTERS {
                    Err(counter(toks, base, first_bad(toks, base, 0))->Err_0)
                } else {
                    Ok(
                        ProcessView {
                            pid,
                            comm: join(toks.subrange(1, end + 1), ' '),
                            state,
                            counters: Seq::new(
                                COUNTERS as nat,
                                |k: int| counter(toks, base, k)->Ok_0,
                            ),
                        },
                    )
                },
            },
        }
    }
}

/// `first_closing` is the least index, from `from` on, of a field that ends
/// in `)`.
pub proof fn lemma_first_closing(toks: Seq<Seq<char>>, from: int)
    requires
        0 <= from <= toks.len(),
    ensures
        from <= first_closing(toks, from) <= toks.len(),
        first_closing(toks, from) < toks.len() ==> closes(toks[first_closing(toks, from)]),
        forall|j: int| from <= j < first_closing(toks, from) ==> !closes(#[trigger] toks[j]),
    decreases toks.len() - from,
{
    if from < toks.len() && !closes(toks[from]) {
        lemma_first_closing(toks, from + 1);
    }
}

/// The command name lies within the line, behind the process id. A name of
/// several fields begins with `(`, and its last field is the first that ends
/// in `)`.
pub proof fn lemma_comm_end(toks: Seq<Seq<char>>)
    requires
        toks.len() >= 2,
    ensures
        1 <= comm_end(toks) < toks.len(),
        comm_end(toks) > 1 ==> opens(toks[1]) && closes(toks[comm_end(toks)]),
        forall|j: int| 1 <= j < comm_end(toks) ==> !closes(#[trigger] toks[j]),
{
    lemma_first_closing(toks, 1);
}

/// `first_bad` is the least index, from `k` on, of a numeric field that
/// cannot be read.
pub proof fn lemma_first_bad(toks: Seq<Seq<char>>, base: int, k: int)
    requires
        0 <= k <= COUNTERS,
    ensures
        k <= first_bad(toks, base, k) <= COUNTERS,
        first_bad(toks, base, k) < COUNTERS ==> counter(
            toks,
            base,
            first_bad(toks, base, k),
        ) is Err,
        forall|j: int|
            k <= j < first_bad(toks, base, k) ==> (#[trigger] counter(toks, base, j)) is Ok,
    decreases COUNTERS - k,
{
    if k < COUNTERS && counter(toks, base, k) is Ok {
        lemma_first_bad(toks, base, k + 1);
    }
}

/// Lines whose numeric fields read alike fail at the same field, or at none.
pub proof fn lemma_first_bad_alike(
    a: Seq<Seq<char>>,
    base_a: int,
    b: Seq<Seq<char>>,
    base_b: int,
    k: int,
)
    requires
        0 <= k <= COUNTERS,
        forall|j: int|
            0 <= j < COUNTERS ==> #[trigger] counter(a, base_a, j) == counter(b, base_b, j),
    ensures
        first_bad(a, base_a, k) == first_bad(b, base_b, k),
    decreases COUNTERS - k,
{
    if k < COUNTERS {
        assert(counter(a, base_a, k) == counter(b, base_b, k));
        if counter(a, base_a, k) is Ok {
            lemma_first_bad_alike(a, base_a, b, base_b, k + 1);
        }
    }
}

/// The command name does not move the fields behind it. Two lines with the
/// same process id and the same fields after their command names state the
/// same state and the same numbers, or fail alike, however many words each
/// command name has.
pub proof fn lemma_fields_follow_the_command(a: Seq<char>, b: Seq<char>)
    requires
        tokens(a).len() >= 2,
        tokens(b).len() >= 2,
        tokens(a)[0] == tokens(b)[0],
        tokens(a).skip(comm_end(tokens(a)) + 1) == tokens(b).skip(comm_end(tokens(b)) + 1),
    ensures
        match (record(a), record(b)) {
            (Ok(x), Ok(y)) => x.pid == y.pid && x.state == y.state && x.counters == y.counters,
            (Err(e), Err(f)) => e == f,
            _ => false,
        },
{
    let ta = tokens(a);
    let tb = tokens(b);
    let ea = comm_end(ta);
    let eb = comm_end(tb);
    lemma_comm_end(ta);
    lemma_comm_end(tb);
    let rest = ta.skip(ea + 1);
    assert(rest.len() == ta.len() - ea - 1);
    assert(tb.skip(eb + 1).len() == tb.len() - eb - 1);
    if rest.len() > 0 {
        assert(ta[ea + 1] == rest[0]);
        assert(tb[eb + 1] == tb.skip(eb + 1)[0]);
        assert forall|j: int| 0 <= j < COUNTERS implies #[trigger] counter(ta, ea + 2, j)
            == counter(tb, eb + 2, j) by {
            if ea + 2 + j < ta.len() {
                assert(ta[ea + 2 + j] == rest[j + 1]);
                assert(tb[eb + 2 + j] == tb.skip(eb + 1)[j + 1]);
            }
        }
        lemma_first_bad_alike(ta, ea + 2, tb, eb + 2, 0);
        let pa = decimal_within(ta[0], i64::MIN as int, i64::MAX as int);
        let sa = ProcessState::of_text(ta[ea + 1]);
        if pa is Some && sa is Ok {
            lemma_first_bad(ta, ea + 2, 0);
            if first_bad(ta, ea + 2, 0) >= COUNTERS {
                assert(record(a)->Ok_0.counters =~= record(b)->Ok_0.counters);
            }
        }
    }
}

/// A line that is sound as far as it goes, and stops short of the last
/// number of the schema, is a `TruncatedRecord`.
pub proof fn lemma_short_line_is_truncated(line: Seq<char>)
    requires
        tokens(line).len() >= 2,
        comm_end(tokens(line)) + 1 < tokens(line).len(),
        tokens(line).len() < comm_end(tokens(line)) + 2 + COUNTERS,
        decimal_within(tokens(line)[0], i64::MIN as int, i64::MAX as int) is Some,
        ProcessState::of_text(tokens(line)[comm_end(tokens(line)) + 1]) is Ok,
        forall|k: int|
            0 <= k && comm_end(tokens(line)) + 2 + k < tokens(line).len() ==> (#[trigger] counter(
                tokens(line),
                comm_end(tokens(line)) + 2,
                k,
            )) is Ok,
    ensures
        record(line) == Err::<ProcessView, RecordError>(RecordError::TruncatedRecord),
{
    let toks = tokens(line);
    let base = comm_end(toks) + 2;
    let bad = first_bad(toks, base, 0);
    lemma_first_bad(toks, base, 0);
    let missing = toks.len() - base;
    assert(counter(toks, base, missing) is Err);
    if bad < missing {
        assert(counter(toks, base, bad) is Ok);
    }
    if bad > missing {
        assert(counter(toks, base, missing) is Ok);
    }
}

/// A line whose process id can be read and whose state is no known code is
/// an `UnknownState`, whatever follows the state.
pub proof fn lemma_unknown_state(line: Seq<char>)
    requires
        tokens(line).len() >= 2,
        comm_end(tokens(line)) + 1 < tokens(line).len(),
        decimal_within(tokens(line)[0], i64::MIN as int, i64::MAX as int) is Some,
        ProcessState::of_text(tokens(line)[comm_end(tokens(line)) + 1]) is Err,
    ensures
        record(line) == Err::<ProcessView, RecordError>(RecordError::UnknownState),
{
}

/// The least index of a field that ends in `)` determines `first_closing`.
pub proof fn lemma_first_closing_is(toks: Seq<Seq<char>>, from: int, n: int)
    requires
        0 <= from <= n <= toks.len(),
        forall|j: int| from <= j < n ==> !closes(#[trigger] toks[j]),
        n < toks.len() ==> closes(toks[n]),
    ensures
        first_closing(toks, from) == n,
    decreases n - from,
{
    if from < n {
        assert(!closes(toks[from]));
        lemma_first_closing_is(toks, from + 1, n);
    }
}

/// Whether `c` can stand as the command name in a status line: it is one
/// field, or several fields with one space between each two, of which the
/// first begins with `(` and the last, and none before it, ends in `)`.
pub open spec fn is_comm(c: Seq<char>) -> bool {
    let words = tokens(c);
    &&& words.len() >= 1
    &&& c == join(words, ' ')
    &&& words.len() > 1 ==> opens(words[0]) && first_closing(words, 0) == words.len() - 1
}

impl ProcessView {
    /// Whether a status line can state this record: the process id and the
    /// numbers fit their fields, and the command name can stand in a line.
    pub open spec fn wf(self) -> bool {
        &&& i64::MIN <= self.pid <= i64::MAX
        &&& is_comm(self.comm)
        &&& self.counters.len() == COUNTERS
        &&& forall|k: int| 0 <= k < COUNTERS ==> fits(k, #[trigger] self.counters[k])
    }

    /// The fields of the status line that states this record.
    pub open spec fn fields(self) -> Seq<Seq<char>> {
        seq![decimal_text(self.pid)] + tokens(self.comm) + seq![seq![self.state.code()]]
            + Seq::new(COUNTERS as nat, |k: int| decimal_text(self.counters[k]))
    }

    /// The status line that states this record, without a line feed.
    pub open spec fn line(self) -> Seq<char> {
        join(self.fields(), ' ')
    }
}

/// What is written can be read: the status line of a record states that
/// record, whatever the number of words in its command name.
pub proof fn lemma_record_round_trip(p: ProcessView)
    requires
        p.wf(),
    ensures
        record(p.line()) == Ok::<ProcessView, RecordError>(p),
{
    let words = tokens(p.comm);
    let w = words.len() as int;
    let fields = p.fields();
    let state = seq![p.state.code()];
    let base = w + 2;
    assert(fields.len() == w + 2 + COUNTERS);
    assert(fields[0] == decimal_text(p.pid));
    assert forall|j: int| 0 <= j < w implies fields[j + 1] == words[j] by {}
    assert(fields[w + 1] == state);
    assert forall|k: int| 0 <= k < COUNTERS implies #[trigger] fields[base + k] == decimal_text(
        p.counters[k],
    ) by {}
    // every field is one
    lemma_tokens_are_tokens(p.comm);
    assert forall|j: int| 0 <= j < fields.len() implies is_token(#[trigger] fields[j]) by {
        if j == 0 {
            lemma_decimal_text_chars(p.pid);
        } else if j <= w {
            assert(fields[j] == words[j - 1]);
        } else if j == w + 1 {
        } else {
            assert(fields[j] == fields[base + (j - base)]);
            lemma_decimal_text_chars(p.counters[j - base]);
        }
    }
    lemma_tokens_of_join(fields, ' ');
    let toks = tokens(p.line());
    assert(toks == fields);
    // the command name ends where its words end
    assert forall|j: int| w + 1 <= j < toks.len() implies !closes(#[trigger] toks[j]) by {
        if j > w + 1 {
            assert(toks[j] == toks[base + (j - base)]);
            lemma_decimal_text_chars(p.counters[j - base]);
        }
    }
    assert(comm_end(toks) == w) by {
        lemma_first_closing(words, 0);
        if w == 1 {
            if closes(toks[1]) {
                lemma_first_closing_is(toks, 1, 1);
            } else {
                lemma_first_closing_is(toks, 1, toks.len() as int);
            }
        } else {
            assert forall|j: int| 1 <= j < w implies !closes(#[trigger] toks[j]) by {
                assert(toks[j] == words[j - 1]);
            }
            assert(toks[w] == words[w - 1]);
            lemma_first_closing_is(toks, 1, w);
            assert(toks[1] == words[0]);
        }
    }
    lemma_decimal_round_trip(p.pid);
    p.state.lemma_code_round_trip('R');
    assert forall|k: int| 0 <= k < COUNTERS implies #[trigger] counter(toks, base, k) == Ok::<
        int,
        RecordError,
    >(p.counters[k]) by {
        assert(toks[base + k] == decimal_text(p.counters[k]));
        lemma_decimal_round_trip(p.counters[k]);
        assert(fits(k, p.counters[k]));
    }
    lemma_first_bad(toks, base, 0);
    assert(toks.subrange(1, w + 1) == words);
    let r = record(p.line());
    assert(r is Ok);
    assert(r->Ok_0.counters =~= p.counters);
}

/// The index of the last field of the command name.
#[verifier::loop_isolation(false)]
fn find_comm_end(toks: &Vec<Vec<char>>) -> (end: usize)
    requires
        toks.len() >= 2,
    ensures
        end == comm_end(views(toks@)),
        1 <= end < toks.len(),
{
    let first = &toks[1];
    if first.len() == 0 || first[0] != '(' {
        return 1;
    }
    let ghost all = views(toks@);
    let mut j: usize = 1;
    while j < toks.len()
        invariant
            1 <= j <= toks.len(),
            first_closing(all, 1) == first_closing(all, j as int),
        decreases toks.len() - j,
    {
        let t = &toks[j];
        assert(all[j as int] == t@);
        if t.len() > 0 && t[t.len() - 1] == ')' {
            return j;
        }
        j += 1;
    }
    1
}

fn wide(k: usize) -> (r: bool)
    ensures
        r == is_wide(k as int),
{
    k == STARTTIME || k == RSSLIM || k == DELAYACCT_BLKIO_TICKS
}

fn narrow(v: i128) -> (r: i64)
    requires
        i64::MIN <= v <= i64::MAX,
    ensures
        r == v,
{
    v as i64
}

impl Process {
    /// The numeric fields that follow the state, in the order of the line.
    pub fn counters(&self) -> (v: Vec<i128>)
        ensures
            v@.len() == COUNTERS,
            forall|k: int| 0 <= k < COUNTERS ==> #[trigger] v@[k] == self@.counters[k],
    {
        let mut v: Vec<i128> = Vec::new();
        v.push(self.ppid as i128);
        v.push(self.pgrp as i128);
        v.push(self.session as i128);
        v.push(self.tty_nr as i128);
        v.push(self.tpgid as i128);
        v.push(self.flags as i128);
        v.push(self.minflt as i128);
        v.push(self.cminflt as i128);
        v.push(self.majflt as i128);
        v.push(self.cmajflt as i128);
        v.push(self.utime as i128);
        v.push(self.stime as i128);
        v.push(self.cutime as i128);
        v.push(self.cstime as i128);
        v.push(self.priority as i128);
        v.push(self.nice as i128);
        v.push(self.num_threads as i128);
        v.push(self.itrealvalue as i128);
        v.push(self.starttime);
        v.push(self.vsize as i128);
        v.push(self.rss as i128);
        v.push(self.rsslim);
        v.push(self.startcode as i128);
        v.push(self.endcode as i128);
        v.push(self.startstack as i128);
        v.push(self.kstkesp as i128);
        v.push(self.signal as i128);
        v.push(self.blocked as i128);
        v.push(self.sigignore as i128);
        v.push(self.sigcatch as i128);
        v.push(self.wchan as i128);
        v.push(self.nswap as i128);
        v.push(self.cnswap as i128);
        v.push(self.exit_signal as i128);
        v.push(self.processor as i128);
        v.push(self.rt_priority as i128);
        v.push(self.policy as i128);
        v.push(self.delayacct_blkio_ticks);
        v.push(self.guest_time as i128);
        v.push(self.cguest_time as i128);
        v.push(self.start_data as i128);
        v.push(self.end_data as i128);
        v.push(self.start_brk as i128);
        v.push(self.arg_start as i128);
        v.push(self.arg_end as i128);
        v.push(self.env_start as i128);
        v.push(self.env_end as i128);
        v.push(self.exit_code as i128);
        v
    }

    /// The record with the given process id, command and state, and with
    /// `vals` as its numeric fields.
    fn assemble(pid: i64, comm: String, state: ProcessState, vals: &Vec<i128>) -> (p: Process)
        requires
            vals@.len() == COUNTERS,
            forall|k: int| 0 <= k < COUNTERS ==> fits(k, #[trigger] vals@[k] as int),
        ensures
            p@.pid == pid,
            p@.comm == comm@,
            p@.state == state,
            p@.counters.len() == COUNTERS,
            forall|k: int| 0 <= k < COUNTERS ==> #[trigger] p@.counters[k] == vals@[k],
    {
        proof {
            assert(forall|k: int| 0 <= k < COUNTERS && !is_wide(k) ==> i64::MIN <= (
            #[trigger] vals@[k]) <= i64::MAX) by {
                assert(forall|k: int| 0 <= k < COUNTERS ==> fits(k, #[trigger] vals@[k] as int));
            }
        }
        Process {
            pid,
            comm,
            state,
            ppid: narrow(vals[0]),
            pgrp: narrow(vals[1]),
            session: narrow(vals[2]),
            tty_nr: narrow(vals[3]),
            tpgid: narrow(vals[4]),
            flags: narrow(vals[5]),
            minflt: narrow(vals[6]),
            cminflt: narrow(vals[7]),
            majflt: narrow(vals[8]),
            cmajflt: narrow(vals[9]),
            utime: narrow(vals[10]),
            stime: narrow(vals[11]),
            cutime: narrow(vals[12]),
            cstime: narrow(vals[13]),
            priority: narrow(vals[14]),
            nice: narrow(vals[15]),
            num_threads: narrow(vals[16]),
            itrealvalue: narrow(vals[17]),
            starttime: vals[18],
            vsize: narrow(vals[19]),
            rss: narrow(vals[20]),
            rsslim: vals[21],
            startcode: narrow(vals[22]),
            endcode: narrow(vals[23]),
            startstack: narrow(vals[24]),
            kstkesp: narrow(vals[25]),
            signal: narrow(vals[26]),
            blocked: narrow(vals[27]),
            sigignore: narrow(vals[28]),
            sigcatch: narrow(vals[29]),
            wchan: narrow(vals[30]),
            nswap: narrow(vals[31]),
            cnswap: narrow(vals[32]),
            exit_signal: narrow(vals[33]),
            processor: narrow(vals[34]),
            rt_priority: narrow(vals[35]),
            policy: narrow(vals[36]),
            delayacct_blkio_ticks: vals[37],
            guest_time: narrow(vals[38]),
            cguest_time: narrow(vals[39]),
            start_data: narrow(vals[40]),
            end_data: narrow(vals[41]),
            start_brk: narrow(vals[42]),
            arg_start: narrow(vals[43]),
            arg_end: narrow(vals[44]),
            env_start: narrow(vals[45]),
            env_end: narrow(vals[46]),
            exit_code: narrow(vals[47]),
        }
    }

    /// The path of the file `name` of the process `pid`.
    pub fn file_path(pid: i64, name: &str) -> (r: String)
        ensures
            r@ == file_of(pid as int, name@),
    {
        let mut r = PROC.to_owned();
        r.push('/');
        push_decimal(&mut r, pid);
        r.push('/');
        let name = to_chars(name);
        push_chars(&mut r, name.as_slice());
        r
    }

    /// The path of the status file of the process `pid`.
    pub fn stat_path(pid: i64) -> (r: String)
        ensures
            r@ == file_of(pid as int, "stat"@),
    {
        Process::file_path(pid, "stat")
    }

    /// The path of the command-line file of the process `pid`.
    pub fn cmdline_path(pid: i64) -> (r: String)
        ensures
            r@ == file_of(pid as int, "cmdline"@),
    {
        Process::file_path(pid, "cmdline")
    }

    /// The record from what reading the status file of a process gave: its
    /// line, or the failure to read it. A file that is not there is passed on
    /// as `ProcessNotFound`, every other failure as `IoUnavailable`.
    pub fn new(read: Result<String, ReadFailure>) -> (r: Result<Process, RecordError>)
        ensures
            match read {
                Ok(s) => match r {
                    Ok(p) => record(s@) == Ok::<ProcessView, RecordError>(p@),
                    Err(e) => record(s@) == Err::<ProcessView, RecordError>(e),
                },
                Err(ReadFailure::NotFound) => r == Err::<Process, RecordError>(
                    RecordError::ProcessNotFound,
                ),
                Err(ReadFailure::Unavailable) => r == Err::<Process, RecordError>(
                    RecordError::IoUnavailable,
                ),
            },
    {
        match read {
            Ok(s) => Process::parse(s),
            Err(ReadFailure::NotFound) => Err(RecordError::ProcessNotFound),
            Err(ReadFailure::Unavailable) => Err(RecordError::IoUnavailable),
        }
    }

    /// Reads a status line: the process id, the command name of one word or
    /// more, the state, and the `COUNTERS` numbers behind it. A line that stops
    /// short of the last number is refused as a `TruncatedRecord`; what follows
    /// the last number is not read.
    #[verifier::loop_isolation(false)]
    pub fn parse(s: String) -> (r: Result<Process, RecordError>)
        ensures
            match r {
                Ok(p) => record(s@) == Ok::<ProcessView, RecordError>(p@),
                Err(e) => record(s@) == Err::<ProcessView, RecordError>(e),
            },
    {
        let chars = to_chars(s.as_str());
        let toks = split_whitespace(chars.as_slice());
        let ghost all = tokens(s@);
        if toks.len() < 2 {
            return Err(RecordError::MalformedRecord);
        }
        let end = find_comm_end(&toks);
        if end + 1 >= toks.len() {
            return Err(RecordError::MalformedRecord);
        }
        assert(all[0] == toks@[0]@);
        let pid = match parse_i64(toks[0].as_slice()) {
            Some(pid) => pid,
            None => {
                return Err(RecordError::InvalidNumber);
            },
        };
        assert(all[end + 1] == toks@[end + 1]@);
        let state = match ProcessState::from_chars(toks[end + 1].as_slice()) {
            Ok(state) => state,
            Err(e) => {
                return Err(e);
            },
        };
        let base = end + 2;
        let mut vals: Vec<i128> = Vec::new();
        let mut k: usize = 0;
        while k < COUNTERS
            invariant
                k <= COUNTERS,
                vals@.len() == k,
                first_bad(all, base as int, 0) == first_bad(all, base as int, k as int),
                forall|j: int|
                    0 <= j < k ==> counter(all, base as int, j) == Ok::<int, RecordError>(
                        #[trigger] vals@[j] as int,
                    ),
                forall|j: int| 0 <= j < k ==> fits(j, #[trigger] vals@[j] as int),
            decreases COUNTERS - k,
        {
            if k >= toks.len() - base {
                return Err(RecordError::TruncatedRecord);
            }
            let tok = &toks[base + k];
            assert(all[base + k] == tok@);
            let read = if wide(k) {
                parse_i128(tok.as_slice())
            } else {
                match parse_i64(tok.as_slice()) {
                    Some(v) => Some(v as i128),
                    None => None,
                }
            };
            match read {
                Some(v) => {
                    vals.push(v);
                },
                None => {
                    return Err(RecordError::InvalidNumber);
                },
            }
            k += 1;
        }
        let comm = join_range(&toks, 1, end + 1, ' ');
        let p = Process::assemble(pid, comm, state, &vals);
        assert(p@.counters =~= Seq::new(
            COUNTERS as nat,
            |k: int| counter(all, base as int, k)->Ok_0,
        ));
        Ok(p)
    }

    /// Whether the process `p` is alive: whether it is among the processes
    /// `running`, those that have a directory.
    pub fn is_alive(p: i64, running: &Processes) -> (r: bool)
        ensures
            r == running@.contains(p),
    {
        running.contains(p)
    }

    /// The command line of a process from what reading its command-line file
    /// gave: the text as it was read, or `NO_CMDLINE` where it could not be
    /// read.
    pub fn cmdline(read: Result<String, ReadFailure>) -> (r: String)
        ensures
            r@ == match read {
                Ok(s) => s@,
                Err(_) => NO_CMDLINE@,
            },
    {
        match read {
            Ok(s) => s,
            Err(_) => NO_CMDLINE.to_owned(),
        }
    }

    /// Whether the two records agree in every field, the process id too.
    pub fn identical(&self, other: &Process) -> (r: bool)
        ensures
            r == (self@ == other@),
    {
        self.pid == other.pid && self == other
    }

    /// The process id.
    pub fn get_pid(&self) -> (r: i64)
        ensures
            r == self.pid,
    {
        self.pid
    }

    /// The letter of the state.
    pub fn get_state(&self) -> (r: String)
        ensures
            r@ == seq![self.state.code()],
    {
        self.state.to_string()
    }
}

} // verus!
