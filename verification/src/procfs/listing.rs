//! Which processes there are: the entries of `/proc` that stand for one.
use crate::error::{ReadFailure, RecordError};
use crate::number::{decimal_within, parse_i64};
use crate::pattern::{compile, is_match, regex_compiles, regex_is_match};
use crate::text::{texts, to_chars};
use vstd::prelude::*;

verus! {

/// Where the kernel shows the processes.
pub const PROC: &'static str = "/proc";

/// What the name of a process's directory under `PROC` looks like.
pub const PID_PATTERN: &'static str = "^\\d+$";

/// The process id that the entry `name` of `PROC` stands for, where `numeric`
/// says whether the name has the form of one.
pub open spec fn pid_of(name: Seq<char>, numeric: bool) -> Option<int> {
    if numeric {
        decimal_within(name, i64::MIN as int, i64::MAX as int)
    } else {
        None
    }
}

/// Whether `name` is the name of a process's directory: it matches
/// `PID_PATTERN` and is a process id.
pub open spec fn is_pid_name(name: Seq<char>) -> bool {
    pid_of(name, regex_is_match(PID_PATTERN@, name)) is Some
}

/// The process ids among the entries `names` of `PROC`, in their order.
pub open spec fn pids(names: Seq<Seq<char>>) -> Seq<i64> {
    names.filter(|n: Seq<char>| is_pid_name(n)).map_values(
        |n: Seq<char>| pid_of(n, true)->0 as i64,
    )
}

/// One more name adds its process id, if it has one.
pub proof fn lemma_pids_push(names: Seq<Seq<char>>, name: Seq<char>)
    ensures
        pids(names.push(name)) == if is_pid_name(name) {
            pids(names).push(pid_of(name, true)->0 as i64)
        } else {
            pids(names)
        },
{
    reveal(Seq::filter);
    assert(names.push(name).drop_last() == names);
}

/// The process id that the entry `name` of `PROC` stands for, if `numeric`
/// says that its name has the form of one and the name is a number that a
/// process id can be.
pub fn pid_of_entry(name: &str, numeric: bool) -> (r: Option<i64>)
    ensures
        match pid_of(name@, numeric) {
            Some(v) => r == Some(v as i64),
            None => r is None,
        },
{
    if numeric {
        let chars = to_chars(name);
        parse_i64(chars.as_slice())
    } else {
        None
    }
}

/// The processes that there are.
#[derive(Clone, Debug)]
pub struct Processes {
    processes: Vec<i64>,
}

impl View for Processes {
    type V = Seq<i64>;

    closed spec fn view(&self) -> Seq<i64> {
        self.processes@
    }
}

impl Processes {
    /// The process ids.
    pub fn processes(self) -> (r: Vec<i64>)
        ensures
            r@ == self@,
    {
        self.processes
    }

    /// Whether the process `pid` is among them.
    pub fn contains(&self, pid: i64) -> (r: bool)
        ensures
            r == self@.contains(pid),
    {
        let mut i: usize = 0;
        while i < self.processes.len()
            invariant
                i <= self.processes.len(),
                forall|k: int| 0 <= k < i ==> self.processes@[k] != pid,
            decreases self.processes.len() - i,
        {
            if self.processes[i] == pid {
                return true;
            }
            i += 1;
        }
        false
    }

    /// The processes from what reading the directory `PROC` gave: the names
    /// of its entries, or the failure to read it, which is passed on as
    /// `IoUnavailable`.
    pub fn new(read: Result<Vec<String>, ReadFailure>) -> (r: Result<Processes, RecordError>)
        ensures
            match read {
                Ok(names) => match r {
                    Ok(p) => regex_compiles(PID_PATTERN@) && p@ == pids(texts(names@)),
                    Err(e) => e == RecordError::InvalidPattern && !regex_compiles(PID_PATTERN@),
                },
                Err(_) => r == Err::<Processes, RecordError>(RecordError::IoUnavailable),
            },
    {
        match read {
            Ok(names) => Processes::from_names(&names),
            Err(_) => Err(RecordError::IoUnavailable),
        }
    }

    /// The processes among the entries `names` of `PROC`: those whose name
    /// matches `PID_PATTERN` and is a process id. `InvalidPattern` if the
    /// pattern does not compile.
    pub fn from_names(names: &Vec<String>) -> (r: Result<Processes, RecordError>)
        ensures
            match r {
                Ok(p) => regex_compiles(PID_PATTERN@) && p@ == pids(texts(names@)),
                Err(e) => e == RecordError::InvalidPattern && !regex_compiles(PID_PATTERN@),
            },
    {
        let matcher = match compile(PID_PATTERN) {
            Ok(matcher) => matcher,
            Err(_) => {
                return Err(RecordError::InvalidPattern);
            },
        };
        let mut processes: Vec<i64> = Vec::new();
        let ghost all = texts(names@);
        let mut i: usize = 0;
        assert(all.take(0) == Seq::<Seq<char>>::empty());
        assert(pids(Seq::<Seq<char>>::empty()) =~= Seq::<i64>::empty()) by {
            reveal(Seq::filter);
        }
        while i < names.len()
            invariant
                i <= names.len(),
                all == texts(names@),
                matcher@ == PID_PATTERN@,
                processes@ == pids(all.take(i as int)),
            decreases names.len() - i,
        {
            let name = names[i].as_str();
            assert(all.take(i + 1) == all.take(i as int).push(name@));
            proof {
                lemma_pids_push(all.take(i as int), name@);
            }
            if let Some(pid) = pid_of_entry(name, is_match(&matcher, name)) {
                processes.push(pid);
            }
            i += 1;
        }
        assert(all.take(i as int) == all);
        Ok(Processes { processes })
    }
}

} // verus!
