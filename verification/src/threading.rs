//! Decisions of the worker pool: how many workers to run and how a
//! parallel-for launch splits into tasks.
//!
//! The pool itself — operating-system threads, each blocking on its own
//! bounded single-producer single-consumer inbox — is wiring around these
//! decisions and lives outside the verified core. Here stand the worker
//! count chosen from the environment values handed in, and the task
//! descriptors a job is split into.

use vstd::prelude::*;

use crate::dtype::spec_dec_val;
use crate::dtype::spec_digit_end;
use crate::dtype::spec_is_digit;

verus! {

/// How many tasks a launch runs: all workers when the request is zero,
/// otherwise the request capped by the worker count.
pub open spec fn spec_num_tasks(req_num_tasks: usize, num_workers: usize) -> usize {
    if req_num_tasks == 0 {
        num_workers
    } else if req_num_tasks < num_workers {
        req_num_tasks
    } else {
        num_workers
    }
}

/// What one task of a launch is told: its own id and how many tasks the
/// launch has.
#[derive(Clone, Copy, Debug, PartialEq, Eq, Structural)]
pub struct TaskDesc {
    pub id: usize,
    pub num_task: usize,
}

/// Splits a launch into task descriptors: one per task, with ids counting
/// up from zero and every descriptor carrying the same task count.
pub fn job_tasks(req_num_tasks: usize, num_workers: usize) -> (r: Vec<TaskDesc>)
    ensures
        r@.len() == spec_num_tasks(req_num_tasks, num_workers),
        forall|i: int|
            0 <= i < r@.len() ==> #[trigger] r@[i] == (TaskDesc {
                id: i as usize,
                num_task: spec_num_tasks(req_num_tasks, num_workers),
            }),
{
    let num_tasks = if req_num_tasks == 0 {
        num_workers
    } else if req_num_tasks < num_workers {
        req_num_tasks
    } else {
        num_workers
    };
    let mut r: Vec<TaskDesc> = Vec::new();
    let mut i: usize = 0;
    while i < num_tasks
        invariant
            i <= num_tasks,
            num_tasks == spec_num_tasks(req_num_tasks, num_workers),
            r@.len() == i,
            forall|j: int|
                0 <= j < i ==> #[trigger] r@[j] == (TaskDesc {
                    id: j as usize,
                    num_task: num_tasks,
                }),
        decreases num_tasks - i,
    {
        r.push(TaskDesc { id: i, num_task: num_tasks });
        i = i + 1;
    }
    r
}

/// The number a thread-count environment value names: an optional leading
/// plus sign, then at least one decimal digit and nothing else, with a
/// value that fits a machine word.
pub open spec fn spec_parse_usize(s: Seq<char>) -> Option<usize> {
    let start: int = if s.len() > 0 && s[0] == '+' {
        1
    } else {
        0
    };
    if s.len() == start {
        None
    } else if spec_digit_end(s, start) != s.len() {
        None
    } else if spec_dec_val(s, start, s.len() as int) > usize::MAX {
        None
    } else {
        Some(spec_dec_val(s, start, s.len() as int) as usize)
    }
}

/// Parses a decimal thread count.
pub(crate) fn parse_usize(s: &str) -> (r: Option<usize>)
    ensures
        r == spec_parse_usize(s@),
{
    let n = s.unicode_len();
    let start: usize = if n > 0 && s.get_char(0) == '+' {
        1
    } else {
        0
    };
    if n == start {
        return None;
    }
    let mut acc: usize = 0;
    let mut k = start;
    while k < n
        invariant
            start <= k <= n,
            n == s@.len(),
            start == 0 || start == 1,
            start == 1 ==> s@.len() > 0 && s@[0] == '+',
            start == 0 ==> !(s@.len() > 0 && s@[0] == '+'),
            forall|t: int| start <= t < k ==> spec_is_digit(#[trigger] s@[t]),
            acc == spec_dec_val(s@, start as int, k as int),
        decreases n - k,
    {
        let c = s.get_char(k);
        let cu = c as u32;
        if !(48 <= cu && cu <= 57) {
            proof {
                lemma_digit_end_stops(s@, start as int, k as int);
            }
            return None;
        }
        let d = (cu - 48) as usize;
        proof {
            assert(spec_dec_val(s@, start as int, k + 1) == spec_dec_val(s@, start as int, k as int)
                * 10 + (s@[k as int] as u32 - 48));
        }
        let next = match acc.checked_mul(10) {
            Some(m) => m.checked_add(d),
            None => None,
        };
        match next {
            Some(v) => {
                acc = v;
            },
            None => {
                proof {
                    if spec_digit_end(s@, start as int) == s@.len() as int {
                        lemma_dec_val_grows(s@, start as int, k + 1, s@.len() as int);
                    }
                }
                return None;
            },
        }
        k = k + 1;
    }
    proof {
        lemma_digit_end_at_end(s@, start as int);
    }
    Some(acc)
}

/// A digit run ends where a non-digit stands.
proof fn lemma_digit_end_stops(s: Seq<char>, i: int, k: int)
    requires
        0 <= i <= k <= s.len(),
        forall|t: int| i <= t < k ==> spec_is_digit(#[trigger] s[t]),
        k < s.len(),
        !spec_is_digit(s[k]),
    ensures
        spec_digit_end(s, i) == k,
    decreases k - i,
{
    if i < k {
        lemma_digit_end_stops(s, i + 1, k);
    }
}

/// A run of digits reaching the end of the string ends there.
proof fn lemma_digit_end_at_end(s: Seq<char>, i: int)
    requires
        0 <= i <= s.len(),
        forall|t: int| i <= t < s.len() ==> spec_is_digit(#[trigger] s[t]),
    ensures
        spec_digit_end(s, i) == s.len(),
    decreases s.len() - i,
{
    if i < s.len() {
        lemma_digit_end_at_end(s, i + 1);
    }
}

/// A decimal value never shrinks as the digit run grows.
proof fn lemma_dec_val_grows(s: Seq<char>, i: int, k: int, m: int)
    requires
        0 <= i <= k <= m <= s.len(),
        spec_dec_val(s, i, k) > usize::MAX,
    ensures
        spec_dec_val(s, i, m) > usize::MAX,
    decreases m - k,
{
    if k < m {
        let v = spec_dec_val(s, i, k);
        let d = s[k] as u32 - 48;
        assert(d >= -48);
        assert(v * 10 + d > usize::MAX) by (nonlinear_arith)
            requires
                v > usize::MAX,
                d >= -48,
                usize::MAX >= 0xffff,
        ;
        assert(spec_dec_val(s, i, k + 1) == (v * 10 + d) as nat);
        lemma_dec_val_grows(s, i, k + 1, m);
    }
}

/// The worker count: the first thread-count environment value that is
/// set, parsed as a decimal, and the machine's physical core count when
/// none is set or the set one does not parse. `tvm_num_threads` wins over
/// `omp_num_threads` by being consulted first.
pub fn max_concurrency(tvm_num_threads: Option<&str>, omp_num_threads: Option<&str>) -> (r: usize)
    ensures
        match (tvm_num_threads, omp_num_threads) {
            (Some(s), _) => match spec_parse_usize(s@) {
                Some(n) => r == n,
                None => r >= 1,
            },
            (None, Some(s)) => match spec_parse_usize(s@) {
                Some(n) => r == n,
                None => r >= 1,
            },
            (None, None) => r >= 1,
        },
{
    let chosen = match tvm_num_threads {
        Some(s) => Some(s),
        None => omp_num_threads,
    };
    match chosen {
        Some(s) => match parse_usize(s) {
            Some(n) => n,
            None => physical_cpu_count(),
        },
        None => physical_cpu_count(),
    }
}

/// Relies on `num_cpus::get_physical`: the machine's physical core count,
/// documented to always be at least 1.
#[verifier::external_body]
fn physical_cpu_count() -> (n: usize)
    ensures
        n >= 1,
{
    num_cpus::get_physical()
}

} // verus!
