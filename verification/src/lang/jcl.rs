//! JCL (Job Control Language): jobs, their `EXEC` steps and the `DD`
//! statements of each step.
//!
//! The parse is a pass over the lines with a small state: finished
//! jobs, the job being read and the step being read. A step closes
//! when the next step or job starts, a job when the next job starts;
//! both close at the end. Steps before any job card are dropped.

use vstd::prelude::*;

use crate::pattern::{
    cap_view, find_first, first_capture, get_group, group, group_or_empty, group_or_empty_exec,
    lemma_map_push, line_no, line_number, opt_cap_view, CapView, Captures,
};
use crate::text::{from_chars, lines, lines_exec, to_chars, trim, trim_exec, views};

verus! {

/// `//NAME JOB`.
pub const JOB_CARD_PATTERN: &'static str = r#"^//(\S+)\s+JOB\b"#;

/// `//NAME EXEC rest`.
pub const EXEC_CARD_PATTERN: &'static str = r#"^//(\S+)\s+EXEC\s+(.*)$"#;

/// `//NAME DD rest`.
pub const DD_CARD_PATTERN: &'static str = r#"^//(\S+)\s+DD\s+(.*)$"#;

/// `PGM=name` in an `EXEC` card.
pub const PGM_PATTERN: &'static str = r#"PGM\s*=\s*([A-Za-z0-9_$#@-]+)"#;

/// `PROC=name` in an `EXEC` card.
pub const PROC_PATTERN: &'static str = r#"PROC\s*=\s*([A-Za-z0-9_$#@-]+)"#;

/// One `DD` statement.
#[derive(Debug, Clone, PartialEq, Eq)]
pub struct JclDd {
    pub name: String,
    /// The dataset reference, trimmed.
    pub body: String,
    pub line: u32,
}

/// One `EXEC` step.
#[derive(Debug, Clone, PartialEq, Eq)]
pub struct JclStep {
    pub name: String,
    /// The program run (`PGM=`), if any.
    pub pgm: Option<String>,
    /// The procedure run (`PROC=`), if any.
    pub proc_name: Option<String>,
    /// `DD` statements in order.
    pub dd_statements: Vec<JclDd>,
    pub line: u32,
}

/// One job.
#[derive(Debug, Clone, PartialEq, Eq)]
pub struct JclJob {
    pub name: String,
    pub line: u32,
    pub steps: Vec<JclStep>,
}

pub type DdView = (Seq<char>, Seq<char>, u32);

pub type StepView = (Seq<char>, Option<Seq<char>>, Option<Seq<char>>, Seq<DdView>, u32);

pub type JobView = (Seq<char>, u32, Seq<StepView>);

impl View for JclDd {
    type V = DdView;

    open spec fn view(&self) -> DdView {
        (self.name@, self.body@, self.line)
    }
}

impl View for JclStep {
    type V = StepView;

    open spec fn view(&self) -> StepView {
        (
            self.name@,
            crate::pattern::opt_string_view(self.pgm),
            crate::pattern::opt_string_view(self.proc_name),
            self.dd_statements@.map_values(|d: JclDd| d@),
            self.line,
        )
    }
}

impl View for JclJob {
    type V = JobView;

    open spec fn view(&self) -> JobView {
        (self.name@, self.line, self.steps@.map_values(|s: JclStep| s@))
    }
}

/// Finished jobs, the open job, the open step.
pub type JclState = (Seq<JobView>, Option<JobView>, Option<StepView>);

/// The open job with the open step appended (a step with no job is
/// dropped).
pub open spec fn close_step(job: Option<JobView>, step: Option<StepView>) -> Option<JobView> {
    match (job, step) {
        (Some(j), Some(s)) => Some((j.0, j.1, j.2.push(s))),
        _ => job,
    }
}

/// The finished jobs with the open job (if any) appended.
pub open spec fn close_job(jobs: Seq<JobView>, job: Option<JobView>) -> Seq<JobView> {
    match job {
        Some(j) => jobs.push(j),
        None => jobs,
    }
}

/// Group 1 of a match, if there is one.
pub open spec fn match_value(m: Option<CapView>) -> Option<Seq<char>> {
    match m {
        Some(c) => group(c, 1),
        None => None,
    }
}

/// The job a match of [`JOB_CARD_PATTERN`] on line `i` opens.
pub open spec fn job_of(c: CapView, i: int) -> JobView {
    (group_or_empty(c, 1), line_no(i), Seq::empty())
}

/// The step a match of [`EXEC_CARD_PATTERN`] on line `i` opens, given
/// the matches of [`PGM_PATTERN`] and [`PROC_PATTERN`] in its operands.
pub open spec fn step_of(c: CapView, pgm: Option<CapView>, proc_name: Option<CapView>, i: int) -> StepView {
    (group_or_empty(c, 1), match_value(pgm), match_value(proc_name), Seq::empty(), line_no(i))
}

/// The statement a match of [`DD_CARD_PATTERN`] on line `i` gives.
pub open spec fn dd_of(c: CapView, i: int) -> DdView {
    (group_or_empty(c, 1), trim(group_or_empty(c, 2)), line_no(i))
}

/// The state after line `i`.
pub open spec fn jcl_line(st: JclState, line: Seq<char>, i: int) -> JclState {
    match first_capture(JOB_CARD_PATTERN@, line) {
        Some(c) => (close_job(st.0, close_step(st.1, st.2)), Some(job_of(c, i)), None),
        None => match first_capture(EXEC_CARD_PATTERN@, line) {
            Some(c) => {
                let tail = group_or_empty(c, 2);
                (
                    st.0,
                    close_step(st.1, st.2),
                    Some(
                        step_of(
                            c,
                            first_capture(PGM_PATTERN@, tail),
                            first_capture(PROC_PATTERN@, tail),
                            i,
                        ),
                    ),
                )
            },
            None => match (first_capture(DD_CARD_PATTERN@, line), st.2) {
                (Some(c), Some(s)) => (st.0, st.1, Some((s.0, s.1, s.2, s.3.push(dd_of(c, i)), s.4))),
                _ => st,
            },
        },
    }
}

/// The state after the first `n` lines.
pub open spec fn jcl_fold(ls: Seq<Seq<char>>, n: int) -> JclState
    decreases n,
{
    if n <= 0 {
        (Seq::empty(), None, None)
    } else {
        jcl_line(jcl_fold(ls, n - 1), ls[n - 1], n - 1)
    }
}

/// The jobs of a JCL source.
pub open spec fn jcl_jobs(content: Seq<char>) -> Seq<JobView> {
    let ls = lines(content);
    let st = jcl_fold(ls, ls.len() as int);
    close_job(st.0, close_step(st.1, st.2))
}

/// Whether a line is a `JOB` card.
pub open spec fn is_job_card(line: Seq<char>) -> bool {
    first_capture(JOB_CARD_PATTERN@, line) is Some
}

/// Name and line number of the job a `JOB` card on line `k` (0-based)
/// opens.
pub open spec fn job_head(line: Seq<char>, k: int) -> (Seq<char>, u32) {
    (group_or_empty(first_capture(JOB_CARD_PATTERN@, line)->0, 1), line_no(k))
}

/// The heads of the `JOB` cards among the first `n` lines, in order.
pub open spec fn job_card_heads(ls: Seq<Seq<char>>, n: int) -> Seq<(Seq<char>, u32)>
    decreases n,
{
    if n <= 0 {
        Seq::empty()
    } else if is_job_card(ls[n - 1]) {
        job_card_heads(ls, n - 1).push(job_head(ls[n - 1], n - 1))
    } else {
        job_card_heads(ls, n - 1)
    }
}

/// Name and line number of each job.
pub open spec fn heads(jobs: Seq<JobView>) -> Seq<(Seq<char>, u32)> {
    jobs.map_values(|j: JobView| (j.0, j.1))
}

proof fn lemma_close_step_heads(jobs: Seq<JobView>, job: Option<JobView>, step: Option<StepView>)
    ensures
        heads(close_job(jobs, close_step(job, step))) == heads(close_job(jobs, job)),
{
    match (job, step) {
        (Some(j), Some(x)) => {
            let j2 = (j.0, j.1, j.2.push(x));
            lemma_map_push(jobs, j, |v: JobView| (v.0, v.1));
            lemma_map_push(jobs, j2, |v: JobView| (v.0, v.1));
        },
        _ => {},
    }
}

proof fn lemma_fold_heads(ls: Seq<Seq<char>>, n: int)
    requires
        0 <= n <= ls.len(),
        ls.len() < 0x1_0000_0000,
    ensures
        heads(close_job(jcl_fold(ls, n).0, jcl_fold(ls, n).1)) == job_card_heads(ls, n),
        forall|j: int|
            0 <= j < job_card_heads(ls, n).len() ==> 1 <= #[trigger] job_card_heads(ls, n)[j].1 <= n,
        forall|j1: int, j2: int|
            0 <= j1 < j2 < job_card_heads(ls, n).len() ==> #[trigger] job_card_heads(ls, n)[j1].1
                < #[trigger] job_card_heads(ls, n)[j2].1,
    decreases n,
{
    if n > 0 {
        lemma_fold_heads(ls, n - 1);
        let st = jcl_fold(ls, n - 1);
        let line = ls[n - 1];
        let h0 = job_card_heads(ls, n - 1);
        let st2 = jcl_fold(ls, n);
        assert(st2 == jcl_line(st, line, n - 1));
        let h = job_card_heads(ls, n);
        lemma_close_step_heads(st.0, st.1, st.2);
        if is_job_card(line) {
            let c = first_capture(JOB_CARD_PATTERN@, line)->0;
            let nj: JobView = (group_or_empty(c, 1), line_no(n - 1), Seq::empty());
            let base = close_job(st.0, close_step(st.1, st.2));
            assert(close_job(st2.0, st2.1) == base.push(nj));
            lemma_map_push(base, nj, |v: JobView| (v.0, v.1));
            assert(h == h0.push(job_head(line, n - 1)));
            assert(line_no(n - 1) == n);
            assert forall|j: int| 0 <= j < h.len() implies 1 <= #[trigger] h[j].1 <= n by {
                if j < h0.len() {
                    assert(h[j] == h0[j]);
                }
            }
            assert forall|j1: int, j2: int| 0 <= j1 < j2 < h.len() implies #[trigger] h[j1].1 < #[trigger] h[j2].1 by {
                assert(h[j1] == h0[j1]);
                if j2 < h0.len() {
                    assert(h[j2] == h0[j2]);
                }
            }
        } else {
            match first_capture(EXEC_CARD_PATTERN@, line) {
                Some(c) => {},
                None => {
                    assert(st2.0 == st.0 && st2.1 == st.1);
                },
            }
        }
    }
}

/// One job per `JOB` card, in source order: the names and line numbers
/// of the jobs are those of the `JOB` cards, in order, and the line
/// numbers strictly increase. A source without a `JOB` card has no job.
pub proof fn law_jobs_follow_job_cards(content: Seq<char>)
    requires
        lines(content).len() < 0x1_0000_0000,
    ensures
        heads(jcl_jobs(content)) == job_card_heads(lines(content), lines(content).len() as int),
        forall|j1: int, j2: int|
            0 <= j1 < j2 < jcl_jobs(content).len() ==> #[trigger] jcl_jobs(content)[j1].1
                < #[trigger] jcl_jobs(content)[j2].1,
        (forall|k: int| 0 <= k < lines(content).len() ==> !is_job_card(#[trigger] lines(content)[k]))
            ==> jcl_jobs(content).len() == 0,
{
    let ls = lines(content);
    let n = ls.len() as int;
    lemma_fold_heads(ls, n);
    let st = jcl_fold(ls, n);
    lemma_close_step_heads(st.0, st.1, st.2);
    let jobs = jcl_jobs(content);
    let h = heads(jobs);
    assert forall|j1: int, j2: int| 0 <= j1 < j2 < jobs.len() implies #[trigger] jobs[j1].1 < #[trigger] jobs[j2].1 by {
        assert(h[j1].1 == jobs[j1].1);
        assert(h[j2].1 == jobs[j2].1);
    }
    if forall|k: int| 0 <= k < ls.len() ==> !is_job_card(#[trigger] ls[k]) {
        lemma_no_cards(ls, n);
        assert(h.len() == jobs.len());
    }
}

proof fn lemma_no_cards(ls: Seq<Seq<char>>, n: int)
    requires
        n <= ls.len(),
        forall|k: int| 0 <= k < ls.len() ==> !is_job_card(#[trigger] ls[k]),
    ensures
        job_card_heads(ls, n).len() == 0,
    decreases n,
{
    if n > 0 {
        lemma_no_cards(ls, n - 1);
    }
}

/// Whether a line is an `EXEC` card (and not a `JOB` card).
pub open spec fn is_exec_card(line: Seq<char>) -> bool {
    !is_job_card(line) && first_capture(EXEC_CARD_PATTERN@, line) is Some
}

/// Whether a line is a `DD` card (and neither a `JOB` nor an `EXEC`
/// card).
pub open spec fn is_dd_card(line: Seq<char>) -> bool {
    !is_job_card(line) && first_capture(EXEC_CARD_PATTERN@, line) is None && first_capture(
        DD_CARD_PATTERN@,
        line,
    ) is Some
}

/// A count of cards over the first `n` lines: whether a job is open,
/// whether a step is open, the `EXEC` cards read while a job was open,
/// and the `DD` cards read while a step of an open job was open.
pub open spec fn card_tally(ls: Seq<Seq<char>>, n: int) -> (bool, bool, nat, nat)
    decreases n,
{
    if n <= 0 {
        (false, false, 0, 0)
    } else {
        let t = card_tally(ls, n - 1);
        let l = ls[n - 1];
        if is_job_card(l) {
            (true, false, t.2, t.3)
        } else if is_exec_card(l) {
            (t.0, true, t.2 + if t.0 {
                1nat
            } else {
                0nat
            }, t.3)
        } else if is_dd_card(l) && t.1 {
            (t.0, t.1, t.2, t.3 + if t.0 {
                1nat
            } else {
                0nat
            })
        } else {
            t
        }
    }
}

/// Number of steps over all jobs.
pub open spec fn steps_total(jobs: Seq<JobView>) -> nat
    decreases jobs.len(),
{
    if jobs.len() == 0 {
        0
    } else {
        steps_total(jobs.drop_last()) + jobs.last().2.len()
    }
}

/// Number of `DD` statements over the given steps.
pub open spec fn step_dds(steps: Seq<StepView>) -> nat
    decreases steps.len(),
{
    if steps.len() == 0 {
        0
    } else {
        step_dds(steps.drop_last()) + steps.last().3.len()
    }
}

/// Number of `DD` statements over all jobs.
pub open spec fn job_dds(jobs: Seq<JobView>) -> nat
    decreases jobs.len(),
{
    if jobs.len() == 0 {
        0
    } else {
        job_dds(jobs.drop_last()) + step_dds(jobs.last().2)
    }
}

proof fn lemma_totals_push(jobs: Seq<JobView>, j: JobView)
    ensures
        steps_total(jobs.push(j)) == steps_total(jobs) + j.2.len(),
        job_dds(jobs.push(j)) == job_dds(jobs) + step_dds(j.2),
{
    assert(jobs.push(j).drop_last() =~= jobs);
}

proof fn lemma_step_dds_push(steps: Seq<StepView>, x: StepView)
    ensures
        step_dds(steps.push(x)) == step_dds(steps) + x.3.len(),
{
    assert(steps.push(x).drop_last() =~= steps);
}

/// The jobs the state stands for once everything open is closed.
pub open spec fn closed_jobs(st: JclState) -> Seq<JobView> {
    close_job(st.0, close_step(st.1, st.2))
}

proof fn lemma_fold_tally(ls: Seq<Seq<char>>, n: int)
    requires
        0 <= n <= ls.len(),
    ensures
        ({
            let st = jcl_fold(ls, n);
            let t = card_tally(ls, n);
            &&& (st.1 is Some) == t.0
            &&& (st.2 is Some) == t.1
            &&& steps_total(closed_jobs(st)) == t.2
            &&& job_dds(closed_jobs(st)) == t.3
        }),
    decreases n,
{
    if n > 0 {
        lemma_fold_tally(ls, n - 1);
        let st = jcl_fold(ls, n - 1);
        let l = ls[n - 1];
        let st2 = jcl_fold(ls, n);
        assert(st2 == jcl_line(st, l, n - 1));
        if is_job_card(l) {
            let c = first_capture(JOB_CARD_PATTERN@, l)->0;
            lemma_totals_push(closed_jobs(st), job_of(c, n - 1));
            assert(closed_jobs(st2) == closed_jobs(st).push(job_of(c, n - 1)));
        } else if is_exec_card(l) {
            let c = first_capture(EXEC_CARD_PATTERN@, l)->0;
            let tail = group_or_empty(c, 2);
            let ns = step_of(c, first_capture(PGM_PATTERN@, tail), first_capture(PROC_PATTERN@, tail), n - 1);
            match close_step(st.1, st.2) {
                Some(j) => {
                    let j2 = (j.0, j.1, j.2.push(ns));
                    lemma_totals_push(st.0, j);
                    lemma_totals_push(st.0, j2);
                    lemma_step_dds_push(j.2, ns);
                    assert(closed_jobs(st2) == st.0.push(j2));
                },
                None => {
                    assert(closed_jobs(st2) == st.0);
                },
            }
        } else if is_dd_card(l) && st.2 is Some {
            let c = first_capture(DD_CARD_PATTERN@, l)->0;
            let x = st.2->0;
            let x2 = (x.0, x.1, x.2, x.3.push(dd_of(c, n - 1)), x.4);
            match st.1 {
                Some(j) => {
                    let ja = (j.0, j.1, j.2.push(x));
                    let jb = (j.0, j.1, j.2.push(x2));
                    lemma_totals_push(st.0, ja);
                    lemma_totals_push(st.0, jb);
                    lemma_step_dds_push(j.2, x);
                    lemma_step_dds_push(j.2, x2);
                },
                None => {},
            }
        } else {
            assert(st2 == st);
        }
    }
}

/// Cards become steps and statements: the steps of all jobs are as many
/// as the `EXEC` cards read while a job was open, and their `DD`
/// statements as many as the `DD` cards read while a step of an open job
/// was open; cards before the first `JOB` card give nothing.
pub proof fn law_cards_become_steps(content: Seq<char>)
    ensures
        steps_total(jcl_jobs(content)) == card_tally(lines(content), lines(content).len() as int).2,
        job_dds(jcl_jobs(content)) == card_tally(lines(content), lines(content).len() as int).3,
{
    let ls = lines(content);
    lemma_fold_tally(ls, ls.len() as int);
}

// ── which card joins which job ──────────────────────────────────────

/// Index of the first `JOB` card at or after line `i`, or the number of
/// lines.
pub open spec fn next_job_card(ls: Seq<Seq<char>>, i: int) -> int
    decreases ls.len() - i,
{
    if i < 0 || i >= ls.len() {
        ls.len() as int
    } else if is_job_card(ls[i]) {
        i
    } else {
        next_job_card(ls, i + 1)
    }
}

/// A card that ends the step before it: a `JOB` or an `EXEC` card.
pub open spec fn is_step_boundary(line: Seq<char>) -> bool {
    is_job_card(line) || is_exec_card(line)
}

/// Index of the first `JOB` or `EXEC` card at or after line `i`, or the
/// number of lines.
pub open spec fn next_boundary(ls: Seq<Seq<char>>, i: int) -> int
    decreases ls.len() - i,
{
    if i < 0 || i >= ls.len() {
        ls.len() as int
    } else if is_step_boundary(ls[i]) {
        i
    } else {
        next_boundary(ls, i + 1)
    }
}

/// Indices of the `JOB` cards among the first `n` lines.
pub open spec fn job_card_indices(ls: Seq<Seq<char>>, n: int) -> Seq<int>
    decreases n,
{
    if n <= 0 {
        Seq::empty()
    } else if is_job_card(ls[n - 1]) {
        job_card_indices(ls, n - 1).push(n - 1)
    } else {
        job_card_indices(ls, n - 1)
    }
}

/// Indices of the `EXEC` cards among lines `a..b`.
pub open spec fn exec_cards(ls: Seq<Seq<char>>, a: int, b: int) -> Seq<int>
    decreases b - a,
{
    if b <= a {
        Seq::empty()
    } else if is_exec_card(ls[b - 1]) {
        exec_cards(ls, a, b - 1).push(b - 1)
    } else {
        exec_cards(ls, a, b - 1)
    }
}

/// Indices of the `DD` cards among lines `a..b`.
pub open spec fn dd_cards(ls: Seq<Seq<char>>, a: int, b: int) -> Seq<int>
    decreases b - a,
{
    if b <= a {
        Seq::empty()
    } else if is_dd_card(ls[b - 1]) {
        dd_cards(ls, a, b - 1).push(b - 1)
    } else {
        dd_cards(ls, a, b - 1)
    }
}

/// The statement the `DD` card on line `d` gives.
pub open spec fn dd_at(ls: Seq<Seq<char>>, d: int) -> DdView {
    dd_of(first_capture(DD_CARD_PATTERN@, ls[d])->0, d)
}

pub open spec fn dds_at(ls: Seq<Seq<char>>, ds: Seq<int>) -> Seq<DdView> {
    ds.map_values(|d: int| dd_at(ls, d))
}

/// The step of the `EXEC` card on line `e` with the `DD` cards of lines
/// `e + 1..b`.
pub open spec fn step_upto(ls: Seq<Seq<char>>, e: int, b: int) -> StepView {
    let c = first_capture(EXEC_CARD_PATTERN@, ls[e])->0;
    let tail = group_or_empty(c, 2);
    let x = step_of(c, first_capture(PGM_PATTERN@, tail), first_capture(PROC_PATTERN@, tail), e);
    (x.0, x.1, x.2, dds_at(ls, dd_cards(ls, e + 1, b)), x.4)
}

/// The step of the `EXEC` card on line `e`: its statements are the `DD`
/// cards up to the next `JOB` or `EXEC` card.
pub open spec fn step_at(ls: Seq<Seq<char>>, e: int) -> StepView {
    step_upto(ls, e, next_boundary(ls, e + 1))
}

pub open spec fn steps_at(ls: Seq<Seq<char>>, es: Seq<int>) -> Seq<StepView> {
    es.map_values(|e: int| step_at(ls, e))
}

/// The job of the `JOB` card on line `k`: its steps are the `EXEC` cards
/// up to the next `JOB` card.
pub open spec fn job_at(ls: Seq<Seq<char>>, k: int) -> JobView {
    let j = job_of(first_capture(JOB_CARD_PATTERN@, ls[k])->0, k);
    (j.0, j.1, steps_at(ls, exec_cards(ls, k + 1, next_job_card(ls, k + 1))))
}

pub open spec fn jobs_at(ls: Seq<Seq<char>>, ks: Seq<int>) -> Seq<JobView> {
    ks.map_values(|k: int| job_at(ls, k))
}

proof fn lemma_next_job_card(ls: Seq<Seq<char>>, a: int, b: int)
    requires
        0 <= a <= b <= ls.len(),
        forall|q: int| a <= q < b ==> !is_job_card(#[trigger] ls[q]),
        b == ls.len() || is_job_card(ls[b]),
    ensures
        next_job_card(ls, a) == b,
    decreases b - a,
{
    if a < b {
        lemma_next_job_card(ls, a + 1, b);
    }
}

proof fn lemma_next_boundary(ls: Seq<Seq<char>>, a: int, b: int)
    requires
        0 <= a <= b <= ls.len(),
        forall|q: int| a <= q < b ==> !is_step_boundary(#[trigger] ls[q]),
        b == ls.len() || is_step_boundary(ls[b]),
    ensures
        next_boundary(ls, a) == b,
    decreases b - a,
{
    if a < b {
        lemma_next_boundary(ls, a + 1, b);
    }
}

/// The state after `n` lines, described by the cards read so far.
pub open spec fn fold_shape(ls: Seq<Seq<char>>, n: int, st: JclState) -> bool {
    let ks = job_card_indices(ls, n);
    if ks.len() == 0 {
        st.0 == Seq::<JobView>::empty() && st.1 is None
    } else {
        let kl = ks.last();
        let es = exec_cards(ls, kl + 1, n);
        let j = job_at(ls, kl);
        &&& 0 <= kl < n
        &&& is_job_card(ls[kl])
        &&& forall|q: int| kl < q < n ==> !is_job_card(#[trigger] ls[q])
        &&& st.0 == jobs_at(ls, ks.drop_last())
        &&& es.len() == 0 ==> st.1 == Some((j.0, j.1, Seq::<StepView>::empty())) && st.2 is None
        &&& es.len() > 0 ==> {
            let el = es.last();
            &&& kl < el < n
            &&& is_exec_card(ls[el])
            &&& forall|q: int| el < q < n ==> !is_exec_card(#[trigger] ls[q])
            &&& st.1 == Some((j.0, j.1, steps_at(ls, es.drop_last())))
            &&& st.2 == Some(step_upto(ls, el, n))
        }
    }
}

proof fn lemma_fold_shape(ls: Seq<Seq<char>>, n: int)
    requires
        0 <= n <= ls.len(),
    ensures
        fold_shape(ls, n, jcl_fold(ls, n)),
    decreases n,
{
    if n > 0 {
        let i = n - 1;
        lemma_fold_shape(ls, i);
        let st = jcl_fold(ls, i);
        let l = ls[i];
        let st2 = jcl_fold(ls, n);
        assert(st2 == jcl_line(st, l, i));
        let ks = job_card_indices(ls, i);
        if is_job_card(l) {
            let ks2 = job_card_indices(ls, n);
            assert(ks2 == ks.push(i));
            assert(ks2.drop_last() =~= ks);
            assert(exec_cards(ls, i + 1, n) =~= Seq::<int>::empty());
            let c = first_capture(JOB_CARD_PATTERN@, l)->0;
            assert(st2.1 == Some(job_of(c, i)));
            assert(job_of(c, i).2 =~= Seq::<StepView>::empty());
            if ks.len() == 0 {
                assert(st2.0 == st.0);
                assert(jobs_at(ls, ks) =~= Seq::<JobView>::empty());
            } else {
                let kl = ks.last();
                let es = exec_cards(ls, kl + 1, i);
                let j = job_at(ls, kl);
                lemma_next_job_card(ls, kl + 1, i);
                assert(close_step(st.1, st.2) == Some(j)) by {
                    if es.len() > 0 {
                        let el = es.last();
                        assert forall|q: int| el + 1 <= q < i implies !is_step_boundary(#[trigger] ls[q]) by {
                            assert(!is_job_card(ls[q]));
                        }
                        lemma_next_boundary(ls, el + 1, i);
                        assert(steps_at(ls, es) =~= steps_at(ls, es.drop_last()).push(step_at(ls, el)));
                    } else {
                        assert(steps_at(ls, es) =~= Seq::<StepView>::empty());
                    }
                }
                assert(jobs_at(ls, ks) =~= jobs_at(ls, ks.drop_last()).push(j));
            }
        } else if is_exec_card(l) {
            let c = first_capture(EXEC_CARD_PATTERN@, l)->0;
            if ks.len() > 0 {
                let kl = ks.last();
                let es = exec_cards(ls, kl + 1, i);
                let j = job_at(ls, kl);
                assert(job_card_indices(ls, n) == ks);
                assert(exec_cards(ls, kl + 1, n) == es.push(i));
                assert(es.push(i).drop_last() =~= es);
                assert(dd_cards(ls, i + 1, n) =~= Seq::<int>::empty());
                assert(dds_at(ls, dd_cards(ls, i + 1, n)) =~= Seq::<DdView>::empty());
                let tail = group_or_empty(c, 2);
                let x = step_of(c, first_capture(PGM_PATTERN@, tail), first_capture(PROC_PATTERN@, tail), i);
                assert(x.3 =~= Seq::<DdView>::empty());
                assert(st2.2 == Some(step_upto(ls, i, n)));
                if es.len() > 0 {
                    let el = es.last();
                    assert forall|q: int| el + 1 <= q < i implies !is_step_boundary(#[trigger] ls[q]) by {
                        assert(!is_job_card(ls[q]));
                    }
                    lemma_next_boundary(ls, el + 1, i);
                    assert(steps_at(ls, es) =~= steps_at(ls, es.drop_last()).push(step_at(ls, el)));
                } else {
                    assert(steps_at(ls, es) =~= Seq::<StepView>::empty());
                }
            } else {
                assert(job_card_indices(ls, n) == ks);
            }
        } else {
            assert(job_card_indices(ls, n) == ks);
            if ks.len() > 0 {
                let kl = ks.last();
                let es = exec_cards(ls, kl + 1, i);
                assert(exec_cards(ls, kl + 1, n) == es);
                if es.len() > 0 {
                    let el = es.last();
                    if is_dd_card(l) {
                        let c = first_capture(DD_CARD_PATTERN@, l)->0;
                        assert(dd_cards(ls, el + 1, n) == dd_cards(ls, el + 1, i).push(i));
                        assert(dds_at(ls, dd_cards(ls, el + 1, i).push(i)) =~= dds_at(
                            ls,
                            dd_cards(ls, el + 1, i),
                        ).push(dd_at(ls, i)));
                        assert(st2.2 == Some(step_upto(ls, el, n)));
                    } else {
                        assert(dd_cards(ls, el + 1, n) == dd_cards(ls, el + 1, i));
                        assert(st2 == st);
                    }
                } else {
                    assert(st2.0 == st.0 && st2.1 == st.1);
                    assert(st2.2 is None);
                }
            } else {
                assert(st2.0 == st.0 && st2.1 == st.1);
            }
        }
    }
}

/// Which card joins which job: the jobs are those of the `JOB` cards, in
/// order; a job's steps are the `EXEC` cards between its `JOB` card and
/// the next one, in order; a step's statements are the `DD` cards
/// between its `EXEC` card and the next `JOB` or `EXEC` card. Cards
/// before the first `JOB` card join no job.
pub proof fn law_cards_join_jobs(content: Seq<char>)
    ensures
        jcl_jobs(content) == jobs_at(
            lines(content),
            job_card_indices(lines(content), lines(content).len() as int),
        ),
{
    let ls = lines(content);
    let n = ls.len() as int;
    lemma_fold_shape(ls, n);
    let st = jcl_fold(ls, n);
    let ks = job_card_indices(ls, n);
    if ks.len() > 0 {
        let kl = ks.last();
        let es = exec_cards(ls, kl + 1, n);
        let j = job_at(ls, kl);
        lemma_next_job_card(ls, kl + 1, n);
        if es.len() > 0 {
            let el = es.last();
            assert forall|q: int| el + 1 <= q < n implies !is_step_boundary(#[trigger] ls[q]) by {
                assert(!is_job_card(ls[q]));
            }
            lemma_next_boundary(ls, el + 1, n);
            assert(steps_at(ls, es) =~= steps_at(ls, es.drop_last()).push(step_at(ls, el)));
        } else {
            assert(steps_at(ls, es) =~= Seq::<StepView>::empty());
        }
        assert(close_step(st.1, st.2) == Some(j));
        assert(jobs_at(ls, ks) =~= jobs_at(ls, ks.drop_last()).push(j));
    } else {
        assert(jobs_at(ls, ks) =~= Seq::<JobView>::empty());
    }
}

pub open spec fn opt_job_view(j: Option<JclJob>) -> Option<JobView> {
    match j {
        Some(x) => Some(x@),
        None => None,
    }
}

pub open spec fn opt_step_view(s: Option<JclStep>) -> Option<StepView> {
    match s {
        Some(x) => Some(x@),
        None => None,
    }
}

fn close_step_exec(job: Option<JclJob>, step: Option<JclStep>) -> (r: Option<JclJob>)
    ensures
        opt_job_view(r) == close_step(opt_job_view(job), opt_step_view(step)),
{
    match job {
        Some(mut j) => match step {
            Some(s) => {
                proof {
                    lemma_map_push(j.steps@, s, |x: JclStep| x@);
                }
                j.steps.push(s);
                Some(j)
            },
            None => Some(j),
        },
        None => None,
    }
}

fn close_job_exec(jobs: &mut Vec<JclJob>, job: Option<JclJob>)
    ensures
        final(jobs)@.map_values(|j: JclJob| j@) == close_job(
            old(jobs)@.map_values(|j: JclJob| j@),
            opt_job_view(job),
        ),
{
    match job {
        Some(j) => {
            proof {
                lemma_map_push(jobs@, j, |x: JclJob| x@);
            }
            jobs.push(j);
        },
        None => {},
    }
}

fn match_value_exec(m: Option<Captures>) -> (r: Option<String>)
    ensures
        crate::pattern::opt_string_view(r) == match_value(opt_cap_view(m)),
{
    match m {
        Some(c) => match get_group(&c, 1) {
            Some(v) => Some(from_chars(v.as_slice())),
            None => None,
        },
        None => None,
    }
}

/// The job of one match of [`JOB_CARD_PATTERN`] on line `line_idx`
/// (0-based).
pub fn job_from_match(c: &Captures, line_idx: usize) -> (r: JclJob)
    ensures
        r@ == job_of(cap_view(*c), line_idx as int),
{
    let name = group_or_empty_exec(c, 1);
    let job = JclJob { name: from_chars(name.as_slice()), line: line_number(line_idx), steps: Vec::new() };
    assert(job@.2 =~= Seq::<StepView>::empty());
    job
}

/// The step of one match of [`EXEC_CARD_PATTERN`] on line `line_idx`
/// (0-based), given the matches of [`PGM_PATTERN`] and [`PROC_PATTERN`]
/// in its operands.
pub fn step_from_match(c: &Captures, pgm: Option<Captures>, proc_name: Option<Captures>, line_idx: usize) -> (r: JclStep)
    ensures
        r@ == step_of(cap_view(*c), opt_cap_view(pgm), opt_cap_view(proc_name), line_idx as int),
{
    let name = group_or_empty_exec(c, 1);
    let s = JclStep {
        name: from_chars(name.as_slice()),
        pgm: match_value_exec(pgm),
        proc_name: match_value_exec(proc_name),
        dd_statements: Vec::new(),
        line: line_number(line_idx),
    };
    assert(s@.3 =~= Seq::<DdView>::empty());
    s
}

/// The statement of one match of [`DD_CARD_PATTERN`] on line
/// `line_idx` (0-based).
pub fn dd_from_match(c: &Captures, line_idx: usize) -> (r: JclDd)
    ensures
        r@ == dd_of(cap_view(*c), line_idx as int),
{
    let name = group_or_empty_exec(c, 1);
    let body = group_or_empty_exec(c, 2);
    let tb = trim_exec(body.as_slice());
    JclDd { name: from_chars(name.as_slice()), body: from_chars(tb.as_slice()), line: line_number(line_idx) }
}

/// Parse a JCL source into its jobs.
pub fn parse(content: &str) -> (r: Vec<JclJob>)
    ensures
        r@.map_values(|j: JclJob| j@) == jcl_jobs(content@),
{
    let c = to_chars(content);
    let ls = lines_exec(c.as_slice());
    let ghost lv = lines(content@);
    let mut jobs: Vec<JclJob> = Vec::new();
    let mut current: Option<JclJob> = None;
    let mut step: Option<JclStep> = None;
    let mut i: usize = 0;
    assert(jobs@.map_values(|j: JclJob| j@) =~= Seq::<JobView>::empty());
    while i < ls.len()
        invariant
            i <= ls.len(),
            views(ls@) == lv,
            (jobs@.map_values(|j: JclJob| j@), opt_job_view(current), opt_step_view(step))
                == jcl_fold(lv, i as int),
        decreases ls.len() - i,
    {
        let line = from_chars(ls[i].as_slice());
        assert(line@ == lv[i as int]);
        match find_first(JOB_CARD_PATTERN, line.as_str()) {
            Some(cap) => {
                let closed = close_step_exec(current, step);
                close_job_exec(&mut jobs, closed);
                current = Some(job_from_match(&cap, i));
                step = None;
            },
            None => match find_first(EXEC_CARD_PATTERN, line.as_str()) {
                Some(cap) => {
                    let closed = close_step_exec(current, step);
                    current = closed;
                    let tail = group_or_empty_exec(&cap, 2);
                    let tail_s = from_chars(tail.as_slice());
                    let pgm = find_first(PGM_PATTERN, tail_s.as_str());
                    let proc_name = find_first(PROC_PATTERN, tail_s.as_str());
                    step = Some(step_from_match(&cap, pgm, proc_name, i));
                },
                None => match find_first(DD_CARD_PATTERN, line.as_str()) {
                    Some(cap) => match step {
                        Some(mut s) => {
                            let dd = dd_from_match(&cap, i);
                            proof {
                                lemma_map_push(s.dd_statements@, dd, |x: JclDd| x@);
                            }
                            s.dd_statements.push(dd);
                            step = Some(s);
                        },
                        None => {
                            step = None;
                        },
                    },
                    None => {},
                },
            },
        }
        i += 1;
    }
    let closed = close_step_exec(current, step);
    close_job_exec(&mut jobs, closed);
    jobs
}

} // verus!
