//! The supervising side: collecting transport messages, correlating
//! them with the worker's exit, and summing up a run or a promotion.
//!
//! The unverified rim owns the sockets, channels and processes; the
//! decisions — what a message does to the collected results, when the
//! run is over, what the aggregate numbers are — live here.

use vstd::prelude::*;
use crate::filesystem::FsError;
use crate::results::Verdict;
use crate::validate::verdict_views;

verus! {

/// What a test run or a promotion is asked to cover.
#[derive(Debug, Clone, PartialEq)]
pub struct Specifier {
    /// Restricts which declared test names execute, by substring.
    pub filter: Option<String>,
    /// Restricts which declared artifacts are validated, by suffix.
    pub filetypes: Vec<String>,
    pub verbose: bool,
    pub release: bool,
}

/// The commands the orchestrator performs.
#[derive(Debug, Clone, PartialEq)]
pub enum Command {
    Run(Specifier),
    Promote(Specifier),
    Clean,
}

/// One transport message: a test's name and its full verdict list.
#[verifier::ext_equal]
pub struct MessageView {
    pub test_name: Seq<char>,
    pub verdicts: Seq<crate::results::VerdictView>,
}

/// What happened in the supervisor's world that it must react to.
pub enum SupervisorEvent {
    /// A worker connection delivered one complete message.
    Message(String, Vec<Verdict>),
    /// The worker process exited.
    WorkerExited,
    /// A non-blocking look at the channel found nothing more.
    ChannelEmpty,
}

/// What the unverified loop should do next.
#[derive(Debug, Clone, Copy, PartialEq, Eq, Structural)]
pub enum SupervisorStep {
    /// Block on "message available or worker exited".
    Wait,
    /// The worker is gone: drain the channel without blocking, so that
    /// messages that arrived in the interim are not lost.
    Drain,
    /// The drained channel is empty: the result set is complete.
    Finish,
}

/// The supervisor: collects every message a run produces, in arrival
/// order, and decides when the result set is complete.
pub struct Supervisor {
    results: Vec<(String, Vec<Verdict>)>,
    worker_done: bool,
    finished: bool,
}

impl Supervisor {
    /// Everything collected so far, in arrival order.
    pub closed spec fn collected(&self) -> Seq<MessageView> {
        self.results@.map_values(
            |p: (String, Vec<Verdict>)|
                MessageView { test_name: p.0@, verdicts: verdict_views(p.1@) },
        )
    }

    /// True once the worker has exited.
    pub closed spec fn worker_exited(&self) -> bool {
        self.worker_done
    }

    /// True once the post-exit drain has found the channel empty.
    pub closed spec fn is_finished(&self) -> bool {
        self.finished
    }

    pub fn new() -> (r: Supervisor)
        ensures
            r.collected() == Seq::<MessageView>::empty(),
            !r.worker_exited(),
            !r.is_finished(),
    {
        let r = Supervisor { results: Vec::new(), worker_done: false, finished: false };
        proof {
            assert(r.collected() =~= Seq::<MessageView>::empty());
        }
        r
    }

    /// Reacts to one event. A message is recorded whenever it arrives —
    /// before or after the worker's exit — so the drain pass after the
    /// exit signal loses nothing; the run finishes only when the worker
    /// has exited and the channel has then been seen empty.
    pub fn on_event(&mut self, event: SupervisorEvent) -> (step: SupervisorStep)
        ensures
            match event {
                SupervisorEvent::Message(name, verdicts) => final(self).collected() == old(self).collected().push(
                    MessageView { test_name: name@, verdicts: verdict_views(verdicts@) },
                ) && final(self).worker_exited() == old(self).worker_exited() && final(self).is_finished() == old(self).is_finished(),
                SupervisorEvent::WorkerExited => final(self).collected() == old(self).collected()
                    && final(self).worker_exited() && final(self).is_finished() == old(self).is_finished(),
                SupervisorEvent::ChannelEmpty => final(self).collected() == old(self).collected()
                    && final(self).worker_exited() == old(self).worker_exited() && final(self).is_finished() == (old(self).is_finished() || old(self).worker_exited()),
            },
            step == SupervisorStep::Finish <==> final(self).is_finished(),
            step == SupervisorStep::Drain <==> final(self).worker_exited() && !final(self).is_finished(),
    {
        match event {
            SupervisorEvent::Message(name, verdicts) => {
                let ghost c0 = self.collected();
                let ghost nm = name@;
                let ghost vs = verdicts@;
                self.results.push((name, verdicts));
                proof {
                    assert(self.collected() =~~= c0.push(
                        MessageView { test_name: nm, verdicts: verdict_views(vs) },
                    ));
                }
                if self.finished {
                    SupervisorStep::Finish
                } else if self.worker_done {
                    SupervisorStep::Drain
                } else {
                    SupervisorStep::Wait
                }
            },
            SupervisorEvent::WorkerExited => {
                self.worker_done = true;
                if self.finished {
                    SupervisorStep::Finish
                } else {
                    SupervisorStep::Drain
                }
            },
            SupervisorEvent::ChannelEmpty => {
                if self.worker_done {
                    self.finished = true;
                    SupervisorStep::Finish
                } else {
                    if self.finished {
                        SupervisorStep::Finish
                    } else {
                        SupervisorStep::Wait
                    }
                }
            },
        }
    }

    /// Hands the completed result set over, in arrival order.
    pub fn into_results(self) -> (r: Vec<(String, Vec<Verdict>)>)
        ensures
            r@.map_values(
                |p: (String, Vec<Verdict>)|
                    MessageView { test_name: p.0@, verdicts: verdict_views(p.1@) },
            ) == self.collected(),
    {
        let Supervisor { results, worker_done: _, finished: _ } = self;
        results
    }
}

/// The verdict list recorded for `name`: the first message with that
/// test name, as the reporting keys results by name.
pub open spec fn lookup(rs: Seq<MessageView>, name: Seq<char>) -> Option<
    Seq<crate::results::VerdictView>,
>
    decreases rs.len(),
{
    if rs.len() == 0 {
        Option::None
    } else if rs[0].test_name == name {
        Option::Some(rs[0].verdicts)
    } else {
        lookup(rs.drop_first(), name)
    }
}

proof fn lemma_lookup_push(rs: Seq<MessageView>, m: MessageView, name: Seq<char>)
    ensures
        lookup(rs.push(m), name) == if lookup(rs, name) is Some {
            lookup(rs, name)
        } else if m.test_name == name {
            Option::Some(m.verdicts)
        } else {
            Option::None
        },
    decreases rs.len(),
{
    if rs.len() == 0 {
        assert(rs.push(m).drop_first() =~= Seq::<MessageView>::empty());
        assert(lookup(Seq::<MessageView>::empty(), name) is None);
    } else {
        lemma_lookup_push(rs.drop_first(), m, name);
        assert(rs.push(m).drop_first() =~= rs.drop_first().push(m));
    }
}

/// Messages of two different tests may arrive in either order: both end
/// up recorded, each under its own test name, whichever came first.
pub proof fn lemma_out_of_order_messages(
    rs: Seq<MessageView>,
    m1: MessageView,
    m2: MessageView,
)
    requires
        m1.test_name != m2.test_name,
        lookup(rs, m1.test_name) is None,
        lookup(rs, m2.test_name) is None,
    ensures
        lookup(rs.push(m1).push(m2), m1.test_name) == Option::Some(m1.verdicts),
        lookup(rs.push(m1).push(m2), m2.test_name) == Option::Some(m2.verdicts),
        lookup(rs.push(m2).push(m1), m1.test_name) == Option::Some(m1.verdicts),
        lookup(rs.push(m2).push(m1), m2.test_name) == Option::Some(m2.verdicts),
{
    lemma_lookup_push(rs, m1, m1.test_name);
    lemma_lookup_push(rs, m1, m2.test_name);
    lemma_lookup_push(rs.push(m1), m2, m1.test_name);
    lemma_lookup_push(rs.push(m1), m2, m2.test_name);
    lemma_lookup_push(rs, m2, m1.test_name);
    lemma_lookup_push(rs, m2, m2.test_name);
    lemma_lookup_push(rs.push(m2), m1, m1.test_name);
    lemma_lookup_push(rs.push(m2), m1, m2.test_name);
}

/// How many verdicts in one suite report something other than a match.
pub open spec fn failed_in_suite(vs: Seq<Verdict>) -> nat
    decreases vs.len(),
{
    if vs.len() == 0 {
        0
    } else {
        (if vs[0]@.kind is Matched {
            0nat
        } else {
            1nat
        }) + failed_in_suite(vs.drop_first())
    }
}

/// How many verdicts all suites hold together.
pub open spec fn total_files_of(rs: Seq<(String, Vec<Verdict>)>) -> nat
    decreases rs.len(),
{
    if rs.len() == 0 {
        0
    } else {
        rs[0].1@.len() + total_files_of(rs.drop_first())
    }
}

/// How many verdicts over all suites report something other than a match.
pub open spec fn failed_files_of(rs: Seq<(String, Vec<Verdict>)>) -> nat
    decreases rs.len(),
{
    if rs.len() == 0 {
        0
    } else {
        failed_in_suite(rs[0].1@) + failed_files_of(rs.drop_first())
    }
}

/// How many suites hold at least one verdict other than a match.
pub open spec fn failed_suites_of(rs: Seq<(String, Vec<Verdict>)>) -> nat
    decreases rs.len(),
{
    if rs.len() == 0 {
        0
    } else {
        (if failed_in_suite(rs[0].1@) == 0 {
            0nat
        } else {
            1nat
        }) + failed_suites_of(rs.drop_first())
    }
}

/// The aggregate numbers a run reports.
#[derive(Debug, Clone, Copy, PartialEq, Eq, Structural)]
pub struct RunSummary {
    pub total_suites: usize,
    pub failed_suites: usize,
    pub total_files: usize,
    pub failed_files: usize,
}

proof fn lemma_counts_push(rs: Seq<(String, Vec<Verdict>)>, p: (String, Vec<Verdict>))
    ensures
        total_files_of(rs.push(p)) == total_files_of(rs) + p.1@.len(),
        failed_files_of(rs.push(p)) == failed_files_of(rs) + failed_in_suite(p.1@),
        failed_suites_of(rs.push(p)) == failed_suites_of(rs) + (if failed_in_suite(p.1@) == 0 {
            0nat
        } else {
            1nat
        }),
    decreases rs.len(),
{
    if rs.len() == 0 {
        assert(rs.push(p).drop_first() =~= Seq::<(String, Vec<Verdict>)>::empty());
        assert(total_files_of(Seq::<(String, Vec<Verdict>)>::empty()) == 0);
        assert(failed_files_of(Seq::<(String, Vec<Verdict>)>::empty()) == 0);
        assert(failed_suites_of(Seq::<(String, Vec<Verdict>)>::empty()) == 0);
    } else {
        lemma_counts_push(rs.drop_first(), p);
        assert(rs.push(p).drop_first() =~= rs.drop_first().push(p));
    }
}

proof fn lemma_failed_in_suite_push(vs: Seq<Verdict>, v: Verdict)
    ensures
        failed_in_suite(vs.push(v)) == failed_in_suite(vs) + (if v@.kind is Matched {
            0nat
        } else {
            1nat
        }),
    decreases vs.len(),
{
    if vs.len() == 0 {
        assert(vs.push(v).drop_first() =~= Seq::<Verdict>::empty());
        assert(failed_in_suite(Seq::<Verdict>::empty()) == 0);
    } else {
        lemma_failed_in_suite_push(vs.drop_first(), v);
        assert(vs.push(v).drop_first() =~= vs.drop_first().push(v));
    }
}

fn count_failed_in_suite(vs: &Vec<Verdict>) -> (r: usize)
    ensures
        r == failed_in_suite(vs@),
        r <= vs@.len(),
{
    let n = vs.len();
    let mut cnt: usize = 0;
    let mut i: usize = 0;
    proof {
        assert(vs@.subrange(0, 0) =~= Seq::<Verdict>::empty());
    }
    while i < n
        invariant
            n == vs@.len(),
            0 <= i <= n,
            cnt == failed_in_suite(vs@.subrange(0, i as int)),
            cnt <= i,
        decreases n - i,
    {
        if !vs[i].is_ok() {
            cnt = cnt + 1;
        }
        proof {
            lemma_failed_in_suite_push(vs@.subrange(0, i as int), vs@[i as int]);
            assert(vs@.subrange(0, i + 1) =~= vs@.subrange(0, i as int).push(vs@[i as int]));
        }
        i = i + 1;
    }
    proof {
        assert(vs@.subrange(0, n as int) =~= vs@);
    }
    cnt
}

proof fn lemma_counts_split(rs: Seq<(String, Vec<Verdict>)>, i: int)
    requires
        0 <= i <= rs.len(),
    ensures
        total_files_of(rs) == total_files_of(rs.take(i)) + total_files_of(rs.skip(i)),
        failed_files_of(rs) == failed_files_of(rs.take(i)) + failed_files_of(rs.skip(i)),
        failed_suites_of(rs) == failed_suites_of(rs.take(i)) + failed_suites_of(rs.skip(i)),
    decreases rs.len(),
{
    if i == 0 {
        assert(rs.take(0) =~= Seq::<(String, Vec<Verdict>)>::empty());
        assert(rs.skip(0) =~= rs);
    } else {
        lemma_counts_split(rs.drop_first(), i - 1);
        assert(rs.take(i).drop_first() =~= rs.drop_first().take(i - 1));
        assert(rs.skip(i) =~= rs.drop_first().skip(i - 1));
    }
}

/// Sums a completed result set into the numbers the run report prints:
/// suites and files, total and failed.
#[verifier::loop_isolation(false)]
pub fn run_summary(results: &Vec<(String, Vec<Verdict>)>) -> (r: RunSummary)
    requires
        total_files_of(results@) <= usize::MAX,
    ensures
        r.total_suites == results@.len(),
        r.failed_suites == failed_suites_of(results@),
        r.total_files == total_files_of(results@),
        r.failed_files == failed_files_of(results@),
{
    let n = results.len();
    let mut total_files: usize = 0;
    let mut failed_files: usize = 0;
    let mut failed_suites: usize = 0;
    let mut i: usize = 0;
    proof {
        assert(results@.take(0) =~= Seq::<(String, Vec<Verdict>)>::empty());
    }
    while i < n
        invariant
            n == results@.len(),
            0 <= i <= n,
            total_files == total_files_of(results@.take(i as int)),
            failed_files == failed_files_of(results@.take(i as int)),
            failed_suites == failed_suites_of(results@.take(i as int)),
            failed_suites <= i,
            failed_files <= total_files,
        decreases n - i,
    {
        let suite_failed = count_failed_in_suite(&results[i].1);
        let files_here = results[i].1.len();
        proof {
            lemma_counts_split(results@, i as int);
            assert(results@.skip(i as int)[0] == results@[i as int]);
        }
        total_files = total_files + files_here;
        failed_files = failed_files + suite_failed;
        if suite_failed > 0 {
            failed_suites = failed_suites + 1;
        }
        proof {
            lemma_counts_push(results@.take(i as int), results@[i as int]);
            assert(results@.take(i + 1) =~= results@.take(i as int).push(results@[i as int]));
        }
        i = i + 1;
    }
    proof {
        assert(results@.take(n as int) =~= results@);
    }
    RunSummary { total_suites: n, failed_suites, total_files, failed_files }
}

/// How many verdicts in a promotion batch called for a baseline change:
/// everything but a match and but a failed filesystem operation.
pub open spec fn changed_count_of(rs: Seq<(Verdict, Result<String, FsError>)>) -> nat
    decreases rs.len(),
{
    if rs.len() == 0 {
        0
    } else {
        (if rs[0].0@.kind is Matched || rs[0].0@.kind is IoError {
            0nat
        } else {
            1nat
        }) + changed_count_of(rs.drop_first())
    }
}

/// True when every action in a promotion batch succeeded.
pub open spec fn all_actions_ok(rs: Seq<(Verdict, Result<String, FsError>)>) -> bool {
    forall|i: int| 0 <= i < rs.len() ==> #[trigger] rs[i].1 is Ok
}

proof fn lemma_changed_count_push(
    rs: Seq<(Verdict, Result<String, FsError>)>,
    p: (Verdict, Result<String, FsError>),
)
    ensures
        changed_count_of(rs.push(p)) == changed_count_of(rs) + (if p.0@.kind is Matched
            || p.0@.kind is IoError {
            0nat
        } else {
            1nat
        }),
    decreases rs.len(),
{
    if rs.len() == 0 {
        assert(rs.push(p).drop_first() =~= Seq::<(Verdict, Result<String, FsError>)>::empty());
        assert(changed_count_of(Seq::<(Verdict, Result<String, FsError>)>::empty()) == 0);
    } else {
        lemma_changed_count_push(rs.drop_first(), p);
        assert(rs.push(p).drop_first() =~= rs.drop_first().push(p));
    }
}

/// Sums a promotion batch: whether every action succeeded, and how many
/// verdicts called for a baseline change — counted whether or not the
/// action itself later failed.
#[verifier::loop_isolation(false)]
pub fn promotion_counts(results: &Vec<(Verdict, Result<String, FsError>)>) -> (r: (bool, usize))
    ensures
        r.0 == all_actions_ok(results@),
        r.1 == changed_count_of(results@),
{
    let n = results.len();
    let mut passed: bool = true;
    let mut changed: usize = 0;
    let mut i: usize = 0;
    proof {
        assert(results@.take(0) =~= Seq::<(Verdict, Result<String, FsError>)>::empty());
    }
    while i < n
        invariant
            n == results@.len(),
            0 <= i <= n,
            changed == changed_count_of(results@.take(i as int)),
            changed <= i,
            passed == (forall|j: int| 0 <= j < i ==> #[trigger] results@[j].1 is Ok),
        decreases n - i,
    {
        let pair = &results[i];
        if !matches!(pair.1, Ok(_)) {
            passed = false;
        }
        let changes = match &pair.0.kind {
            crate::results::ResultKind::Matched => false,
            crate::results::ResultKind::IoError(_) => false,
            _ => true,
        };
        if changes {
            changed = changed + 1;
        }
        proof {
            lemma_changed_count_push(results@.take(i as int), results@[i as int]);
            assert(results@.take(i + 1) =~= results@.take(i as int).push(results@[i as int]));
        }
        i = i + 1;
    }
    proof {
        assert(results@.take(n as int) =~= results@);
    }
    (passed, changed)
}

/// A batch whose every verdict reports a match calls for no baseline
/// change at all: promoting a clean state is a no-op that counts zero.
pub proof fn lemma_clean_batch_changes_nothing(rs: Seq<(Verdict, Result<String, FsError>)>)
    requires
        forall|i: int| 0 <= i < rs.len() ==> #[trigger] rs[i].0@.kind is Matched,
    ensures
        changed_count_of(rs) == 0,
    decreases rs.len(),
{
    if rs.len() > 0 {
        assert(rs[0].0@.kind is Matched);
        assert forall|i: int| 0 <= i < rs.drop_first().len() implies #[trigger] rs.drop_first()[i].0@.kind
            is Matched by {
            assert(rs.drop_first()[i] == rs[i + 1]);
        }
        lemma_clean_batch_changes_nothing(rs.drop_first());
    }
}

} // verus!
