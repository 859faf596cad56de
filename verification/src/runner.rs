use vstd::prelude::*;

use crate::clock::exec_with_timing;
use crate::glob_pat::{compile_pattern, glob_match, glob_ok, pattern_of};
use crate::organize::{
    TestGroup, TestGroupV, TestPlanV, clone_tags, filtered_spec, flat_groups, flat_plans,
    group_views, lemma_filtered_all, lemma_filtered_len, lemma_flat_groups_concat,
    lemma_flat_groups_single, lemma_flat_plans_concat, lemma_flat_plans_single,
    lemma_organize_flat, lemma_sort_len, organize, plan_views, run_order, spec_included, views_of,
};
use crate::test::{CaseOutcome, Test, TestStatus, TestV, classify, spec_classify};

verus! {

/// The mathematical content of a run configuration.
#[verifier::ext_equal]
pub ghost struct TestifyConfigV {
    pub name_filter: Option<Seq<char>>,
    pub tags: Seq<Seq<char>>,
    pub exclude_tags: Seq<Seq<char>>,
    pub fail_fast: bool,
}

/// The configuration of one run, supplied from outside and immutable for
/// the run's duration.
#[derive(Debug, Clone, PartialEq)]
pub struct TestifyConfig {
    /// A glob pattern filtering tests by name; absent means match
    /// everything.
    pub name_filter: Option<String>,
    /// Every listed tag must be present on a test for it to run.
    pub tags: Vec<String>,
    /// A test carrying any of these tags is excluded.
    pub exclude_tags: Vec<String>,
    /// Stop the run at the first failing case.
    pub fail_fast: bool,
}

impl View for TestifyConfig {
    type V = TestifyConfigV;

    open spec fn view(&self) -> TestifyConfigV {
        TestifyConfigV {
            name_filter: self.name_filter.deep_view(),
            tags: self.tags.deep_view(),
            exclude_tags: self.exclude_tags.deep_view(),
            fail_fast: self.fail_fast,
        }
    }
}

/// One event of a run, emitted in order; the reporter renders them as they
/// happen and the final report keeps them.
#[derive(Clone, Debug, PartialEq)]
pub enum RunEvent {
    /// The setup hook is about to run.
    SetupStarted,
    /// The setup hook finished; a failed setup is fatal to the run.
    SetupFinished { ok: bool },
    /// The configured name filter was not a well-formed glob pattern; the
    /// run stops before any test executes.
    ConfigError,
    /// Filtering is done: `to_run` cases will execute, `skipped` registered
    /// tests were filtered out.
    Running { to_run: usize, skipped: usize },
    /// A group of tests sharing `tags` begins.
    GroupStarted { tags: Vec<String>, first: bool },
    /// A plan begins: `cases` tells the reporter whether to render one line
    /// or a block with one line per case.
    PlanStarted { name: String, index: usize, cases: usize },
    /// One case of a multi-case plan is about to execute.
    CaseStarted { label: Option<String> },
    /// One case finished; `aborted` says the run stops here under
    /// fail-fast.
    CaseFinished { status: TestStatus, nanos: u128, aborted: bool },
    /// The cleanup hook is about to run.
    CleanupStarted,
    /// The cleanup hook finished.
    CleanupFinished { ok: bool },
    /// The final tally.
    Summary { failures: usize, successes: usize },
}

/// The mathematical content of one executed case.
#[verifier::ext_equal]
pub ghost struct CaseResultV {
    pub test: TestV,
    pub status: TestStatus,
    pub nanos: int,
}

/// One executed case: its descriptor, its status, and how long it took.
#[derive(Debug)]
pub struct CaseResult {
    pub test: Test,
    pub status: TestStatus,
    pub nanos: u128,
}

impl View for CaseResult {
    type V = CaseResultV;

    open spec fn view(&self) -> CaseResultV {
        CaseResultV { test: self.test@, status: self.status, nanos: self.nanos as int }
    }
}

/// The contents of a sequence of case results.
pub open spec fn result_views(s: Seq<CaseResult>) -> Seq<CaseResultV> {
    s.map_values(|c: CaseResult| c@)
}

/// How many of the executed cases passed.
pub open spec fn count_passed(rs: Seq<CaseResultV>) -> nat
    decreases rs.len(),
{
    if rs.len() == 0 {
        0
    } else {
        count_passed(rs.drop_last()) + if rs.last().status is Passed {
            1nat
        } else {
            0
        }
    }
}

/// A recorded status is one the status table can produce for the case's
/// declared expectations: an unexpected status never appears.
pub open spec fn status_consistent(c: CaseResultV) -> bool {
    exists|o: CaseOutcome| c.status == spec_classify(o, c.test.should_panic, c.test.should_fail)
}

/// A recorded status arises, through the status table, from an outcome that
/// the isolation callback can actually return when handed this case's id.
pub open spec fn status_from<F: Fn(usize) -> CaseOutcome>(isolate: F, c: CaseResultV) -> bool {
    exists|o: CaseOutcome|
        call_ensures(isolate, (c.test.id as usize,), o) && c.status == spec_classify(
            o,
            c.test.should_panic,
            c.test.should_fail,
        )
}

/// The statuses of a sequence of case results, in order.
pub open spec fn statuses_of(rs: Seq<CaseResultV>) -> Seq<TestStatus> {
    rs.map_values(|c: CaseResultV| c.status)
}

/// The statuses carried by the `CaseFinished` events of a transcript, in
/// order.
pub open spec fn case_statuses(es: Seq<RunEvent>) -> Seq<TestStatus>
    decreases es.len(),
{
    if es.len() == 0 {
        Seq::empty()
    } else {
        case_statuses(es.drop_last()) + (match es.last() {
            RunEvent::CaseFinished { status, nanos: _, aborted: _ } => seq![status],
            _ => Seq::<TestStatus>::empty(),
        })
    }
}

/// How many `SetupStarted` events a transcript holds.
pub open spec fn setup_events(es: Seq<RunEvent>) -> nat
    decreases es.len(),
{
    if es.len() == 0 {
        0
    } else {
        setup_events(es.drop_last()) + (if es.last() is SetupStarted {
            1nat
        } else {
            0nat
        })
    }
}

/// How many `CleanupStarted` events a transcript holds.
pub open spec fn cleanup_events(es: Seq<RunEvent>) -> nat
    decreases es.len(),
{
    if es.len() == 0 {
        0
    } else {
        cleanup_events(es.drop_last()) + (if es.last() is CleanupStarted {
            1nat
        } else {
            0nat
        })
    }
}

proof fn lemma_transcript_push(es: Seq<RunEvent>, e: RunEvent)
    ensures
        case_statuses(es.push(e)) == case_statuses(es) + (match e {
            RunEvent::CaseFinished { status, nanos: _, aborted: _ } => seq![status],
            _ => Seq::<TestStatus>::empty(),
        }),
        setup_events(es.push(e)) == setup_events(es) + (if e is SetupStarted {
            1nat
        } else {
            0nat
        }),
        cleanup_events(es.push(e)) == cleanup_events(es) + (if e is CleanupStarted {
            1nat
        } else {
            0nat
        }),
{
    assert(es.push(e).drop_last() =~= es);
    assert(es.push(e).last() == e);
}

/// The executed cases are a prefix of the planned order `all`, each status
/// can arise from its case's expectations, and under fail-fast every case
/// before the last one passed.
pub open spec fn results_ok(rs: Seq<CaseResultV>, all: Seq<TestV>, fail_fast: bool) -> bool {
    &&& rs.len() <= all.len()
    &&& forall|i: int| 0 <= i < rs.len() ==> (#[trigger] rs[i]).test == all[i]
    &&& forall|i: int| 0 <= i < rs.len() ==> status_consistent(#[trigger] rs[i])
    &&& fail_fast ==> forall|i: int| 0 <= i < rs.len() - 1 ==> (#[trigger] rs[i]).status is Passed
}

/// At most every executed case passed.
pub proof fn lemma_count_passed_le(rs: Seq<CaseResultV>)
    ensures
        count_passed(rs) <= rs.len(),
    decreases rs.len(),
{
    if rs.len() > 0 {
        lemma_count_passed_le(rs.drop_last());
    }
}

proof fn lemma_count_passed_all(rs: Seq<CaseResultV>)
    requires
        count_passed(rs) == rs.len(),
    ensures
        forall|i: int| 0 <= i < rs.len() ==> (#[trigger] rs[i]).status is Passed,
    decreases rs.len(),
{
    if rs.len() > 0 {
        lemma_count_passed_le(rs.drop_last());
        assert(rs.last().status is Passed);
        lemma_count_passed_all(rs.drop_last());
        assert(forall|i: int|
            0 <= i < rs.len() - 1 ==> (#[trigger] rs[i]).status == rs.drop_last()[i].status);
    }
}

proof fn lemma_count_passed_push(rs: Seq<CaseResultV>, c: CaseResultV)
    ensures
        count_passed(rs.push(c)) == count_passed(rs) + if c.status is Passed {
            1nat
        } else {
            0
        },
{
    assert(rs.push(c).drop_last() =~= rs);
    assert(rs.push(c).last() == c);
}

/// Runs one case through the isolation boundary `isolate`, measures the
/// wall-clock time of the call, and maps the raw outcome through the
/// descriptor's declared expectations.
///
/// The status returned is the table's translation of an outcome the
/// callback actually produced for this case's id: a status cannot be
/// fabricated without the call.
pub fn execute<F: Fn(usize) -> CaseOutcome>(test: &Test, isolate: &F) -> (r: (TestStatus, u128))
    requires
        forall|id: usize| #[trigger] call_requires(*isolate, (id,)),
    ensures
        exists|o: CaseOutcome|
            call_ensures(*isolate, (test.id,), o) && r.0 == spec_classify(
                o,
                test@.should_panic,
                test@.should_fail,
            ),
{
    let id = test.id;
    let f = || -> (o: CaseOutcome)
        requires
            call_requires(*isolate, (id,)),
        ensures
            call_ensures(*isolate, (id,), o),
        { (*isolate)(id) };
    let (outcome, nanos) = exec_with_timing(f);
    let status = classify(outcome, test.should_panic, test.should_fail);
    proof {
        assert(call_ensures(*isolate, (id,), outcome));
        assert(status == spec_classify(outcome, test@.should_panic, test@.should_fail));
    }
    (status, nanos)
}

proof fn lemma_flat_groups_first(gs: Seq<TestGroupV>)
    requires
        gs.len() > 0,
    ensures
        flat_groups(gs) == flat_plans(gs[0].plans) + flat_groups(gs.drop_first()),
{
    assert(gs =~= seq![gs[0]] + gs.drop_first());
    lemma_flat_groups_concat(seq![gs[0]], gs.drop_first());
    lemma_flat_groups_single(gs[0]);
}

proof fn lemma_flat_plans_first(ps: Seq<TestPlanV>)
    requires
        ps.len() > 0,
    ensures
        flat_plans(ps) == ps[0].cases + flat_plans(ps.drop_first()),
{
    assert(ps =~= seq![ps[0]] + ps.drop_first());
    lemma_flat_plans_concat(seq![ps[0]], ps.drop_first());
    lemma_flat_plans_single(ps[0]);
}

/// Counts the cases of an execution plan: how many tests are about to run.
pub fn count_cases(groups: &Vec<TestGroup>) -> (n: usize)
    requires
        flat_groups(group_views(groups@)).len() <= usize::MAX,
    ensures
        n == flat_groups(group_views(groups@)).len(),
{
    let ghost all: Seq<TestV> = flat_groups(group_views(groups@));
    let mut n: usize = 0;
    let mut gi: usize = 0;
    let ngroups = groups.len();
    proof {
        assert(group_views(groups@).skip(0) =~= group_views(groups@));
    }
    while gi < ngroups
        invariant
            ngroups == groups@.len(),
            gi <= ngroups,
            flat_groups(group_views(groups@)) == all,
            all.len() <= usize::MAX,
            n + flat_groups(group_views(groups@).skip(gi as int)).len() == all.len(),
        decreases ngroups - gi,
    {
        let ghost rest: Seq<TestGroupV> = group_views(groups@).skip(gi as int);
        proof {
            lemma_flat_groups_first(rest);
            assert(rest.drop_first() =~= group_views(groups@).skip(gi + 1));
            assert(rest[0] == groups@[gi as int]@);
        }
        let g = &groups[gi];
        let nplans = g.test_plans.len();
        let mut pi: usize = 0;
        proof {
            assert(plan_views(g.test_plans@).skip(0) =~= plan_views(g.test_plans@));
            assert(rest[0].plans == plan_views(g.test_plans@));
        }
        while pi < nplans
            invariant
                ngroups == groups@.len(),
                gi < ngroups,
                g == groups@[gi as int],
                nplans == g.test_plans@.len(),
                pi <= nplans,
                flat_groups(group_views(groups@)) == all,
                all.len() <= usize::MAX,
                n + flat_plans(plan_views(g.test_plans@).skip(pi as int)).len() + flat_groups(
                    group_views(groups@).skip(gi + 1),
                ).len() == all.len(),
            decreases nplans - pi,
        {
            let ghost prest: Seq<TestPlanV> = plan_views(g.test_plans@).skip(pi as int);
            proof {
                lemma_flat_plans_first(prest);
                assert(prest.drop_first() =~= plan_views(g.test_plans@).skip(pi + 1));
                assert(prest[0] == g.test_plans@[pi as int]@);
                assert(prest[0].cases.len() == g.test_plans@[pi as int].cases@.len());
            }
            n = n + g.test_plans[pi].cases.len();
            pi += 1;
        }
        proof {
            assert(plan_views(g.test_plans@).skip(nplans as int) =~= Seq::<TestPlanV>::empty());
            assert(flat_plans(Seq::<TestPlanV>::empty()) == Seq::<TestV>::empty());
        }
        gi += 1;
    }
    proof {
        assert(group_views(groups@).skip(ngroups as int) =~= Seq::<TestGroupV>::empty());
        assert(flat_groups(Seq::<TestGroupV>::empty()) == Seq::<TestV>::empty());
    }
    n
}

fn emit<R: Fn(RunEvent)>(events: &mut Vec<RunEvent>, report: &R, e: RunEvent)
    requires
        forall|ev: RunEvent| #[trigger] call_requires(*report, (ev,)),
    ensures
        final(events)@ == old(events)@.push(e),
        case_statuses(final(events)@) == case_statuses(old(events)@) + (match e {
            RunEvent::CaseFinished { status, nanos: _, aborted: _ } => seq![status],
            _ => Seq::<TestStatus>::empty(),
        }),
        setup_events(final(events)@) == setup_events(old(events)@) + (if e is SetupStarted {
            1nat
        } else {
            0nat
        }),
        cleanup_events(final(events)@) == cleanup_events(old(events)@) + (if e is CleanupStarted {
            1nat
        } else {
            0nat
        }),
{
    let ghost ev: RunEvent = e;
    let ghost before: Seq<RunEvent> = events@;
    (*report)(e.clone());
    events.push(e);
    proof {
        lemma_transcript_push(before, ev);
    }
}

fn clone_label(label: &Option<String>) -> (r: Option<String>)
    ensures
        r.deep_view() == label.deep_view(),
{
    match label {
        Option::Some(s) => Option::Some(s.clone()),
        Option::None => Option::None,
    }
}

/// The aggregate outcome of the running phase.
pub struct RunStats {
    /// The executed cases, in execution order.
    pub results: Vec<CaseResult>,
    /// How many executed cases passed.
    pub successes: usize,
    /// How many executed cases did not pass.
    pub failures: usize,
    /// Whether fail-fast stopped the run before the plan was exhausted.
    pub aborted: bool,
}

/// Runs an execution plan in order: group by group, plan by plan, case by
/// case, stopping after the first failing case when `fail_fast` is set.
///
/// The executed cases are exactly a prefix of the flattened plan: the whole
/// plan unless an abort cut it short, in which case every executed case but
/// the last one passed and the last one failed. Successes and failures
/// partition the executed cases.
pub fn run_groups<F: Fn(usize) -> CaseOutcome, R: Fn(RunEvent)>(
    groups: Vec<TestGroup>,
    fail_fast: bool,
    isolate: &F,
    report: &R,
    events: &mut Vec<RunEvent>,
) -> (stats: RunStats)
    requires
        forall|id: usize| #[trigger] call_requires(*isolate, (id,)),
        forall|ev: RunEvent| #[trigger] call_requires(*report, (ev,)),
    ensures
        ({
            let all = flat_groups(group_views(groups@));
            let rs = result_views(stats.results@);
            &&& results_ok(rs, all, fail_fast)
            &&& (!stats.aborted ==> rs.len() == all.len())
            &&& (stats.aborted ==> rs.len() > 0 && !(rs.last().status is Passed))
            &&& (stats.aborted <==> fail_fast && count_passed(rs) < rs.len())
            &&& stats.successes == count_passed(rs)
            &&& stats.failures == rs.len() - count_passed(rs)
            &&& forall|i: int| 0 <= i < rs.len() ==> status_from(*isolate, #[trigger] rs[i])
        }),
        final(events)@.len() >= old(events)@.len(),
        forall|i: int| 0 <= i < old(events)@.len() ==> final(events)@[i] == old(events)@[i],
        case_statuses(final(events)@) == case_statuses(old(events)@) + statuses_of(
            result_views(stats.results@),
        ),
        setup_events(final(events)@) == setup_events(old(events)@),
        cleanup_events(final(events)@) == cleanup_events(old(events)@),
{
    let ghost all: Seq<TestV> = flat_groups(group_views(groups@));
    let ghost entry_events: Seq<RunEvent> = events@;
    let mut rest = groups;
    let mut results: Vec<CaseResult> = Vec::new();
    let mut successes: usize = 0;
    let mut failures: usize = 0;
    let mut aborted: bool = false;
    let mut plan_index: usize = 1;
    let mut groups_done: usize = 0;
    let ghost mut gdone: Seq<TestGroupV> = Seq::empty();
    proof {
        assert(flat_groups(Seq::<TestGroupV>::empty()) == Seq::<TestV>::empty());
        assert(Seq::<TestV>::empty() + flat_groups(group_views(rest@)) =~= flat_groups(
            group_views(rest@),
        ));
        assert(statuses_of(result_views(results@)) =~= Seq::<TestStatus>::empty());
        assert(case_statuses(events@) =~= case_statuses(entry_events) + statuses_of(
            result_views(results@),
        ));
    }
    while rest.len() > 0 && !aborted
        invariant
            forall|id: usize| #[trigger] call_requires(*isolate, (id,)),
            forall|ev: RunEvent| #[trigger] call_requires(*report, (ev,)),
            all == flat_groups(gdone) + flat_groups(group_views(rest@)),
            results_ok(result_views(results@), all, fail_fast),
            !aborted ==> result_views(results@).len() == flat_groups(gdone).len(),
            fail_fast && !aborted ==> count_passed(result_views(results@)) == result_views(
                results@,
            ).len(),
            aborted ==> fail_fast && result_views(results@).len() > 0 && !(result_views(
                results@,
            ).last().status is Passed) && count_passed(result_views(results@)) < result_views(
                results@,
            ).len(),
            successes == count_passed(result_views(results@)),
            failures == result_views(results@).len() - count_passed(result_views(results@)),
            events@.len() >= entry_events.len(),
            forall|i: int| 0 <= i < entry_events.len() ==> events@[i] == entry_events[i],
            forall|i: int|
                0 <= i < result_views(results@).len() ==> status_from(
                    *isolate,
                    #[trigger] result_views(results@)[i],
                ),
            case_statuses(events@) == case_statuses(entry_events) + statuses_of(
                result_views(results@),
            ),
            setup_events(events@) == setup_events(entry_events),
            cleanup_events(events@) == cleanup_events(entry_events),
        decreases rest@.len(),
    {
        let ghost rest0: Seq<TestGroupV> = group_views(rest@);
        let mut g = rest.remove(0);
        let ghost gv: TestGroupV = g@;
        proof {
            assert(group_views(rest@) =~= rest0.drop_first());
            assert(rest0 =~= seq![gv] + group_views(rest@));
            lemma_flat_groups_concat(seq![gv], group_views(rest@));
            lemma_flat_groups_single(gv);
            assert(flat_groups(gdone) + (flat_plans(gv.plans) + flat_groups(group_views(rest@)))
                =~= flat_groups(gdone) + flat_plans(gv.plans) + flat_groups(group_views(rest@)));
            assert(all == flat_groups(gdone) + flat_plans(gv.plans) + flat_groups(
                group_views(rest@),
            ));
            assert(plan_views(g.test_plans@) == gv.plans);
            assert(flat_plans(Seq::<TestPlanV>::empty()) == Seq::<TestV>::empty());
        }
        let first = groups_done == 0;
        let tags_copy = clone_tags(&g.tags);
        emit(events, report, RunEvent::GroupStarted { tags: tags_copy, first });
        proof {
            assert(case_statuses(events@) =~= case_statuses(entry_events) + statuses_of(
                result_views(results@),
            ));
        }
        let ghost mut pdone: Seq<TestPlanV> = Seq::empty();
        proof {
            assert(Seq::<TestPlanV>::empty() + plan_views(g.test_plans@) =~= plan_views(
                g.test_plans@,
            ));
        }
        while g.test_plans.len() > 0 && !aborted
            invariant
                forall|id: usize| #[trigger] call_requires(*isolate, (id,)),
                forall|ev: RunEvent| #[trigger] call_requires(*report, (ev,)),
                gv.plans == pdone + plan_views(g.test_plans@),
                all == flat_groups(gdone) + flat_plans(gv.plans) + flat_groups(group_views(rest@)),
                results_ok(result_views(results@), all, fail_fast),
                !aborted ==> result_views(results@).len() == flat_groups(gdone).len() + flat_plans(
                    pdone,
                ).len(),
                fail_fast && !aborted ==> count_passed(result_views(results@)) == result_views(
                    results@,
                ).len(),
                aborted ==> fail_fast && result_views(results@).len() > 0 && !(result_views(
                    results@,
                ).last().status is Passed) && count_passed(result_views(results@)) < result_views(
                    results@,
                ).len(),
                successes == count_passed(result_views(results@)),
                failures == result_views(results@).len() - count_passed(result_views(results@)),
                events@.len() >= entry_events.len(),
                forall|i: int| 0 <= i < entry_events.len() ==> events@[i] == entry_events[i],
                forall|i: int|
                    0 <= i < result_views(results@).len() ==> status_from(
                        *isolate,
                        #[trigger] result_views(results@)[i],
                    ),
                case_statuses(events@) == case_statuses(entry_events) + statuses_of(
                    result_views(results@),
                ),
                setup_events(events@) == setup_events(entry_events),
                cleanup_events(events@) == cleanup_events(entry_events),
            decreases g.test_plans@.len(),
        {
            let ghost plans0: Seq<TestPlanV> = plan_views(g.test_plans@);
            let mut p = g.test_plans.remove(0);
            let ghost pv: TestPlanV = p@;
            proof {
                assert(plan_views(g.test_plans@) =~= plans0.drop_first());
                assert(plans0 =~= seq![pv] + plan_views(g.test_plans@));
                assert(gv.plans =~= pdone + seq![pv] + plan_views(g.test_plans@));
                lemma_flat_plans_concat(pdone + seq![pv], plan_views(g.test_plans@));
                lemma_flat_plans_concat(pdone, seq![pv]);
                lemma_flat_plans_single(pv);
                assert(flat_plans(gv.plans) == flat_plans(pdone) + pv.cases + flat_plans(
                    plan_views(g.test_plans@),
                ));
                assert(views_of(p.cases@) == pv.cases);
                assert(Seq::<TestV>::empty() + views_of(p.cases@) =~= views_of(p.cases@));
            }
            let cases_in_plan = p.cases.len();
            let name_copy = p.name.clone();
            emit(
                events,
                report,
                RunEvent::PlanStarted { name: name_copy, index: plan_index, cases: cases_in_plan },
            );
            proof {
                assert(case_statuses(events@) =~= case_statuses(entry_events) + statuses_of(
                    result_views(results@),
                ));
            }
            let ghost mut cdone: Seq<TestV> = Seq::empty();
            let ghost prefix: Seq<TestV> = flat_groups(gdone) + flat_plans(pdone);
            let ghost suffix: Seq<TestV> = flat_plans(plan_views(g.test_plans@)) + flat_groups(
                group_views(rest@),
            );
            proof {
                assert(all =~= prefix + pv.cases + suffix);
            }
            while p.cases.len() > 0 && !aborted
                invariant
                    forall|id: usize| #[trigger] call_requires(*isolate, (id,)),
                    forall|ev: RunEvent| #[trigger] call_requires(*report, (ev,)),
                    pv.cases == cdone + views_of(p.cases@),
                    all == prefix + pv.cases + suffix,
                    prefix == flat_groups(gdone) + flat_plans(pdone),
                    results_ok(result_views(results@), all, fail_fast),
                    !aborted ==> result_views(results@).len() == prefix.len() + cdone.len(),
                    fail_fast && !aborted ==> count_passed(result_views(results@)) == result_views(
                        results@,
                    ).len(),
                    aborted ==> fail_fast && result_views(results@).len() > 0 && !(result_views(
                        results@,
                    ).last().status is Passed) && count_passed(result_views(results@))
                        < result_views(results@).len(),
                    successes == count_passed(result_views(results@)),
                    failures == result_views(results@).len() - count_passed(result_views(results@)),
                    events@.len() >= entry_events.len(),
                    forall|i: int| 0 <= i < entry_events.len() ==> events@[i] == entry_events[i],
                    forall|i: int|
                        0 <= i < result_views(results@).len() ==> status_from(
                            *isolate,
                            #[trigger] result_views(results@)[i],
                        ),
                    case_statuses(events@) == case_statuses(entry_events) + statuses_of(
                        result_views(results@),
                    ),
                    setup_events(events@) == setup_events(entry_events),
                    cleanup_events(events@) == cleanup_events(entry_events),
                decreases p.cases@.len(),
            {
                let ghost cases0: Seq<TestV> = views_of(p.cases@);
                let c = p.cases.remove(0);
                let ghost cv: TestV = c@;
                let ghost cid: usize = c.id;
                proof {
                    assert(views_of(p.cases@) =~= cases0.drop_first());
                    assert(cases0 =~= seq![cv] + views_of(p.cases@));
                    assert(pv.cases =~= cdone + seq![cv] + views_of(p.cases@));
                    assert(pv.cases[cdone.len() as int] == cv);
                    assert(all[(prefix.len() + cdone.len()) as int] == cv);
                }
                if cases_in_plan > 1 {
                    let label = clone_label(&c.case);
                    emit(events, report, RunEvent::CaseStarted { label });
                    proof {
                        assert(case_statuses(events@) =~= case_statuses(entry_events) + statuses_of(
                            result_views(results@),
                        ));
                    }
                }
                let (status, nanos) = execute(&c, isolate);
                let passed = status.is_passed();
                let ghost rs_before: Seq<CaseResultV> = result_views(results@);
                let ghost cres: CaseResultV = CaseResultV {
                    test: cv,
                    status: status,
                    nanos: nanos as int,
                };
                results.push(CaseResult { test: c, status, nanos });
                let observed_len = results.len();
                proof {
                    assert(result_views(results@) =~= rs_before.push(cres));
                    lemma_count_passed_push(rs_before, cres);
                    lemma_count_passed_le(rs_before);
                    assert(status_consistent(cres));
                    assert(rs_before.push(cres).last() == cres);
                    assert(observed_len == rs_before.len() + 1);
                }
                if passed {
                    successes += 1;
                } else {
                    failures += 1;
                    if fail_fast {
                        aborted = true;
                    }
                }
                emit(events, report, RunEvent::CaseFinished { status, nanos, aborted });
                proof {
                    cdone = cdone.push(cv);
                    assert(cdone + views_of(p.cases@) =~= pv.cases);
                    let rs2 = result_views(results@);
                    assert(rs2 == rs_before.push(cres));
                    assert(statuses_of(rs2) =~= statuses_of(rs_before).push(cres.status));
                    assert(statuses_of(rs_before) + seq![status] =~= statuses_of(rs2));
                    assert(case_statuses(events@) =~= case_statuses(entry_events) + statuses_of(
                        rs2,
                    ));
                    assert((cres.test.id as usize) == cid);
                    assert forall|i: int| 0 <= i < rs2.len() implies status_from(
                        *isolate,
                        #[trigger] rs2[i],
                    ) by {
                        if i < rs_before.len() {
                            assert(rs2[i] == rs_before[i]);
                        } else {
                            assert(rs2[i] == cres);
                        }
                    }
                    assert(rs2.len() <= all.len());
                    assert forall|i: int| 0 <= i < rs2.len() implies (#[trigger] rs2[i]).test
                        == all[i] by {
                        if i < rs_before.len() {
                            assert(rs2[i] == rs_before[i]);
                        } else {
                            assert(rs2[i] == cres);
                        }
                    }
                    assert forall|i: int| 0 <= i < rs2.len() implies status_consistent(
                        #[trigger] rs2[i],
                    ) by {
                        if i < rs_before.len() {
                            assert(rs2[i] == rs_before[i]);
                        } else {
                            assert(rs2[i] == cres);
                        }
                    }
                    if fail_fast {
                        lemma_count_passed_all(rs_before);
                        assert forall|i: int| 0 <= i < rs2.len() - 1 implies (
                        #[trigger] rs2[i]).status is Passed by {
                            assert(rs2[i] == rs_before[i]);
                        }
                    }
                    assert(results_ok(rs2, all, fail_fast));
                }
            }
            proof {
                if !aborted {
                    assert(views_of(p.cases@) =~= Seq::<TestV>::empty());
                    assert(cdone =~= pv.cases);
                }
                let ghost pdone0 = pdone;
                pdone = pdone.push(pv);
                assert(pdone =~= pdone0 + seq![pv]);
                lemma_flat_plans_concat(pdone0, seq![pv]);
                lemma_flat_plans_single(pv);
                assert(flat_plans(pdone) == flat_plans(pdone0) + pv.cases);
            }
            if plan_index < usize::MAX {
                plan_index += 1;
            }
        }
        proof {
            if !aborted {
                assert(plan_views(g.test_plans@) =~= Seq::<TestPlanV>::empty());
                assert(pdone =~= gv.plans);
            }
            let ghost gdone0 = gdone;
            gdone = gdone.push(gv);
            assert(gdone =~= gdone0 + seq![gv]);
            lemma_flat_groups_concat(gdone0, seq![gv]);
            lemma_flat_groups_single(gv);
            assert(flat_groups(gdone) == flat_groups(gdone0) + flat_plans(gv.plans));
        }
        if groups_done < usize::MAX {
            groups_done += 1;
        }
    }
    proof {
        if !aborted {
            assert(group_views(rest@) =~= Seq::<TestGroupV>::empty());
            assert(flat_groups(Seq::<TestGroupV>::empty()) == Seq::<TestV>::empty());
            assert(all =~= flat_groups(gdone));
        }
        lemma_count_passed_le(result_views(results@));
    }
    RunStats { results, successes, failures, aborted }
}

/// How a run ended.
#[derive(Clone, Copy, Debug, PartialEq, Eq)]
pub enum RunVerdict {
    /// The run went through filtering, execution and cleanup.
    Completed,
    /// The configured name filter was not a well-formed glob pattern; no
    /// test was executed.
    InvalidPattern,
    /// The setup hook failed; no test was executed, cleanup was still
    /// attempted.
    SetupFailed,
}

/// Everything one run produced: the verdict, the executed cases with their
/// statuses, the tallies, and the ordered event transcript.
pub struct RunReport {
    pub verdict: RunVerdict,
    /// The executed cases, in execution order.
    pub results: Vec<CaseResult>,
    /// How many executed cases passed.
    pub successes: usize,
    /// How many executed cases did not pass.
    pub failures: usize,
    /// Whether fail-fast stopped the run early.
    pub aborted: bool,
    /// How many cases survived filtering.
    pub to_run: usize,
    /// How many registered tests were filtered out.
    pub skipped: usize,
    /// Whether the cleanup hook succeeded (true when none is registered).
    pub cleanup_ok: bool,
    /// The events of the run, in the order they were emitted.
    pub events: Vec<RunEvent>,
}

impl RunReport {
    /// Whether the whole run must count as failed: any failing case, an
    /// invalid configuration, a failed setup hook or a failed cleanup hook.
    /// The process exit status is non-zero exactly in this case.
    pub fn failed(&self) -> (r: bool)
        ensures
            r == (self.failures > 0 || !(self.verdict is Completed) || !self.cleanup_ok),
    {
        self.failures > 0 || !matches!(self.verdict, RunVerdict::Completed) || !self.cleanup_ok
    }
}

/// The glob text the run filters names by: the configured filter, or a
/// match-everything pattern when none is configured.
pub open spec fn spec_filter_pattern(config: TestifyConfigV) -> Seq<char> {
    match config.name_filter {
        Option::Some(p) => p,
        Option::None => "*"@,
    }
}

fn finish_run<R: Fn(RunEvent), C: FnOnce() -> bool>(
    events: &mut Vec<RunEvent>,
    report: &R,
    cleanup: Option<C>,
    failures: usize,
    successes: usize,
) -> (ok: bool)
    requires
        forall|ev: RunEvent| #[trigger] call_requires(*report, (ev,)),
        cleanup matches Some(f) ==> call_requires(f, ()),
    ensures
        final(events)@.len() >= old(events)@.len(),
        forall|i: int| 0 <= i < old(events)@.len() ==> final(events)@[i] == old(events)@[i],
        cleanup is Some ==> exists|j: int|
            old(events)@.len() <= j && j + 1 < final(events)@.len()
                && (#[trigger] final(events)@[j]) is CleanupStarted
                && final(events)@[j + 1] == (RunEvent::CleanupFinished { ok }),
        forall|i: int|
            old(events)@.len() <= i < final(events)@.len()
                ==> !((#[trigger] final(events)@[i]) is CaseFinished),
        cleanup is None ==> ok,
        cleanup matches Some(c) ==> call_ensures(c, (), ok),
        final(events)@.len() > 0,
        final(events)@.last() == (RunEvent::Summary { failures, successes }),
        case_statuses(final(events)@) == case_statuses(old(events)@),
        setup_events(final(events)@) == setup_events(old(events)@),
        cleanup_events(final(events)@) == cleanup_events(old(events)@) + (if cleanup is Some {
            1nat
        } else {
            0nat
        }),
{
    let ghost j0: int = events@.len() as int;
    let ghost some_cleanup: bool = cleanup is Some;
    let ok: bool = match cleanup {
        Option::Some(c) => {
            emit(events, report, RunEvent::CleanupStarted);
            proof {
                assert(events@[j0] is CleanupStarted);
            }
            let ok = c();
            emit(events, report, RunEvent::CleanupFinished { ok });
            ok
        },
        Option::None => true,
    };
    emit(events, report, RunEvent::Summary { failures, successes });
    proof {
        if some_cleanup {
            assert(events@[j0] is CleanupStarted);
            assert(events@[j0 + 1] == (RunEvent::CleanupFinished { ok }));
        }
        assert(case_statuses(events@) =~= case_statuses(old(events)@));
    }
    ok
}

/// Drives one whole run: the setup hook, filtering and organizing, the
/// ordered execution of every scheduled case with fail-fast, the cleanup
/// hook, and the final tally.
///
/// `isolate` is the registration layer's isolation boundary: handed a
/// descriptor's id, it invokes that test function, converts an abnormal
/// termination into `CaseOutcome::Panicked`, and reports the returned
/// value's verdict as `CaseOutcome::Completed`. `report` renders each
/// `RunEvent` as it happens; the same events are kept in the report.
pub fn run<F: Fn(usize) -> CaseOutcome, R: Fn(RunEvent), S: FnOnce() -> bool, C: FnOnce() -> bool>(
    tests: Vec<Test>,
    config: &TestifyConfig,
    setup: Option<S>,
    cleanup: Option<C>,
    isolate: F,
    report: R,
) -> (r: RunReport)
    requires
        forall|id: usize| #[trigger] call_requires(isolate, (id,)),
        forall|ev: RunEvent| #[trigger] call_requires(report, (ev,)),
        setup matches Some(f) ==> call_requires(f, ()),
        cleanup matches Some(f) ==> call_requires(f, ()),
    ensures
        ({
            let all = views_of(tests@);
            let pat = spec_filter_pattern(config@);
            let ord = run_order(all, config@, pat);
            let rs = result_views(r.results@);
            &&& (r.verdict is SetupFailed ==> setup is Some)
            &&& (r.verdict is InvalidPattern ==> !glob_ok(pat))
            &&& (r.verdict is Completed ==> glob_ok(pat))
            &&& (!(r.verdict is Completed) ==> rs.len() == 0 && !r.aborted && r.to_run == 0
                && r.skipped == 0)
            &&& (r.verdict is Completed ==> {
                &&& results_ok(rs, ord, config@.fail_fast)
                &&& (!r.aborted ==> rs.len() == ord.len())
                &&& (r.aborted ==> rs.len() > 0 && !(rs.last().status is Passed))
                &&& (r.aborted <==> config@.fail_fast && count_passed(rs) < rs.len())
                &&& r.to_run == ord.len()
                &&& r.skipped == all.len() - ord.len()
            })
            &&& r.successes == count_passed(rs)
            &&& r.failures == rs.len() - count_passed(rs)
            &&& forall|i: int| 0 <= i < rs.len() ==> status_from(isolate, #[trigger] rs[i])
            &&& (r.verdict is SetupFailed ==> (setup matches Some(f) && call_ensures(
                f,
                (),
                false,
            )))
            &&& (setup matches Some(f) ==> (!(r.verdict is SetupFailed) ==> call_ensures(
                f,
                (),
                true,
            )))
            &&& (cleanup matches Some(c) ==> (!(r.verdict is InvalidPattern) ==> call_ensures(
                c,
                (),
                r.cleanup_ok,
            )))
            &&& (cleanup is None ==> r.cleanup_ok)
            &&& (setup is Some ==> r.events@.len() > 0 && r.events@[0] is SetupStarted)
            &&& (setup is Some ==> r.events@.len() > 1 && r.events@[1] == (RunEvent::SetupFinished {
                ok: !(r.verdict is SetupFailed),
            }))
            &&& setup_events(r.events@) == (if setup is Some {
                1nat
            } else {
                0nat
            })
            &&& (cleanup is Some && !(r.verdict is InvalidPattern) ==> exists|j: int|
                0 <= j && j + 1 < r.events@.len() && (#[trigger] r.events@[j]) is CleanupStarted
                    && r.events@[j + 1] == (RunEvent::CleanupFinished { ok: r.cleanup_ok }) && (
                forall|i: int|
                    0 <= i < r.events@.len() && (#[trigger] r.events@[i]) is CaseFinished ==> i
                        < j))
            &&& (!(r.verdict is InvalidPattern) ==> cleanup_events(r.events@) == (
            if cleanup is Some {
                1nat
            } else {
                0nat
            }))
            &&& (r.verdict is InvalidPattern ==> cleanup_events(r.events@) == 0)
            &&& case_statuses(r.events@) == statuses_of(rs)
            &&& (!(r.verdict is InvalidPattern) ==> r.events@.len() > 0 && r.events@.last() == (
            RunEvent::Summary { failures: r.failures, successes: r.successes }))
            &&& (r.verdict is InvalidPattern ==> r.events@.len() > 0
                && r.events@.last() is ConfigError)
            &&& (r.verdict is Completed ==> exists|k: int|
                0 <= k < r.events@.len() && r.events@[k] == (RunEvent::Running {
                    to_run: r.to_run,
                    skipped: r.skipped,
                }))
            &&& (config@.name_filter is None ==> !(r.verdict is InvalidPattern))
            &&& ((r.verdict is Completed && config@.name_filter is None && config@.tags.len() == 0
                && config@.exclude_tags.len() == 0) ==> r.to_run == all.len() && r.skipped == 0)
        }),
{
    let ghost all: Seq<TestV> = views_of(tests@);
    let ghost pat: Seq<char> = spec_filter_pattern(config@);
    let mut events: Vec<RunEvent> = Vec::new();
    let ghost setup_some: bool = setup is Some;
    proof {
        assert(case_statuses(events@) == Seq::<TestStatus>::empty());
        assert(setup_events(events@) == 0);
        assert(cleanup_events(events@) == 0);
    }
    let setup_ok: bool = match setup {
        Option::Some(s) => {
            emit(&mut events, &report, RunEvent::SetupStarted);
            let ok = s();
            emit(&mut events, &report, RunEvent::SetupFinished { ok });
            proof {
                assert(events@[0] is SetupStarted);
                assert(events@[1] == (RunEvent::SetupFinished { ok }));
                assert(case_statuses(events@) =~= Seq::<TestStatus>::empty());
                assert(setup_events(events@) == 1);
                assert(cleanup_events(events@) == 0);
            }
            ok
        },
        Option::None => true,
    };
    if !setup_ok {
        let ghost before_finish: Seq<RunEvent> = events@;
        let cleanup_ok = finish_run(&mut events, &report, cleanup, 0, 0);
        let results: Vec<CaseResult> = Vec::new();
        proof {
            assert(result_views(results@) =~= Seq::<CaseResultV>::empty());
            assert(count_passed(Seq::<CaseResultV>::empty()) == 0);
            assert(forall|i: int|
                0 <= i < before_finish.len() ==> events@[i] == before_finish[i]);
            assert(statuses_of(result_views(results@)) =~= Seq::<TestStatus>::empty());
            assert(case_statuses(events@) =~= Seq::<TestStatus>::empty());
            if cleanup is Some {
                let j = choose|j: int|
                    before_finish.len() <= j && j + 1 < events@.len() && (#[trigger] events@[j]) is CleanupStarted
                        && events@[j + 1] == (RunEvent::CleanupFinished { ok: cleanup_ok });
                assert(forall|i: int|
                    0 <= i < events@.len() && (#[trigger] events@[i]) is CaseFinished ==> i < j);
            }
        }
        return RunReport {
            verdict: RunVerdict::SetupFailed,
            results,
            successes: 0,
            failures: 0,
            aborted: false,
            to_run: 0,
            skipped: 0,
            cleanup_ok,
            events,
        };
    }
    let filter_str: &str = match &config.name_filter {
        Option::Some(p) => p.as_str(),
        Option::None => "*",
    };
    proof {
        assert(filter_str@ == pat);
    }
    let pattern_opt = compile_pattern(filter_str);
    let pattern = match pattern_opt {
        Option::Some(p) => p,
        Option::None => {
            emit(&mut events, &report, RunEvent::ConfigError);
            let results: Vec<CaseResult> = Vec::new();
            proof {
                assert(result_views(results@) =~= Seq::<CaseResultV>::empty());
                assert(count_passed(Seq::<CaseResultV>::empty()) == 0);
                assert(statuses_of(result_views(results@)) =~= Seq::<TestStatus>::empty());
                assert(case_statuses(events@) =~= Seq::<TestStatus>::empty());
            }
            return RunReport {
                verdict: RunVerdict::InvalidPattern,
                results,
                successes: 0,
                failures: 0,
                aborted: false,
                to_run: 0,
                skipped: 0,
                cleanup_ok: true,
                events,
            };
        },
    };
    let total = tests.len();
    let groups = organize(tests, config, &pattern);
    proof {
        assert(pattern_of(pattern) == pat);
        lemma_organize_flat(all, config@, pat);
        lemma_sort_len(filtered_spec(all, config@, pat));
        lemma_filtered_len(all, config@, pat);
        assert(flat_groups(group_views(groups@)) == run_order(all, config@, pat));
        assert(run_order(all, config@, pat).len() <= all.len());
        assert(all.len() == total);
        if config@.name_filter is None && config@.tags.len() == 0 && config@.exclude_tags.len()
            == 0 {
            assert(forall|name: Seq<char>| glob_match(pat, name));
            assert(forall|i: int|
                0 <= i < all.len() ==> spec_included(#[trigger] all[i], config@, pat));
            lemma_filtered_all(all, config@, pat);
            assert(run_order(all, config@, pat).len() == all.len());
        }
    }
    let to_run = count_cases(&groups);
    let skipped = total - to_run;
    let ghost running_at: int = events@.len() as int;
    emit(&mut events, &report, RunEvent::Running { to_run, skipped });
    proof {
        assert(events@[running_at] == (RunEvent::Running { to_run, skipped }));
        assert(case_statuses(events@) =~= Seq::<TestStatus>::empty());
    }
    let stats = run_groups(groups, config.fail_fast, &isolate, &report, &mut events);
    proof {
        assert(case_statuses(events@) =~= statuses_of(result_views(stats.results@)));
    }
    let ghost before_finish: Seq<RunEvent> = events@;
    let cleanup_ok = finish_run(&mut events, &report, cleanup, stats.failures, stats.successes);
    proof {
        if cleanup is Some {
            let j = choose|j: int|
                before_finish.len() <= j && j + 1 < events@.len() && (#[trigger] events@[j]) is CleanupStarted
                    && events@[j + 1] == (RunEvent::CleanupFinished { ok: cleanup_ok });
            assert(forall|i: int|
                0 <= i < events@.len() && (#[trigger] events@[i]) is CaseFinished ==> i < j);
        }
        if setup_some {
            assert(events@[0] is SetupStarted);
            assert(events@[1] == (RunEvent::SetupFinished { ok: true }));
        }
        assert(events@[running_at] == (RunEvent::Running { to_run, skipped }));
        assert(case_statuses(events@) == statuses_of(result_views(stats.results@)));
    }
    RunReport {
        verdict: RunVerdict::Completed,
        results: stats.results,
        successes: stats.successes,
        failures: stats.failures,
        aborted: stats.aborted,
        to_run,
        skipped,
        cleanup_ok,
        events,
    }
}

} // verus!
