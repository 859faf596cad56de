use vstd::prelude::*;

use crate::glob_pat::{glob_match, pattern_matches, pattern_of};
use crate::order::{key_lt, str_eq, tags_eq, test_is_lt};
use crate::runner::{TestifyConfig, TestifyConfigV};
use crate::test::{Test, TestV};

verus! {

/// The descriptor contents of a sequence of descriptors.
pub open spec fn views_of(s: Seq<Test>) -> Seq<TestV> {
    s.map_values(|t: Test| t@)
}

/// Whether a descriptor survives filtering: it carries every required tag,
/// none of the excluded tags, and its name matches the glob pattern.
pub open spec fn spec_included(t: TestV, config: TestifyConfigV, pat: Seq<char>) -> bool {
    &&& forall|i: int| 0 <= i < config.tags.len() ==> #[trigger] t.tags.contains(config.tags[i])
    &&& forall|i: int|
        0 <= i < config.exclude_tags.len() ==> !(#[trigger] t.tags.contains(config.exclude_tags[i]))
    &&& glob_match(pat, t.name)
}

/// The subsequence of descriptors that survive filtering, in their
/// registration order.
pub open spec fn filtered_spec(s: Seq<TestV>, config: TestifyConfigV, pat: Seq<char>) -> Seq<TestV>
    decreases s.len(),
{
    if s.len() == 0 {
        Seq::empty()
    } else {
        filtered_spec(s.drop_last(), config, pat) + if spec_included(s.last(), config, pat) {
            seq![s.last()]
        } else {
            Seq::<TestV>::empty()
        }
    }
}

fn has_tag(tags: &Vec<String>, tag: &String) -> (r: bool)
    ensures
        r == tags.deep_view().contains(tag@),
{
    let n = tags.len();
    let mut i: usize = 0;
    while i < n
        invariant
            n == tags@.len(),
            i <= n,
            forall|j: int| 0 <= j < i ==> tags.deep_view()[j] != tag@,
        decreases n - i,
    {
        if str_eq(&tags[i], tag) {
            proof {
                assert(tags.deep_view()[i as int] == tag@);
            }
            return true;
        }
        i += 1;
    }
    false
}

fn included(t: &Test, config: &TestifyConfig, pattern: &glob::Pattern) -> (r: bool)
    ensures
        r == spec_included(t@, config@, pattern_of(*pattern)),
{
    let n = config.tags.len();
    let mut i: usize = 0;
    while i < n
        invariant
            n == config.tags@.len(),
            i <= n,
            forall|j: int| 0 <= j < i ==> t@.tags.contains(config@.tags[j]),
        decreases n - i,
    {
        proof {
            assert(config@.tags[i as int] == config.tags@[i as int]@);
        }
        if !has_tag(&t.tags, &config.tags[i]) {
            proof {
                assert(!t@.tags.contains(config@.tags[i as int]));
                assert(!spec_included(t@, config@, pattern_of(*pattern)));
            }
            return false;
        }
        i += 1;
    }
    let m = config.exclude_tags.len();
    let mut k: usize = 0;
    while k < m
        invariant
            m == config.exclude_tags@.len(),
            k <= m,
            forall|j: int| 0 <= j < k ==> !t@.tags.contains(config@.exclude_tags[j]),
        decreases m - k,
    {
        proof {
            assert(config@.exclude_tags[k as int] == config.exclude_tags@[k as int]@);
        }
        if has_tag(&t.tags, &config.exclude_tags[k]) {
            proof {
                assert(t@.tags.contains(config@.exclude_tags[k as int]));
                assert(!spec_included(t@, config@, pattern_of(*pattern)));
            }
            return false;
        }
        k += 1;
    }
    pattern_matches(pattern, t.name.as_str())
}

fn filter_tests(tests: Vec<Test>, config: &TestifyConfig, pattern: &glob::Pattern) -> (r: Vec<Test>)
    ensures
        views_of(r@) == filtered_spec(views_of(tests@), config@, pattern_of(*pattern)),
{
    let ghost orig: Seq<TestV> = views_of(tests@);
    let ghost cfg: TestifyConfigV = config@;
    let ghost pat: Seq<char> = pattern_of(*pattern);
    let mut rest = tests;
    let mut out: Vec<Test> = Vec::new();
    let ghost mut done: Seq<TestV> = Seq::empty();
    while rest.len() > 0
        invariant
            orig == done + views_of(rest@),
            views_of(out@) == filtered_spec(done, cfg, pat),
            cfg == config@,
            pat == pattern_of(*pattern),
        decreases rest.len(),
    {
        let ghost old_rest: Seq<TestV> = views_of(rest@);
        let t = rest.remove(0);
        proof {
            assert(views_of(rest@) =~= old_rest.drop_first());
            assert(done.push(t@) + views_of(rest@) =~= done + old_rest);
            assert((done.push(t@)).drop_last() =~= done);
            assert(filtered_spec(done.push(t@), cfg, pat) == filtered_spec(done, cfg, pat) + (
            if spec_included(t@, cfg, pat) {
                seq![t@]
            } else {
                Seq::<TestV>::empty()
            }));
        }
        if included(&t, config, pattern) {
            let ghost old_out: Seq<TestV> = views_of(out@);
            out.push(t);
            proof {
                assert(views_of(out@) =~= old_out + seq![t@]);
            }
        } else {
            proof {
                assert(views_of(out@) =~= views_of(out@) + Seq::<TestV>::empty());
            }
        }
        proof {
            done = done.push(t@);
        }
    }
    proof {
        assert(views_of(rest@) =~= Seq::<TestV>::empty());
        assert(done =~= orig);
    }
    out
}

/// Where a descriptor lands when it is placed into an ordered run: after
/// every descriptor that does not come strictly after it, so that equals
/// keep their relative order.
pub open spec fn insert_spec(s: Seq<TestV>, x: TestV) -> Seq<TestV>
    decreases s.len(),
{
    if s.len() == 0 {
        seq![x]
    } else if key_lt(x, s[0]) {
        seq![x] + s
    } else {
        seq![s[0]] + insert_spec(s.drop_first(), x)
    }
}

/// The stable ordering of a descriptor sequence under `key_lt`.
pub open spec fn sort_spec(s: Seq<TestV>) -> Seq<TestV>
    decreases s.len(),
{
    if s.len() == 0 {
        Seq::empty()
    } else {
        insert_spec(sort_spec(s.drop_last()), s.last())
    }
}

proof fn lemma_insert_spec_at(s: Seq<TestV>, x: TestV, j: int)
    requires
        0 <= j <= s.len(),
        forall|k: int| 0 <= k < j ==> !key_lt(x, s[k]),
        j < s.len() ==> key_lt(x, s[j]),
    ensures
        insert_spec(s, x) == s.insert(j, x),
    decreases j,
{
    if j == 0 {
        if s.len() == 0 {
            assert(insert_spec(s, x) =~= s.insert(0, x));
        } else {
            assert(key_lt(x, s[0]));
            assert(insert_spec(s, x) =~= s.insert(0, x));
        }
    } else {
        assert(!key_lt(x, s[0]));
        let tail = s.drop_first();
        lemma_insert_spec_at(tail, x, j - 1);
        assert(seq![s[0]] + tail.insert(j - 1, x) =~= s.insert(j, x));
    }
}

fn insert_sorted(list: Vec<Test>, x: Test) -> (r: Vec<Test>)
    ensures
        views_of(r@) == insert_spec(views_of(list@), x@),
{
    let n = list.len();
    let mut j: usize = 0;
    while j < n && !test_is_lt(&x, &list[j])
        invariant
            n == list@.len(),
            j <= n,
            forall|k: int| 0 <= k < j ==> !key_lt(x@, views_of(list@)[k]),
        decreases n - j,
    {
        j += 1;
    }
    proof {
        lemma_insert_spec_at(views_of(list@), x@, j as int);
    }
    let ghost old_views: Seq<TestV> = views_of(list@);
    let mut list = list;
    list.insert(j, x);
    proof {
        assert(views_of(list@) =~= old_views.insert(j as int, x@));
    }
    list
}

fn sort_tests(tests: Vec<Test>) -> (r: Vec<Test>)
    ensures
        views_of(r@) == sort_spec(views_of(tests@)),
{
    let ghost orig: Seq<TestV> = views_of(tests@);
    let mut rest = tests;
    let mut out: Vec<Test> = Vec::new();
    let ghost mut done: Seq<TestV> = Seq::empty();
    while rest.len() > 0
        invariant
            orig == done + views_of(rest@),
            views_of(out@) == sort_spec(done),
        decreases rest.len(),
    {
        let ghost old_rest: Seq<TestV> = views_of(rest@);
        let t = rest.remove(0);
        proof {
            assert(views_of(rest@) =~= old_rest.drop_first());
            assert(done.push(t@) + views_of(rest@) =~= done + old_rest);
            assert((done.push(t@)).drop_last() =~= done);
        }
        out = insert_sorted(out, t);
        proof {
            done = done.push(t@);
        }
    }
    proof {
        assert(views_of(rest@) =~= Seq::<TestV>::empty());
        assert(done =~= orig);
    }
    out
}

/// The mathematical content of a plan: all cases of one named test within a
/// group.
#[verifier::ext_equal]
pub ghost struct TestPlanV {
    pub name: Seq<char>,
    pub cases: Seq<TestV>,
}

/// The mathematical content of a group: all plans sharing one ordered tag
/// sequence.
#[verifier::ext_equal]
pub ghost struct TestGroupV {
    pub tags: Seq<Seq<char>>,
    pub plans: Seq<TestPlanV>,
}

/// All tests within a group that share a name; each case is one descriptor.
#[derive(Debug, PartialEq)]
pub struct TestPlan {
    pub name: String,
    pub cases: Vec<Test>,
}

/// All tests sharing an identical ordered tag sequence, as an ordered
/// sequence of plans.
#[derive(Debug, PartialEq)]
pub struct TestGroup {
    pub tags: Vec<String>,
    pub test_plans: Vec<TestPlan>,
}

impl View for TestPlan {
    type V = TestPlanV;

    open spec fn view(&self) -> TestPlanV {
        TestPlanV { name: self.name@, cases: views_of(self.cases@) }
    }
}

impl View for TestGroup {
    type V = TestGroupV;

    open spec fn view(&self) -> TestGroupV {
        TestGroupV { tags: self.tags.deep_view(), plans: self.test_plans@.map_values(|p: TestPlan| p@) }
    }
}

/// The group contents of a sequence of groups.
pub open spec fn group_views(s: Seq<TestGroup>) -> Seq<TestGroupV> {
    s.map_values(|g: TestGroup| g@)
}

/// The plan contents of a sequence of plans.
pub open spec fn plan_views(s: Seq<TestPlan>) -> Seq<TestPlanV> {
    s.map_values(|p: TestPlan| p@)
}

/// Where one descriptor lands when it is appended to a bucketed run: into
/// the last plan of the last group if tags and name both continue, into a
/// fresh plan of the last group if only the tags continue, and into a fresh
/// group otherwise.
pub open spec fn bucket_step(gs: Seq<TestGroupV>, t: TestV) -> Seq<TestGroupV> {
    if gs.len() > 0 && gs.last().tags == t.tags {
        let g = gs.last();
        if g.plans.len() > 0 && g.plans.last().name == t.name {
            let p = g.plans.last();
            let p2 = TestPlanV { name: p.name, cases: p.cases.push(t) };
            gs.update(
                gs.len() - 1,
                TestGroupV { tags: g.tags, plans: g.plans.update(g.plans.len() - 1, p2) },
            )
        } else {
            let p2 = TestPlanV { name: t.name, cases: seq![t] };
            gs.update(gs.len() - 1, TestGroupV { tags: g.tags, plans: g.plans.push(p2) })
        }
    } else {
        gs.push(TestGroupV { tags: t.tags, plans: seq![TestPlanV { name: t.name, cases: seq![t] }] })
    }
}

/// The grouping of an ordered descriptor sequence: one walk from the left,
/// starting a new group whenever the tag sequence changes and a new plan
/// whenever the name changes.
pub open spec fn bucket_spec(s: Seq<TestV>) -> Seq<TestGroupV>
    decreases s.len(),
{
    if s.len() == 0 {
        Seq::empty()
    } else {
        bucket_step(bucket_spec(s.drop_last()), s.last())
    }
}

pub(crate) fn clone_tags(tags: &Vec<String>) -> (r: Vec<String>)
    ensures
        r.deep_view() == tags.deep_view(),
{
    let n = tags.len();
    let mut out: Vec<String> = Vec::new();
    let mut i: usize = 0;
    while i < n
        invariant
            n == tags@.len(),
            i <= n,
            out@.len() == i,
            forall|j: int| 0 <= j < i ==> out.deep_view()[j] == tags.deep_view()[j],
        decreases n - i,
    {
        out.push(tags[i].clone());
        i += 1;
    }
    proof {
        assert(out.deep_view() =~= tags.deep_view());
    }
    out
}

fn singleton_group(t: Test) -> (g: TestGroup)
    ensures
        g@ == (TestGroupV {
            tags: t@.tags,
            plans: seq![TestPlanV { name: t@.name, cases: seq![t@] }],
        }),
{
    let tags = clone_tags(&t.tags);
    let name = t.name.clone();
    let mut cases: Vec<Test> = Vec::new();
    let ghost tv = t@;
    cases.push(t);
    let plan = TestPlan { name, cases };
    proof {
        assert(views_of(plan.cases@) =~= seq![tv]);
    }
    let mut test_plans: Vec<TestPlan> = Vec::new();
    test_plans.push(plan);
    let g = TestGroup { tags, test_plans };
    proof {
        assert(g@.plans =~= seq![TestPlanV { name: tv.name, cases: seq![tv] }]);
        assert(g@ =~= (TestGroupV {
            tags: tv.tags,
            plans: seq![TestPlanV { name: tv.name, cases: seq![tv] }],
        }));
    }
    g
}

fn singleton_plan(t: Test) -> (p: TestPlan)
    ensures
        p@ == (TestPlanV { name: t@.name, cases: seq![t@] }),
{
    let name = t.name.clone();
    let mut cases: Vec<Test> = Vec::new();
    let ghost tv = t@;
    cases.push(t);
    let p = TestPlan { name, cases };
    proof {
        assert(p@.cases =~= seq![tv]);
        assert(p@ =~= (TestPlanV { name: tv.name, cases: seq![tv] }));
    }
    p
}

fn bucket_tests(sorted: Vec<Test>) -> (r: Vec<TestGroup>)
    ensures
        group_views(r@) == bucket_spec(views_of(sorted@)),
{
    let ghost orig: Seq<TestV> = views_of(sorted@);
    let mut rest = sorted;
    let mut out: Vec<TestGroup> = Vec::new();
    let ghost mut done: Seq<TestV> = Seq::empty();
    while rest.len() > 0
        invariant
            orig == done + views_of(rest@),
            group_views(out@) == bucket_spec(done),
        decreases rest.len(),
    {
        let ghost old_rest: Seq<TestV> = views_of(rest@);
        let ghost old_groups: Seq<TestGroupV> = group_views(out@);
        let t = rest.remove(0);
        let ghost tv = t@;
        proof {
            assert(views_of(rest@) =~= old_rest.drop_first());
            assert(done.push(tv) + views_of(rest@) =~= done + old_rest);
            assert((done.push(tv)).drop_last() =~= done);
        }
        if out.len() == 0 {
            out.push(singleton_group(t));
            proof {
                assert(group_views(out@) =~= old_groups.push(
                    TestGroupV {
                        tags: tv.tags,
                        plans: seq![TestPlanV { name: tv.name, cases: seq![tv] }],
                    },
                ));
            }
        } else {
            let mut g = out.pop().unwrap();
            let ghost gv = g@;
            proof {
                assert(old_groups.last() == gv);
                assert(group_views(out@) =~= old_groups.drop_last());
            }
            if tags_eq(&g.tags, &t.tags) {
                if g.test_plans.len() > 0 {
                    let mut p = g.test_plans.pop().unwrap();
                    let ghost pv = p@;
                    proof {
                        assert(gv.plans.last() == pv);
                        assert(g@.plans =~= gv.plans.drop_last());
                    }
                    if str_eq(&p.name, &t.name) {
                        p.cases.push(t);
                        proof {
                            assert(p@ =~= (TestPlanV { name: pv.name, cases: pv.cases.push(tv) }));
                        }
                        g.test_plans.push(p);
                        proof {
                            assert(g@.plans =~= gv.plans.update(
                                gv.plans.len() - 1,
                                TestPlanV { name: pv.name, cases: pv.cases.push(tv) },
                            ));
                        }
                        out.push(g);
                        proof {
                            assert(group_views(out@) =~= bucket_step(old_groups, tv));
                        }
                    } else {
                        g.test_plans.push(p);
                        proof {
                            assert(g@ =~= gv);
                        }
                        let p2 = singleton_plan(t);
                        g.test_plans.push(p2);
                        proof {
                            assert(g@.plans =~= gv.plans.push(
                                TestPlanV { name: tv.name, cases: seq![tv] },
                            ));
                        }
                        out.push(g);
                        proof {
                            assert(group_views(out@) =~= bucket_step(old_groups, tv));
                        }
                    }
                } else {
                    let p2 = singleton_plan(t);
                    g.test_plans.push(p2);
                    proof {
                        assert(g@.plans =~= gv.plans.push(
                            TestPlanV { name: tv.name, cases: seq![tv] },
                        ));
                    }
                    out.push(g);
                    proof {
                        assert(group_views(out@) =~= bucket_step(old_groups, tv));
                    }
                }
            } else {
                out.push(g);
                proof {
                    assert(g@ =~= gv);
                    assert(group_views(out@) =~= old_groups);
                }
                out.push(singleton_group(t));
                proof {
                    assert(group_views(out@) =~= bucket_step(old_groups, tv));
                }
            }
        }
        proof {
            done = done.push(tv);
        }
    }
    proof {
        assert(views_of(rest@) =~= Seq::<TestV>::empty());
        assert(done =~= orig);
    }
    out
}

/// The execution plan for one run: the filtered descriptors, in their
/// stable order, bucketed into groups and plans.
pub open spec fn spec_organize(tests: Seq<TestV>, config: TestifyConfigV, pat: Seq<char>) -> Seq<
    TestGroupV,
> {
    bucket_spec(sort_spec(filtered_spec(tests, config, pat)))
}

/// Filters the registered descriptors by the configuration's tag and glob
/// rules, sorts the survivors by tags, name and case label, and buckets
/// them into groups of equal tag sequences and plans of equal names.
///
/// The result is the execution order of the run, a pure function of the
/// descriptor set and the configuration.
pub fn organize(tests: Vec<Test>, config: &TestifyConfig, pattern: &glob::Pattern) -> (groups: Vec<
    TestGroup,
>)
    ensures
        group_views(groups@) == spec_organize(views_of(tests@), config@, pattern_of(*pattern)),
{
    let filtered = filter_tests(tests, config, pattern);
    let sorted = sort_tests(filtered);
    bucket_tests(sorted)
}

/// The cases of a plan sequence, flattened in order.
pub open spec fn flat_plans(ps: Seq<TestPlanV>) -> Seq<TestV>
    decreases ps.len(),
{
    if ps.len() == 0 {
        Seq::empty()
    } else {
        flat_plans(ps.drop_last()) + ps.last().cases
    }
}

/// The cases of a group sequence, flattened in order: the order in which
/// the run controller executes them.
pub open spec fn flat_groups(gs: Seq<TestGroupV>) -> Seq<TestV>
    decreases gs.len(),
{
    if gs.len() == 0 {
        Seq::empty()
    } else {
        flat_groups(gs.drop_last()) + flat_plans(gs.last().plans)
    }
}

pub proof fn lemma_flat_plans_concat(a: Seq<TestPlanV>, b: Seq<TestPlanV>)
    ensures
        flat_plans(a + b) == flat_plans(a) + flat_plans(b),
    decreases b.len(),
{
    if b.len() == 0 {
        assert(a + b =~= a);
        assert(flat_plans(a) + flat_plans(b) =~= flat_plans(a));
    } else {
        assert((a + b).drop_last() =~= a + b.drop_last());
        assert((a + b).last() == b.last());
        lemma_flat_plans_concat(a, b.drop_last());
        assert(flat_plans(a) + flat_plans(b.drop_last()) + b.last().cases =~= flat_plans(a)
            + flat_plans(b));
    }
}

pub proof fn lemma_flat_groups_concat(a: Seq<TestGroupV>, b: Seq<TestGroupV>)
    ensures
        flat_groups(a + b) == flat_groups(a) + flat_groups(b),
    decreases b.len(),
{
    if b.len() == 0 {
        assert(a + b =~= a);
        assert(flat_groups(a) + flat_groups(b) =~= flat_groups(a));
    } else {
        assert((a + b).drop_last() =~= a + b.drop_last());
        assert((a + b).last() == b.last());
        lemma_flat_groups_concat(a, b.drop_last());
        assert(flat_groups(a) + flat_groups(b.drop_last()) + flat_plans(b.last().plans)
            =~= flat_groups(a) + flat_groups(b));
    }
}

/// Flattening one group gives the cases of its plans.
pub proof fn lemma_flat_groups_single(g: TestGroupV)
    ensures
        flat_groups(seq![g]) == flat_plans(g.plans),
{
    assert(seq![g].drop_last() =~= Seq::<TestGroupV>::empty());
    assert(flat_groups(seq![g]) == flat_groups(Seq::<TestGroupV>::empty()) + flat_plans(g.plans));
    assert(Seq::<TestV>::empty() + flat_plans(g.plans) =~= flat_plans(g.plans));
}

/// Flattening one plan gives its cases.
pub proof fn lemma_flat_plans_single(p: TestPlanV)
    ensures
        flat_plans(seq![p]) == p.cases,
{
    assert(seq![p].drop_last() =~= Seq::<TestPlanV>::empty());
    assert(flat_plans(seq![p]) == flat_plans(Seq::<TestPlanV>::empty()) + p.cases);
    assert(Seq::<TestV>::empty() + p.cases =~= p.cases);
}

proof fn lemma_flat_bucket_step(gs: Seq<TestGroupV>, t: TestV)
    ensures
        flat_groups(bucket_step(gs, t)) == flat_groups(gs) + seq![t],
{
    if gs.len() > 0 && gs.last().tags == t.tags {
        let g = gs.last();
        if g.plans.len() > 0 && g.plans.last().name == t.name {
            let p = g.plans.last();
            let p2 = TestPlanV { name: p.name, cases: p.cases.push(t) };
            let g2 = TestGroupV { tags: g.tags, plans: g.plans.update(g.plans.len() - 1, p2) };
            let gs2 = gs.update(gs.len() - 1, g2);
            assert(gs2.drop_last() =~= gs.drop_last());
            assert(gs2.last() == g2);
            assert(g2.plans.drop_last() =~= g.plans.drop_last());
            assert(g2.plans.last() == p2);
            assert(flat_plans(g2.plans) == flat_plans(g.plans.drop_last()) + p2.cases);
            assert(flat_plans(g.plans) == flat_plans(g.plans.drop_last()) + p.cases);
            assert(flat_groups(gs2) =~= flat_groups(gs) + seq![t]);
        } else {
            let p2 = TestPlanV { name: t.name, cases: seq![t] };
            let g2 = TestGroupV { tags: g.tags, plans: g.plans.push(p2) };
            let gs2 = gs.update(gs.len() - 1, g2);
            assert(gs2.drop_last() =~= gs.drop_last());
            assert(gs2.last() == g2);
            assert(g2.plans.drop_last() =~= g.plans);
            assert(g2.plans.last() == p2);
            assert(flat_plans(g2.plans) == flat_plans(g.plans) + p2.cases);
            assert(flat_groups(gs2) =~= flat_groups(gs) + seq![t]);
        }
    } else {
        let g2 = TestGroupV { tags: t.tags, plans: seq![TestPlanV { name: t.name, cases: seq![t] }] };
        let gs2 = gs.push(g2);
        assert(gs2.drop_last() =~= gs);
        assert(gs2.last() == g2);
        assert(g2.plans.drop_last() =~= Seq::<TestPlanV>::empty());
        assert(flat_plans(g2.plans) == flat_plans(g2.plans.drop_last()) + g2.plans.last().cases);
        assert(flat_plans(Seq::<TestPlanV>::empty()) == Seq::<TestV>::empty());
        assert(flat_plans(g2.plans) =~= seq![t]);
        assert(flat_groups(gs2) =~= flat_groups(gs) + seq![t]);
    }
}

/// Bucketing rearranges nothing: flattening the groups gives back exactly
/// the ordered descriptor sequence that was bucketed.
pub proof fn lemma_flat_bucket(s: Seq<TestV>)
    ensures
        flat_groups(bucket_spec(s)) == s,
    decreases s.len(),
{
    if s.len() == 0 {
    } else {
        lemma_flat_bucket(s.drop_last());
        lemma_flat_bucket_step(bucket_spec(s.drop_last()), s.last());
        assert(s.drop_last() + seq![s.last()] =~= s);
    }
}

/// The order in which the run controller executes the cases of a run: the
/// filtered descriptors in their stable order.
pub open spec fn run_order(tests: Seq<TestV>, config: TestifyConfigV, pat: Seq<char>) -> Seq<TestV> {
    sort_spec(filtered_spec(tests, config, pat))
}

/// The execution plan flattens to `run_order`.
pub proof fn lemma_organize_flat(tests: Seq<TestV>, config: TestifyConfigV, pat: Seq<char>)
    ensures
        flat_groups(spec_organize(tests, config, pat)) == run_order(tests, config, pat),
{
    lemma_flat_bucket(sort_spec(filtered_spec(tests, config, pat)));
}

/// Determinism law: organizing equal descriptor sets under equal
/// configurations and equal patterns yields identical group, plan and case
/// structures, so two runs over the same inputs execute the same cases in
/// the same order.
pub proof fn lemma_organize_deterministic(
    tests1: Seq<TestV>,
    tests2: Seq<TestV>,
    config1: TestifyConfigV,
    config2: TestifyConfigV,
    pat1: Seq<char>,
    pat2: Seq<char>,
)
    requires
        tests1 == tests2,
        config1 == config2,
        pat1 == pat2,
    ensures
        spec_organize(tests1, config1, pat1) == spec_organize(tests2, config2, pat2),
        run_order(tests1, config1, pat1) == run_order(tests2, config2, pat2),
{
}

proof fn lemma_singleton_contains(x: TestV, t: TestV)
    ensures
        seq![x].contains(t) <==> t == x,
{
    if t == x {
        assert(seq![x][0] == x);
    }
    if seq![x].contains(t) {
        let i = choose|i: int| 0 <= i < seq![x].len() && seq![x][i] == t;
        assert(i == 0);
    }
}

proof fn lemma_concat_contains(a: Seq<TestV>, b: Seq<TestV>, x: TestV)
    ensures
        (a + b).contains(x) <==> (a.contains(x) || b.contains(x)),
{
    if a.contains(x) {
        let i = choose|i: int| 0 <= i < a.len() && a[i] == x;
        assert((a + b)[i] == x);
    }
    if b.contains(x) {
        let i = choose|i: int| 0 <= i < b.len() && b[i] == x;
        assert((a + b)[a.len() + i] == x);
    }
    if (a + b).contains(x) {
        let i = choose|i: int| 0 <= i < (a + b).len() && (a + b)[i] == x;
        if i < a.len() {
            assert(a[i] == x);
        } else {
            assert(b[i - a.len()] == x);
        }
    }
}

proof fn lemma_filtered_contains(s: Seq<TestV>, config: TestifyConfigV, pat: Seq<char>, t: TestV)
    ensures
        filtered_spec(s, config, pat).contains(t) <==> (s.contains(t) && spec_included(
            t,
            config,
            pat,
        )),
    decreases s.len(),
{
    if s.len() == 0 {
    } else {
        lemma_filtered_contains(s.drop_last(), config, pat, t);
        let tail: Seq<TestV> = if spec_included(s.last(), config, pat) {
            seq![s.last()]
        } else {
            Seq::<TestV>::empty()
        };
        lemma_concat_contains(filtered_spec(s.drop_last(), config, pat), tail, t);
        assert(s.drop_last() + seq![s.last()] =~= s);
        lemma_concat_contains(s.drop_last(), seq![s.last()], t);
        lemma_singleton_contains(s.last(), t);
        if tail.len() == 1 {
            assert(tail.contains(t) <==> t == s.last());
        } else {
            assert(!tail.contains(t));
        }
    }
}

proof fn lemma_insert_contains(s: Seq<TestV>, x: TestV, t: TestV)
    ensures
        insert_spec(s, x).contains(t) <==> (s.contains(t) || t == x),
    decreases s.len(),
{
    if s.len() == 0 {
        lemma_singleton_contains(x, t);
        assert(!s.contains(t));
    } else if key_lt(x, s[0]) {
        lemma_concat_contains(seq![x], s, t);
        lemma_singleton_contains(x, t);
    } else {
        lemma_insert_contains(s.drop_first(), x, t);
        lemma_concat_contains(seq![s[0]], insert_spec(s.drop_first(), x), t);
        lemma_singleton_contains(s[0], t);
        assert(seq![s[0]] + s.drop_first() =~= s);
        lemma_concat_contains(seq![s[0]], s.drop_first(), t);
    }
}

proof fn lemma_sort_contains(s: Seq<TestV>, t: TestV)
    ensures
        sort_spec(s).contains(t) <==> s.contains(t),
    decreases s.len(),
{
    if s.len() == 0 {
    } else {
        lemma_sort_contains(s.drop_last(), t);
        lemma_insert_contains(sort_spec(s.drop_last()), s.last(), t);
        assert(s.drop_last() + seq![s.last()] =~= s);
        lemma_concat_contains(s.drop_last(), seq![s.last()], t);
        lemma_singleton_contains(s.last(), t);
    }
}

/// Filter correctness law: a descriptor appears in the execution order of a
/// run exactly when it is among the registered descriptors, carries every
/// required tag, carries none of the excluded tags, and its name matches
/// the glob pattern.
pub proof fn lemma_filter_correct(
    tests: Seq<TestV>,
    config: TestifyConfigV,
    pat: Seq<char>,
    t: TestV,
)
    ensures
        run_order(tests, config, pat).contains(t) <==> (tests.contains(t) && spec_included(
            t,
            config,
            pat,
        )),
{
    lemma_sort_contains(filtered_spec(tests, config, pat), t);
    lemma_filtered_contains(tests, config, pat, t);
}

/// A well-formed plan holds at least one case, and every case carries the
/// plan's name.
pub open spec fn plan_wf(p: TestPlanV) -> bool {
    &&& p.cases.len() > 0
    &&& forall|j: int| 0 <= j < p.cases.len() ==> (#[trigger] p.cases[j]).name == p.name
}

/// Every case of the plan carries the tag sequence `tags`.
pub open spec fn plan_tagged(p: TestPlanV, tags: Seq<Seq<char>>) -> bool {
    forall|j: int| 0 <= j < p.cases.len() ==> (#[trigger] p.cases[j]).tags == tags
}

/// A well-formed group holds at least one plan; each plan is well-formed,
/// all its cases carry the group's tag sequence, and neighbouring plans
/// carry different names.
pub open spec fn group_wf(g: TestGroupV) -> bool {
    &&& g.plans.len() > 0
    &&& forall|i: int| 0 <= i < g.plans.len() ==> plan_wf(#[trigger] g.plans[i])
    &&& forall|i: int| 0 <= i < g.plans.len() ==> plan_tagged(#[trigger] g.plans[i], g.tags)
    &&& forall|i: int| 0 <= i < g.plans.len() - 1 ==> (#[trigger] g.plans[i]).name != g.plans[
        i + 1
    ].name
}

/// A well-formed execution plan: every group is well-formed and
/// neighbouring groups carry different tag sequences.
pub open spec fn groups_wf(gs: Seq<TestGroupV>) -> bool {
    &&& forall|i: int| 0 <= i < gs.len() ==> group_wf(#[trigger] gs[i])
    &&& forall|i: int| 0 <= i < gs.len() - 1 ==> (#[trigger] gs[i]).tags != gs[i + 1].tags
}

proof fn lemma_bucket_step_wf(gs: Seq<TestGroupV>, t: TestV)
    requires
        groups_wf(gs),
    ensures
        groups_wf(bucket_step(gs, t)),
{
    let gs2 = bucket_step(gs, t);
    if gs.len() > 0 && gs.last().tags == t.tags {
        let g = gs.last();
        assert(group_wf(g));
        if g.plans.len() > 0 && g.plans.last().name == t.name {
            let p = g.plans.last();
            let p2 = TestPlanV { name: p.name, cases: p.cases.push(t) };
            let g2 = TestGroupV { tags: g.tags, plans: g.plans.update(g.plans.len() - 1, p2) };
            assert(plan_wf(p));
            assert(plan_wf(p2));
            assert(plan_tagged(p2, g.tags));
            assert(group_wf(g2));
            assert forall|i: int| 0 <= i < gs2.len() implies group_wf(#[trigger] gs2[i]) by {
                if i < gs.len() - 1 {
                    assert(gs2[i] == gs[i]);
                } else {
                    assert(gs2[i] == g2);
                }
            }
        } else {
            let p2 = TestPlanV { name: t.name, cases: seq![t] };
            let g2 = TestGroupV { tags: g.tags, plans: g.plans.push(p2) };
            assert(plan_wf(p2));
            assert(plan_tagged(p2, g.tags));
            assert(g.plans.len() > 0);
            assert(g.plans.last().name != t.name);
            assert forall|i: int| 0 <= i < g2.plans.len() - 1 implies (#[trigger] g2.plans[
                i
            ]).name != g2.plans[i + 1].name by {
                if i < g.plans.len() - 1 {
                    assert(g2.plans[i] == g.plans[i]);
                    assert(g2.plans[i + 1] == g.plans[i + 1]);
                } else {
                    assert(g2.plans[i] == g.plans.last());
                    assert(g2.plans[i + 1] == p2);
                }
            }
            assert(group_wf(g2));
            assert forall|i: int| 0 <= i < gs2.len() implies group_wf(#[trigger] gs2[i]) by {
                if i < gs.len() - 1 {
                    assert(gs2[i] == gs[i]);
                } else {
                    assert(gs2[i] == g2);
                }
            }
        }
    } else {
        let g2 = TestGroupV { tags: t.tags, plans: seq![TestPlanV { name: t.name, cases: seq![t] }] };
        assert(plan_wf(g2.plans[0]));
        assert(plan_tagged(g2.plans[0], g2.tags));
        assert(group_wf(g2));
        assert forall|i: int| 0 <= i < gs2.len() implies group_wf(#[trigger] gs2[i]) by {
            if i < gs.len() {
                assert(gs2[i] == gs[i]);
            } else {
                assert(gs2[i] == g2);
            }
        }
        if gs.len() > 0 {
            assert(gs2[gs.len() - 1].tags != gs2[gs.len() as int].tags);
        }
    }
}

/// Grouping correctness law: however the descriptors were filtered and
/// ordered, the execution plan's shape is sound. Every group holds at least
/// one plan and every plan at least one case; all cases of a plan carry the
/// plan's name, all cases of a group carry the group's tag sequence; a new
/// plan starts only where the name changes and a new group only where the
/// tag sequence changes.
pub proof fn lemma_organize_wf(tests: Seq<TestV>, config: TestifyConfigV, pat: Seq<char>)
    ensures
        groups_wf(spec_organize(tests, config, pat)),
{
    lemma_bucket_wf(run_order(tests, config, pat));
}

proof fn lemma_bucket_wf(s: Seq<TestV>)
    ensures
        groups_wf(bucket_spec(s)),
    decreases s.len(),
{
    if s.len() > 0 {
        lemma_bucket_wf(s.drop_last());
        lemma_bucket_step_wf(bucket_spec(s.drop_last()), s.last());
    }
}

proof fn lemma_insert_multiset(s: Seq<TestV>, x: TestV)
    ensures
        insert_spec(s, x).to_multiset() == s.to_multiset().insert(x),
    decreases s.len(),
{
    broadcast use vstd::seq_lib::to_multiset_insert;
    broadcast use vstd::seq_lib::lemma_multiset_commutative;

    if s.len() == 0 {
        assert(insert_spec(s, x) =~= s.insert(0, x));
    } else if key_lt(x, s[0]) {
        assert(insert_spec(s, x) =~= s.insert(0, x));
    } else {
        let tail = s.drop_first();
        lemma_insert_multiset(tail, x);
        assert(insert_spec(s, x) == seq![s[0]] + insert_spec(tail, x));
        assert(s =~= seq![s[0]] + tail);
        assert((seq![s[0]] + insert_spec(tail, x)).to_multiset() == seq![s[0]].to_multiset().add(
            insert_spec(tail, x).to_multiset(),
        ));
        assert((seq![s[0]] + tail).to_multiset() == seq![s[0]].to_multiset().add(
            tail.to_multiset(),
        ));
        assert(seq![s[0]].to_multiset().add(tail.to_multiset().insert(x)) =~= (
        seq![s[0]].to_multiset().add(tail.to_multiset())).insert(x));
    }
}

proof fn lemma_sort_multiset(s: Seq<TestV>)
    ensures
        sort_spec(s).to_multiset() == s.to_multiset(),
    decreases s.len(),
{
    broadcast use vstd::seq_lib::to_multiset_build;

    if s.len() == 0 {
        assert(sort_spec(s) =~= s);
    } else {
        lemma_sort_multiset(s.drop_last());
        lemma_insert_multiset(sort_spec(s.drop_last()), s.last());
        assert(s.drop_last().push(s.last()).to_multiset() =~= s.drop_last().to_multiset().insert(
            s.last(),
        ));
        assert(s =~= s.drop_last().push(s.last()));
    }
}

/// Permutation law: ordering the filtered descriptors only rearranges them;
/// the execution order holds exactly the descriptors that survive
/// filtering, each as often as it was registered.
pub proof fn lemma_run_order_permutation(tests: Seq<TestV>, config: TestifyConfigV, pat: Seq<char>)
    ensures
        run_order(tests, config, pat).to_multiset() == filtered_spec(tests, config, pat)
            .to_multiset(),
{
    lemma_sort_multiset(filtered_spec(tests, config, pat));
}

proof fn lemma_insert_len(s: Seq<TestV>, x: TestV)
    ensures
        insert_spec(s, x).len() == s.len() + 1,
    decreases s.len(),
{
    if s.len() == 0 {
    } else if key_lt(x, s[0]) {
    } else {
        lemma_insert_len(s.drop_first(), x);
    }
}

/// Sorting keeps the number of descriptors.
pub proof fn lemma_sort_len(s: Seq<TestV>)
    ensures
        sort_spec(s).len() == s.len(),
    decreases s.len(),
{
    if s.len() == 0 {
    } else {
        lemma_sort_len(s.drop_last());
        lemma_insert_len(sort_spec(s.drop_last()), s.last());
    }
}

/// A filter that every descriptor satisfies keeps the whole sequence.
pub proof fn lemma_filtered_all(s: Seq<TestV>, config: TestifyConfigV, pat: Seq<char>)
    requires
        forall|i: int| 0 <= i < s.len() ==> spec_included(#[trigger] s[i], config, pat),
    ensures
        filtered_spec(s, config, pat) == s,
    decreases s.len(),
{
    if s.len() == 0 {
        assert(filtered_spec(s, config, pat) =~= s);
    } else {
        lemma_filtered_all(s.drop_last(), config, pat);
        assert(spec_included(s.last(), config, pat));
        assert(s.drop_last() + seq![s.last()] =~= s);
    }
}

/// Filter correctness with a match-everything pattern: scheduling is then
/// decided by the tag rules alone. The required glob fact is what
/// compiling the default pattern yields.
pub proof fn lemma_filter_correct_match_all(
    tests: Seq<TestV>,
    config: TestifyConfigV,
    pat: Seq<char>,
    t: TestV,
)
    requires
        forall|name: Seq<char>| glob_match(pat, name),
    ensures
        run_order(tests, config, pat).contains(t) <==> (tests.contains(t) && (forall|i: int|
            0 <= i < config.tags.len() ==> #[trigger] t.tags.contains(config.tags[i])) && (forall|
            j: int|
            0 <= j < config.exclude_tags.len() ==> !(#[trigger] t.tags.contains(
                config.exclude_tags[j],
            )))),
{
    lemma_filter_correct(tests, config, pat, t);
}

/// Filtering never grows the descriptor set.
pub proof fn lemma_filtered_len(s: Seq<TestV>, config: TestifyConfigV, pat: Seq<char>)
    ensures
        filtered_spec(s, config, pat).len() <= s.len(),
    decreases s.len(),
{
    if s.len() == 0 {
    } else {
        lemma_filtered_len(s.drop_last(), config, pat);
    }
}

} // verus!
