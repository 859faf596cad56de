use vstd::prelude::*;

verus! {

/// The outcome of executing one registered test.
///
/// Only `Passed` counts as a success; the other four variants are distinct
/// failure reasons kept apart for diagnostics.
#[derive(Clone, Copy, Debug, PartialEq, Eq)]
pub enum TestStatus {
    Passed,
    /// The test terminated abnormally although abnormal termination was not
    /// expected.
    Panicked,
    /// The test was expected to terminate abnormally, but it did not.
    NotPanicked,
    /// The test completed normally with a failing result, and failure was
    /// not expected.
    Failed,
    /// The test was expected to fail, but it succeeded.
    NotFailed,
}

impl TestStatus {
    /// Whether this status counts as a success for pass/fail accounting.
    pub open spec fn spec_is_passed(self) -> bool {
        self is Passed
    }

    pub fn is_passed(&self) -> (r: bool)
        ensures
            r == self.spec_is_passed(),
    {
        match self {
            TestStatus::Passed => true,
            _ => false,
        }
    }
}

/// The raw outcome of invoking a test function under the abnormal-termination
/// isolation boundary, before the declared expectations are taken into
/// account.
#[derive(Clone, Copy, Debug, PartialEq, Eq)]
pub enum CaseOutcome {
    /// The function terminated abnormally (the isolation boundary caught an
    /// unwind).
    Panicked,
    /// The function returned normally; `success` is the verdict of its
    /// return value.
    Completed { success: bool },
}

/// The mathematical content of a test descriptor.
#[verifier::ext_equal]
pub ghost struct TestV {
    pub name: Seq<char>,
    pub case: Option<Seq<char>>,
    pub tags: Seq<Seq<char>>,
    pub should_panic: bool,
    pub should_fail: bool,
    pub id: nat,
}

/// An immutable descriptor for one registered test.
///
/// `id` is the handle under which the registration layer knows the test's
/// executable function; the engine itself never runs user code directly and
/// only hands the handle back when the case is scheduled.
#[derive(Clone, Debug, PartialEq)]
pub struct Test {
    pub name: String,
    pub case: Option<String>,
    pub tags: Vec<String>,
    pub should_panic: bool,
    pub should_fail: bool,
    pub id: usize,
}

impl View for Test {
    type V = TestV;

    open spec fn view(&self) -> TestV {
        TestV {
            name: self.name@,
            case: self.case.deep_view(),
            tags: self.tags.deep_view(),
            should_panic: self.should_panic,
            should_fail: self.should_fail,
            id: self.id as nat,
        }
    }
}

/// The status table: how a raw outcome combines with the declared
/// expectations of a descriptor.
///
/// - abnormal termination: passes exactly when `should_panic` was declared;
/// - normal termination under `should_panic`: the required abnormal
///   termination did not occur;
/// - normal termination under `should_fail`: the verdicts are inverted;
/// - otherwise the verdict of the returned value decides.
pub open spec fn spec_classify(outcome: CaseOutcome, should_panic: bool, should_fail: bool) -> TestStatus {
    match outcome {
        CaseOutcome::Panicked => if should_panic {
            TestStatus::Passed
        } else {
            TestStatus::Panicked
        },
        CaseOutcome::Completed { success } => if should_panic {
            TestStatus::NotPanicked
        } else if should_fail {
            if success {
                TestStatus::NotFailed
            } else {
                TestStatus::Passed
            }
        } else {
            if success {
                TestStatus::Passed
            } else {
                TestStatus::Failed
            }
        },
    }
}

/// Translates the raw outcome of one invocation into a `TestStatus`, honouring
/// the descriptor's declared expectations.
pub fn classify(outcome: CaseOutcome, should_panic: bool, should_fail: bool) -> (r: TestStatus)
    ensures
        r == spec_classify(outcome, should_panic, should_fail),
{
    match outcome {
        CaseOutcome::Panicked => if should_panic {
            TestStatus::Passed
        } else {
            TestStatus::Panicked
        },
        CaseOutcome::Completed { success } => if should_panic {
            TestStatus::NotPanicked
        } else if should_fail {
            if success {
                TestStatus::NotFailed
            } else {
                TestStatus::Passed
            }
        } else {
            if success {
                TestStatus::Passed
            } else {
                TestStatus::Failed
            }
        },
    }
}

/// The polymorphic success verdict of a test function's return value.
///
/// Implementors state in `success_spec` what counts as success; `success`
/// computes it.
pub trait TestTermination {
    spec fn success_spec(&self) -> bool;

    fn success(&self) -> (r: bool)
        ensures
            r == self.success_spec(),
    ;
}

impl TestTermination for () {
    open spec fn success_spec(&self) -> bool {
        true
    }

    fn success(&self) -> (r: bool)
        ensures
            r == self.success_spec(),
    {
        true
    }
}

impl<T: TestTermination, E> TestTermination for Result<T, E> {
    open spec fn success_spec(&self) -> bool {
        match self {
            Ok(v) => v.success_spec(),
            Err(_) => false,
        }
    }

    fn success(&self) -> (r: bool)
        ensures
            r == self.success_spec(),
    {
        match self {
            Ok(v) => v.success(),
            Err(_) => false,
        }
    }
}

impl<T: TestTermination> TestTermination for Option<T> {
    open spec fn success_spec(&self) -> bool {
        match self {
            Some(v) => v.success_spec(),
            None => false,
        }
    }

    fn success(&self) -> (r: bool)
        ensures
            r == self.success_spec(),
    {
        match self {
            Some(v) => v.success(),
            None => false,
        }
    }
}

} // verus!
