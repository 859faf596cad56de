use vstd::prelude::*;

verus! {

#[verifier::external_type_specification]
#[verifier::external_body]
pub struct ExPattern(glob::Pattern);

/// Whether `glob::Pattern::new` accepts `pattern` as a well-formed
/// shell-style glob.
pub uninterp spec fn glob_ok(pattern: Seq<char>) -> bool;

/// The source text that a compiled `glob::Pattern` holds; `Pattern::as_str`
/// returns it unchanged.
pub uninterp spec fn pattern_of(p: glob::Pattern) -> Seq<char>;

/// Whether a name matches a glob pattern, as `glob::Pattern::matches`
/// decides it; the result depends on the pattern's source text and the name
/// alone.
pub uninterp spec fn glob_match(pattern: Seq<char>, name: Seq<char>) -> bool;

/// Relies on glob::Pattern::new: compilation succeeds exactly when the
/// pattern is well-formed, and the compiled pattern keeps the source text
/// that was handed in. The text `*` compiles to a single any-sequence
/// wildcard, which `Pattern::matches` accepts against every name.
#[verifier::external_body]
pub(crate) fn compile_pattern(pattern: &str) -> (r: Option<glob::Pattern>)
    ensures
        r is Some <==> glob_ok(pattern@),
        r matches Some(p) ==> pattern_of(p) == pattern@,
        pattern@ == "*"@ ==> r is Some,
        (r is Some && pattern@ == "*"@) ==> forall|name: Seq<char>| glob_match(pattern@, name),
{
    glob::Pattern::new(pattern).ok()
}

/// Relies on glob::Pattern::matches: the answer is a function of the
/// pattern's source text and the name.
#[verifier::external_body]
pub(crate) fn pattern_matches(p: &glob::Pattern, name: &str) -> (r: bool)
    ensures
        r == glob_match(pattern_of(*p), name@),
{
    p.matches(name)
}

} // verus!
