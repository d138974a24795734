use vstd::prelude::*;

use crate::version::{
    lemma_version_order_total, spec_version_chars, version_eq, version_le, version_lt,
    SemanticVersion,
};

verus! {

/// The compatibility decision: an installed toolchain at or below the
/// declared minimum is accepted silently; a newer one draws a warning,
/// never a refusal.
#[derive(Debug)]
pub enum Outcome {
    Compatible,
    NewerThanExpected(SemanticVersion, SemanticVersion),
}

/// What `check` decides for a pair of versions.
pub open spec fn spec_check(installed: SemanticVersion, declared: SemanticVersion) -> Outcome {
    if version_le(installed, declared) {
        Outcome::Compatible
    } else {
        Outcome::NewerThanExpected(installed, declared)
    }
}

/// Compares the installed version against the declared minimum. Pure and
/// total: it performs no I/O and never fails.
pub fn check(installed: SemanticVersion, declared: SemanticVersion) -> (r: Outcome)
    ensures
        r == spec_check(installed, declared),
{
    if installed.le(&declared) {
        Outcome::Compatible
    } else {
        Outcome::NewerThanExpected(installed, declared)
    }
}

/// Law: the outcome is `Compatible` exactly when the installed version is at
/// most the declared minimum in the semantic-version order.
pub proof fn lemma_compatible_iff(installed: SemanticVersion, declared: SemanticVersion)
    ensures
        spec_check(installed, declared) == Outcome::Compatible <==> version_le(installed, declared),
{
}

/// Law: the outcome is `NewerThanExpected` exactly when the installed version
/// strictly exceeds the declared minimum, it then carries the two versions,
/// and exactly one of the two outcomes holds.
pub proof fn lemma_newer_than_expected_iff(installed: SemanticVersion, declared: SemanticVersion)
    ensures
        spec_check(installed, declared) is NewerThanExpected <==> version_lt(declared, installed),
        spec_check(installed, declared) is NewerThanExpected ==> spec_check(installed, declared)
            == Outcome::NewerThanExpected(installed, declared),
        spec_check(installed, declared) is NewerThanExpected <==> !(spec_check(installed, declared)
            is Compatible),
{
    lemma_version_order_total(installed, declared);
}

/// The text of the warning for a newer-than-expected toolchain, holding both
/// version texts.
pub open spec fn spec_warning_chars(installed: SemanticVersion, declared: SemanticVersion) -> Seq<
    char,
> {
    "Found toolchain version "@ + spec_version_chars(installed)
        + ", which is greater than the suggested version "@ + spec_version_chars(declared)
}

/// Renders the warning that the diagnostic sink shows for a
/// `NewerThanExpected` outcome.
pub fn warning_message(installed: &SemanticVersion, declared: &SemanticVersion) -> (r: String)
    ensures
        r@ == spec_warning_chars(*installed, *declared),
{
    let mut s = String::from_str("Found toolchain version ");
    s.append(installed.to_text().as_str());
    s.append(", which is greater than the suggested version ");
    s.append(declared.to_text().as_str());
    proof {
        assert(s@ =~= spec_warning_chars(*installed, *declared));
    }
    s
}

} // verus!
