//! What the solver's failures say to the user.

use vstd::prelude::*;
use vstd::string::*;

verus! {

/// How a solve failed, with the names that the message needs as text.
#[derive(Debug)]
pub enum SolverFailure {
    /// No set of versions meets all constraints; holds the explanation that
    /// was drawn from the collapsed derivation tree.
    NoSolution(String),
    /// The dependencies of a package could not be read.
    ErrorRetrievingDependencies { package: String, version: String, source: String },
    /// No version could be chosen.
    ErrorChoosingPackageVersion(String),
    /// The question whether to go on failed.
    ErrorInShouldCancel(String),
    /// Another failure.
    Failure(String),
    /// A package depends on a package in no version at all.
    DependencyOnTheEmptySet { package: String, version: String, dependent: String },
    /// A package depends on itself.
    SelfDependency { package: String, version: String },
}

/// The message of a failure.
pub open spec fn message_of(failure: SolverFailure) -> Seq<char> {
    match failure {
        SolverFailure::NoSolution(report) => report@,
        SolverFailure::ErrorRetrievingDependencies { package, version, source } =>
            "fetching dependencies of "@ + package@ + " v"@ + version@ + ": "@ + source@,
        SolverFailure::ErrorChoosingPackageVersion(source) => source@,
        SolverFailure::ErrorInShouldCancel(source) => source@,
        SolverFailure::Failure(text) => text@,
        SolverFailure::DependencyOnTheEmptySet { package, version, dependent } => package@ + " v"@
            + version@ + "'s dependency on "@ + dependent@
            + " has self-contradictory version ranges"@,
        SolverFailure::SelfDependency { package, version } => package@ + " v"@ + version@
            + " depends on itself"@,
    }
}

/// Writes the message of a failure.
pub fn failure_message(failure: &SolverFailure) -> (r: String)
    ensures
        r@ == message_of(*failure),
{
    let mut out = String::new();
    match failure {
        SolverFailure::NoSolution(report) => {
            out.append(report.as_str());
        },
        SolverFailure::ErrorRetrievingDependencies { package, version, source } => {
            out.append("fetching dependencies of ");
            out.append(package.as_str());
            out.append(" v");
            out.append(version.as_str());
            out.append(": ");
            out.append(source.as_str());
        },
        SolverFailure::ErrorChoosingPackageVersion(source) => {
            out.append(source.as_str());
        },
        SolverFailure::ErrorInShouldCancel(source) => {
            out.append(source.as_str());
        },
        SolverFailure::Failure(text) => {
            out.append(text.as_str());
        },
        SolverFailure::DependencyOnTheEmptySet { package, version, dependent } => {
            out.append(package.as_str());
            out.append(" v");
            out.append(version.as_str());
            out.append("'s dependency on ");
            out.append(dependent.as_str());
            out.append(" has self-contradictory version ranges");
        },
        SolverFailure::SelfDependency { package, version } => {
            out.append(package.as_str());
            out.append(" v");
            out.append(version.as_str());
            out.append(" depends on itself");
        },
    }
    assert(out@ =~= message_of(*failure));
    out
}

} // verus!
