use vstd::prelude::*;

use crate::version::{version_eq, version_matches, SemanticVersion};

verus! {

/// Discovering the installed toolchain's version can fail in these ways.
#[derive(Debug)]
pub enum ProbeError {
    /// The compiler could not be located or run; holds the reported cause.
    NotFound(String),
    /// Its reported version does not conform to the semantic-version
    /// grammar; holds the reported text.
    Unparseable(String),
}

/// Relies on `rustc_version::version()`: queries the host environment for
/// the installed compiler's version. The outcome depends on the host, so
/// nothing is stated of it; `Ok` carries the reported version text, `Err`
/// the reported cause.
#[verifier::external_body]
fn query_host_toolchain() -> (r: Result<String, String>)
{
    match rustc_version::version() {
        Ok(v) => Ok(v.to_string()),
        Err(e) => Err(e.to_string()),
    }
}

/// How the probe's outcome follows from what the host reported: a failure to
/// locate the compiler is `NotFound`, a version text is read as a semantic
/// version or refused as `Unparseable`.
pub open spec fn interprets_probe(raw: Result<String, String>, r: Result<SemanticVersion, ProbeError>) -> bool {
    &&& (raw matches Result::Err(m) ==> r matches Result::Err(e) && e matches ProbeError::NotFound(
        cause,
    ) && cause@ == m@)
    &&& (raw matches Result::Ok(s) ==> {
        &&& (r matches Result::Ok(v) ==> version_matches(s@, v) && v.wf())
        &&& ((exists|v: SemanticVersion| version_matches(s@, v)) ==> r is Ok)
        &&& (r matches Result::Err(e) ==> e matches ProbeError::Unparseable(bad) && bad@ == s@ && (
        forall|v: SemanticVersion| !version_matches(s@, v)))
    })
}

/// Turns what the host reported into the installed version, or the matching
/// error.
pub fn interpret_probe(raw: Result<String, String>) -> (r: Result<SemanticVersion, ProbeError>)
    ensures
        interprets_probe(raw, r),
{
    match raw {
        Result::Err(m) => Result::Err(ProbeError::NotFound(m)),
        Result::Ok(s) => match crate::version::parse_version(s.as_str()) {
            Option::Some(v) => Result::Ok(v),
            Option::None => Result::Err(ProbeError::Unparseable(s)),
        },
    }
}

/// Discovers the installed compiler's semantic version. Whatever the host
/// reports, a success is a well-formed version.
pub fn get_installed_version() -> (r: Result<SemanticVersion, ProbeError>)
    ensures
        r matches Result::Ok(v) ==> v.wf(),
{
    interpret_probe(query_host_toolchain())
}

/// The capability of discovering a toolchain version. The environment-backed
/// probe answers from the host; a fixed probe answers with a version chosen
/// in advance, so the comparison can be exercised deterministically.
pub trait Probe {
    /// The version this probe is bound to report, if it was fixed in
    /// advance.
    spec fn fixed(&self) -> Option<SemanticVersion>;

    fn installed_version(&self) -> (r: Result<SemanticVersion, ProbeError>)
        ensures
            r matches Result::Ok(v) ==> v.wf(),
            self.fixed() matches Option::Some(v0) ==> r matches Result::Ok(v) && version_eq(
                v,
                v0,
            ),
    ;
}

/// The probe that asks the host environment.
pub struct HostProbe {}

impl Probe for HostProbe {
    open spec fn fixed(&self) -> Option<SemanticVersion> {
        Option::None
    }

    fn installed_version(&self) -> (r: Result<SemanticVersion, ProbeError>)
        ensures
            r matches Result::Ok(v) ==> v.wf(),
            self.fixed() matches Option::Some(v0) ==> r matches Result::Ok(v) && version_eq(
                v,
                v0,
            ),
    {
        get_installed_version()
    }
}

/// A probe bound to a version chosen in advance.
pub struct FixedProbe {
    version: SemanticVersion,
}

impl FixedProbe {
    #[verifier::type_invariant]
    spec fn type_inv(self) -> bool {
        self.version.wf()
    }

    /// Binds a probe to the given version; a malformed tag is refused.
    pub fn new(version: SemanticVersion) -> (r: Option<FixedProbe>)
        ensures
            version.wf() ==> (r matches Option::Some(p) && p.fixed() == Option::Some(version)),
            !version.wf() ==> r is None,
    {
        let ok = match &version.tag {
            Option::Some(t) => crate::version::check_tag(t.as_str()),
            Option::None => true,
        };
        if ok {
            Option::Some(FixedProbe { version })
        } else {
            Option::None
        }
    }
}

impl Probe for FixedProbe {
    closed spec fn fixed(&self) -> Option<SemanticVersion> {
        Option::Some(self.version)
    }

    fn installed_version(&self) -> (r: Result<SemanticVersion, ProbeError>)
        ensures
            r matches Result::Ok(v) ==> v.wf(),
            self.fixed() matches Option::Some(v0) ==> r matches Result::Ok(v) && version_eq(
                v,
                v0,
            ),
    {
        proof {
            use_type_invariant(self);
        }
        let tag = match &self.version.tag {
            Option::Some(t) => Option::Some(String::from_str(t.as_str())),
            Option::None => Option::None,
        };
        Result::Ok(
            SemanticVersion {
                major: self.version.major,
                minor: self.version.minor,
                patch: self.version.patch,
                tag,
            },
        )
    }
}

} // verus!
