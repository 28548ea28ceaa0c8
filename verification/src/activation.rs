//! Activation: which backend makes a version the default on a machine, and what the backend
//! for Debian asks of `update-alternatives`.
//!
//! Nothing here touches the machine. The caller says what operating system it runs on, reads
//! the distribution where it is asked to, and carries out what it is told.

use vstd::prelude::*;
use vstd::string::*;
use crate::text::same_text;

verus! {

/// The backends that can make a version the default.
#[derive(Clone, Copy, Debug, PartialEq, Eq)]
pub enum Backend {
    /// Debian's alternatives system.
    DebianAlternatives,
    /// Windows.
    Windows,
}

/// What is to be done next in order to activate a version.
#[derive(Clone, Copy, Debug, PartialEq, Eq)]
pub enum Step {
    /// Read the identifier of the Linux distribution, then ask `backend_for_distribution`.
    ReadDistribution,
    /// Hand the version to this backend.
    Activate(Backend),
    /// Give up: no backend serves this machine.
    Unsupported,
}

/// The first step on an operating system of the given name: Linux asks for its distribution,
/// Windows has a backend, and nothing else is served.
pub open spec fn first_step(os: Seq<char>) -> Step {
    if os == "linux"@ {
        Step::ReadDistribution
    } else if os == "windows"@ {
        Step::Activate(Backend::Windows)
    } else {
        Step::Unsupported
    }
}

/// The backend for the Linux distribution of the given identifier: Debian has one, and no
/// other distribution, nor one without an identifier, is served.
pub open spec fn distribution_backend(id: Option<Seq<char>>) -> Option<Backend> {
    if id == Some("debian"@) {
        Some(Backend::DebianAlternatives)
    } else {
        None
    }
}

/// Decides the first step from the name of the operating system.
pub fn begin(os: &str) -> (step: Step)
    ensures
        step == first_step(os@),
{
    if same_text(os, "linux") {
        Step::ReadDistribution
    } else if same_text(os, "windows") {
        Step::Activate(Backend::Windows)
    } else {
        Step::Unsupported
    }
}

/// Picks the backend for a Linux distribution from its identifier, if the distribution
/// states one.
pub fn backend_for_distribution(id: Option<&str>) -> (backend: Option<Backend>)
    ensures
        backend == distribution_backend(
            match id {
                Some(name) => Some(name@),
                None => None,
            },
        ),
{
    match id {
        Some(name) => {
            if same_text(name, "debian") {
                Some(Backend::DebianAlternatives)
            } else {
                None
            }
        },
        None => None,
    }
}

/// One request to `update-alternatives --set`: the name of a link group, and the path that
/// the group is to point to.
#[derive(Debug, PartialEq, Eq)]
pub struct Alternative {
    /// The name of the link group.
    pub name: String,
    /// The path of the alternative.
    pub path: String,
}

impl View for Alternative {
    type V = (Seq<char>, Seq<char>);

    open spec fn view(&self) -> (Seq<char>, Seq<char>) {
        (self.name@, self.path@)
    }
}

/// The requests that make `version` the default on Debian, in the order in which they are
/// made: each names a link group and the path of that group's alternative for the version.
pub open spec fn debian_alternatives(version: Seq<char>) -> Seq<(Seq<char>, Seq<char>)> {
    seq![
        ("php"@, "/usr/bin/php"@ + version),
        ("phar"@, "/usr/bin/phah"@ + version),
        ("phar.phar"@, "/usr/bin/phar.phar"@ + version),
        ("phpize"@, "/usr/bin/phpize"@ + version),
        ("php-config"@, "/usr/bin/php-config"@ + version),
    ]
}

/// A request for the link group `name`, whose path is `stem` followed by `version`.
fn alternative(name: &str, stem: &str, version: &str) -> (request: Alternative)
    ensures
        request@ == (name@, stem@ + version@),
{
    Alternative { name: name.to_owned(), path: stem.to_owned().concat(version) }
}

/// Lists the requests that make `version` the default on Debian.
pub fn alternatives_for(version: &str) -> (plan: Vec<Alternative>)
    ensures
        plan@.len() == debian_alternatives(version@).len(),
        forall|i: int| 0 <= i < plan@.len() ==> (#[trigger] plan@[i])@ == debian_alternatives(version@)[i],
{
    let mut plan: Vec<Alternative> = Vec::new();
    plan.push(alternative("php", "/usr/bin/php", version));
    plan.push(alternative("phar", "/usr/bin/phah", version));
    plan.push(alternative("phar.phar", "/usr/bin/phar.phar", version));
    plan.push(alternative("phpize", "/usr/bin/phpize", version));
    plan.push(alternative("php-config", "/usr/bin/php-config", version));
    plan
}

} // verus!
