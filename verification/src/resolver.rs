//! Resolution: which installed version a constraint selects.
//!
//! Every pair of an atom and an installed version is tried, the atoms in the order in which
//! the constraint declares them and, for each atom, the versions in the order in which they
//! are supplied. The last pair that matches decides: a later atom with a match wins over an
//! earlier one, and for one atom a later version wins over an earlier one.

use vstd::prelude::*;
use crate::constraint::{parse, parsed, prefix, prefix_of, ResolveError};
use crate::text::{chars_of, starts_with};

verus! {

/// The outcome of resolving a well-formed constraint.
#[derive(Debug, PartialEq, Eq)]
pub enum ResolutionResult {
    /// The installed version that the constraint selects.
    Selected(String),
    /// No installed version satisfies the constraint.
    NoMatch,
}

impl View for ResolutionResult {
    type V = Option<Seq<char>>;

    /// The selected version's text, or `None` where nothing matches.
    open spec fn view(&self) -> Option<Seq<char>> {
        match self {
            ResolutionResult::Selected(version) => Some(version@),
            ResolutionResult::NoMatch => None,
        }
    }
}

/// Whether `version` satisfies `atom`: it begins with the atom's prefix.
pub open spec fn satisfies(version: Seq<char>, atom: Seq<char>) -> bool {
    prefix(atom).is_prefix_of(version)
}

/// The index of the last version of `installed` that satisfies `atom`, if there is one.
pub open spec fn last_satisfying(installed: Seq<Seq<char>>, atom: Seq<char>) -> Option<int>
    decreases installed.len(),
{
    if installed.len() == 0 {
        None
    } else if satisfies(installed.last(), atom) {
        Some(installed.len() - 1)
    } else {
        last_satisfying(installed.drop_last(), atom)
    }
}

/// The index in `installed` of the version that `atoms` select: the last version that
/// satisfies the last atom that any version satisfies.
pub open spec fn selected_index(atoms: Seq<Seq<char>>, installed: Seq<Seq<char>>) -> Option<int>
    decreases atoms.len(),
{
    if atoms.len() == 0 {
        None
    } else {
        match last_satisfying(installed, atoms.last()) {
            Some(j) => Some(j),
            None => selected_index(atoms.drop_last(), installed),
        }
    }
}

/// The version at the selected index, provided that its text is not empty.
pub open spec fn outcome(installed: Seq<Seq<char>>, index: Option<int>) -> Option<Seq<char>> {
    match index {
        Some(j) if installed[j].len() > 0 => Some(installed[j]),
        _ => None,
    }
}

/// What resolving `raw` against `installed` gives: the error of a constraint that cannot be
/// parsed, or else the selected version, if any.
pub open spec fn resolution(raw: Seq<char>, installed: Seq<Seq<char>>) -> Result<
    Option<Seq<char>>,
    ResolveError,
> {
    match parsed(raw) {
        Err(e) => Err(e),
        Ok(atoms) => Ok(outcome(installed, selected_index(atoms, installed))),
    }
}

/// The characters of each string of `strings`.
fn chars_of_each(strings: &Vec<String>) -> (all: Vec<Vec<char>>)
    ensures
        all@.len() == strings@.len(),
        forall|i: int| 0 <= i < all@.len() ==> (#[trigger] all@[i])@ == strings@[i]@,
{
    let mut all: Vec<Vec<char>> = Vec::new();
    let mut i: usize = 0;
    while i < strings.len()
        invariant
            i <= strings.len(),
            all@.len() == i,
            forall|k: int| 0 <= k < i ==> (#[trigger] all@[k])@ == strings@[k]@,
        decreases strings.len() - i,
    {
        all.push(chars_of(strings[i].as_str()));
        i += 1;
    }
    all
}

/// Finds the index in `installed` of the version that `atoms` select.
///
/// Every pair is tried, and each match replaces the one found before it.
pub fn select(atoms: &Vec<String>, installed: &Vec<String>) -> (found: Option<usize>)
    ensures
        match found {
            Some(j) => j < installed.len() && selected_index(
                atoms.deep_view(),
                installed.deep_view(),
            ) == Some(j as int),
            None => selected_index(atoms.deep_view(), installed.deep_view()) is None,
        },
{
    let versions = chars_of_each(installed);
    let ghost all_atoms = atoms.deep_view();
    let ghost all_versions = installed.deep_view();
    let mut found: Option<usize> = None;
    let mut i: usize = 0;
    assert(all_atoms.take(0) =~= Seq::<Seq<char>>::empty());
    while i < atoms.len()
        invariant
            i <= atoms.len(),
            all_atoms == atoms.deep_view(),
            all_versions == installed.deep_view(),
            versions@.len() == installed@.len(),
            forall|k: int| 0 <= k < versions@.len() ==> (#[trigger] versions@[k])@ == installed@[k]@,
            match found {
                Some(j) => j < installed.len() && selected_index(all_atoms.take(i as int), all_versions)
                    == Some(j as int),
                None => selected_index(all_atoms.take(i as int), all_versions) is None,
            },
        decreases atoms.len() - i,
    {
        let wanted_text = prefix_of(atoms[i].as_str());
        let wanted = chars_of(wanted_text.as_str());
        let ghost atom = all_atoms[i as int];
        let ghost before = found;
        let mut j: usize = 0;
        assert(all_versions.take(0) =~= Seq::<Seq<char>>::empty());
        while j < versions.len()
            invariant
                j <= versions.len(),
                all_versions == installed.deep_view(),
                versions@.len() == installed@.len(),
                forall|k: int|
                    0 <= k < versions@.len() ==> (#[trigger] versions@[k])@ == installed@[k]@,
                wanted@ == prefix(atom),
                match last_satisfying(all_versions.take(j as int), atom) {
                    Some(k) => found == Some(k as usize) && 0 <= k < j,
                    None => found == before,
                },
            decreases versions.len() - j,
        {
            let hit = starts_with(&versions[j], &wanted);
            proof {
                let upto = all_versions.take(j + 1);
                assert(upto.last() == all_versions[j as int]);
                assert(upto.drop_last() =~= all_versions.take(j as int));
                assert(hit == satisfies(upto.last(), atom));
            }
            if hit {
                found = Some(j);
            }
            j += 1;
        }
        proof {
            let upto = all_atoms.take(i + 1);
            assert(all_versions.take(j as int) =~= all_versions);
            assert(upto.last() == atom);
            assert(upto.drop_last() =~= all_atoms.take(i as int));
        }
        i += 1;
    }
    assert(all_atoms.take(i as int) =~= all_atoms);
    found
}

/// Resolves the raw constraint `raw` against the installed versions, which are tried in the
/// order given.
///
/// Fails with `EmptyConstraint` exactly when the constraint cannot be parsed. Otherwise the
/// last matching pair of an atom and a version decides, and a selected version whose text is
/// empty counts as no match.
pub fn resolve(raw: &str, installed: &Vec<String>) -> (r: Result<ResolutionResult, ResolveError>)
    ensures
        match r {
            Ok(found) => resolution(raw@, installed.deep_view()) == Ok::<
                Option<Seq<char>>,
                ResolveError,
            >(found@),
            Err(e) => resolution(raw@, installed.deep_view()) == Err::<Option<Seq<char>>, ResolveError>(
                e,
            ),
        },
{
    let atoms = match parse(raw) {
        Ok(atoms) => atoms,
        Err(e) => {
            return Err(e);
        },
    };
    match select(&atoms, installed) {
        Some(j) => {
            let version = &installed[j];
            assert(installed.deep_view()[j as int] == version@);
            if version.as_str().unicode_len() > 0 {
                Ok(ResolutionResult::Selected(version.clone()))
            } else {
                Ok(ResolutionResult::NoMatch)
            }
        },
        None => Ok(ResolutionResult::NoMatch),
    }
}

/// The text of a declared constraint, if there is one.
pub open spec fn declared_text(declared: Option<&str>) -> Option<Seq<char>> {
    match declared {
        Some(raw) => Some(raw@),
        None => None,
    }
}

/// What resolving a declared constraint gives, where `None` stands for a manifest that
/// declares no constraint: nothing matches then.
pub open spec fn declared_resolution(declared: Option<Seq<char>>, installed: Seq<Seq<char>>) -> Result<
    Option<Seq<char>>,
    ResolveError,
> {
    match declared {
        Some(raw) => resolution(raw, installed),
        None => Ok(None),
    }
}

/// Resolves the constraint that a manifest declares, if it declares one, against the
/// installed versions.
///
/// A manifest that declares no constraint matches nothing; a declared constraint is resolved
/// as `resolve` does.
pub fn resolve_declared(declared: Option<&str>, installed: &Vec<String>) -> (r: Result<
    ResolutionResult,
    ResolveError,
>)
    ensures
        match r {
            Ok(found) => declared_resolution(declared_text(declared), installed.deep_view()) == Ok::<
                Option<Seq<char>>,
                ResolveError,
            >(found@),
            Err(e) => declared_resolution(declared_text(declared), installed.deep_view()) == Err::<
                Option<Seq<char>>,
                ResolveError,
            >(e),
        },
{
    match declared {
        Some(raw) => resolve(raw, installed),
        None => Ok(ResolutionResult::NoMatch),
    }
}

} // verus!
