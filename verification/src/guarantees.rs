//! What parsing and resolution guarantee, proved from the definitions of the other modules.

use vstd::prelude::*;
use crate::constraint::{atoms_of, normalized, parsed, prefix, separator, ResolveError};
use crate::resolver::{
    last_satisfying, resolution, resolve, satisfies, selected_index, ResolutionResult,
};
use crate::text::{
    is_whitespace, occurs_at, split, split_joins_back, split_without_separator, trim,
    trim_matches_clears, trim_matches_is_trimmed, trim_matches_keeps, CharClass,
};

verus! {

/// Whether `x` holds neither white space nor a double quote.
pub open spec fn is_bare(x: Seq<char>) -> bool {
    forall|k: int| 0 <= k < x.len() ==> !is_whitespace(#[trigger] x[k]) && x[k] != '"'
}

/// Whether version `j` of `installed` satisfies atom `i` of `atoms`.
pub open spec fn is_hit(atoms: Seq<Seq<char>>, installed: Seq<Seq<char>>, i: int, j: int) -> bool {
    &&& 0 <= i < atoms.len()
    &&& 0 <= j < installed.len()
    &&& satisfies(installed[j], atoms[i])
}

/// Whether atom `i` and version `j` are the last pair that matches, in the order in which
/// the pairs are tried: no later atom matches any version, and no later version matches
/// atom `i`.
pub open spec fn is_last_hit(atoms: Seq<Seq<char>>, installed: Seq<Seq<char>>, i: int, j: int) -> bool {
    &&& is_hit(atoms, installed, i, j)
    &&& forall|i2: int, j2: int| #[trigger]
        is_hit(atoms, installed, i2, j2) ==> i2 < i || (i2 == i && j2 <= j)
}

/// Every constraint has at least one atom, and no atom begins or ends with white space.
pub proof fn atoms_are_trimmed(raw: Seq<char>)
    ensures
        atoms_of(raw).len() >= 1,
        forall|i: int|
            0 <= i < atoms_of(raw).len() ==> trim(#[trigger] atoms_of(raw)[i]) == atoms_of(raw)[i],
{
    split_joins_back(normalized(raw), separator());
    assert forall|i: int| 0 <= i < atoms_of(raw).len() implies trim(#[trigger] atoms_of(raw)[i])
        == atoms_of(raw)[i] by {
        trim_matches_is_trimmed(split(normalized(raw), separator())[i], CharClass::Whitespace);
    }
}

/// `last_satisfying` finds a version that satisfies the atom and that no satisfying version
/// follows, and finds none only where no version satisfies the atom.
pub proof fn last_satisfying_is_last(installed: Seq<Seq<char>>, atom: Seq<char>)
    ensures
        match last_satisfying(installed, atom) {
            Some(j) => {
                &&& 0 <= j < installed.len()
                &&& satisfies(installed[j], atom)
                &&& forall|k: int| j < k < installed.len() ==> !satisfies(#[trigger] installed[k], atom)
            },
            None => forall|k: int|
                0 <= k < installed.len() ==> !satisfies(#[trigger] installed[k], atom),
        },
    decreases installed.len(),
{
    if installed.len() > 0 && !satisfies(installed.last(), atom) {
        let front = installed.drop_last();
        last_satisfying_is_last(front, atom);
        assert forall|k: int| 0 <= k < front.len() implies front[k] == installed[k] by {}
    }
}

/// Last match wins. The selected index is that of the last matching pair of an atom and a
/// version, and nothing is selected only where no pair matches.
pub proof fn selection_is_the_last_hit(atoms: Seq<Seq<char>>, installed: Seq<Seq<char>>)
    ensures
        match selected_index(atoms, installed) {
            Some(j) => exists|i: int| is_last_hit(atoms, installed, i, j),
            None => forall|i: int, j: int| !is_hit(atoms, installed, i, j),
        },
    decreases atoms.len(),
{
    if atoms.len() > 0 {
        let last = atoms.len() - 1;
        let front = atoms.drop_last();
        last_satisfying_is_last(installed, atoms.last());
        match last_satisfying(installed, atoms.last()) {
            Some(j) => {
                assert(is_last_hit(atoms, installed, last, j));
            },
            None => {
                selection_is_the_last_hit(front, installed);
                assert forall|i: int, j: int| is_hit(atoms, installed, i, j) implies is_hit(
                    front,
                    installed,
                    i,
                    j,
                ) by {
                    assert(front[i] == atoms[i]);
                }
                match selected_index(front, installed) {
                    Some(j) => {
                        let i = choose|i: int| is_last_hit(front, installed, i, j);
                        assert(front[i] == atoms[i]);
                        assert(is_last_hit(atoms, installed, i, j));
                    },
                    None => {},
                }
            },
        }
    }
}

/// Last match wins, read the other way: the version of the last matching pair is the one
/// selected.
pub proof fn last_hit_is_selected(atoms: Seq<Seq<char>>, installed: Seq<Seq<char>>, i: int, j: int)
    requires
        is_last_hit(atoms, installed, i, j),
    ensures
        selected_index(atoms, installed) == Some(j),
{
    selection_is_the_last_hit(atoms, installed);
    match selected_index(atoms, installed) {
        Some(found) => {
            let at = choose|at: int| is_last_hit(atoms, installed, at, found);
            assert(is_hit(atoms, installed, at, found));
            assert(is_hit(atoms, installed, i, j));
        },
        None => {
            assert(is_hit(atoms, installed, i, j));
        },
    }
}

/// What resolution comes to, said without recursion. It fails exactly on a constraint that
/// normalizes to nothing. Otherwise it selects the version of the last matching pair of an
/// atom and a version, provided that this version's text is not empty, and nothing else.
pub proof fn resolution_is_the_last_match(raw: Seq<char>, installed: Seq<Seq<char>>)
    ensures
        match resolution(raw, installed) {
            Err(e) => e == ResolveError::EmptyConstraint && normalized(raw).len() == 0,
            Ok(Some(version)) => {
                &&& normalized(raw).len() > 0
                &&& version.len() > 0
                &&& exists|i: int, j: int|
                    is_last_hit(atoms_of(raw), installed, i, j) && installed[j] == version
            },
            Ok(None) => {
                &&& normalized(raw).len() > 0
                &&& {
                    ||| forall|i: int, j: int| !is_hit(atoms_of(raw), installed, i, j)
                    ||| exists|i: int, j: int|
                        is_last_hit(atoms_of(raw), installed, i, j) && installed[j].len() == 0
                }
            },
        },
{
    let atoms = atoms_of(raw);
    selection_is_the_last_hit(atoms, installed);
    match selected_index(atoms, installed) {
        Some(j) => {
            let i = choose|i: int| is_last_hit(atoms, installed, i, j);
            assert(is_last_hit(atoms, installed, i, j) && installed[j] == installed[j]);
        },
        None => {},
    }
}

/// A caret followed by a bare text is a constraint of one atom, which is all of it.
pub proof fn caret_text_is_one_atom(x: Seq<char>)
    requires
        is_bare(x),
    ensures
        parsed(seq!['^'] + x) == Ok::<Seq<Seq<char>>, ResolveError>(seq![seq!['^'] + x]),
{
    let raw = seq!['^'] + x;
    assert forall|k: int| 0 <= k < raw.len() implies !is_whitespace(#[trigger] raw[k]) && raw[k]
        != '"' by {
        if k > 0 {
            assert(raw[k] == x[k - 1]);
        }
    }
    trim_matches_keeps(raw, CharClass::Whitespace);
    trim_matches_keeps(raw, CharClass::Quote);
    reveal_strlit(" || ");
    assert forall|k: int| !occurs_at(raw, separator(), k) by {
        if occurs_at(raw, separator(), k) {
            assert(raw.subrange(k, k + 4)[0] == separator()[0]);
            assert(is_whitespace(raw[k]));
        }
    }
    split_without_separator(raw, separator());
    assert(atoms_of(raw) =~= seq![raw]);
}

/// A constraint of one atom, a caret followed by `x`, selects the installed version that
/// begins with `x`, where all the installed versions that begin with `x` are that one version
/// and its text is not empty.
pub proof fn single_caret_atom_selects_its_match(
    raw: Seq<char>,
    x: Seq<char>,
    installed: Seq<Seq<char>>,
    j: int,
)
    requires
        parsed(raw) == Ok::<Seq<Seq<char>>, ResolveError>(seq![seq!['^'] + x]),
        0 <= j < installed.len(),
        installed[j].len() > 0,
        x.is_prefix_of(installed[j]),
        forall|k: int|
            0 <= k < installed.len() && x.is_prefix_of(#[trigger] installed[k]) ==> installed[k]
                == installed[j],
    ensures
        resolution(raw, installed) == Ok::<Option<Seq<char>>, ResolveError>(Some(installed[j])),
{
    let atom = seq!['^'] + x;
    let atoms = seq![atom];
    assert(atom.first() == '^');
    assert(atom.drop_first() =~= x);
    assert(prefix(atom) == x);
    assert(atoms.last() == atom);
    last_satisfying_is_last(installed, atom);
    assert(satisfies(installed[j], atom));
}

/// A constraint that can be parsed, and none of whose atoms is satisfied by any installed
/// version, matches nothing.
pub proof fn unsatisfied_constraint_matches_nothing(raw: Seq<char>, installed: Seq<Seq<char>>)
    requires
        parsed(raw) is Ok,
        forall|i: int, j: int| !is_hit(atoms_of(raw), installed, i, j),
    ensures
        resolution(raw, installed) == Ok::<Option<Seq<char>>, ResolveError>(None),
{
    let atoms = atoms_of(raw);
    selection_is_the_last_hit(atoms, installed);
    match selected_index(atoms, installed) {
        Some(j) => {
            let i = choose|i: int| is_last_hit(atoms, installed, i, j);
            assert(is_hit(atoms, installed, i, j));
        },
        None => {},
    }
}

/// A constraint that is empty, or all white space, or all double quotes, is rejected as
/// empty, whatever is installed.
pub proof fn blank_constraint_is_rejected(raw: Seq<char>, installed: Seq<Seq<char>>)
    requires
        (forall|k: int| 0 <= k < raw.len() ==> is_whitespace(#[trigger] raw[k])) || (forall|k: int|
            0 <= k < raw.len() ==> #[trigger] raw[k] == '"'),
    ensures
        resolution(raw, installed) == Err::<Option<Seq<char>>, ResolveError>(
            ResolveError::EmptyConstraint,
        ),
{
    if forall|k: int| 0 <= k < raw.len() ==> is_whitespace(#[trigger] raw[k]) {
        trim_matches_clears(raw, CharClass::Whitespace);
        trim_matches_keeps(trim(raw), CharClass::Quote);
    } else {
        assert(raw.first() == '"' && raw.last() == '"');
        trim_matches_keeps(raw, CharClass::Whitespace);
        trim_matches_clears(raw, CharClass::Quote);
    }
}

/// Of two installed versions `a` and `b`, supplied in this order, that both satisfy atom `i`
/// of a constraint, the later one, `b`, is selected. This holds where the text of `b` is not
/// empty and where each later atom that `a` satisfies is followed, or joined, by an atom
/// that `b` satisfies: an atom after `i` that `a` alone satisfies, with none for `b` after
/// it, decides for `a`.
pub proof fn later_version_wins(raw: Seq<char>, a: Seq<char>, b: Seq<char>, i: int)
    requires
        parsed(raw) is Ok,
        0 <= i < atoms_of(raw).len(),
        satisfies(a, atoms_of(raw)[i]),
        satisfies(b, atoms_of(raw)[i]),
        b.len() > 0,
        forall|k: int|
            i < k < atoms_of(raw).len() && satisfies(a, #[trigger] atoms_of(raw)[k]) ==> exists|
                m: int,
            |
                k <= m < atoms_of(raw).len() && satisfies(b, #[trigger] atoms_of(raw)[m]),
    ensures
        resolution(raw, seq![a, b]) == Ok::<Option<Seq<char>>, ResolveError>(Some(b)),
{
    let atoms = atoms_of(raw);
    let installed = seq![a, b];
    selection_is_the_last_hit(atoms, installed);
    assert(is_hit(atoms, installed, i, 1));
    match selected_index(atoms, installed) {
        Some(j) => {
            let at = choose|at: int| is_last_hit(atoms, installed, at, j);
            assert(is_hit(atoms, installed, at, j));
            if j == 0 {
                assert(!is_hit(atoms, installed, at, 1));
                assert(satisfies(a, atoms[at]));
                let m = choose|m: int| at <= m < atoms.len() && satisfies(b, #[trigger] atoms[m]);
                assert(is_hit(atoms, installed, m, 1));
            }
        },
        None => {},
    }
}

/// Resolution is a function of its inputs: two calls of `resolve` with the same constraint
/// and the same installed versions give the same outcome.
pub proof fn resolve_is_a_function(
    raw: &str,
    installed: &Vec<String>,
    first: Result<ResolutionResult, ResolveError>,
    second: Result<ResolutionResult, ResolveError>,
)
    requires
        call_ensures(resolve, (raw, installed), first),
        call_ensures(resolve, (raw, installed), second),
    ensures
        match (first, second) {
            (Ok(one), Ok(other)) => one@ == other@,
            (Err(one), Err(other)) => one == other,
            _ => false,
        },
{
}

} // verus!
