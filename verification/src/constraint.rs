//! Version constraints: a disjunction of atomic constraints, written as `^8.1 || ^8.2`.
//!
//! A raw constraint is first normalized: white space is removed from both of its ends, then
//! double quotes. What is left is split on the separator ` || `, and each piece, with the
//! white space around it removed, is one atom. An atom stands for the versions that begin
//! with its text, a single leading caret left aside.

use vstd::prelude::*;
use vstd::string::*;
use crate::text::{
    chars_of, ranges_within, slices, split, split_ranges, trim, trim_matches, trim_range,
    CharClass,
};

verus! {

/// Why a constraint cannot be read.
#[derive(Clone, Copy, Debug, PartialEq, Eq)]
pub enum ResolveError {
    /// Nothing is left of the constraint once the white space and the quotes around it are
    /// removed.
    EmptyConstraint,
}

/// The token that separates the atoms of a constraint: two bars with a space on either side.
pub open spec fn separator() -> Seq<char> {
    " || "@
}

/// The raw constraint without the white space around it and, after that, without the double
/// quotes around it.
pub open spec fn normalized(raw: Seq<char>) -> Seq<char> {
    trim_matches(trim(raw), CharClass::Quote)
}

/// The atoms of a raw constraint, from left to right: the pieces of the normalized constraint
/// between separators, each without the white space around it.
pub open spec fn atoms_of(raw: Seq<char>) -> Seq<Seq<char>> {
    split(normalized(raw), separator()).map_values(|piece: Seq<char>| trim(piece))
}

/// What parsing a raw constraint gives: its atoms, or the error for a constraint that
/// normalizes to nothing.
pub open spec fn parsed(raw: Seq<char>) -> Result<Seq<Seq<char>>, ResolveError> {
    if normalized(raw).len() == 0 {
        Err(ResolveError::EmptyConstraint)
    } else {
        Ok(atoms_of(raw))
    }
}

/// The text that a version must begin with to satisfy `atom`: the atom without one leading
/// caret. Any other operator stays part of the text.
pub open spec fn prefix(atom: Seq<char>) -> Seq<char> {
    if atom.len() > 0 && atom.first() == '^' {
        atom.drop_first()
    } else {
        atom
    }
}

/// Splits a raw constraint into its atoms, in the order in which they are written.
///
/// Fails with `EmptyConstraint` exactly when the normalized constraint is empty. A constraint
/// without a separator has one atom.
pub fn parse(raw: &str) -> (r: Result<Vec<String>, ResolveError>)
    ensures
        match r {
            Ok(atoms) => parsed(raw@) == Ok::<Seq<Seq<char>>, ResolveError>(atoms.deep_view()),
            Err(e) => parsed(raw@) == Err::<Seq<Seq<char>>, ResolveError>(e),
        },
{
    let chars = chars_of(raw);
    let outer = trim_range(&chars, 0, chars.len(), CharClass::Whitespace);
    let inner = trim_range(&chars, outer.0, outer.1, CharClass::Quote);
    assert(chars@.subrange(0, chars@.len() as int) =~= raw@);
    if inner.0 == inner.1 {
        return Err(ResolveError::EmptyConstraint);
    }
    let sep = chars_of(" || ");
    proof {
        reveal_strlit(" || ");
    }
    assert(sep@ == separator());
    let pieces = split_ranges(&chars, inner.0, inner.1, &sep);
    let ghost parts = split(normalized(raw@), separator());
    let mut atoms: Vec<String> = Vec::new();
    let mut i: usize = 0;
    while i < pieces.len()
        invariant
            i <= pieces.len(),
            chars@ == raw@,
            ranges_within(pieces@, inner.0 as int, inner.1 as int),
            inner.1 <= chars.len(),
            slices(chars@, pieces@) == parts,
            atoms@.len() == i,
            forall|k: int| 0 <= k < i ==> (#[trigger] atoms@[k])@ == trim(parts[k]),
        decreases pieces.len() - i,
    {
        let piece = pieces[i];
        assert(slices(chars@, pieces@)[i as int] == chars@.subrange(piece.0 as int, piece.1 as int));
        let kept = trim_range(&chars, piece.0, piece.1, CharClass::Whitespace);
        let atom = raw.substring_char(kept.0, kept.1).to_owned();
        atoms.push(atom);
        i += 1;
    }
    assert(atoms.deep_view() =~= atoms_of(raw@));
    Ok(atoms)
}

/// The text that a version must begin with to satisfy `atom`: at most one leading caret is
/// removed.
pub fn prefix_of(atom: &str) -> (p: String)
    ensures
        p@ == prefix(atom@),
{
    let n: usize = atom.unicode_len();
    if n > 0 && atom.get_char(0) == '^' {
        atom.substring_char(1, n).to_owned()
    } else {
        atom.to_owned()
    }
}

} // verus!
