//! Discovery: reading the installed versions out of a listing that names one on each line.

use vstd::prelude::*;
use vstd::string::*;
use crate::text::{chars_of, ranges_within, slices, split, split_ranges, trim, trim_range, CharClass};

verus! {

/// A line without the carriage return that ends it, if one does.
pub open spec fn without_carriage_return(line: Seq<char>) -> Seq<char> {
    if line.len() > 0 && line.last() == '\r' {
        line.drop_last()
    } else {
        line
    }
}

/// The lines of a listing, the white space around the whole listing left aside. A line ends
/// at a line feed, or at a carriage return followed by one; an empty listing has no line.
pub open spec fn listed(listing: Seq<char>) -> Seq<Seq<char>> {
    if trim(listing).len() == 0 {
        Seq::empty()
    } else {
        split(trim(listing), seq!['\n']).map_values(|line: Seq<char>| without_carriage_return(line))
    }
}

/// Reads the installed versions out of a listing, in the order in which it names them.
pub fn parse_versions(listing: &str) -> (versions: Vec<String>)
    ensures
        versions.deep_view() == listed(listing@),
{
    let chars = chars_of(listing);
    let kept = trim_range(&chars, 0, chars.len(), CharClass::Whitespace);
    assert(chars@.subrange(0, chars@.len() as int) =~= listing@);
    let mut versions: Vec<String> = Vec::new();
    if kept.0 == kept.1 {
        assert(versions.deep_view() =~= listed(listing@));
        return versions;
    }
    let mut line_feed: Vec<char> = Vec::new();
    line_feed.push('\n');
    assert(line_feed@ =~= seq!['\n']);
    let lines = split_ranges(&chars, kept.0, kept.1, &line_feed);
    let ghost parts = split(trim(listing@), seq!['\n']);
    let mut i: usize = 0;
    while i < lines.len()
        invariant
            i <= lines.len(),
            chars@ == listing@,
            ranges_within(lines@, kept.0 as int, kept.1 as int),
            kept.1 <= chars.len(),
            slices(chars@, lines@) == parts,
            versions@.len() == i,
            forall|k: int|
                0 <= k < i ==> (#[trigger] versions@[k])@ == without_carriage_return(parts[k]),
        decreases lines.len() - i,
    {
        let line = lines[i];
        assert(slices(chars@, lines@)[i as int] == chars@.subrange(line.0 as int, line.1 as int));
        let ghost whole = chars@.subrange(line.0 as int, line.1 as int);
        let end = if line.0 < line.1 && chars[line.1 - 1] == '\r' {
            assert(whole.last() == '\r');
            assert(whole.drop_last() =~= chars@.subrange(line.0 as int, line.1 - 1));
            line.1 - 1
        } else {
            assert(line.0 < line.1 ==> whole.last() == chars@[line.1 - 1]);
            line.1
        };
        versions.push(listing.substring_char(line.0, end).to_owned());
        i += 1;
    }
    assert(versions.deep_view() =~= listed(listing@));
    versions
}

} // verus!
