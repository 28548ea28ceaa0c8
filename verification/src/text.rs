//! Character sequences: the characters of a string, character classes, trimming and splitting.
//!
//! The contracts are stated over `Seq<char>`, the view of a string. The executable functions
//! work on a `Vec<char>` and on index ranges into it, so that no intermediate string is built
//! while a text is taken apart.

use vstd::prelude::*;

verus! {

/// Whether `c` is white space: one of the code points that Unicode marks `White_Space`.
pub open spec fn is_whitespace(c: char) -> bool {
    let n = c as u32;
    ||| 0x09 <= n <= 0x0D
    ||| n == 0x20
    ||| n == 0x85
    ||| n == 0xA0
    ||| n == 0x1680
    ||| 0x2000 <= n <= 0x200A
    ||| n == 0x2028
    ||| n == 0x2029
    ||| n == 0x202F
    ||| n == 0x205F
    ||| n == 0x3000
}

/// The kinds of character that trimming removes.
#[derive(Clone, Copy, Debug, PartialEq, Eq)]
pub enum CharClass {
    /// Unicode white space.
    Whitespace,
    /// The double quote `"`.
    Quote,
}

impl CharClass {
    /// Whether `c` belongs to the class.
    pub open spec fn contains(self, c: char) -> bool {
        match self {
            CharClass::Whitespace => is_whitespace(c),
            CharClass::Quote => c == '"',
        }
    }

    /// Tests whether `c` belongs to the class.
    pub fn holds(self, c: char) -> (b: bool)
        ensures
            b == self.contains(c),
    {
        match self {
            CharClass::Whitespace => {
                let n: u32 = c as u32;
                (0x09 <= n && n <= 0x0D) || n == 0x20 || n == 0x85 || n == 0xA0 || n == 0x1680
                    || (0x2000 <= n && n <= 0x200A) || n == 0x2028 || n == 0x2029 || n == 0x202F
                    || n == 0x205F || n == 0x3000
            },
            CharClass::Quote => c == '"',
        }
    }
}

/// `s` without its longest prefix made of characters of `class`.
pub open spec fn trim_start_matches(s: Seq<char>, class: CharClass) -> Seq<char>
    decreases s.len(),
{
    if s.len() > 0 && class.contains(s.first()) {
        trim_start_matches(s.drop_first(), class)
    } else {
        s
    }
}

/// `s` without its longest suffix made of characters of `class`.
pub open spec fn trim_end_matches(s: Seq<char>, class: CharClass) -> Seq<char>
    decreases s.len(),
{
    if s.len() > 0 && class.contains(s.last()) {
        trim_end_matches(s.drop_last(), class)
    } else {
        s
    }
}

/// `s` with the characters of `class` removed from both ends.
pub open spec fn trim_matches(s: Seq<char>, class: CharClass) -> Seq<char> {
    trim_end_matches(trim_start_matches(s, class), class)
}

/// `s` with white space removed from both ends.
pub open spec fn trim(s: Seq<char>) -> Seq<char> {
    trim_matches(s, CharClass::Whitespace)
}

/// Whether `sep` stands in `s` at index `k`.
pub open spec fn occurs_at(s: Seq<char>, sep: Seq<char>, k: int) -> bool {
    0 <= k && k + sep.len() <= s.len() && s.subrange(k, k + sep.len()) == sep
}

/// Whether `k` is the least index at which `sep` stands in `s`.
pub open spec fn is_first_occurrence(s: Seq<char>, sep: Seq<char>, k: int) -> bool {
    occurs_at(s, sep, k) && forall|j: int| 0 <= j < k ==> !occurs_at(s, sep, j)
}

/// The least index at which `sep` stands in `s`, if it stands anywhere.
pub open spec fn first_occurrence(s: Seq<char>, sep: Seq<char>) -> Option<int> {
    if exists|k: int| is_first_occurrence(s, sep, k) {
        Some(choose|k: int| is_first_occurrence(s, sep, k))
    } else {
        None
    }
}

/// The pieces of `s` between the occurrences of `sep`, found from left to right without
/// overlap. There is always at least one piece; an empty separator splits nothing.
pub open spec fn split(s: Seq<char>, sep: Seq<char>) -> Seq<Seq<char>>
    decreases s.len(),
{
    match first_occurrence(s, sep) {
        Some(k) if sep.len() > 0 => seq![s.take(k)] + split(s.skip(k + sep.len()), sep),
        _ => seq![s],
    }
}

/// The pieces put together again, with `sep` between each two.
pub open spec fn join(pieces: Seq<Seq<char>>, sep: Seq<char>) -> Seq<char>
    decreases pieces.len(),
{
    if pieces.len() == 0 {
        Seq::empty()
    } else if pieces.len() == 1 {
        pieces.first()
    } else {
        pieces.first() + sep + join(pieces.drop_first(), sep)
    }
}

/// The parts of `chars` that the index ranges `ranges` cut out, one for each range.
pub open spec fn slices(chars: Seq<char>, ranges: Seq<(usize, usize)>) -> Seq<Seq<char>> {
    Seq::new(ranges.len(), |i: int| chars.subrange(ranges[i].0 as int, ranges[i].1 as int))
}

/// Whether each range of `ranges` lies within `lo..hi`.
pub open spec fn ranges_within(ranges: Seq<(usize, usize)>, lo: int, hi: int) -> bool {
    forall|i: int| 0 <= i < ranges.len() ==> lo <= (#[trigger] ranges[i]).0 <= ranges[i].1 <= hi
}

/// A sequence whose first `n` characters are in `class` and whose next one, if any, is not,
/// loses exactly those `n` at the start.
pub proof fn trim_start_drops(s: Seq<char>, class: CharClass, n: int)
    requires
        0 <= n <= s.len(),
        forall|k: int| 0 <= k < n ==> class.contains(s[k]),
        n < s.len() ==> !class.contains(s[n]),
    ensures
        trim_start_matches(s, class) == s.skip(n),
    decreases n,
{
    if n == 0 {
        assert(s.skip(0) =~= s);
    } else {
        let rest = s.drop_first();
        assert forall|k: int| 0 <= k < n - 1 implies class.contains(rest[k]) by {
            assert(rest[k] == s[k + 1]);
        }
        trim_start_drops(rest, class, n - 1);
        assert(rest.skip(n - 1) =~= s.skip(n));
    }
}

/// A sequence whose last `n` characters are in `class` and whose one before, if any, is not,
/// loses exactly those `n` at the end.
pub proof fn trim_end_drops(s: Seq<char>, class: CharClass, n: int)
    requires
        0 <= n <= s.len(),
        forall|k: int| s.len() - n <= k < s.len() ==> class.contains(s[k]),
        n < s.len() ==> !class.contains(s[s.len() - n - 1]),
    ensures
        trim_end_matches(s, class) == s.take(s.len() - n),
    decreases n,
{
    if n == 0 {
        assert(s.take(s.len() as int) =~= s);
    } else {
        let rest = s.drop_last();
        assert forall|k: int| rest.len() - (n - 1) <= k < rest.len() implies class.contains(
            rest[k],
        ) by {
            assert(rest[k] == s[k]);
        }
        trim_end_drops(rest, class, n - 1);
        assert(rest.take(rest.len() - (n - 1)) =~= s.take(s.len() - n));
    }
}

/// Trimming changes nothing where neither end of the sequence is in `class`.
pub proof fn trim_matches_keeps(s: Seq<char>, class: CharClass)
    requires
        s.len() > 0 ==> !class.contains(s.first()) && !class.contains(s.last()),
    ensures
        trim_matches(s, class) == s,
{
    trim_start_drops(s, class, 0);
    assert(s.skip(0) =~= s);
    trim_end_drops(s, class, 0);
    assert(s.take(s.len() as int) =~= s);
}

/// Trimming leaves nothing of a sequence made of characters of `class` alone.
pub proof fn trim_matches_clears(s: Seq<char>, class: CharClass)
    requires
        forall|k: int| 0 <= k < s.len() ==> class.contains(s[k]),
    ensures
        trim_matches(s, class) == Seq::<char>::empty(),
{
    trim_start_drops(s, class, s.len() as int);
    assert(s.skip(s.len() as int) =~= Seq::<char>::empty());
}

/// What is left once the start is trimmed is the end of the sequence, and does not begin
/// with a character of `class`.
pub proof fn trim_start_is_trimmed(s: Seq<char>, class: CharClass)
    ensures
        trim_start_matches(s, class).len() <= s.len(),
        trim_start_matches(s, class) == s.skip(s.len() - trim_start_matches(s, class).len()),
        trim_start_matches(s, class).len() > 0 ==> !class.contains(
            trim_start_matches(s, class).first(),
        ),
    decreases s.len(),
{
    if s.len() > 0 && class.contains(s.first()) {
        let rest = s.drop_first();
        trim_start_is_trimmed(rest, class);
        let kept = trim_start_matches(rest, class);
        assert(rest.skip(rest.len() - kept.len()) =~= s.skip(s.len() - kept.len()));
    } else {
        assert(s.skip(0) =~= s);
    }
}

/// What is left once the end is trimmed is the start of the sequence, and does not end with
/// a character of `class`.
pub proof fn trim_end_is_trimmed(s: Seq<char>, class: CharClass)
    ensures
        trim_end_matches(s, class).len() <= s.len(),
        trim_end_matches(s, class) == s.take(trim_end_matches(s, class).len() as int),
        trim_end_matches(s, class).len() > 0 ==> !class.contains(trim_end_matches(s, class).last()),
    decreases s.len(),
{
    if s.len() > 0 && class.contains(s.last()) {
        let rest = s.drop_last();
        trim_end_is_trimmed(rest, class);
        let kept = trim_end_matches(rest, class);
        assert(rest.take(kept.len() as int) =~= s.take(kept.len() as int));
    } else {
        assert(s.take(s.len() as int) =~= s);
    }
}

/// A trimmed sequence neither begins nor ends with a character of `class`, so that trimming
/// it again changes nothing.
pub proof fn trim_matches_is_trimmed(s: Seq<char>, class: CharClass)
    ensures
        trim_matches(s, class).len() > 0 ==> !class.contains(trim_matches(s, class).first())
            && !class.contains(trim_matches(s, class).last()),
        trim_matches(trim_matches(s, class), class) == trim_matches(s, class),
{
    let inner = trim_start_matches(s, class);
    trim_start_is_trimmed(s, class);
    trim_end_is_trimmed(inner, class);
    let kept = trim_end_matches(inner, class);
    if kept.len() > 0 {
        assert(kept.first() == inner.take(kept.len() as int)[0]);
    }
    trim_matches_keeps(kept, class);
}

/// The least index at which `sep` stands in `s` is the first occurrence.
pub proof fn first_occurrence_is_least(s: Seq<char>, sep: Seq<char>, k: int)
    requires
        is_first_occurrence(s, sep, k),
    ensures
        first_occurrence(s, sep) == Some(k),
{
    let chosen = choose|j: int| is_first_occurrence(s, sep, j);
    assert(is_first_occurrence(s, sep, chosen));
    if chosen < k {
        assert(!occurs_at(s, sep, chosen));
    } else if k < chosen {
        assert(!occurs_at(s, sep, k));
    }
}

/// A sequence in which the separator stands nowhere is one piece.
pub proof fn split_without_separator(s: Seq<char>, sep: Seq<char>)
    requires
        forall|k: int| !occurs_at(s, sep, k),
    ensures
        split(s, sep) == seq![s],
{
}

/// Splitting loses nothing: there is at least one piece, and the pieces joined by the
/// separator are the sequence that was split.
pub proof fn split_joins_back(s: Seq<char>, sep: Seq<char>)
    ensures
        split(s, sep).len() >= 1,
        join(split(s, sep), sep) == s,
    decreases s.len(),
{
    match first_occurrence(s, sep) {
        Some(k) if sep.len() > 0 => {
            let rest = s.skip(k + sep.len());
            split_joins_back(rest, sep);
            let pieces = seq![s.take(k)] + split(rest, sep);
            assert(pieces.first() == s.take(k));
            assert(pieces.drop_first() =~= split(rest, sep));
            assert(s.take(k) + sep + rest =~= s);
        },
        _ => {},
    }
}

/// The characters of `s`, in order.
pub fn chars_of(s: &str) -> (chars: Vec<char>)
    ensures
        chars@ == s@,
{
    let mut chars: Vec<char> = Vec::new();
    for c in it: s.chars()
        invariant
            it.seq() == s@,
            chars@ == it.seq().take(it.index()),
    {
        chars.push(c);
    }
    chars
}

/// Whether `text` begins with `prefix`.
pub fn starts_with(text: &Vec<char>, prefix: &Vec<char>) -> (b: bool)
    ensures
        b == prefix@.is_prefix_of(text@),
{
    if prefix.len() > text.len() {
        return false;
    }
    let mut i: usize = 0;
    while i < prefix.len()
        invariant
            i <= prefix.len() <= text.len(),
            forall|k: int| 0 <= k < i ==> text@[k] == prefix@[k],
        decreases prefix.len() - i,
    {
        if text[i] != prefix[i] {
            assert(text@.subrange(0, prefix@.len() as int)[i as int] != prefix@[i as int]);
            return false;
        }
        i += 1;
    }
    assert(prefix@ =~= text@.subrange(0, prefix@.len() as int));
    true
}

/// Whether `a` and `b` hold the same text.
pub fn same_text(a: &str, b: &str) -> (same: bool)
    ensures
        same == (a@ == b@),
{
    let left = chars_of(a);
    let right = chars_of(b);
    if left.len() != right.len() {
        return false;
    }
    let same = starts_with(&left, &right);
    assert(same ==> left@ =~= right@);
    assert(left@.subrange(0, left@.len() as int) =~= left@);
    same
}

/// The bounds of what is left of `chars[lo..hi]` once the characters of `class` are removed
/// from both of its ends.
pub(crate) fn trim_range(chars: &Vec<char>, lo: usize, hi: usize, class: CharClass) -> (r: (
    usize,
    usize,
))
    requires
        lo <= hi <= chars.len(),
    ensures
        lo <= r.0 <= r.1 <= hi,
        chars@.subrange(r.0 as int, r.1 as int) == trim_matches(
            chars@.subrange(lo as int, hi as int),
            class,
        ),
{
    let mut a: usize = lo;
    while a < hi && class.holds(chars[a])
        invariant
            lo <= a <= hi <= chars.len(),
            forall|k: int| lo <= k < a ==> class.contains(chars@[k]),
        decreases hi - a,
    {
        a += 1;
    }
    let mut b: usize = hi;
    while a < b && class.holds(chars[b - 1])
        invariant
            a <= b <= hi <= chars.len(),
            forall|k: int| b <= k < hi ==> class.contains(chars@[k]),
        decreases b - a,
    {
        b -= 1;
    }
    proof {
        let whole = chars@.subrange(lo as int, hi as int);
        trim_start_drops(whole, class, a - lo);
        let rest = whole.skip(a - lo);
        assert(rest =~= chars@.subrange(a as int, hi as int));
        trim_end_drops(rest, class, hi - b);
        assert(rest.take(rest.len() - (hi - b)) =~= chars@.subrange(a as int, b as int));
    }
    (a, b)
}

/// Whether `sep` stands in `chars` at index `pos`.
fn stands_at(chars: &Vec<char>, pos: usize, sep: &Vec<char>) -> (b: bool)
    requires
        pos + sep.len() <= chars.len(),
    ensures
        b == (chars@.subrange(pos as int, pos + sep.len()) == sep@),
{
    let mut i: usize = 0;
    while i < sep.len()
        invariant
            i <= sep.len(),
            pos + sep.len() <= chars.len(),
            forall|k: int| 0 <= k < i ==> chars@[pos + k] == sep@[k],
        decreases sep.len() - i,
    {
        if chars[pos + i] != sep[i] {
            assert(chars@.subrange(pos as int, pos + sep.len())[i as int] != sep@[i as int]);
            return false;
        }
        i += 1;
    }
    assert(chars@.subrange(pos as int, pos + sep.len()) =~= sep@);
    true
}

/// The bounds of the pieces into which the occurrences of `sep` split `chars[lo..hi]`.
pub(crate) fn split_ranges(chars: &Vec<char>, lo: usize, hi: usize, sep: &Vec<char>) -> (pieces:
    Vec<(usize, usize)>)
    requires
        lo <= hi <= chars.len(),
        sep.len() > 0,
    ensures
        ranges_within(pieces@, lo as int, hi as int),
        slices(chars@, pieces@) == split(chars@.subrange(lo as int, hi as int), sep@),
{
    let mut pieces: Vec<(usize, usize)> = Vec::new();
    let mut start: usize = lo;
    let mut pos: usize = lo;
    assert(slices(chars@, pieces@) =~= Seq::<Seq<char>>::empty());
    while hi - pos >= sep.len()
        invariant
            lo <= start <= pos <= hi <= chars.len(),
            sep.len() > 0,
            ranges_within(pieces@, lo as int, hi as int),
            forall|j: int|
                0 <= j < pos - start ==> !occurs_at(
                    chars@.subrange(start as int, hi as int),
                    sep@,
                    j,
                ),
            split(chars@.subrange(lo as int, hi as int), sep@) == slices(chars@, pieces@) + split(
                chars@.subrange(start as int, hi as int),
                sep@,
            ),
        decreases hi - pos,
    {
        let ghost rest = chars@.subrange(start as int, hi as int);
        if stands_at(chars, pos, sep) {
            proof {
                assert(rest.subrange(pos - start, pos - start + sep@.len()) =~= chars@.subrange(
                    pos as int,
                    pos + sep.len(),
                ));
                first_occurrence_is_least(rest, sep@, pos - start);
                assert(rest.take(pos - start) =~= chars@.subrange(start as int, pos as int));
                assert(rest.skip(pos - start + sep@.len()) =~= chars@.subrange(
                    pos + sep.len(),
                    hi as int,
                ));
                assert(slices(chars@, pieces@.push((start, pos))) =~= slices(chars@, pieces@)
                    + seq![chars@.subrange(start as int, pos as int)]);
            }
            pieces.push((start, pos));
            pos += sep.len();
            start = pos;
        } else {
            proof {
                assert(rest.subrange(pos - start, pos - start + sep@.len()) =~= chars@.subrange(
                    pos as int,
                    pos + sep.len(),
                ));
            }
            pos += 1;
        }
    }
    proof {
        let rest = chars@.subrange(start as int, hi as int);
        assert(split(rest, sep@) == seq![rest]);
        assert(slices(chars@, pieces@.push((start, hi))) =~= slices(chars@, pieces@) + seq![rest]);
    }
    pieces.push((start, hi));
    pieces
}

} // verus!
