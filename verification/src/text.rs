//! Character-level building blocks of the manifest parsers: whitespace,
//! trimming, and splitting a text on a separator character.

use vstd::prelude::*;

verus! {

/// Whether `c` carries the Unicode `White_Space` property.
pub open spec fn is_whitespace_spec(c: char) -> bool {
    let u = c as u32;
    ||| 0x09 <= u <= 0x0D
    ||| u == 0x20
    ||| u == 0x85
    ||| u == 0xA0
    ||| u == 0x1680
    ||| 0x2000 <= u <= 0x200A
    ||| u == 0x2028
    ||| u == 0x2029
    ||| u == 0x202F
    ||| u == 0x205F
    ||| u == 0x3000
}

/// `s` without its leading whitespace.
pub open spec fn trim_start(s: Seq<char>) -> Seq<char>
    decreases s.len(),
{
    if s.len() > 0 && is_whitespace_spec(s.first()) {
        trim_start(s.drop_first())
    } else {
        s
    }
}

/// `s` without its trailing whitespace.
pub open spec fn trim_end(s: Seq<char>) -> Seq<char>
    decreases s.len(),
{
    if s.len() > 0 && is_whitespace_spec(s.last()) {
        trim_end(s.drop_last())
    } else {
        s
    }
}

/// `s` without its surrounding whitespace.
pub open spec fn trim(s: Seq<char>) -> Seq<char> {
    trim_end(trim_start(s))
}

/// A trimmed text is blank or starts and ends with a character that is not
/// whitespace, and it is a stretch of the text it was trimmed from.
pub proof fn lemma_trim_is_tight(s: Seq<char>)
    ensures
        trim(s).len() > 0 ==> !is_whitespace_spec(trim(s).first()) && !is_whitespace_spec(
            trim(s).last(),
        ),
        exists|from: int, to: int|
            0 <= from <= to <= s.len() && trim(s) == #[trigger] s.subrange(from, to),
{
    let from = lemma_trim_start(s);
    let to = lemma_trim_end(trim_start(s));
    assert(trim(s) =~= s.subrange(from, from + to));
}

/// `trim_start` drops a run of whitespace from the front and stops at the
/// first character that is not whitespace. Returns the length of the run.
proof fn lemma_trim_start(s: Seq<char>) -> (from: int)
    ensures
        0 <= from <= s.len(),
        trim_start(s) == s.subrange(from, s.len() as int),
        from < s.len() ==> !is_whitespace_spec(s[from]),
    decreases s.len(),
{
    if s.len() > 0 && is_whitespace_spec(s.first()) {
        let from = lemma_trim_start(s.drop_first());
        assert(s.drop_first().subrange(from, s.len() - 1) =~= s.subrange(from + 1, s.len() as int));
        from + 1
    } else {
        assert(s.subrange(0, s.len() as int) =~= s);
        0
    }
}

/// `trim_end` drops a run of whitespace from the back and stops at the last
/// character that is not whitespace. Returns the length of what is left.
proof fn lemma_trim_end(s: Seq<char>) -> (to: int)
    ensures
        0 <= to <= s.len(),
        trim_end(s) == s.subrange(0, to),
        to > 0 ==> !is_whitespace_spec(s[to - 1]),
    decreases s.len(),
{
    if s.len() > 0 && is_whitespace_spec(s.last()) {
        let to = lemma_trim_end(s.drop_last());
        assert(s.drop_last().subrange(0, to) =~= s.subrange(0, to));
        to
    } else {
        assert(s.subrange(0, s.len() as int) =~= s);
        s.len() as int
    }
}

/// The pieces of `s` between occurrences of `sep`, in order. A text with `n`
/// separators has `n + 1` pieces, some of which may be empty.
pub open spec fn split(s: Seq<char>, sep: char) -> Seq<Seq<char>>
    decreases s.len(),
{
    if s.len() == 0 {
        seq![Seq::<char>::empty()]
    } else {
        let before = split(s.drop_last(), sep);
        if s.last() == sep {
            before.push(Seq::<char>::empty())
        } else {
            before.drop_last().push(before.last().push(s.last()))
        }
    }
}

/// The pieces of `pieces` joined back together with `sep` between neighbours.
pub open spec fn join(pieces: Seq<Seq<char>>, sep: char) -> Seq<char>
    decreases pieces.len(),
{
    if pieces.len() == 0 {
        Seq::<char>::empty()
    } else if pieces.len() == 1 {
        pieces.last()
    } else {
        join(pieces.drop_last(), sep).push(sep) + pieces.last()
    }
}

/// A split always yields at least one piece.
pub proof fn lemma_split_nonempty(s: Seq<char>, sep: char)
    ensures
        split(s, sep).len() >= 1,
    decreases s.len(),
{
    if s.len() > 0 {
        lemma_split_nonempty(s.drop_last(), sep);
    }
}

/// How the split of a text changes when one more character is appended: a
/// separator opens a new, empty piece; any other character extends the last
/// piece.
pub proof fn lemma_split_push(s: Seq<char>, c: char, sep: char)
    ensures
        split(s, sep).len() >= 1,
        c == sep ==> split(s.push(c), sep) == split(s, sep).push(Seq::<char>::empty()),
        c != sep ==> split(s.push(c), sep) == split(s, sep).drop_last().push(
            split(s, sep).last().push(c),
        ),
{
    lemma_split_nonempty(s, sep);
    assert(s.push(c).drop_last() =~= s);
}

/// Pieces that are already closed by a separator do not change when the text
/// grows: every piece of a prefix's split but the last is a piece of the
/// whole text's split, at the same position.
pub proof fn lemma_split_prefix(s: Seq<char>, n: int, sep: char, k: int)
    requires
        0 <= n <= s.len(),
        0 <= k < split(s.take(n), sep).len() - 1,
    ensures
        split(s.take(n), sep).len() <= split(s, sep).len(),
        split(s, sep)[k] == split(s.take(n), sep)[k],
    decreases s.len() - n,
{
    if n == s.len() {
        assert(s.take(n) =~= s);
    } else {
        let shorter = s.take(n);
        let longer = s.take(n + 1);
        assert(longer =~= shorter.push(s[n]));
        lemma_split_push(shorter, s[n], sep);
        lemma_split_prefix(s, n + 1, sep, k);
    }
}

/// No piece of a split contains the separator.
pub proof fn lemma_split_pieces_exclude_separator(s: Seq<char>, sep: char)
    ensures
        forall|k: int, i: int|
            0 <= k < split(s, sep).len() && 0 <= i < split(s, sep)[k].len() ==> split(
                s,
                sep,
            )[k][i] != sep,
    decreases s.len(),
{
    if s.len() > 0 {
        lemma_split_pieces_exclude_separator(s.drop_last(), sep);
        lemma_split_nonempty(s.drop_last(), sep);
    }
}

/// Joining the pieces of a split with the separator gives the text back.
pub proof fn lemma_split_join(s: Seq<char>, sep: char)
    ensures
        join(split(s, sep), sep) == s,
    decreases s.len(),
{
    if s.len() == 0 {
        assert(join(split(s, sep), sep) =~= s);
    } else {
        let shorter = s.drop_last();
        let before = split(shorter, sep);
        lemma_split_join(shorter, sep);
        lemma_split_nonempty(shorter, sep);
        if s.last() == sep {
            let pieces = before.push(Seq::<char>::empty());
            assert(pieces.drop_last() =~= before);
            assert(join(pieces, sep) =~= shorter.push(sep));
            assert(shorter.push(sep) =~= s);
        } else {
            let pieces = before.drop_last().push(before.last().push(s.last()));
            if before.len() == 1 {
                assert(join(pieces, sep) =~= before.last().push(s.last()));
            } else {
                assert(pieces.drop_last() =~= before.drop_last());
                assert(join(pieces, sep) =~= join(before, sep).push(s.last()));
            }
            assert(shorter.push(s.last()) =~= s);
        }
    }
}

/// Tests a character for the Unicode `White_Space` property.
pub fn is_whitespace(c: char) -> (b: bool)
    ensures
        b == is_whitespace_spec(c),
{
    let u: u32 = c as u32;
    (0x09 <= u && u <= 0x0D) || u == 0x20 || u == 0x85 || u == 0xA0 || u == 0x1680 || (0x2000 <= u
        && u <= 0x200A) || u == 0x2028 || u == 0x2029 || u == 0x202F || u == 0x205F || u == 0x3000
}

/// Copies the characters `chars[from..to]` into a new string.
pub fn substring(chars: &Vec<char>, from: usize, to: usize) -> (s: String)
    requires
        from <= to <= chars.len(),
    ensures
        s@ == chars@.subrange(from as int, to as int),
{
    let mut s = String::new();
    let mut i: usize = from;
    while i < to
        invariant
            from <= i <= to <= chars.len(),
            s@ == chars@.subrange(from as int, i as int),
        decreases to - i,
    {
        s.push(chars[i]);
        i += 1;
        assert(chars@.subrange(from as int, i as int) =~= chars@.subrange(
            from as int,
            i - 1,
        ).push(chars@[i - 1]));
    }
    s
}

/// The bounds of `chars` once surrounding whitespace is trimmed away: the
/// trimmed text is `chars[from..to]`.
pub fn trim_bounds(chars: &Vec<char>) -> (bounds: (usize, usize))
    ensures
        bounds.0 <= bounds.1 <= chars.len(),
        chars@.subrange(bounds.0 as int, bounds.1 as int) == trim(chars@),
{
    let len = chars.len();
    let mut from: usize = 0;
    assert(chars@.subrange(0, len as int) =~= chars@);
    while from < len && is_whitespace(chars[from])
        invariant
            from <= len == chars.len(),
            trim_start(chars@) == trim_start(chars@.subrange(from as int, len as int)),
        decreases len - from,
    {
        assert(chars@.subrange(from as int, len as int).drop_first() =~= chars@.subrange(
            from + 1,
            len as int,
        ));
        from += 1;
    }
    assert(trim_start(chars@) == chars@.subrange(from as int, len as int));
    let mut to: usize = len;
    while to > from && is_whitespace(chars[to - 1])
        invariant
            from <= to <= len == chars.len(),
            trim(chars@) == trim_end(chars@.subrange(from as int, to as int)),
        decreases to - from,
    {
        assert(chars@.subrange(from as int, to as int).drop_last() =~= chars@.subrange(
            from as int,
            to - 1,
        ));
        to -= 1;
    }
    (from, to)
}

} // verus!
