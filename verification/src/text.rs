//! Texts as sequences of characters, and splitting one at every occurrence
//! of a separator.

use vstd::prelude::*;

verus! {

/// Whether `sep` stands in `s` at position `i`.
pub open spec fn occurs_at(s: Seq<char>, sep: Seq<char>, i: int) -> bool {
    0 <= i && i + sep.len() <= s.len() && s.subrange(i, i + sep.len()) == sep
}

/// The pieces of `s` from position `i` on, where the piece being read began
/// at `start`: the text is cut at each occurrence of `sep`, and the search
/// goes on behind the occurrence.
pub open spec fn split_at(s: Seq<char>, sep: Seq<char>, start: int, i: int) -> Seq<Seq<char>>
    decreases s.len() - i,
{
    if sep.len() == 0 || i < 0 || start < 0 || i + sep.len() > s.len() {
        seq![s.subrange(start, s.len() as int)]
    } else if occurs_at(s, sep, i) {
        seq![s.subrange(start, i)] + split_at(s, sep, i + sep.len(), i + sep.len())
    } else {
        split_at(s, sep, start, i + 1)
    }
}

/// The pieces of `s` between the occurrences of `sep`, taken from left to
/// right without overlap. There is one piece more than there are
/// occurrences. An empty separator occurs before and behind every
/// character: the pieces are then an empty one, each character, and an
/// empty one.
pub open spec fn split_spec(s: Seq<char>, sep: Seq<char>) -> Seq<Seq<char>> {
    if sep.len() == 0 {
        seq![Seq::<char>::empty()] + Seq::new(s.len(), |k: int| seq![s[k]]) + seq![
            Seq::<char>::empty(),
        ]
    } else {
        split_at(s, sep, 0, 0)
    }
}

/// The pieces joined again, with `sep` between each two.
pub open spec fn join_spec(pieces: Seq<Seq<char>>, sep: Seq<char>) -> Seq<char>
    decreases pieces.len(),
{
    if pieces.len() == 0 {
        Seq::<char>::empty()
    } else if pieces.len() == 1 {
        pieces[0]
    } else {
        pieces[0] + sep + join_spec(pieces.drop_first(), sep)
    }
}

/// The parts of `s` that the ranges name.
pub open spec fn pieces_of(s: Seq<char>, ranges: Seq<(usize, usize)>) -> Seq<Seq<char>> {
    Seq::new(ranges.len(), |k: int| s.subrange(ranges[k].0 as int, ranges[k].1 as int))
}

/// Whether each range lies within a text of length `len`.
pub open spec fn ranges_within(ranges: Seq<(usize, usize)>, len: int) -> bool {
    forall|k: int| 0 <= k < ranges.len() ==> (#[trigger] ranges[k]).0 <= ranges[k].1 <= len
}

/// The characters of `s`, in order.
pub fn chars_of(s: &str) -> (v: Vec<char>)
    ensures
        v@ == s@,
{
    let mut v: Vec<char> = Vec::new();
    for c in it: s.chars()
        invariant
            v@ == it.seq().take(it.index()),
            it.seq() == s@,
    {
        v.push(c);
    }
    v
}

/// Whether `sep` stands in `text` at position `i`.
pub fn matches_at(text: &Vec<char>, sep: &Vec<char>, i: usize) -> (r: bool)
    requires
        i + sep.len() <= text.len(),
    ensures
        r == occurs_at(text@, sep@, i as int),
{
    let mut k: usize = 0;
    while k < sep.len()
        invariant
            k <= sep.len(),
            i + sep.len() <= text.len(),
            forall|j: int| 0 <= j < k ==> text@[i + j] == sep@[j],
        decreases sep.len() - k,
    {
        if text[i + k] != sep[k] {
            assert(text@.subrange(i as int, i + sep.len())[k as int] != sep@[k as int]);
            return false;
        }
        k = k + 1;
    }
    assert(text@.subrange(i as int, i + sep.len()) =~= sep@);
    true
}

/// Cuts `text` at each occurrence of `sep`, and returns where each piece
/// begins and ends.
pub fn split(text: &Vec<char>, sep: &Vec<char>) -> (r: Vec<(usize, usize)>)
    ensures
        ranges_within(r@, text.len() as int),
        pieces_of(text@, r@) == split_spec(text@, sep@),
{
    let len = text.len();
    let mut ranges: Vec<(usize, usize)> = Vec::new();
    if sep.len() == 0 {
        ranges.push((0, 0));
        let mut k: usize = 0;
        while k < len
            invariant
                k <= len,
                len == text.len(),
                ranges@.len() == k + 1,
                ranges@[0] == (0usize, 0usize),
                forall|j: int| 1 <= j <= k ==> #[trigger] ranges@[j] == ((j - 1) as usize, j as usize),
            decreases len - k,
        {
            ranges.push((k, k + 1));
            k = k + 1;
        }
        ranges.push((len, len));
        assert(pieces_of(text@, ranges@) =~= split_spec(text@, sep@)) by {
            let want = split_spec(text@, sep@);
            let got = pieces_of(text@, ranges@);
            assert(want.len() == len + 2);
            assert forall|j: int| 0 <= j < got.len() implies got[j] =~= want[j] by {
                if 1 <= j <= len {
                    assert(ranges@[j] == ((j - 1) as usize, j as usize));
                }
            }
        }
        return ranges;
    }
    let mut start: usize = 0;
    let mut i: usize = 0;
    while sep.len() <= len && i <= len - sep.len()
        invariant
            0 < sep.len(),
            len == text.len(),
            start <= i <= len,
            ranges_within(ranges@, len as int),
            split_at(text@, sep@, 0, 0) == pieces_of(text@, ranges@) + split_at(
                text@,
                sep@,
                start as int,
                i as int,
            ),
        decreases len - i,
    {
        if matches_at(text, sep, i) {
            let ghost before = pieces_of(text@, ranges@);
            ranges.push((start, i));
            assert(pieces_of(text@, ranges@) =~= before + seq![
                text@.subrange(start as int, i as int),
            ]);
            i = i + sep.len();
            start = i;
        } else {
            i = i + 1;
        }
    }
    let ghost before = pieces_of(text@, ranges@);
    ranges.push((start, len));
    assert(pieces_of(text@, ranges@) =~= before + seq![text@.subrange(start as int, len as int)]);
    ranges
}

/// Whether `sep` occurs nowhere in `piece`.
pub open spec fn free_of(piece: Seq<char>, sep: Seq<char>) -> bool {
    forall|j: int| !occurs_at(piece, sep, j)
}

/// Whether in `piece` followed by `sep` the separator first occurs where
/// the piece ends.
pub open spec fn ends_at(piece: Seq<char>, sep: Seq<char>) -> bool {
    forall|j: int| 0 <= j < piece.len() ==> !occurs_at(piece + sep, sep, j)
}

/// Whether the pieces can be told apart again once they are joined with
/// `sep`: the separator occurs in no piece, nor across the end of a piece
/// and the separator that follows it.
pub open spec fn joinable(pieces: Seq<Seq<char>>, sep: Seq<char>) -> bool {
    forall|k: int|
        0 <= k < pieces.len() ==> if k < pieces.len() - 1 {
            ends_at(#[trigger] pieces[k], sep)
        } else {
            free_of(pieces[k], sep)
        }
}

/// Where the separator does not occur, the search passes on.
pub proof fn lemma_split_passes_over(s: Seq<char>, sep: Seq<char>, start: int, i: int, m: int)
    requires
        sep.len() > 0,
        0 <= start <= i <= m <= s.len(),
        forall|j: int| i <= j < m ==> !occurs_at(s, sep, j),
    ensures
        split_at(s, sep, start, i) == split_at(s, sep, start, m),
    decreases m - i,
{
    if i < m {
        if i + sep.len() <= s.len() {
            lemma_split_passes_over(s, sep, start, i + 1, m);
        }
    }
}

/// A piece in which the first character of the separator does not stand
/// can be told apart from what follows it.
pub proof fn lemma_without_first_char(piece: Seq<char>, sep: Seq<char>)
    requires
        sep.len() > 0,
        !piece.contains(sep[0]),
    ensures
        free_of(piece, sep),
        ends_at(piece, sep),
{
    assert forall|j: int| !occurs_at(piece, sep, j) by {
        if occurs_at(piece, sep, j) {
            assert(piece.subrange(j, j + sep.len())[0] == piece[j]);
            assert(piece.contains(sep[0]));
        }
    }
    assert forall|j: int| 0 <= j < piece.len() implies !occurs_at(piece + sep, sep, j) by {
        if occurs_at(piece + sep, sep, j) {
            assert((piece + sep).subrange(j, j + sep.len())[0] == piece[j]);
            assert(piece.contains(sep[0]));
        }
    }
}

/// Cutting a text from position `d` on is cutting what stands behind `d`.
pub proof fn lemma_split_shift(s: Seq<char>, sep: Seq<char>, start: int, i: int, d: int)
    requires
        sep.len() > 0,
        0 <= d <= start <= i <= s.len(),
    ensures
        split_at(s, sep, start, i) == split_at(s.skip(d), sep, start - d, i - d),
    decreases s.len() - i,
{
    let t = s.skip(d);
    assert(s.subrange(start, s.len() as int) =~= t.subrange(start - d, t.len() as int));
    if i + sep.len() <= s.len() {
        assert(s.subrange(i, i + sep.len()) =~= t.subrange(i - d, i - d + sep.len()));
        assert(s.subrange(start, i) =~= t.subrange(start - d, i - d));
        if occurs_at(s, sep, i) {
            lemma_split_shift(s, sep, i + sep.len(), i + sep.len(), d);
        } else {
            lemma_split_shift(s, sep, start, i + 1, d);
        }
    }
}

/// Pieces that are joined with a separator and cut at it again are the
/// pieces one began with, provided that they can be told apart.
pub proof fn law_split_of_join(pieces: Seq<Seq<char>>, sep: Seq<char>)
    requires
        sep.len() > 0,
        pieces.len() > 0,
        joinable(pieces, sep),
    ensures
        split_spec(join_spec(pieces, sep), sep) == pieces,
    decreases pieces.len(),
{
    let s = join_spec(pieces, sep);
    let first = pieces[0];
    if pieces.len() == 1 {
        assert(free_of(first, sep));
        lemma_split_passes_over(s, sep, 0, 0, s.len() as int);
        assert(s.subrange(0, s.len() as int) =~= s);
        assert(seq![s] =~= pieces);
    } else {
        let rest = pieces.drop_first();
        let tail = join_spec(rest, sep);
        let n = first.len() + sep.len();
        assert forall|k: int| 0 <= k < rest.len() implies if k < rest.len() - 1 {
            ends_at(#[trigger] rest[k], sep)
        } else {
            free_of(rest[k], sep)
        } by {
            assert(rest[k] == pieces[k + 1]);
        }
        law_split_of_join(rest, sep);
        assert(s == first + sep + tail);
        assert(ends_at(first, sep));
        assert forall|j: int| 0 <= j < first.len() implies !occurs_at(s, sep, j) by {
            assert(s.subrange(j, j + sep.len()) =~= (first + sep).subrange(j, j + sep.len()));
            assert(!occurs_at(first + sep, sep, j));
        }
        lemma_split_passes_over(s, sep, 0, 0, first.len() as int);
        assert(s.subrange(first.len() as int, n as int) =~= sep);
        assert(s.subrange(0, first.len() as int) =~= first);
        lemma_split_shift(s, sep, n as int, n as int, n as int);
        assert(s.skip(n as int) =~= tail);
        assert(seq![first] + rest =~= pieces);
    }
}

/// Whether `c` is white space: a tab, a line or page break, a space of any
/// width.
pub open spec fn is_blank(c: char) -> bool {
    let code = c as u32;
    (0x09 <= code <= 0x0d) || code == 0x20 || code == 0x85 || code == 0xa0 || code == 0x1680 || (
    0x2000 <= code <= 0x200a) || code == 0x2028 || code == 0x2029 || code == 0x202f || code
        == 0x205f || code == 0x3000
}

/// How many blanks stand in `s` from position `from` on, before the first
/// character that is none.
pub open spec fn blanks_from(s: Seq<char>, from: int) -> nat
    decreases s.len() - from,
{
    if 0 <= from < s.len() && is_blank(s[from]) {
        1 + blanks_from(s, from + 1)
    } else {
        0
    }
}

/// How many blanks stand in `s` before position `to`, behind the last
/// character that is none.
pub open spec fn blanks_before(s: Seq<char>, to: int) -> nat
    decreases to,
{
    if 0 < to <= s.len() && is_blank(s[to - 1]) {
        1 + blanks_before(s, to - 1)
    } else {
        0
    }
}

/// The text `s` without the blanks at its beginning and at its end.
pub open spec fn trim_spec(s: Seq<char>) -> Seq<char> {
    if blanks_from(s, 0) == s.len() {
        Seq::<char>::empty()
    } else {
        s.subrange(blanks_from(s, 0) as int, s.len() - blanks_before(s, s.len() as int))
    }
}

pub proof fn lemma_blanks_from(s: Seq<char>, from: int, to: int)
    requires
        0 <= from <= to <= s.len(),
        forall|j: int| from <= j < to ==> is_blank(#[trigger] s[j]),
    ensures
        blanks_from(s, from) == (to - from) + blanks_from(s, to),
    decreases to - from,
{
    if from < to {
        lemma_blanks_from(s, from + 1, to);
    }
}

pub proof fn lemma_blanks_before(s: Seq<char>, from: int, to: int)
    requires
        0 <= from <= to <= s.len(),
        forall|j: int| from <= j < to ==> is_blank(#[trigger] s[j]),
    ensures
        blanks_before(s, to) == (to - from) + blanks_before(s, from),
    decreases to - from,
{
    if from < to {
        lemma_blanks_before(s, from, to - 1);
    }
}

/// Whether `c` is white space.
pub fn blank_char(c: char) -> (r: bool)
    ensures
        r == is_blank(c),
{
    let code: u32 = c as u32;
    (0x09 <= code && code <= 0x0d) || code == 0x20 || code == 0x85 || code == 0xa0 || code
        == 0x1680 || (0x2000 <= code && code <= 0x200a) || code == 0x2028 || code == 0x2029
        || code == 0x202f || code == 0x205f || code == 0x3000
}

/// Where the part of `text` between `from` and `to` begins and ends once
/// the blanks at its beginning and at its end are left out.
pub fn trim_range(text: &Vec<char>, from: usize, to: usize) -> (r: (usize, usize))
    requires
        from <= to <= text.len(),
    ensures
        from <= r.0 <= r.1 <= to,
        text@.subrange(r.0 as int, r.1 as int) == trim_spec(text@.subrange(from as int, to as int)),
{
    let ghost part = text@.subrange(from as int, to as int);
    let mut a: usize = from;
    while a < to && blank_char(text[a])
        invariant
            from <= a <= to <= text.len(),
            part == text@.subrange(from as int, to as int),
            forall|j: int| 0 <= j < a - from ==> is_blank(#[trigger] part[j]),
        decreases to - a,
    {
        a = a + 1;
    }
    proof {
        lemma_blanks_from(part, 0, a - from);
    }
    if a == to {
        assert(text@.subrange(a as int, a as int) =~= Seq::<char>::empty());
        return (a, a);
    }
    let mut b: usize = to;
    while b > a && blank_char(text[b - 1])
        invariant
            from <= a < b <= to <= text.len(),
            part == text@.subrange(from as int, to as int),
            !is_blank(part[a - from]),
            forall|j: int| b - from <= j < to - from ==> is_blank(#[trigger] part[j]),
        decreases b,
    {
        b = b - 1;
        assert(b > a) by {
            if b == a {
                assert(is_blank(part[b - from]));
            }
        }
    }
    proof {
        lemma_blanks_before(part, b - from, to - from);
        assert(!is_blank(part[b - from - 1]));
        assert(text@.subrange(a as int, b as int) =~= part.subrange(a - from, b - from));
    }
    (a, b)
}

} // verus!
