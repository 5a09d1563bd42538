//! Small operations on text.
use vstd::prelude::*;

verus! {

/// Whether the given character is white space in the sense of Unicode's
/// `White_Space` property.
pub open spec fn is_white_space(c: char) -> bool {
    ('\u{9}' <= c && c <= '\u{d}') || c == ' ' || c == '\u{85}' || c == '\u{a0}' || c
        == '\u{1680}' || ('\u{2000}' <= c && c <= '\u{200a}') || c == '\u{2028}' || c
        == '\u{2029}' || c == '\u{202f}' || c == '\u{205f}' || c == '\u{3000}'
}

/// `s` without the white space at its start.
pub open spec fn trimmed_start(s: Seq<char>) -> Seq<char>
    decreases s.len(),
{
    if s.len() > 0 && is_white_space(s[0]) {
        trimmed_start(s.subrange(1, s.len() as int))
    } else {
        s
    }
}

/// `s` without the white space at its end.
pub open spec fn trimmed_end(s: Seq<char>) -> Seq<char>
    decreases s.len(),
{
    if s.len() > 0 && is_white_space(s.last()) {
        trimmed_end(s.drop_last())
    } else {
        s
    }
}

/// `s` without white space at either end.
pub open spec fn trimmed(s: Seq<char>) -> Seq<char> {
    trimmed_end(trimmed_start(s))
}

/// The pieces of `s` between its commas, in order; a text without commas
/// is one piece.
pub open spec fn comma_pieces(s: Seq<char>) -> Seq<Seq<char>>
    decreases s.len(),
{
    if s.len() == 0 {
        seq![Seq::empty()]
    } else {
        let earlier = comma_pieces(s.drop_last());
        if s.last() == ',' {
            earlier.push(Seq::empty())
        } else {
            earlier.update(earlier.len() - 1, earlier.last().push(s.last()))
        }
    }
}

/// There is always at least one piece.
pub proof fn lemma_comma_pieces_nonempty(s: Seq<char>)
    ensures
        comma_pieces(s).len() >= 1,
    decreases s.len(),
{
    if s.len() > 0 {
        lemma_comma_pieces_nonempty(s.drop_last());
    }
}

/// Whether `c` is white space.
pub fn white_space(c: char) -> (r: bool)
    ensures
        r == is_white_space(c),
{
    ('\u{9}' <= c && c <= '\u{d}') || c == ' ' || c == '\u{85}' || c == '\u{a0}' || c
        == '\u{1680}' || ('\u{2000}' <= c && c <= '\u{200a}') || c == '\u{2028}' || c
        == '\u{2029}' || c == '\u{202f}' || c == '\u{205f}' || c == '\u{3000}'
}

/// Whether `a` and `b` hold the same characters.
pub fn same_text(a: &str, b: &str) -> (r: bool)
    ensures
        r == (a@ == b@),
{
    let n = a.unicode_len();
    if n != b.unicode_len() {
        return false;
    }
    let mut i: usize = 0;
    while i < n
        invariant
            i <= n,
            n == a@.len(),
            n == b@.len(),
            forall|k: int| 0 <= k < i ==> a@[k] == b@[k],
        decreases n - i,
    {
        if a.get_char(i) != b.get_char(i) {
            return false;
        }
        i = i + 1;
    }
    proof {
        assert(a@ =~= b@);
    }
    true
}

/// `s` without white space at either end.
pub fn trim(s: &str) -> (r: &str)
    ensures
        r@ == trimmed(s@),
{
    let n = s.unicode_len();
    let mut a: usize = 0;
    proof {
        assert(s@.subrange(0, n as int) =~= s@);
    }
    while a < n && white_space(s.get_char(a))
        invariant
            a <= n,
            n == s@.len(),
            trimmed_start(s@) == trimmed_start(s@.subrange(a as int, n as int)),
        decreases n - a,
    {
        proof {
            let rest = s@.subrange(a as int, n as int);
            assert(rest.subrange(1, rest.len() as int) =~= s@.subrange(a + 1, n as int));
        }
        a = a + 1;
    }
    let mut b: usize = n;
    while b > a && white_space(s.get_char(b - 1))
        invariant
            a <= b <= n,
            n == s@.len(),
            trimmed_start(s@) == s@.subrange(a as int, n as int),
            trimmed(s@) == trimmed_end(s@.subrange(a as int, b as int)),
        decreases b - a,
    {
        proof {
            assert(s@.subrange(a as int, b as int).drop_last() =~= s@.subrange(
                a as int,
                b - 1,
            ));
        }
        b = b - 1;
    }
    s.substring_char(a, b)
}

/// The pieces of `s` between its commas, each without white space at
/// either end.
pub fn split_trimmed(s: &str) -> (r: Vec<String>)
    ensures
        r@.len() == comma_pieces(s@).len(),
        forall|j: int| 0 <= j < r@.len() ==> (#[trigger] r@[j])@ == trimmed(comma_pieces(s@)[j]),
{
    let n = s.unicode_len();
    let mut pieces: Vec<String> = Vec::new();
    let mut start: usize = 0;
    let mut i: usize = 0;
    while i < n
        invariant
            start <= i <= n,
            n == s@.len(),
            pieces@.len() + 1 == comma_pieces(s@.subrange(0, i as int)).len(),
            comma_pieces(s@.subrange(0, i as int)).last() == s@.subrange(start as int, i as int),
            forall|j: int|
                0 <= j < pieces@.len() ==> (#[trigger] pieces@[j])@ == trimmed(
                    comma_pieces(s@.subrange(0, i as int))[j],
                ),
        decreases n - i,
    {
        proof {
            lemma_comma_pieces_nonempty(s@.subrange(0, i as int));
            assert(s@.subrange(0, i + 1).drop_last() =~= s@.subrange(0, i as int));
        }
        if s.get_char(i) == ',' {
            let piece = s.substring_char(start, i);
            pieces.push(String::from_str(trim(piece)));
            start = i + 1;
            proof {
                assert(s@.subrange(start as int, i + 1) =~= Seq::<char>::empty());
            }
        } else {
            proof {
                assert(s@.subrange(start as int, i + 1) =~= s@.subrange(start as int, i as int).push(
                    s@[i as int],
                ));
            }
        }
        i = i + 1;
    }
    proof {
        assert(s@.subrange(0, n as int) =~= s@);
        lemma_comma_pieces_nonempty(s@);
    }
    let last = s.substring_char(start, n);
    pieces.push(String::from_str(trim(last)));
    pieces
}

} // verus!
