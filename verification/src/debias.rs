//! The von Neumann debiasing filter: non-overlapping pairs of bits, read as
//! the characters `'0'` and `'1'`, are mapped to at most one output bit each;
//! newline-separated lines are filtered independently and rejoined.

use vstd::prelude::*;

verus! {

use vstd::string::{StrSliceExecFns, StringExecFns};

/// The output of one non-overlapping pair: a `"01"` pair emits `'0'`, a
/// `"10"` pair emits `'1'`, and an equal pair emits nothing.
pub open spec fn pair_output(a: char, b: char) -> Seq<char> {
    if a == '0' && b == '1' {
        seq!['0']
    } else if a == '1' && b == '0' {
        seq!['1']
    } else {
        Seq::empty()
    }
}

/// The filter over the characters of `s` from `i` (inclusive) to `e`
/// (exclusive): the outputs of the non-overlapping pairs in order; a final
/// unpaired character is discarded.
pub open spec fn debias_range(s: Seq<char>, i: int, e: int) -> Seq<char>
    decreases e - i,
{
    if 0 <= i && i + 2 <= e && e <= s.len() {
        pair_output(s[i], s[i + 1]) + debias_range(s, i + 2, e)
    } else {
        Seq::empty()
    }
}

/// The filter applied to one whole line.
pub open spec fn debias_line(s: Seq<char>) -> Seq<char> {
    debias_range(s, 0, s.len() as int)
}

/// The position of the first newline at or after `i`, or the end of the text
/// when there is none.
pub open spec fn line_end(s: Seq<char>, i: int) -> int
    decreases s.len() - i,
{
    if i < 0 || i >= s.len() {
        s.len() as int
    } else if s[i] == '\n' {
        i
    } else {
        line_end(s, i + 1)
    }
}

/// The end of the line starting at `i` never lies before `i` nor past the
/// end of the text.
pub proof fn lemma_line_end_bounds(s: Seq<char>, i: int)
    requires
        0 <= i <= s.len(),
    ensures
        i <= line_end(s, i) <= s.len(),
    decreases s.len() - i,
{
    if i < s.len() && s[i] != '\n' {
        lemma_line_end_bounds(s, i + 1);
    }
}

/// The filter applied to every newline-separated line of `s` from `i` on,
/// the filtered lines rejoined with the newlines kept in place.
pub open spec fn debias_from(s: Seq<char>, i: int) -> Seq<char>
    decreases s.len() - i,
{
    let e = line_end(s, i);
    if e >= s.len() {
        debias_range(s, i, s.len() as int)
    } else {
        proof {
            if i < 0 || i >= s.len() {
                assert(line_end(s, i) == s.len() as int);
            }
            lemma_line_end_bounds(s, i);
        }
        debias_range(s, i, e) + seq!['\n'] + debias_from(s, e + 1)
    }
}

/// The filter applied to a whole text: each newline-separated line filtered
/// independently, results rejoined with the original separators.
pub open spec fn debias_text(s: Seq<char>) -> Seq<char> {
    debias_from(s, 0)
}

/// A scan that saw no newline strictly before `e`, and a newline or the end
/// of the text at `e`, found the end of the line starting at `i`.
proof fn lemma_line_end_of_scan(s: Seq<char>, i: int, e: int)
    requires
        0 <= i <= e <= s.len(),
        forall|j: int| i <= j < e ==> s[j] != '\n',
        e == s.len() || s[e] == '\n',
    ensures
        line_end(s, i) == e,
    decreases e - i,
{
    if i < e {
        lemma_line_end_of_scan(s, i + 1, e);
    }
}

/// Filtering a line cut out of a longer text equals filtering that span of
/// the text in place.
proof fn lemma_debias_subrange(s: Seq<char>, i: int, e: int, j: int)
    requires
        0 <= i <= e <= s.len(),
        0 <= j <= e - i,
    ensures
        debias_range(s.subrange(i, e), j, e - i) == debias_range(s, i + j, e),
    decreases e - i - j,
{
    if j + 2 <= e - i {
        assert(s.subrange(i, e)[j] == s[i + j]);
        assert(s.subrange(i, e)[j + 1] == s[i + j + 1]);
        lemma_debias_subrange(s, i, e, j + 2);
    }
}

/// Filters one line of `'0'`/`'1'` characters: scans the non-overlapping
/// pairs left to right, emits `'0'` for a `"01"` pair and `'1'` for a `"10"`
/// pair, and drops equal pairs and a final unpaired character.
pub fn von_neumann(line: &str) -> (r: String)
    ensures
        r@ == debias_line(line@),
{
    let n: usize = line.unicode_len();
    let mut res = String::new();
    let mut i: usize = 0;
    while i < n && i + 1 < n
        invariant
            n == line@.len(),
            i <= n,
            res@ + debias_range(line@, i as int, n as int) == debias_line(line@),
        decreases n - i,
    {
        proof {
            reveal_strlit("0");
            reveal_strlit("1");
        }
        let c1: char = line.get_char(i);
        let c2: char = line.get_char(i + 1);
        if c1 == '0' && c2 == '1' {
            res.append("0");
        } else if c1 == '1' && c2 == '0' {
            res.append("1");
        }
        proof {
            assert(debias_range(line@, i as int, n as int) == pair_output(c1, c2)
                + debias_range(line@, i + 2, n as int));
        }
        i += 2;
    }
    res
}

/// Filters a whole text: each newline-separated line is passed through
/// `von_neumann` on its own and the filtered lines are rejoined with the
/// original newlines.
pub fn to_von_neumann(text: &str) -> (r: String)
    ensures
        r@ == debias_text(text@),
{
    let n: usize = text.unicode_len();
    let mut res = String::new();
    let mut start: usize = 0;
    let mut more: bool = true;
    while more
        invariant
            n == text@.len(),
            start <= n,
            more ==> res@ + debias_from(text@, start as int) == debias_text(text@),
            !more ==> res@ == debias_text(text@),
        decreases (n - start) + if more {
            1int
        } else {
            0int
        },
    {
        let mut e: usize = start;
        while e < n && text.get_char(e) != '\n'
            invariant
                n == text@.len(),
                start <= e <= n,
                forall|j: int| start <= j < e ==> text@[j] != '\n',
            decreases n - e,
        {
            e += 1;
        }
        proof {
            lemma_line_end_of_scan(text@, start as int, e as int);
        }
        let line: &str = text.substring_char(start, e);
        let filtered: String = von_neumann(line);
        proof {
            lemma_debias_subrange(text@, start as int, e as int, 0);
        }
        res.append(filtered.as_str());
        if e == n {
            proof {
                assert(res@ =~= debias_text(text@));
            }
            more = false;
        } else {
            proof {
                reveal_strlit("\n");
            }
            res.append("\n");
            proof {
                assert(res@ + debias_from(text@, e + 1) =~= debias_text(text@));
            }
            start = e + 1;
        }
    }
    res
}

} // verus!
