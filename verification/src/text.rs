//! Character-level text processing: the character classes of the grammar,
//! case folding, and textual substring replacement.

use vstd::prelude::*;

verus! {

/// Characters the grammar treats as decimal digits.
pub open spec fn spec_is_digit(c: char) -> bool {
    '0' <= c && c <= '9'
}

/// ASCII whitespace accepted between tokens.
pub open spec fn spec_is_space(c: char) -> bool {
    c == ' ' || c == '\t' || c == '\n' || c == '\r' || c == '\u{b}' || c == '\u{c}'
}

/// The five binary operator symbols.
pub open spec fn spec_is_operator(c: char) -> bool {
    c == '+' || c == '-' || c == '*' || c == '/' || c == '^'
}

/// Case folding of one character: ASCII capital letters are mapped to the
/// corresponding small letters, every other character is left alone.
pub open spec fn spec_lower_char(c: char) -> char {
    if 'A' <= c && c <= 'Z' {
        ((c as u32) + 32) as char
    } else {
        c
    }
}

/// Case folding of a whole string, character by character.
pub open spec fn spec_lower(s: Seq<char>) -> Seq<char> {
    s.map_values(|c: char| spec_lower_char(c))
}

/// Replacement of every non-overlapping occurrence of `pat` by `rep`,
/// scanning left to right, as `str::replace` does.
pub open spec fn spec_replace(s: Seq<char>, pat: Seq<char>, rep: Seq<char>) -> Seq<char>
    decreases s.len(),
{
    if s.len() == 0 {
        s
    } else if 0 < pat.len() && pat.len() <= s.len() && s.subrange(0, pat.len() as int) == pat {
        rep + spec_replace(s.subrange(pat.len() as int, s.len() as int), pat, rep)
    } else {
        seq![s[0]] + spec_replace(s.subrange(1, s.len() as int), pat, rep)
    }
}

pub(crate) fn is_digit_char(c: char) -> (r: bool)
    ensures
        r == spec_is_digit(c),
{
    '0' <= c && c <= '9'
}

pub(crate) fn is_space_char(c: char) -> (r: bool)
    ensures
        r == spec_is_space(c),
{
    c == ' ' || c == '\t' || c == '\n' || c == '\r' || c == '\u{b}' || c == '\u{c}'
}

pub(crate) fn is_operator_char(c: char) -> (r: bool)
    ensures
        r == spec_is_operator(c),
{
    c == '+' || c == '-' || c == '*' || c == '/' || c == '^'
}

pub(crate) fn lower_char(c: char) -> (r: char)
    ensures
        r == spec_lower_char(c),
{
    match c {
        'A' => 'a',
        'B' => 'b',
        'C' => 'c',
        'D' => 'd',
        'E' => 'e',
        'F' => 'f',
        'G' => 'g',
        'H' => 'h',
        'I' => 'i',
        'J' => 'j',
        'K' => 'k',
        'L' => 'l',
        'M' => 'm',
        'N' => 'n',
        'O' => 'o',
        'P' => 'p',
        'Q' => 'q',
        'R' => 'r',
        'S' => 's',
        'T' => 't',
        'U' => 'u',
        'V' => 'v',
        'W' => 'w',
        'X' => 'x',
        'Y' => 'y',
        'Z' => 'z',
        _ => c,
    }
}

/// The characters of a string slice, in order, as a vector.
pub(crate) fn str_to_chars(s: &str) -> (r: Vec<char>)
    ensures
        r@ == s@,
{
    let n = s.unicode_len();
    let mut r: Vec<char> = Vec::new();
    let mut i: usize = 0;
    while i < n
        invariant
            i <= n,
            n == s@.len(),
            r@ == s@.subrange(0, i as int),
        decreases n - i,
    {
        r.push(s.get_char(i));
        proof {
            assert(r@ =~= s@.subrange(0, i + 1 as int));
        }
        i = i + 1;
    }
    proof {
        assert(r@ =~= s@);
    }
    r
}

/// Case folding of a whole vector of characters.
pub(crate) fn lower_chars(v: &Vec<char>) -> (r: Vec<char>)
    ensures
        r@ == spec_lower(v@),
{
    let mut r: Vec<char> = Vec::new();
    let mut i: usize = 0;
    while i < v.len()
        invariant
            i <= v@.len(),
            r@.len() == i,
            forall|j: int| 0 <= j < i ==> r@[j] == spec_lower_char(v@[j]),
        decreases v@.len() - i,
    {
        r.push(lower_char(v[i]));
        i = i + 1;
    }
    proof {
        assert(r@ =~= spec_lower(v@));
    }
    r
}

/// Whether `pat` occurs in `v` starting at position `i`.
pub(crate) fn occurs_at(v: &Vec<char>, i: usize, pat: &Vec<char>) -> (r: bool)
    requires
        i <= v@.len(),
    ensures
        r == (i + pat@.len() <= v@.len() && v@.subrange(i as int, i + pat@.len()) == pat@),
{
    if pat.len() > v.len() - i {
        return false;
    }
    let mut j: usize = 0;
    while j < pat.len()
        invariant
            j <= pat@.len(),
            i + pat@.len() <= v@.len(),
            v@.len() <= usize::MAX,
            forall|k: int| 0 <= k < j ==> v@[i + k] == pat@[k],
        decreases pat@.len() - j,
    {
        if v[i + j] != pat[j] {
            proof {
                assert(v@.subrange(i as int, i + pat@.len())[j as int] == v@[i + j]);
            }
            return false;
        }
        j = j + 1;
    }
    proof {
        assert(v@.subrange(i as int, i + pat@.len()) =~= pat@);
    }
    true
}

fn append_all(out: &mut Vec<char>, rep: &Vec<char>)
    ensures
        final(out)@ == old(out)@ + rep@,
{
    let mut j: usize = 0;
    while j < rep.len()
        invariant
            j <= rep@.len(),
            out@ == old(out)@ + rep@.subrange(0, j as int),
        decreases rep@.len() - j,
    {
        out.push(rep[j]);
        proof {
            assert(old(out)@ + rep@.subrange(0, j + 1 as int) =~= (old(out)@ + rep@.subrange(
                0,
                j as int,
            )).push(rep@[j as int]));
        }
        j = j + 1;
    }
    proof {
        assert(rep@.subrange(0, rep@.len() as int) =~= rep@);
    }
}

/// Replacement of every non-overlapping occurrence of `pat` by `rep`,
/// scanning left to right.
pub(crate) fn replace_chars(v: &Vec<char>, pat: &Vec<char>, rep: &Vec<char>) -> (r: Vec<char>)
    requires
        pat@.len() > 0,
    ensures
        r@ == spec_replace(v@, pat@, rep@),
{
    let mut out: Vec<char> = Vec::new();
    let mut i: usize = 0;
    proof {
        assert(v@.subrange(0, v@.len() as int) =~= v@);
        assert(Seq::<char>::empty() + spec_replace(v@, pat@, rep@) =~= spec_replace(
            v@,
            pat@,
            rep@,
        ));
    }
    while i < v.len()
        invariant
            i <= v@.len(),
            pat@.len() > 0,
            spec_replace(v@, pat@, rep@) == out@ + spec_replace(
                v@.subrange(i as int, v@.len() as int),
                pat@,
                rep@,
            ),
        decreases v@.len() - i,
    {
        let ghost tail = v@.subrange(i as int, v@.len() as int);
        if occurs_at(v, i, pat) {
            append_all(&mut out, rep);
            proof {
                assert(tail.subrange(0, pat@.len() as int) =~= v@.subrange(
                    i as int,
                    i + pat@.len(),
                ));
                assert(tail.subrange(pat@.len() as int, tail.len() as int) =~= v@.subrange(
                    i + pat@.len(),
                    v@.len() as int,
                ));
                assert(out@ + spec_replace(
                    v@.subrange(i + pat@.len(), v@.len() as int),
                    pat@,
                    rep@,
                ) =~= spec_replace(v@, pat@, rep@));
            }
            i = i + pat.len();
        } else {
            out.push(v[i]);
            proof {
                assert(tail[0] == v@[i as int]);
                if pat@.len() <= tail.len() && tail.subrange(0, pat@.len() as int) == pat@ {
                    assert(v@.subrange(i as int, i + pat@.len()) =~= tail.subrange(
                        0,
                        pat@.len() as int,
                    ));
                }
                assert(tail.subrange(1, tail.len() as int) =~= v@.subrange(
                    i + 1,
                    v@.len() as int,
                ));
                assert(out@ + spec_replace(v@.subrange(i + 1, v@.len() as int), pat@, rep@)
                    =~= spec_replace(v@, pat@, rep@));
            }
            i = i + 1;
        }
    }
    proof {
        assert(v@.subrange(i as int, v@.len() as int) =~= Seq::<char>::empty());
        assert(out@ + spec_replace(Seq::<char>::empty(), pat@, rep@) =~= out@);
    }
    out
}

/// The characters of `v` from position `a` up to (excluding) position `b`.
pub(crate) fn copy_range(v: &Vec<char>, a: usize, b: usize) -> (r: Vec<char>)
    requires
        a <= b <= v@.len(),
    ensures
        r@ == v@.subrange(a as int, b as int),
{
    let mut r: Vec<char> = Vec::new();
    let mut i: usize = a;
    while i < b
        invariant
            a <= i <= b <= v@.len(),
            r@ == v@.subrange(a as int, i as int),
        decreases b - i,
    {
        r.push(v[i]);
        proof {
            assert(r@ =~= v@.subrange(a as int, i + 1 as int));
        }
        i = i + 1;
    }
    r
}

} // verus!
