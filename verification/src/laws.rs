//! Proved laws of the recognizer, in both directions.
//!
//! Completeness: for every well-formed input — a number token, an operator
//! symbol and a second number token with any whitespace between them, or a
//! function keyword with whitespace, optional parentheses and a number token
//! — recognition returns exactly the written operation on exactly the
//! written operand literals.  Whatever a caller then computes from the
//! operands, it computes from the numbers as they were written.
//!
//! Soundness: whatever either pattern accepts really has that shape — the
//! pieces handed back are number tokens and the line is exactly their
//! concatenation.  A line of neither shape is therefore always refused.

use vstd::prelude::*;

use crate::number::{
    lemma_number_chars, lemma_scan_number_subrange, lemma_skip_digits_bounds,
    lemma_skip_digits_region, spec_is_number, spec_scan_number, spec_skip_digits,
};
use crate::operation::OpModel;
use crate::recognize::{
    e_expansion, pi_expansion, spec_binary_op, spec_func_op, spec_is_prefix, spec_keyword,
    spec_match_binary, spec_match_func, spec_normalize, spec_recognize, spec_skip_spaces,
    ClassifyError, FuncKind,
};
use crate::text::{
    spec_is_digit, spec_is_operator, spec_is_space, spec_lower, spec_replace,
};

verus! {

/// Whether a string is whitespace throughout.
pub open spec fn spec_all_spaces(w: Seq<char>) -> bool {
    forall|i: int| 0 <= i < w.len() ==> spec_is_space(#[trigger] w[i])
}

/// Appending text that starts with a non-digit does not move the skip.
proof fn lemma_skip_digits_extend(a: Seq<char>, t: Seq<char>, i: int)
    requires
        0 <= i <= a.len(),
        t.len() > 0 && !spec_is_digit(t[0]),
    ensures
        spec_skip_digits(a + t, i) == spec_skip_digits(a, i),
    decreases a.len() - i,
{
    let s = a + t;
    if i < a.len() {
        assert(s[i] == a[i]);
        if spec_is_digit(a[i]) {
            lemma_skip_digits_extend(a, t, i + 1);
        }
    } else {
        assert(s[i] == t[0]);
    }
}

/// Appending text that can neither continue the digits nor open a fractional
/// part leaves the scanned token exactly where it was.
proof fn lemma_scan_number_extend(a: Seq<char>, t: Seq<char>)
    requires
        spec_is_number(a),
        t.len() > 0,
        !spec_is_digit(t[0]),
        t[0] != '.',
    ensures
        spec_scan_number(a + t, 0) == Some(a.len() as int),
{
    let s = a + t;
    lemma_number_chars(a);
    assert(s[0] == a[0]);
    let j = if 0 < s.len() && s[0] == '-' {
        1int
    } else {
        0int
    };
    lemma_skip_digits_extend(a, t, j);
    lemma_skip_digits_bounds(a, j);
    let k = spec_skip_digits(a, j);
    if k < a.len() && a[k] == '.' && k + 1 < a.len() && spec_is_digit(a[k + 1]) {
        assert(s[k] == a[k]);
        assert(s[k + 1] == a[k + 1]);
        lemma_skip_digits_extend(a, t, k + 1);
        lemma_skip_digits_bounds(a, k + 1);
        assert(spec_skip_digits(a, k + 1) == a.len());
    } else {
        assert(k == a.len());
        assert(s[k] == t[0]);
    }
}

/// The skip over a suffix is the skip over the whole, shifted.
proof fn lemma_skip_digits_concat(x: Seq<char>, u: Seq<char>, i: int)
    requires
        0 <= i <= u.len(),
    ensures
        spec_skip_digits(x + u, x.len() + i) == x.len() + spec_skip_digits(u, i),
    decreases u.len() - i,
{
    let s = x + u;
    if i < u.len() {
        assert(s[x.len() + i] == u[i]);
        if spec_is_digit(u[i]) {
            lemma_skip_digits_concat(x, u, i + 1);
        }
    }
}

/// Scanning a token at the start of a suffix is scanning it there in the
/// whole string.
proof fn lemma_scan_number_concat(x: Seq<char>, u: Seq<char>)
    ensures
        spec_scan_number(x + u, x.len() as int) == match spec_scan_number(u, 0) {
            Some(e) => Some(x.len() + e),
            None => None::<int>,
        },
{
    let s = x + u;
    if u.len() > 0 {
        assert(s[x.len() as int] == u[0]);
    }
    let ju = if 0 < u.len() && u[0] == '-' {
        1int
    } else {
        0int
    };
    lemma_skip_digits_concat(x, u, ju);
    lemma_skip_digits_bounds(u, ju);
    let ku = spec_skip_digits(u, ju);
    if ku < u.len() {
        assert(s[x.len() + ku] == u[ku]);
        if ku + 1 < u.len() {
            assert(s[x.len() + ku + 1] == u[ku + 1]);
            if u[ku] == '.' && spec_is_digit(u[ku + 1]) {
                lemma_skip_digits_concat(x, u, ku + 1);
            }
        }
    }
}

/// The skip over a run of whitespace ends exactly where the run does.
proof fn lemma_skip_spaces_run(s: Seq<char>, i: int, k: int)
    requires
        0 <= i <= k <= s.len(),
        forall|j: int| i <= j < k ==> spec_is_space(#[trigger] s[j]),
        k == s.len() || !spec_is_space(s[k]),
    ensures
        spec_skip_spaces(s, i) == k,
    decreases k - i,
{
    if i < k {
        lemma_skip_spaces_run(s, i + 1, k);
    }
}

/// Case folding does not change a string without capital letters.
proof fn lemma_lower_identity(s: Seq<char>)
    requires
        forall|i: int| 0 <= i < s.len() ==> !('A' <= #[trigger] s[i] && s[i] <= 'Z'),
    ensures
        spec_lower(s) == s,
{
    assert(spec_lower(s) =~= s);
}

/// Replacement of a pattern whose first character never occurs does nothing.
proof fn lemma_replace_absent(s: Seq<char>, pat: Seq<char>, rep: Seq<char>)
    requires
        pat.len() > 0,
        forall|i: int| 0 <= i < s.len() ==> #[trigger] s[i] != pat[0],
    ensures
        spec_replace(s, pat, rep) == s,
    decreases s.len(),
{
    if s.len() > 0 {
        if pat.len() <= s.len() && s.subrange(0, pat.len() as int) == pat {
            assert(s.subrange(0, pat.len() as int)[0] == s[0]);
            assert(false);
        }
        let tail = s.subrange(1, s.len() as int);
        assert forall|i: int| 0 <= i < tail.len() implies #[trigger] tail[i] != pat[0] by {
            assert(tail[i] == s[i + 1]);
        }
        lemma_replace_absent(tail, pat, rep);
        assert(seq![s[0]] + tail =~= s);
    }
}

/// A string without capital letters and without the letters `p` and `e`
/// normalizes to itself: neither the case folding nor either substitution
/// finds anything to change.
proof fn lemma_normalize_identity(s: Seq<char>)
    requires
        forall|i: int|
            0 <= i < s.len() ==> !('A' <= #[trigger] s[i] && s[i] <= 'Z') && s[i] != 'p' && s[i]
                != 'e',
    ensures
        spec_normalize(s) == s,
{
    reveal_strlit("pi");
    reveal_strlit("e");
    lemma_lower_identity(s);
    lemma_replace_absent(s, "pi"@, pi_expansion());
    lemma_replace_absent(s, "e"@, e_expansion());
}

/// Recognition of a well-formed binary line is exact: whatever whitespace
/// stands around the operator, the recognized operation is the written one,
/// on the two written operand literals, unchanged.
pub proof fn lemma_recognize_binary_exact(
    a: Seq<char>,
    c: char,
    b: Seq<char>,
    w1: Seq<char>,
    w2: Seq<char>,
)
    requires
        spec_is_number(a),
        spec_is_operator(c),
        spec_is_number(b),
        spec_all_spaces(w1),
        spec_all_spaces(w2),
    ensures
        spec_recognize(a + w1 + seq![c] + w2 + b) == Ok::<OpModel, ClassifyError>(
            spec_binary_op(c, a, b),
        ),
{
    let s = a + w1 + seq![c] + w2 + b;
    lemma_number_chars(a);
    lemma_number_chars(b);
    let la = a.len() as int;
    let lp = la + w1.len();
    let lq = lp + 1 + w2.len();
    assert(s.len() == lq + b.len());
    assert forall|i: int|
        0 <= i < s.len() implies spec_is_digit(#[trigger] s[i]) || s[i] == '.' || s[i] == '-'
        || spec_is_operator(s[i]) || spec_is_space(s[i]) by {
        if i < la {
            assert(s[i] == a[i]);
        } else if i < lp {
            assert(s[i] == w1[i - la]);
        } else if i == lp {
            assert(s[i] == c);
        } else if i < lq {
            assert(s[i] == w2[i - lp - 1]);
        } else {
            assert(s[i] == b[i - lq]);
        }
    }
    assert forall|i: int|
        0 <= i < s.len() implies !('A' <= #[trigger] s[i] && s[i] <= 'Z') && s[i] != 'p' && s[i]
        != 'e' by {
        assert(spec_is_digit(s[i]) || s[i] == '.' || s[i] == '-' || spec_is_operator(s[i])
            || spec_is_space(s[i]));
    }
    lemma_normalize_identity(s);
    // the first token ends exactly where it was written
    let t1 = w1 + seq![c] + w2 + b;
    assert(s =~= a + t1);
    if w1.len() > 0 {
        assert(t1[0] == w1[0]);
    } else {
        assert(t1[0] == c);
    }
    lemma_scan_number_extend(a, t1);
    // the whitespace after it ends exactly at the operator
    assert forall|j: int| la <= j < lp implies spec_is_space(#[trigger] s[j]) by {
        assert(s[j] == w1[j - la]);
    }
    assert(s[lp] == c);
    lemma_skip_spaces_run(s, la, lp);
    // the whitespace after the operator ends exactly at the second token
    assert forall|j: int| lp + 1 <= j < lq implies spec_is_space(#[trigger] s[j]) by {
        assert(s[j] == w2[j - lp - 1]);
    }
    assert(s[lq] == b[0]);
    lemma_skip_spaces_run(s, lp + 1, lq);
    // the second token fills the rest of the line
    let x = a + w1 + seq![c] + w2;
    assert(s =~= x + b);
    lemma_scan_number_concat(x, b);
    assert(spec_scan_number(s, lq) == Some(s.len() as int));
    // so the match hands back the written pieces
    assert(s.subrange(0, la) =~= a);
    assert(s.subrange(lq, s.len() as int) =~= b);
    assert(spec_match_binary(s) == Some((a, c, b)));
}

/// A prefix claim fails as soon as one position disagrees.
proof fn lemma_not_prefix(s: Seq<char>, p: Seq<char>, idx: int)
    requires
        0 <= idx < p.len(),
        idx < s.len(),
        s[idx] != p[idx],
    ensures
        !spec_is_prefix(s, p),
{
    if spec_is_prefix(s, p) {
        assert(s.subrange(0, p.len() as int)[idx] == s[idx]);
    }
}

/// The keyword table finds exactly the keyword a line starts with.  No
/// keyword is a prefix of another, so the earlier entries of the table are
/// ruled out by the character where they disagree.
proof fn lemma_keyword_of_line(kw: Seq<char>, f: FuncKind, rest: Seq<char>)
    requires
        (kw == "sqrt"@ && f == FuncKind::Sqrt) || (kw == "sin"@ && f == FuncKind::Sin) || (kw
            == "cos"@ && f == FuncKind::Cos) || (kw == "tan"@ && f == FuncKind::Tan) || (kw
            == "log"@ && f == FuncKind::Log) || (kw == "ln"@ && f == FuncKind::Ln) || (kw == "abs"@
            && f == FuncKind::Abs) || (kw == "fact"@ && f == FuncKind::Fact),
    ensures
        spec_keyword(kw + rest) == Some((f, kw.len() as int)),
        0 < kw.len() <= 4,
        forall|i: int|
            0 <= i < kw.len() ==> 'a' <= #[trigger] kw[i] && kw[i] <= 'z' && kw[i] != 'p' && kw[i]
                != 'e',
{
    reveal_strlit("sqrt");
    reveal_strlit("sin");
    reveal_strlit("cos");
    reveal_strlit("tan");
    reveal_strlit("log");
    reveal_strlit("ln");
    reveal_strlit("abs");
    reveal_strlit("fact");
    let s = kw + rest;
    assert(s.subrange(0, kw.len() as int) =~= kw);
    assert forall|i: int| 0 <= i < kw.len() implies s[i] == kw[i] by {}
    if kw == "sqrt"@ {
        assert(spec_is_prefix(s, "sqrt"@));
    } else if kw == "sin"@ {
        lemma_not_prefix(s, "sqrt"@, 1);
        assert(spec_is_prefix(s, "sin"@));
    } else if kw == "cos"@ {
        lemma_not_prefix(s, "sqrt"@, 0);
        lemma_not_prefix(s, "sin"@, 0);
        assert(spec_is_prefix(s, "cos"@));
    } else if kw == "tan"@ {
        lemma_not_prefix(s, "sqrt"@, 0);
        lemma_not_prefix(s, "sin"@, 0);
        lemma_not_prefix(s, "cos"@, 0);
        assert(spec_is_prefix(s, "tan"@));
    } else if kw == "log"@ {
        lemma_not_prefix(s, "sqrt"@, 0);
        lemma_not_prefix(s, "sin"@, 0);
        lemma_not_prefix(s, "cos"@, 0);
        lemma_not_prefix(s, "tan"@, 0);
        assert(spec_is_prefix(s, "log"@));
    } else if kw == "ln"@ {
        lemma_not_prefix(s, "sqrt"@, 0);
        lemma_not_prefix(s, "sin"@, 0);
        lemma_not_prefix(s, "cos"@, 0);
        lemma_not_prefix(s, "tan"@, 0);
        lemma_not_prefix(s, "log"@, 1);
        assert(spec_is_prefix(s, "ln"@));
    } else if kw == "abs"@ {
        lemma_not_prefix(s, "sqrt"@, 0);
        lemma_not_prefix(s, "sin"@, 0);
        lemma_not_prefix(s, "cos"@, 0);
        lemma_not_prefix(s, "tan"@, 0);
        lemma_not_prefix(s, "log"@, 0);
        lemma_not_prefix(s, "ln"@, 0);
        assert(spec_is_prefix(s, "abs"@));
    } else {
        lemma_not_prefix(s, "sqrt"@, 0);
        lemma_not_prefix(s, "sin"@, 0);
        lemma_not_prefix(s, "cos"@, 0);
        lemma_not_prefix(s, "tan"@, 0);
        lemma_not_prefix(s, "log"@, 0);
        lemma_not_prefix(s, "ln"@, 0);
        lemma_not_prefix(s, "abs"@, 0);
        assert(spec_is_prefix(s, "fact"@));
    }
}

/// The function pattern takes a well-formed call apart into exactly the
/// written keyword and the written operand literal.
#[verifier::rlimit(40)]
proof fn lemma_match_func_shape(
    s: Seq<char>,
    kw: Seq<char>,
    f: FuncKind,
    w: Seq<char>,
    x: Seq<char>,
    op_paren: bool,
    cl_paren: bool,
)
    requires
        (kw == "sqrt"@ && f == FuncKind::Sqrt) || (kw == "sin"@ && f == FuncKind::Sin) || (kw
            == "cos"@ && f == FuncKind::Cos) || (kw == "tan"@ && f == FuncKind::Tan) || (kw
            == "log"@ && f == FuncKind::Log) || (kw == "ln"@ && f == FuncKind::Ln) || (kw == "abs"@
            && f == FuncKind::Abs) || (kw == "fact"@ && f == FuncKind::Fact),
        spec_all_spaces(w),
        spec_is_number(x),
        s == kw + w + (if op_paren {
            seq!['(']
        } else {
            Seq::<char>::empty()
        }) + x + (if cl_paren {
            seq![')']
        } else {
            Seq::<char>::empty()
        }),
    ensures
        spec_match_func(s) == Some((f, x)),
{
    let opn: Seq<char> = if op_paren {
        seq!['(']
    } else {
        Seq::<char>::empty()
    };
    let cls: Seq<char> = if cl_paren {
        seq![')']
    } else {
        Seq::<char>::empty()
    };
    lemma_number_chars(x);
    let rest = w + opn + x + cls;
    assert(s =~= kw + rest);
    lemma_keyword_of_line(kw, f, rest);
    let kl = kw.len() as int;
    let lp = kl + w.len();
    let lq = lp + opn.len();
    let lr = lq + x.len();
    assert(s.len() == lr + cls.len());
    // the whitespace after the keyword ends at the parenthesis or the operand
    assert forall|j: int| kl <= j < lp implies spec_is_space(#[trigger] s[j]) by {
        assert(s[j] == w[j - kl]);
    }
    if op_paren {
        assert(s[lp] == '(');
    } else {
        assert(s[lp] == x[0]);
    }
    lemma_skip_spaces_run(s, kl, lp);
    if op_paren {
        assert(s[lq] == x[0]);
    }
    // the operand token fills the line up to the optional closing parenthesis
    let before = kw + w + opn;
    let after = x + cls;
    assert(s =~= before + after);
    if cl_paren {
        assert(after[x.len() as int] == ')');
        lemma_scan_number_extend(x, cls);
    } else {
        assert(after =~= x);
    }
    lemma_scan_number_concat(before, after);
    assert(spec_scan_number(s, lq) == Some(lr));
    if cl_paren {
        assert(s[lr] == ')');
        assert(lr + 1 == s.len());
    } else {
        assert(lr == s.len());
    }
    assert(s.subrange(lq, lr) =~= x);
}

/// Recognition of a well-formed function call is exact: whatever whitespace
/// follows the keyword and whichever of the two parentheses are written, the
/// recognized operation is the written function on the written operand
/// literal, unchanged.
#[verifier::rlimit(40)]
pub proof fn lemma_recognize_func_exact(
    s: Seq<char>,
    kw: Seq<char>,
    f: FuncKind,
    w: Seq<char>,
    x: Seq<char>,
    op_paren: bool,
    cl_paren: bool,
)
    requires
        (kw == "sqrt"@ && f == FuncKind::Sqrt) || (kw == "sin"@ && f == FuncKind::Sin) || (kw
            == "cos"@ && f == FuncKind::Cos) || (kw == "tan"@ && f == FuncKind::Tan) || (kw
            == "log"@ && f == FuncKind::Log) || (kw == "ln"@ && f == FuncKind::Ln) || (kw == "abs"@
            && f == FuncKind::Abs) || (kw == "fact"@ && f == FuncKind::Fact),
        spec_all_spaces(w),
        spec_is_number(x),
        s == kw + w + (if op_paren {
            seq!['(']
        } else {
            Seq::<char>::empty()
        }) + x + (if cl_paren {
            seq![')']
        } else {
            Seq::<char>::empty()
        }),
    ensures
        spec_recognize(s) == Ok::<OpModel, ClassifyError>(spec_func_op(f, x)),
{
    let opn: Seq<char> = if op_paren {
        seq!['(']
    } else {
        Seq::<char>::empty()
    };
    let cls: Seq<char> = if cl_paren {
        seq![')']
    } else {
        Seq::<char>::empty()
    };
    lemma_number_chars(x);
    let rest = w + opn + x + cls;
    assert(s =~= kw + rest);
    lemma_keyword_of_line(kw, f, rest);
    let kl = kw.len() as int;
    let lp = kl + w.len();
    let lq = lp + opn.len();
    let lr = lq + x.len();
    assert(s.len() == lr + cls.len());
    // the line normalizes to itself
    assert forall|i: int|
        0 <= i < s.len() implies !('A' <= #[trigger] s[i] && s[i] <= 'Z') && s[i] != 'p' && s[i]
        != 'e' by {
        if i < kl {
            assert(s[i] == kw[i]);
        } else if i < lp {
            assert(s[i] == w[i - kl]);
        } else if i < lq {
            assert(s[i] == '(');
        } else if i < lr {
            assert(s[i] == x[i - lq]);
            assert(spec_is_digit(s[i]) || s[i] == '.' || s[i] == '-');
        } else {
            assert(s[i] == ')');
        }
    }
    lemma_normalize_identity(s);
    // the binary pattern cannot match: the line starts with a letter
    assert(s[0] == kw[0]);
    assert(spec_scan_number(s, 0) is None);
    assert(spec_match_binary(s) is None);
    lemma_match_func_shape(s, kw, f, w, x, op_paren, cl_paren);
}

proof fn lemma_skip_spaces_bounds(s: Seq<char>, i: int)
    requires
        0 <= i <= s.len(),
    ensures
        i <= spec_skip_spaces(s, i) <= s.len(),
    decreases s.len() - i,
{
    if i < s.len() && spec_is_space(s[i]) {
        lemma_skip_spaces_bounds(s, i + 1);
    }
}

proof fn lemma_skip_spaces_region(s: Seq<char>, i: int)
    requires
        0 <= i <= s.len(),
    ensures
        forall|j: int| i <= j < spec_skip_spaces(s, i) ==> spec_is_space(#[trigger] s[j]),
    decreases s.len() - i,
{
    if i < s.len() && spec_is_space(s[i]) {
        lemma_skip_spaces_region(s, i + 1);
    }
}

/// Whatever the binary pattern accepts is a well-formed binary line: the
/// pieces it hands back are number tokens around an operator symbol, and the
/// line is exactly their concatenation with whitespace between.  The
/// returned pair holds the two stretches of whitespace.
pub proof fn lemma_match_binary_sound(s: Seq<char>) -> (w: (Seq<char>, Seq<char>))
    requires
        spec_match_binary(s) is Some,
    ensures
        ({
            let (a, c, b) = spec_match_binary(s)->Some_0;
            &&& spec_is_number(a)
            &&& spec_is_operator(c)
            &&& spec_is_number(b)
            &&& spec_all_spaces(w.0)
            &&& spec_all_spaces(w.1)
            &&& s == a + w.0 + seq![c] + w.1 + b
        }),
{
    let i = spec_scan_number(s, 0)->Some_0;
    let j0 = if 0 < s.len() && s[0] == '-' {
        1int
    } else {
        0int
    };
    lemma_skip_digits_bounds(s, j0);
    assert(0 <= i <= s.len()) by {
        let k = spec_skip_digits(s, j0);
        if k < s.len() && s[k] == '.' && k + 1 < s.len() && spec_is_digit(s[k + 1]) {
            lemma_skip_digits_bounds(s, k + 1);
        }
    }
    let p = spec_skip_spaces(s, i);
    lemma_skip_spaces_bounds(s, i);
    lemma_skip_spaces_region(s, i);
    let q = spec_skip_spaces(s, p + 1);
    lemma_skip_spaces_bounds(s, p + 1);
    lemma_skip_spaces_region(s, p + 1);
    lemma_scan_number_subrange(s, 0, i);
    lemma_scan_number_subrange(s, q, s.len() as int);
    let a = s.subrange(0, i);
    let b = s.subrange(q, s.len() as int);
    let w1 = s.subrange(i, p);
    let w2 = s.subrange(p + 1, q);
    assert forall|k: int| 0 <= k < w1.len() implies spec_is_space(#[trigger] w1[k]) by {
        assert(w1[k] == s[i + k]);
    }
    assert forall|k: int| 0 <= k < w2.len() implies spec_is_space(#[trigger] w2[k]) by {
        assert(w2[k] == s[p + 1 + k]);
    }
    assert(s =~= a + w1 + seq![s[p]] + w2 + b);
    (w1, w2)
}

/// Whatever the function pattern accepts is a well-formed call: the operand
/// is a number token and the line is exactly the keyword, whitespace, an
/// optional opening parenthesis, the operand, and an optional closing
/// parenthesis.  The returned triple holds the whitespace and which of the
/// two parentheses are written.
pub proof fn lemma_match_func_sound(s: Seq<char>) -> (r: (Seq<char>, bool, bool))
    requires
        spec_match_func(s) is Some,
    ensures
        ({
            let (f, x) = spec_match_func(s)->Some_0;
            let kl = spec_keyword(s)->Some_0.1;
            &&& spec_is_number(x)
            &&& spec_all_spaces(r.0)
            &&& s == s.subrange(0, kl) + r.0 + (if r.1 {
                seq!['(']
            } else {
                Seq::<char>::empty()
            }) + x + (if r.2 {
                seq![')']
            } else {
                Seq::<char>::empty()
            })
        }),
{
    let kl = spec_keyword(s)->Some_0.1;
    assert(0 <= kl <= s.len());
    let p = spec_skip_spaces(s, kl);
    lemma_skip_spaces_bounds(s, kl);
    lemma_skip_spaces_region(s, kl);
    let op_paren = p < s.len() && s[p] == '(';
    let q = if op_paren {
        p + 1
    } else {
        p
    };
    let rr = spec_scan_number(s, q)->Some_0;
    let cl_paren = rr + 1 == s.len() && s[rr] == ')';
    assert(rr <= s.len());
    lemma_scan_number_subrange(s, q, rr);
    let x = s.subrange(q, rr);
    let w = s.subrange(kl, p);
    assert forall|k: int| 0 <= k < w.len() implies spec_is_space(#[trigger] w[k]) by {
        assert(w[k] == s[kl + k]);
    }
    if op_paren {
        if cl_paren {
            assert(s =~= s.subrange(0, kl) + w + seq!['('] + x + seq![')']);
        } else {
            assert(s =~= s.subrange(0, kl) + w + seq!['('] + x + Seq::<char>::empty());
        }
    } else {
        if cl_paren {
            assert(s =~= s.subrange(0, kl) + w + Seq::<char>::empty() + x + seq![')']);
        } else {
            assert(s =~= s.subrange(0, kl) + w + Seq::<char>::empty() + x + Seq::<char>::empty());
        }
    }
    (w, op_paren, cl_paren)
}


} // verus!
