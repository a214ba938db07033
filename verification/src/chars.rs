//! Character-sequence utilities shared by the path grammars and the flattener.
//!
//! Paths are processed as vectors of characters; every helper here carries a
//! contract over the corresponding `Seq<char>` so that the grammar functions
//! can state their rewrites exactly.

use vstd::prelude::*;

verus! {

/// Whitespace, as the Unicode `White_Space` property lists it.
pub open spec fn is_space_char(c: char) -> bool {
    let u = c as u32;
    (0x09 <= u <= 0x0D) || u == 0x20 || u == 0x85 || u == 0xA0 || u == 0x1680 || (0x2000 <= u
        <= 0x200A) || u == 0x2028 || u == 0x2029 || u == 0x202F || u == 0x205F || u == 0x3000
}

/// Control characters (Unicode category `Cc`).
pub open spec fn is_control_char(c: char) -> bool {
    let u = c as u32;
    u < 0x20 || (0x7F <= u <= 0x9F)
}

/// Format characters (Unicode category `Cf`).
pub open spec fn is_format_char(c: char) -> bool {
    let u = c as u32;
    u == 0xAD || (0x600 <= u <= 0x605) || u == 0x61C || u == 0x6DD || u == 0x70F || (0x890 <= u
        <= 0x891) || u == 0x8E2 || u == 0x180E || (0x200B <= u <= 0x200F) || (0x202A <= u <= 0x202E)
        || (0x2060 <= u <= 0x2064) || (0x2066 <= u <= 0x206F) || u == 0xFEFF || (0xFFF9 <= u
        <= 0xFFFB) || u == 0x110BD || u == 0x110CD || (0x13430 <= u <= 0x1343F) || (0x1BCA0 <= u
        <= 0x1BCA3) || (0x1D173 <= u <= 0x1D17A) || u == 0xE0001 || (0xE0020 <= u <= 0xE007F)
}

/// ASCII letters `A`..`Z` mapped to lower case; everything else unchanged.
pub open spec fn lower_char(c: char) -> char {
    if 'A' <= c && c <= 'Z' {
        (((c as u8) + 32) as char)
    } else {
        c
    }
}

/// Pointwise ASCII lowering of a character sequence.
pub open spec fn lower(s: Seq<char>) -> Seq<char> {
    Seq::new(s.len(), |i: int| lower_char(s[i]))
}

/// `pat` occurs in `s` starting at index `i`.
pub open spec fn match_at(s: Seq<char>, i: int, pat: Seq<char>) -> bool {
    &&& 0 <= i
    &&& i + pat.len() <= s.len()
    &&& forall|k: int| 0 <= k < pat.len() ==> s[i + k] == pat[k]
}

/// `pat` (given lower case) occurs at index `i` of `s`, ignoring ASCII case.
pub open spec fn match_ci_at(s: Seq<char>, i: int, pat: Seq<char>) -> bool {
    &&& 0 <= i
    &&& i + pat.len() <= s.len()
    &&& forall|k: int| 0 <= k < pat.len() ==> lower_char(s[i + k]) == pat[k]
}

/// `pat` occurs somewhere in `s`.
pub open spec fn occurs(s: Seq<char>, pat: Seq<char>) -> bool {
    exists|i: int| #[trigger] match_at(s, i, pat)
}

/// `pat` (given lower case) occurs somewhere in `s`, ignoring ASCII case.
pub open spec fn occurs_ci(s: Seq<char>, pat: Seq<char>) -> bool {
    exists|i: int| #[trigger] match_ci_at(s, i, pat)
}

/// Leftmost-first rewriting of every occurrence of `pat` (matched ignoring
/// ASCII case) by `rep`; matched text is consumed, so replacements are never
/// rescanned.
pub open spec fn replace_ci(s: Seq<char>, pat: Seq<char>, rep: Seq<char>) -> Seq<char>
    decreases s.len(),
{
    if pat.len() == 0 || s.len() < pat.len() {
        s
    } else if match_ci_at(s, 0, pat) {
        rep + replace_ci(s.skip(pat.len() as int), pat, rep)
    } else {
        seq![s[0]] + replace_ci(s.drop_first(), pat, rep)
    }
}

/// A match inside a suffix is a (shifted) match in the whole sequence.
pub proof fn lemma_match_shift(s: Seq<char>, i: int, j: int, pat: Seq<char>)
    requires
        0 <= i <= s.len(),
        0 <= j,
    ensures
        match_ci_at(s.skip(i), j, pat) <==> match_ci_at(s, i + j, pat),
        match_at(s.skip(i), j, pat) <==> match_at(s, i + j, pat),
{
    if match_ci_at(s.skip(i), j, pat) {
        assert forall|k: int| 0 <= k < pat.len() implies lower_char(s[i + j + k]) == pat[k] by {
            assert(s.skip(i)[j + k] == s[i + j + k]);
        }
    }
    if match_ci_at(s, i + j, pat) {
        assert forall|k: int| 0 <= k < pat.len() implies lower_char(s.skip(i)[j + k]) == pat[k] by {
            assert(s.skip(i)[j + k] == s[i + j + k]);
        }
    }
    if match_at(s.skip(i), j, pat) {
        assert forall|k: int| 0 <= k < pat.len() implies s[i + j + k] == pat[k] by {
            assert(s.skip(i)[j + k] == s[i + j + k]);
        }
    }
    if match_at(s, i + j, pat) {
        assert forall|k: int| 0 <= k < pat.len() implies s.skip(i)[j + k] == pat[k] by {
            assert(s.skip(i)[j + k] == s[i + j + k]);
        }
    }
}

/// Characters of a string, in order.
///
/// Relies on `str::chars` and `Iterator::collect`: the characters of the
/// string, in order, gathered into a vector.
#[verifier::external_body]
pub fn str_chars(s: &str) -> (r: Vec<char>)
    ensures
        r@ == s@,
{
    s.chars().collect()
}

/// A string made of the given characters, in order.
///
/// Relies on `String`'s `FromIterator<char>`: collecting characters yields
/// the string holding exactly those characters.
#[verifier::external_body]
pub fn chars_str(v: &Vec<char>) -> (r: String)
    ensures
        r@ == v@,
{
    v.iter().collect()
}

/// A copy of an optional string, equal to the original.
pub fn clone_opt_string(o: &Option<String>) -> (r: Option<String>)
    ensures
        r == *o,
{
    match o {
        Some(s) => Some(s.clone()),
        None => None,
    }
}

/// A copy of a string vector, equal to the original.
pub fn clone_vec_string(v: &Vec<String>) -> (r: Vec<String>)
    ensures
        r@ == v@,
{
    let mut out: Vec<String> = Vec::new();
    let n = v.len();
    for i in 0..n
        invariant
            n == v@.len(),
            out@.len() == i,
            forall|j: int| 0 <= j < i ==> out@[j] == v@[j],
    {
        out.push(v[i].clone());
    }
    proof {
        assert(out@ =~= v@);
    }
    out
}

/// Exec counterpart of [`lower_char`].
pub fn lower_char_exec(c: char) -> (r: char)
    ensures
        r == lower_char(c),
{
    if 'A' <= c && c <= 'Z' {
        ((c as u8) + 32) as char
    } else {
        c
    }
}

/// Exec counterpart of [`is_space_char`].
pub fn is_space_exec(c: char) -> (r: bool)
    ensures
        r == is_space_char(c),
{
    let u = c as u32;
    (0x09 <= u && u <= 0x0D) || u == 0x20 || u == 0x85 || u == 0xA0 || u == 0x1680 || (0x2000 <= u
        && u <= 0x200A) || u == 0x2028 || u == 0x2029 || u == 0x202F || u == 0x205F || u == 0x3000
}

/// Exec counterpart of [`is_control_char`].
pub fn is_control_exec(c: char) -> (r: bool)
    ensures
        r == is_control_char(c),
{
    let u = c as u32;
    u < 0x20 || (0x7F <= u && u <= 0x9F)
}

/// Exec counterpart of [`is_format_char`].
pub fn is_format_exec(c: char) -> (r: bool)
    ensures
        r == is_format_char(c),
{
    let u = c as u32;
    u == 0xAD || (0x600 <= u && u <= 0x605) || u == 0x61C || u == 0x6DD || u == 0x70F || (0x890 <= u
        && u <= 0x891) || u == 0x8E2 || u == 0x180E || (0x200B <= u && u <= 0x200F) || (0x202A <= u
        && u <= 0x202E) || (0x2060 <= u && u <= 0x2064) || (0x2066 <= u && u <= 0x206F) || u
        == 0xFEFF || (0xFFF9 <= u && u <= 0xFFFB) || u == 0x110BD || u == 0x110CD || (0x13430 <= u
        && u <= 0x1343F) || (0x1BCA0 <= u && u <= 0x1BCA3) || (0x1D173 <= u && u <= 0x1D17A) || u
        == 0xE0001 || (0xE0020 <= u && u <= 0xE007F)
}

/// Pointwise ASCII lowering of a character vector.
pub fn lower_vec(s: &Vec<char>) -> (r: Vec<char>)
    ensures
        r@ == lower(s@),
{
    let mut out: Vec<char> = Vec::new();
    let n = s.len();
    for i in 0..n
        invariant
            n == s@.len(),
            out@.len() == i,
            forall|j: int| 0 <= j < i ==> out@[j] == lower_char(s@[j]),
    {
        out.push(lower_char_exec(s[i]));
    }
    proof {
        assert(out@ =~= lower(s@));
    }
    out
}

/// Whether two character vectors hold the same characters.
pub fn chars_eq(a: &Vec<char>, b: &Vec<char>) -> (r: bool)
    ensures
        r == (a@ == b@),
{
    if a.len() != b.len() {
        return false;
    }
    let n = a.len();
    for i in 0..n
        invariant
            n == a@.len() == b@.len(),
            forall|j: int| 0 <= j < i ==> a@[j] == b@[j],
    {
        if a[i] != b[i] {
            return false;
        }
    }
    proof {
        assert(a@ =~= b@);
    }
    true
}

/// Whether `pat` occurs at index `i` of `s`.
pub fn match_at_exec(s: &Vec<char>, i: usize, pat: &Vec<char>) -> (r: bool)
    requires
        i <= s@.len(),
    ensures
        r == match_at(s@, i as int, pat@),
{
    let sl = s.len();
    if pat.len() > sl - i {
        return false;
    }
    let n = pat.len();
    for k in 0..n
        invariant
            n == pat@.len(),
            sl == s@.len(),
            i + n <= sl,
            forall|j: int| 0 <= j < k ==> s@[i + j] == pat@[j],
    {
        if s[i + k] != pat[k] {
            return false;
        }
    }
    true
}

/// Whether `pat` (given lower case) occurs at index `i` of `s`, ignoring ASCII case.
pub fn match_ci_at_exec(s: &Vec<char>, i: usize, pat: &Vec<char>) -> (r: bool)
    requires
        i <= s@.len(),
    ensures
        r == match_ci_at(s@, i as int, pat@),
{
    let sl = s.len();
    if pat.len() > sl - i {
        return false;
    }
    let n = pat.len();
    for k in 0..n
        invariant
            n == pat@.len(),
            sl == s@.len(),
            i + n <= sl,
            forall|j: int| 0 <= j < k ==> lower_char(s@[i + j]) == pat@[j],
    {
        if lower_char_exec(s[i + k]) != pat[k] {
            return false;
        }
    }
    true
}

/// Whether `pat` occurs anywhere in `s`.
pub fn occurs_exec(s: &Vec<char>, pat: &Vec<char>) -> (r: bool)
    ensures
        r == occurs(s@, pat@),
{
    if pat.len() == 0 {
        proof {
            assert(match_at(s@, 0, pat@));
        }
        return true;
    }
    let n = s.len();
    let mut i: usize = 0;
    while i < n
        invariant
            n == s@.len(),
            i <= n,
            forall|j: int| 0 <= j < i ==> !#[trigger] match_at(s@, j, pat@),
        decreases n - i,
    {
        if match_at_exec(s, i, pat) {
            return true;
        }
        i = i + 1;
    }
    proof {
        assert forall|j: int| !#[trigger] match_at(s@, j, pat@) by {
            if j < 0 || j + pat@.len() > s@.len() {
            } else {
                assert(0 <= j < s@.len());
            }
        }
    }
    false
}

/// Exec counterpart of [`replace_ci`].
pub fn replace_ci_exec(s: &Vec<char>, pat: &Vec<char>, rep: &Vec<char>) -> (r: Vec<char>)
    ensures
        r@ == replace_ci(s@, pat@, rep@),
{
    if pat.len() == 0 {
        let r = s.clone();
        proof {
            assert(r@ =~= s@);
        }
        return r;
    }
    let mut out: Vec<char> = Vec::new();
    let mut i: usize = 0;
    let n = s.len();
    proof {
        assert(s@.skip(0) =~= s@);
        assert(out@ + replace_ci(s@, pat@, rep@) =~= replace_ci(s@, pat@, rep@));
    }
    while i < n
        invariant
            n == s@.len(),
            i <= n,
            pat@.len() > 0,
            replace_ci(s@, pat@, rep@) == out@ + replace_ci(s@.skip(i as int), pat@, rep@),
        decreases n - i,
    {
        let ghost pre = out@;
        let ghost t = s@.skip(i as int);
        if match_ci_at_exec(s, i, pat) {
            proof {
                lemma_match_shift(s@, i as int, 0, pat@);
                assert(match_ci_at(t, 0, pat@));
            }
            let m = rep.len();
            let mut k: usize = 0;
            while k < m
                invariant
                    m == rep@.len(),
                    k <= m,
                    out@ == pre + rep@.take(k as int),
                decreases m - k,
            {
                out.push(rep[k]);
                proof {
                    assert(out@ =~= pre + rep@.take(k as int + 1));
                }
                k = k + 1;
            }
            proof {
                assert(out@ =~= pre + rep@);
                assert(t.len() >= pat@.len());
                assert(replace_ci(t, pat@, rep@) == rep@ + replace_ci(
                    t.skip(pat@.len() as int),
                    pat@,
                    rep@,
                ));
                assert(t.skip(pat@.len() as int) =~= s@.skip(i + pat@.len()));
                assert(pre + replace_ci(t, pat@, rep@) =~= out@ + replace_ci(
                    s@.skip(i + pat@.len()),
                    pat@,
                    rep@,
                ));
            }
            i = i + pat.len();
        } else {
            proof {
                lemma_match_shift(s@, i as int, 0, pat@);
                assert(!match_ci_at(t, 0, pat@));
                if t.len() >= pat@.len() {
                    assert(replace_ci(t, pat@, rep@) == seq![t[0]] + replace_ci(
                        t.drop_first(),
                        pat@,
                        rep@,
                    ));
                } else {
                    assert(replace_ci(t, pat@, rep@) == t);
                    assert(replace_ci(t.drop_first(), pat@, rep@) == t.drop_first());
                }
                assert(t[0] == s@[i as int]);
                assert(t.drop_first() =~= s@.skip(i + 1));
            }
            out.push(s[i]);
            proof {
                assert(out@ =~= pre + seq![s@[i as int]]);
                assert(pre + replace_ci(t, pat@, rep@) =~= out@ + replace_ci(
                    s@.skip(i as int + 1),
                    pat@,
                    rep@,
                ));
            }
            i = i + 1;
        }
    }
    proof {
        assert(s@.skip(i as int) =~= Seq::<char>::empty());
        assert(replace_ci(s@.skip(i as int), pat@, rep@) =~= Seq::<char>::empty());
        assert(replace_ci(s@, pat@, rep@) =~= out@);
    }
    out
}

} // verus!
