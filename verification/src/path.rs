//! The file-path grammar: rewriting raw paths into a canonical
//! placeholder-based form and classifying them as usable or too broad.
//!
//! `normalize` applies a fixed list of rewrite phases: backslashes become
//! slashes, the ends are trimmed, separator runs and wildcard runs collapse,
//! trailing wildcard and current-directory segments are stripped, interior
//! current-directory segments are dropped, a leading home shorthand expands to
//! the home placeholder, and the known environment-variable tokens map to
//! canonical placeholders. Each phase is specified as a function on
//! `Seq<char>`, and the token rewrites are proved to resolve every recognized
//! token for good (see [`lemma_placeholder_closure`]).

use vstd::prelude::*;

use crate::chars::{
    chars_eq, chars_str, is_space_char, is_space_exec, lower_char, lower_char_exec, match_at,
    match_at_exec, match_ci_at, match_ci_at_exec, occurs, occurs_ci, occurs_exec, replace_ci,
    replace_ci_exec,
    str_chars,
};

verus! {

/// A character trimmed from the end of a raw path: whitespace or a separator.
pub open spec fn is_trailer(c: char) -> bool {
    is_space_char(c) || c == '/'
}

/// Backslashes become slashes; all other characters stay.
pub open spec fn map_slash(s: Seq<char>) -> Seq<char> {
    Seq::new(s.len(), |i: int| if s[i] == '\\' { '/' } else { s[i] })
}

/// Leading whitespace is dropped.
pub open spec fn trim_lead(s: Seq<char>) -> Seq<char>
    decreases s.len(),
{
    if s.len() > 0 && is_space_char(s[0]) {
        trim_lead(s.drop_first())
    } else {
        s
    }
}

/// Runs of separators collapse to a single separator.
pub open spec fn collapse_slashes(s: Seq<char>) -> Seq<char>
    decreases s.len(),
{
    if s.len() >= 2 && s[0] == '/' && s[1] == '/' {
        collapse_slashes(s.drop_first())
    } else if s.len() > 0 {
        seq![s[0]] + collapse_slashes(s.drop_first())
    } else {
        Seq::empty()
    }
}

/// Length of the run of wildcards at the start of `s`.
pub open spec fn star_run(s: Seq<char>) -> nat
    decreases s.len(),
{
    if s.len() > 0 && s[0] == '*' {
        1 + star_run(s.drop_first())
    } else {
        0
    }
}

pub proof fn lemma_star_run_le(s: Seq<char>)
    ensures
        star_run(s) <= s.len(),
    decreases s.len(),
{
    if s.len() > 0 && s[0] == '*' {
        lemma_star_run_le(s.drop_first());
    }
}

/// A wildcard run of two or more collapses to a single wildcard unless it
/// stands alone in its segment (bounded by separators or the string's ends);
/// `left_ok` says whether the run would be bounded on the left.
pub open spec fn fix_stars(s: Seq<char>, left_ok: bool) -> Seq<char>
    decreases s.len(),
    via fix_stars_dec
{
    if s.len() == 0 {
        Seq::empty()
    } else if s[0] != '*' {
        seq![s[0]] + fix_stars(s.drop_first(), s[0] == '/')
    } else {
        let k = star_run(s);
        let right_ok = k == s.len() || s[k as int] == '/';
        if k >= 2 && !(left_ok && right_ok) {
            seq!['*'] + fix_stars(s.skip(k as int), false)
        } else {
            s.take(k as int) + fix_stars(s.skip(k as int), false)
        }
    }
}

#[via_fn]
proof fn fix_stars_dec(s: Seq<char>, left_ok: bool) {
    lemma_star_run_le(s);
}

/// Trailing whitespace, separators, wildcard segments and current-directory
/// segments are stripped.
pub open spec fn drop_trail(s: Seq<char>) -> Seq<char>
    decreases s.len(),
{
    if s.len() > 0 && is_trailer(s.last()) {
        drop_trail(s.drop_last())
    } else if s.len() >= 2 && s[s.len() - 2] == '/' && (s.last() == '*' || s.last() == '.') {
        drop_trail(s.take(s.len() - 2))
    } else {
        s
    }
}

/// Interior current-directory segments are dropped.
pub open spec fn drop_dots(s: Seq<char>) -> Seq<char>
    decreases s.len(),
{
    if s.len() >= 3 && s[0] == '/' && s[1] == '.' && s[2] == '/' {
        drop_dots(s.skip(2))
    } else if s.len() > 0 {
        seq![s[0]] + drop_dots(s.drop_first())
    } else {
        Seq::empty()
    }
}

/// A bare or leading home shorthand expands to the home placeholder.
pub open spec fn expand_tilde(s: Seq<char>) -> Seq<char> {
    if s == seq!['~'] {
        "<home>"@
    } else if s.len() >= 2 && s[0] == '~' && s[1] == '/' {
        "<home>"@ + s.skip(1)
    } else {
        s
    }
}

/// Leftmost-first rewriting of every exact occurrence of `pat` by `rep`.
pub open spec fn replace_exact(s: Seq<char>, pat: Seq<char>, rep: Seq<char>) -> Seq<char>
    decreases s.len(),
{
    if pat.len() == 0 || s.len() < pat.len() {
        s
    } else if match_at(s, 0, pat) {
        rep + replace_exact(s.skip(pat.len() as int), pat, rep)
    } else {
        seq![s[0]] + replace_exact(s.drop_first(), pat, rep)
    }
}

/// The structural phases shared by the file and registry grammars.
pub open spec fn norm_structure(s: Seq<char>) -> Seq<char> {
    drop_dots(drop_trail(fix_stars(collapse_slashes(trim_lead(map_slash(s))), true)))
}

/// The environment-variable and storefront-account tokens, applied in order.
pub open spec fn norm_tokens(s: Seq<char>) -> Seq<char> {
    let a = replace_ci(s, "%appdata%"@, "<winAppData>"@);
    let b = replace_ci(a, "%userprofile%/appdata/roaming"@, "<winAppData>"@);
    let c = replace_ci(b, "%localappdata%"@, "<winLocalAppData>"@);
    let d = replace_ci(c, "%userprofile%/appdata/local/"@, "<winLocalAppData>/"@);
    let e = replace_ci(d, "%userprofile%"@, "<home>"@);
    let f = replace_ci(e, "%userprofile%/documents"@, "<winDocuments>"@);
    let g = replace_exact(f, "{64BitSteamID}"@, "<storeUserId>"@);
    replace_exact(g, "{Steam3AccountID}"@, "<storeUserId>"@)
}

/// Canonical form of a raw file path.
pub open spec fn norm_path(s: Seq<char>) -> Seq<char> {
    norm_tokens(expand_tilde(norm_structure(s)))
}

/// An ASCII letter.
pub open spec fn is_ascii_letter(c: char) -> bool {
    ('a' <= c && c <= 'z') || ('A' <= c && c <= 'Z')
}

/// Paths that match a whole canonical placeholder, a directory that exists
/// whether or not a game is installed, a whole drive, the filesystem root, or
/// a relative wildcard.
pub open spec fn sp_too_broad(s: Seq<char>) -> bool {
    ||| s == "<root>"@
    ||| s == "<game>"@
    ||| s == "<base>"@
    ||| s == "<home>"@
    ||| s == "<storeUserId>"@
    ||| s == "<osUserName>"@
    ||| s == "<winAppData>"@
    ||| s == "<winLocalAppData>"@
    ||| s == "<winDocuments>"@
    ||| s == "<winPublic>"@
    ||| s == "<winProgramData>"@
    ||| s == "<winDir>"@
    ||| s == "<xdgData>"@
    ||| s == "<xdgConfig>"@
    ||| s == "<base>/<storeUserId>"@
    ||| s == "<home>/Documents"@
    ||| s == "<home>/Saved Games"@
    ||| s == "<home>/AppData"@
    ||| s == "<home>/AppData/Local"@
    ||| s == "<home>/AppData/Local/Packages"@
    ||| s == "<home>/AppData/LocalLow"@
    ||| s == "<home>/AppData/Roaming"@
    ||| s == "<home>/Documents/My Games"@
    ||| s == "<home>/Library/Application Support"@
    ||| s == "<home>/Library/Preferences"@
    ||| s == "<home>/Telltale Games"@
    ||| s == "<root>/config"@
    ||| s == "<winDir>/win.ini"@
    ||| s == "<winDir>/SysWOW64"@
    ||| s == "<winDocuments>/My Games"@
    ||| s == "<winDocuments>/Telltale Games"@
    ||| s == "<xdgConfig>/unity3d"@
    ||| s == "<xdgData>/unity3d"@
    ||| s == "C:/Program Files"@
    ||| s == "C:/Program Files (x86)"@
    ||| match_at(s, 0, "<home>/*/"@)
    ||| match_at(s, 0, "<home>/**/"@)
    ||| match_at(s, 0, "<winDocuments>/Telltale Games/*/"@)
    ||| match_at(s, 0, "<xdgConfig>/unity3d/*"@)
    ||| match_at(s, 0, "<xdgData>/unity3d/*"@)
    ||| (s.len() == 2 && is_ascii_letter(s[0]) && s[1] == ':')
    ||| s == "/"@
    ||| (s.len() > 0 && s[0] == '*')
}

/// A character an environment-variable name is made of.
pub open spec fn is_env_char(c: char) -> bool {
    ('a' <= c && c <= 'z') || ('A' <= c && c <= 'Z') || ('0' <= c && c <= '9') || c == '_'
}

/// The text holds a raw environment-variable-style token (`%NAME%`) spanning
/// positions `i` through `j`.
pub open spec fn env_token_at(s: Seq<char>, i: int, j: int) -> bool {
    &&& 0 <= i
    &&& i + 1 < j < s.len()
    &&& s[i] == '%'
    &&& s[j] == '%'
    &&& forall|k: int| i < k < j ==> is_env_char(#[trigger] s[k])
}

/// The text holds a raw environment-variable-style token somewhere.
pub open spec fn sp_has_env_token(s: Seq<char>) -> bool {
    exists|i: int, j: int| env_token_at(s, i, j)
}

/// A canonical path worth keeping: non-empty, free of unresolved markup and
/// of unresolved environment-variable tokens, not a relative-path escape, and
/// not too broad.
pub open spec fn sp_usable(s: Seq<char>) -> bool {
    &&& s.len() > 0
    &&& !occurs(s, "{{"@)
    &&& !match_at(s, 0, "./"@)
    &&& !match_at(s, 0, "../"@)
    &&& !sp_has_env_token(s)
    &&& !sp_too_broad(s)
}

/// Exec counterpart of [`map_slash`].
pub fn map_slash_exec(s: &Vec<char>) -> (r: Vec<char>)
    ensures
        r@ == map_slash(s@),
{
    let mut out: Vec<char> = Vec::new();
    let n = s.len();
    for i in 0..n
        invariant
            n == s@.len(),
            out@.len() == i,
            forall|j: int| 0 <= j < i ==> out@[j] == map_slash(s@)[j],
    {
        if s[i] == '\\' {
            out.push('/');
        } else {
            out.push(s[i]);
        }
    }
    proof {
        assert(out@ =~= map_slash(s@));
    }
    out
}

/// Exec counterpart of [`trim_lead`].
pub fn trim_lead_exec(s: &Vec<char>) -> (r: Vec<char>)
    ensures
        r@ == trim_lead(s@),
{
    let n = s.len();
    let mut i: usize = 0;
    proof {
        assert(s@.skip(0) =~= s@);
    }
    while i < n && is_space_exec(s[i])
        invariant
            n == s@.len(),
            i <= n,
            trim_lead(s@) == trim_lead(s@.skip(i as int)),
        decreases n - i,
    {
        proof {
            assert(s@.skip(i as int).drop_first() =~= s@.skip(i as int + 1));
        }
        i = i + 1;
    }
    let mut out: Vec<char> = Vec::new();
    let mut j: usize = i;
    while j < n
        invariant
            n == s@.len(),
            i <= j <= n,
            out@ =~= s@.subrange(i as int, j as int),
        decreases n - j,
    {
        out.push(s[j]);
        j = j + 1;
    }
    proof {
        assert(out@ =~= s@.skip(i as int));
        if i < n {
            assert(!is_space_char(s@.skip(i as int)[0]));
        }
        assert(trim_lead(s@.skip(i as int)) == s@.skip(i as int));
    }
    out
}

/// Exec counterpart of [`collapse_slashes`].
pub fn collapse_slashes_exec(s: &Vec<char>) -> (r: Vec<char>)
    ensures
        r@ == collapse_slashes(s@),
{
    let mut out: Vec<char> = Vec::new();
    let n = s.len();
    let mut i: usize = 0;
    proof {
        assert(s@.skip(0) =~= s@);
    }
    while i < n
        invariant
            n == s@.len(),
            i <= n,
            collapse_slashes(s@) == out@ + collapse_slashes(s@.skip(i as int)),
        decreases n - i,
    {
        let ghost t = s@.skip(i as int);
        proof {
            assert(t.drop_first() =~= s@.skip(i as int + 1));
            assert(t[0] == s@[i as int]);
            if i + 1 < n {
                assert(t[1] == s@[i as int + 1]);
            }
        }
        if s[i] == '/' && i + 1 < n && s[i + 1] == '/' {
        } else {
            out.push(s[i]);
            proof {
                assert(out@ + collapse_slashes(s@.skip(i as int + 1)) =~= (out@.drop_last()
                    + (seq![t[0]] + collapse_slashes(t.drop_first()))));
            }
        }
        i = i + 1;
    }
    proof {
        assert(s@.skip(i as int) =~= Seq::<char>::empty());
        assert(collapse_slashes(s@) =~= out@);
    }
    out
}

/// Length of the wildcard run starting at `i`.
fn star_run_exec(s: &Vec<char>, i: usize) -> (k: usize)
    requires
        i <= s@.len(),
    ensures
        k == star_run(s@.skip(i as int)),
        i + k <= s@.len(),
    {
    let n = s.len();
    let mut j: usize = i;
    while j < n && s[j] == '*'
        invariant
            n == s@.len(),
            i <= j <= n,
            star_run(s@.skip(i as int)) == j - i + star_run(s@.skip(j as int)),
        decreases n - j,
    {
        proof {
            assert(s@.skip(j as int)[0] == s@[j as int]);
            assert(s@.skip(j as int).drop_first() =~= s@.skip(j as int + 1));
        }
        j = j + 1;
    }
    proof {
        if j < n {
            assert(s@.skip(j as int)[0] == s@[j as int]);
        } else {
            assert(s@.skip(j as int).len() == 0);
        }
        assert(star_run(s@.skip(j as int)) == 0);
    }
    j - i
}

/// Exec counterpart of [`fix_stars`].
pub fn fix_stars_exec(s: &Vec<char>) -> (r: Vec<char>)
    ensures
        r@ == fix_stars(s@, true),
{
    let mut out: Vec<char> = Vec::new();
    let n = s.len();
    let mut i: usize = 0;
    let mut left_ok: bool = true;
    proof {
        assert(s@.skip(0) =~= s@);
    }
    while i < n
        invariant
            n == s@.len(),
            i <= n,
            fix_stars(s@, true) == out@ + fix_stars(s@.skip(i as int), left_ok),
        decreases n - i,
    {
        let ghost t = s@.skip(i as int);
        proof {
            assert(t[0] == s@[i as int]);
            assert(t.drop_first() =~= s@.skip(i as int + 1));
        }
        if s[i] != '*' {
            let c = s[i];
            out.push(c);
            proof {
                assert(out@ =~= out@.drop_last() + seq![t[0]]);
                assert(out@.drop_last() + (seq![t[0]] + fix_stars(t.drop_first(), t[0] == '/'))
                    =~= out@ + fix_stars(s@.skip(i as int + 1), t[0] == '/'));
            }
            left_ok = c == '/';
            i = i + 1;
        } else {
            let k = star_run_exec(s, i);
            proof {
                assert(star_run(t) == k);
                lemma_star_run_le(t);
                assert(t.skip(k as int) =~= s@.skip(i + k));
            }
            let right_ok = i + k == n || s[i + k] == '/';
            proof {
                assert(right_ok == (star_run(t) == t.len() || t[star_run(t) as int] == '/'));
            }
            let ghost pre = out@;
            if k >= 2 && !(left_ok && right_ok) {
                out.push('*');
                proof {
                    assert(out@ =~= pre + seq!['*']);
                }
            } else {
                let mut c: usize = 0;
                while c < k
                    invariant
                        c <= k,
                        i + k <= n,
                        n == s@.len(),
                        out@ =~= pre + s@.subrange(i as int, i + c),
                    decreases k - c,
                {
                    out.push(s[i + c]);
                    proof {
                        assert(out@ =~= pre + s@.subrange(i as int, i + c + 1));
                    }
                    c = c + 1;
                }
                proof {
                    assert(s@.subrange(i as int, i + k) =~= t.take(k as int));
                }
            }
            proof {
                assert(pre + fix_stars(t, left_ok) =~= out@ + fix_stars(s@.skip(i + k), false));
            }
            i = i + k;
            left_ok = false;
        }
    }
    proof {
        assert(s@.skip(i as int) =~= Seq::<char>::empty());
        assert(fix_stars(s@, true) =~= out@);
    }
    out
}

/// Exec counterpart of [`drop_trail`].
#[verifier::loop_isolation(false)]
pub fn drop_trail_exec(s: Vec<char>) -> (r: Vec<char>)
    ensures
        r@ == drop_trail(s@),
{
    let ghost orig = s@;
    let mut v = s;
    loop
        invariant
            drop_trail(orig) == drop_trail(v@),
        decreases v@.len(),
    {
        let n = v.len();
        if n > 0 && {
            let c = v[n - 1];
            is_space_exec(c) || c == '/'
        } {
            proof {
                assert(v@.last() == v@[n - 1]);
            }
            let ghost before = v@;
            v.pop();
            proof {
                assert(v@ =~= before.drop_last());
            }
        } else if n >= 2 && v[n - 2] == '/' && (v[n - 1] == '*' || v[n - 1] == '.') {
            let ghost before = v@;
            proof {
                assert(!is_trailer(before.last()));
                assert(before[before.len() - 2] == '/');
            }
            v.pop();
            v.pop();
            proof {
                assert(v@ =~= before.take(before.len() - 2));
            }
        } else {
            proof {
                if v@.len() > 0 {
                    assert(v@.last() == v@[n - 1]);
                }
                assert(drop_trail(v@) == v@);
            }
            return v;
        }
    }
}

/// Exec counterpart of [`drop_dots`].
pub fn drop_dots_exec(s: &Vec<char>) -> (r: Vec<char>)
    ensures
        r@ == drop_dots(s@),
{
    let mut out: Vec<char> = Vec::new();
    let n = s.len();
    let mut i: usize = 0;
    proof {
        assert(s@.skip(0) =~= s@);
    }
    while i < n
        invariant
            n == s@.len(),
            i <= n,
            drop_dots(s@) == out@ + drop_dots(s@.skip(i as int)),
        decreases n - i,
    {
        let ghost t = s@.skip(i as int);
        proof {
            assert(t[0] == s@[i as int]);
            assert(t.drop_first() =~= s@.skip(i as int + 1));
        }
        if n - i > 2 && s[i] == '/' && s[i + 1] == '.' && s[i + 2] == '/' {
            proof {
                assert(t[1] == s@[i as int + 1]);
                assert(t[2] == s@[i as int + 2]);
                assert(t.skip(2) =~= s@.skip(i as int + 2));
            }
            i = i + 2;
        } else {
            proof {
                if t.len() >= 3 {
                    assert(t[1] == s@[i as int + 1]);
                    assert(t[2] == s@[i as int + 2]);
                }
            }
            out.push(s[i]);
            proof {
                assert(out@ =~= out@.drop_last() + seq![t[0]]);
                assert(out@.drop_last() + (seq![t[0]] + drop_dots(t.drop_first())) =~= out@
                    + drop_dots(s@.skip(i as int + 1)));
            }
            i = i + 1;
        }
    }
    proof {
        assert(s@.skip(i as int) =~= Seq::<char>::empty());
        assert(drop_dots(s@) =~= out@);
    }
    out
}

/// Exec counterpart of [`expand_tilde`].
pub fn expand_tilde_exec(s: Vec<char>) -> (r: Vec<char>)
    ensures
        r@ == expand_tilde(s@),
{
    let home = str_chars("<home>");
    if s.len() == 1 && s[0] == '~' {
        proof {
            assert(s@ =~= seq!['~']);
        }
        home
    } else if s.len() >= 2 && s[0] == '~' && s[1] == '/' {
        proof {
            assert(s@ != seq!['~']);
        }
        let mut out = home;
        let n = s.len();
        let mut i: usize = 1;
        while i < n
            invariant
                n == s@.len(),
                1 <= i <= n,
                out@ =~= "<home>"@ + s@.subrange(1, i as int),
            decreases n - i,
        {
            out.push(s[i]);
            proof {
                assert(out@ =~= "<home>"@ + s@.subrange(1, i as int + 1));
            }
            i = i + 1;
        }
        proof {
            assert(s@.subrange(1, n as int) =~= s@.skip(1));
        }
        out
    } else {
        proof {
            if s@.len() == 1 && s@[0] == '~' {
                assert(s@ =~= seq!['~']);
            }
        }
        s
    }
}

/// Exec counterpart of [`replace_exact`].
#[verifier::rlimit(60)]
#[verifier::spinoff_prover]
pub fn replace_exact_exec(s: &Vec<char>, pat: &Vec<char>, rep: &Vec<char>) -> (r: Vec<char>)
    ensures
        r@ == replace_exact(s@, pat@, rep@),
{
    if pat.len() == 0 {
        let r = s.clone();
        proof {
            assert(r@ =~= s@);
        }
        return r;
    }
    let mut out: Vec<char> = Vec::new();
    let mut i: usize = 0;
    let n = s.len();
    proof {
        assert(s@.skip(0) =~= s@);
        assert(out@ + replace_exact(s@, pat@, rep@) =~= replace_exact(s@, pat@, rep@));
    }
    while i < n
        invariant
            n == s@.len(),
            i <= n,
            pat@.len() > 0,
            replace_exact(s@, pat@, rep@) == out@ + replace_exact(s@.skip(i as int), pat@, rep@),
        decreases n - i,
    {
        let ghost pre = out@;
        let ghost t = s@.skip(i as int);
        if match_at_exec(s, i, pat) {
            proof {
                crate::chars::lemma_match_shift(s@, i as int, 0, pat@);
                assert(match_at(t, 0, pat@));
            }
            let m = rep.len();
            let mut k: usize = 0;
            while k < m
                invariant
                    m == rep@.len(),
                    k <= m,
                    out@ == pre + rep@.take(k as int),
                decreases m - k,
            {
                out.push(rep[k]);
                proof {
                    assert(out@ =~= pre + rep@.take(k as int + 1));
                }
                k = k + 1;
            }
            proof {
                assert(out@ =~= pre + rep@);
                assert(t.len() >= pat@.len());
                assert(replace_exact(t, pat@, rep@) == rep@ + replace_exact(
                    t.skip(pat@.len() as int),
                    pat@,
                    rep@,
                ));
                assert(t.skip(pat@.len() as int) =~= s@.skip(i + pat@.len()));
                assert(pre + replace_exact(t, pat@, rep@) =~= out@ + replace_exact(
                    s@.skip(i + pat@.len()),
                    pat@,
                    rep@,
                ));
            }
            i = i + pat.len();
        } else {
            proof {
                crate::chars::lemma_match_shift(s@, i as int, 0, pat@);
                assert(!match_at(t, 0, pat@));
                if t.len() >= pat@.len() {
                    assert(replace_exact(t, pat@, rep@) == seq![t[0]] + replace_exact(
                        t.drop_first(),
                        pat@,
                        rep@,
                    ));
                } else {
                    assert(replace_exact(t, pat@, rep@) == t);
                    assert(replace_exact(t.drop_first(), pat@, rep@) == t.drop_first());
                }
                assert(t[0] == s@[i as int]);
                assert(t.drop_first() =~= s@.skip(i as int + 1));
            }
            out.push(s[i]);
            proof {
                assert(out@ =~= pre + seq![s@[i as int]]);
                assert(pre + replace_exact(t, pat@, rep@) =~= out@ + replace_exact(
                    s@.skip(i as int + 1),
                    pat@,
                    rep@,
                ));
            }
            i = i + 1;
        }
    }
    proof {
        assert(s@.skip(i as int) =~= Seq::<char>::empty());
        assert(replace_exact(s@.skip(i as int), pat@, rep@) =~= Seq::<char>::empty());
        assert(replace_exact(s@, pat@, rep@) =~= out@);
    }
    out
}

/// The structural phases on a character vector.
pub fn norm_structure_exec(s: &Vec<char>) -> (r: Vec<char>)
    ensures
        r@ == norm_structure(s@),
{
    let a = map_slash_exec(s);
    let b = trim_lead_exec(&a);
    let c = collapse_slashes_exec(&b);
    let d = fix_stars_exec(&c);
    let e = drop_trail_exec(d);
    drop_dots_exec(&e)
}

/// The token phases on a character vector.
pub fn norm_tokens_exec(s: &Vec<char>) -> (r: Vec<char>)
    ensures
        r@ == norm_tokens(s@),
{
    let a = replace_ci_exec(s, &str_chars("%appdata%"), &str_chars("<winAppData>"));
    let b = replace_ci_exec(
        &a,
        &str_chars("%userprofile%/appdata/roaming"),
        &str_chars("<winAppData>"),
    );
    let c = replace_ci_exec(&b, &str_chars("%localappdata%"), &str_chars("<winLocalAppData>"));
    let d = replace_ci_exec(
        &c,
        &str_chars("%userprofile%/appdata/local/"),
        &str_chars("<winLocalAppData>/"),
    );
    let e = replace_ci_exec(&d, &str_chars("%userprofile%"), &str_chars("<home>"));
    let f = replace_ci_exec(&e, &str_chars("%userprofile%/documents"), &str_chars("<winDocuments>"));
    let g = replace_exact_exec(&f, &str_chars("{64BitSteamID}"), &str_chars("<storeUserId>"));
    replace_exact_exec(&g, &str_chars("{Steam3AccountID}"), &str_chars("<storeUserId>"))
}

/// Normalize a raw file path into its canonical placeholder-based form.
pub fn normalize(path: &str) -> (r: String)
    ensures
        r@ == norm_path(path@),
{
    let v = str_chars(path);
    let s = norm_structure_exec(&v);
    let t = expand_tilde_exec(s);
    let u = norm_tokens_exec(&t);
    chars_str(&u)
}

/// Exec counterpart of [`sp_too_broad`] on a character vector.
pub fn too_broad_chars(v: &Vec<char>) -> (r: bool)
    ensures
        r == sp_too_broad(v@),
{
    let exact = [
        "<root>", "<game>", "<base>", "<home>", "<storeUserId>", "<osUserName>", "<winAppData>",
        "<winLocalAppData>", "<winDocuments>", "<winPublic>", "<winProgramData>", "<winDir>",
        "<xdgData>", "<xdgConfig>",
    ];
    if chars_eq(v, &str_chars(exact[0])) || chars_eq(v, &str_chars(exact[1])) || chars_eq(
        v,
        &str_chars(exact[2]),
    ) || chars_eq(v, &str_chars(exact[3])) || chars_eq(v, &str_chars(exact[4])) || chars_eq(
        v,
        &str_chars(exact[5]),
    ) || chars_eq(v, &str_chars(exact[6])) || chars_eq(v, &str_chars(exact[7])) || chars_eq(
        v,
        &str_chars(exact[8]),
    ) || chars_eq(v, &str_chars(exact[9])) || chars_eq(v, &str_chars(exact[10])) || chars_eq(
        v,
        &str_chars(exact[11]),
    ) || chars_eq(v, &str_chars(exact[12])) || chars_eq(v, &str_chars(exact[13])) {
        return true;
    }
    if chars_eq(v, &str_chars("<base>/<storeUserId>")) || chars_eq(v, &str_chars("<home>/Documents"))
        || chars_eq(v, &str_chars("<home>/Saved Games")) || chars_eq(v, &str_chars("<home>/AppData"))
        || chars_eq(v, &str_chars("<home>/AppData/Local")) || chars_eq(
        v,
        &str_chars("<home>/AppData/Local/Packages"),
    ) || chars_eq(v, &str_chars("<home>/AppData/LocalLow")) || chars_eq(
        v,
        &str_chars("<home>/AppData/Roaming"),
    ) || chars_eq(v, &str_chars("<home>/Documents/My Games")) || chars_eq(
        v,
        &str_chars("<home>/Library/Application Support"),
    ) || chars_eq(v, &str_chars("<home>/Library/Preferences")) || chars_eq(
        v,
        &str_chars("<home>/Telltale Games"),
    ) || chars_eq(v, &str_chars("<root>/config")) || chars_eq(v, &str_chars("<winDir>/win.ini"))
        || chars_eq(v, &str_chars("<winDir>/SysWOW64")) || chars_eq(
        v,
        &str_chars("<winDocuments>/My Games"),
    ) || chars_eq(v, &str_chars("<winDocuments>/Telltale Games")) || chars_eq(
        v,
        &str_chars("<xdgConfig>/unity3d"),
    ) || chars_eq(v, &str_chars("<xdgData>/unity3d")) || chars_eq(
        v,
        &str_chars("C:/Program Files"),
    ) || chars_eq(v, &str_chars("C:/Program Files (x86)")) {
        return true;
    }
    if match_at_exec(v, 0, &str_chars("<home>/*/")) || match_at_exec(v, 0, &str_chars("<home>/**/"))
        || match_at_exec(v, 0, &str_chars("<winDocuments>/Telltale Games/*/")) || match_at_exec(
        v,
        0,
        &str_chars("<xdgConfig>/unity3d/*"),
    ) || match_at_exec(v, 0, &str_chars("<xdgData>/unity3d/*")) {
        return true;
    }
    if v.len() == 2 && v[1] == ':' {
        let c = v[0];
        if ('a' <= c && c <= 'z') || ('A' <= c && c <= 'Z') {
            return true;
        }
    }
    if chars_eq(v, &str_chars("/")) {
        return true;
    }
    if v.len() > 0 && v[0] == '*' {
        return true;
    }
    false
}

/// Whether a canonical path is too broad to be worth keeping.
pub fn too_broad(path: &str) -> (r: bool)
    ensures
        r == sp_too_broad(path@),
{
    let v = str_chars(path);
    too_broad_chars(&v)
}

/// Exec counterpart of [`is_env_char`].
fn is_env_char_exec(c: char) -> (r: bool)
    ensures
        r == is_env_char(c),
{
    ('a' <= c && c <= 'z') || ('A' <= c && c <= 'Z') || ('0' <= c && c <= '9') || c == '_'
}

/// Exec counterpart of [`sp_has_env_token`].
#[verifier::loop_isolation(false)]
fn has_env_token(v: &Vec<char>) -> (r: bool)
    ensures
        r == sp_has_env_token(v@),
{
    let n = v.len();
    let mut i: usize = 0;
    while i < n
        invariant
            i <= n,
            forall|a: int, j: int| 0 <= a < i ==> !env_token_at(v@, a, j),
        decreases n - i,
    {
        if v[i] == '%' {
            let mut k: usize = i + 1;
            while k < n && is_env_char_exec(v[k])
                invariant
                    i + 1 <= k <= n,
                    forall|m: int| i < m < k ==> is_env_char(#[trigger] v@[m]),
                decreases n - k,
            {
                k = k + 1;
            }
            if k < n && v[k] == '%' && k > i + 1 {
                proof {
                    assert(env_token_at(v@, i as int, k as int));
                }
                return true;
            }
            proof {
                assert forall|j: int| !env_token_at(v@, i as int, j) by {
                    if env_token_at(v@, i as int, j) {
                        if j < k {
                            assert(is_env_char(v@[j]));
                            assert(false);
                        } else if j > k {
                            assert(k < n);
                            assert(is_env_char(v@[k as int]));
                            assert(false);
                        } else {
                            assert(false);
                        }
                    }
                }
            }
        } else {
            proof {
                assert forall|j: int| !env_token_at(v@, i as int, j) by {}
            }
        }
        i = i + 1;
    }
    proof {
        assert forall|a: int, j: int| !env_token_at(v@, a, j) by {
            if env_token_at(v@, a, j) {
                assert(0 <= a < v@.len());
            }
        }
    }
    false
}

/// Exec counterpart of [`sp_usable`] on a character vector.
pub fn usable_chars(v: &Vec<char>) -> (r: bool)
    ensures
        r == sp_usable(v@),
{
    if v.len() == 0 {
        return false;
    }
    if has_env_token(v) {
        return false;
    }
    if occurs_exec(v, &str_chars("{{")) {
        return false;
    }
    if match_at_exec(v, 0, &str_chars("./")) {
        return false;
    }
    if match_at_exec(v, 0, &str_chars("../")) {
        return false;
    }
    !too_broad_chars(v)
}

/// Whether a canonical path should be kept in the manifest.
pub fn usable(path: &str) -> (r: bool)
    ensures
        r == sp_usable(path@),
{
    let v = str_chars(path);
    usable_chars(&v)
}

/// A case-insensitive match of a token's tail at a rewrite output's head
/// reaches back into the input: replacements begin with a bracket that no
/// percent token holds.
proof fn lemma_tail_reaches_input(
    s: Seq<char>,
    pat: Seq<char>,
    rep: Seq<char>,
    q: Seq<char>,
    k: int,
)
    requires
        rep.len() > 0,
        rep[0] == '<',
        forall|i: int| 0 <= i < q.len() ==> q[i] != '<',
        1 <= k <= q.len(),
        match_ci_at(replace_ci(s, pat, rep), 0, q.skip(k)),
    ensures
        match_ci_at(s, 0, q.skip(k)),
    decreases s.len(),
{
    let f = replace_ci(s, pat, rep);
    let u = q.skip(k);
    if u.len() == 0 {
    } else if pat.len() == 0 || s.len() < pat.len() {
    } else if match_ci_at(s, 0, pat) {
        assert(f == rep + replace_ci(s.skip(pat.len() as int), pat, rep));
        assert(f[0] == rep[0]);
        assert(lower_char(f[0]) == u[0]);
        assert(lower_char('<') == '<');
        assert(u[0] == q[k]);
        assert(false);
    } else {
        assert(f == seq![s[0]] + replace_ci(s.drop_first(), pat, rep));
        let fd = replace_ci(s.drop_first(), pat, rep);
        assert(lower_char(s[0]) == u[0]) by {
            assert(f[0] == s[0]);
        }
        assert(match_ci_at(fd, 0, q.skip(k + 1))) by {
            assert forall|i: int| 0 <= i < q.skip(k + 1).len() implies lower_char(fd[i]) == q.skip(
                k + 1,
            )[i] by {
                assert(fd[i] == f[i + 1]);
                assert(q.skip(k + 1)[i] == u[i + 1]);
                assert(lower_char(f[i + 1]) == u[i + 1]);
            }
        }
        lemma_tail_reaches_input(s.drop_first(), pat, rep, q, k + 1);
        assert forall|i: int| 0 <= i < u.len() implies lower_char(s[i]) == u[i] by {
            if i == 0 {
            } else {
                assert(s.drop_first()[i - 1] == s[i]);
                assert(q.skip(k + 1)[i - 1] == u[i]);
            }
        }
    }
}

/// Like [`lemma_tail_reaches_input`], for the case-sensitive rewrite.
proof fn lemma_tail_reaches_input_exact(
    s: Seq<char>,
    pat: Seq<char>,
    rep: Seq<char>,
    q: Seq<char>,
    k: int,
)
    requires
        rep.len() > 0,
        rep[0] == '<',
        forall|i: int| 0 <= i < q.len() ==> q[i] != '<',
        1 <= k <= q.len(),
        match_ci_at(replace_exact(s, pat, rep), 0, q.skip(k)),
    ensures
        match_ci_at(s, 0, q.skip(k)),
    decreases s.len(),
{
    let f = replace_exact(s, pat, rep);
    let u = q.skip(k);
    if u.len() == 0 {
    } else if pat.len() == 0 || s.len() < pat.len() {
    } else if match_at(s, 0, pat) {
        assert(f == rep + replace_exact(s.skip(pat.len() as int), pat, rep));
        assert(f[0] == rep[0]);
        assert(lower_char(f[0]) == u[0]);
        assert(lower_char('<') == '<');
        assert(u[0] == q[k]);
        assert(false);
    } else {
        assert(f == seq![s[0]] + replace_exact(s.drop_first(), pat, rep));
        let fd = replace_exact(s.drop_first(), pat, rep);
        assert(lower_char(s[0]) == u[0]) by {
            assert(f[0] == s[0]);
        }
        assert(match_ci_at(fd, 0, q.skip(k + 1))) by {
            assert forall|i: int| 0 <= i < q.skip(k + 1).len() implies lower_char(fd[i]) == q.skip(
                k + 1,
            )[i] by {
                assert(fd[i] == f[i + 1]);
                assert(q.skip(k + 1)[i] == u[i + 1]);
                assert(lower_char(f[i + 1]) == u[i + 1]);
            }
        }
        lemma_tail_reaches_input_exact(s.drop_first(), pat, rep, q, k + 1);
        assert forall|i: int| 0 <= i < u.len() implies lower_char(s[i]) == u[i] by {
            if i == 0 {
            } else {
                assert(s.drop_first()[i - 1] == s[i]);
                assert(q.skip(k + 1)[i - 1] == u[i]);
            }
        }
    }
}

/// Only the percent sign itself lowers to a percent sign.
proof fn lemma_lower_percent(c: char)
    ensures
        (lower_char(c) == '%') == (c == '%'),
{
}

/// After its rewrite, a percent token no longer occurs in any case mixture:
/// matched text is consumed and replacements cannot recreate it.
proof fn lemma_rewrite_kills_token(s: Seq<char>, pat: Seq<char>, rep: Seq<char>)
    requires
        pat.len() > 0,
        pat[0] == '%',
        forall|i: int| 0 <= i < pat.len() ==> pat[i] != '<',
        rep.len() > 0,
        rep[0] == '<',
        forall|i: int| 0 <= i < rep.len() ==> rep[i] != '%',
    ensures
        !occurs_ci(replace_ci(s, pat, rep), pat),
    decreases s.len(),
{
    let f = replace_ci(s, pat, rep);
    if s.len() < pat.len() {
        assert forall|i: int| !#[trigger] match_ci_at(f, i, pat) by {}
    } else if match_ci_at(s, 0, pat) {
        let rest = s.skip(pat.len() as int);
        lemma_rewrite_kills_token(rest, pat, rep);
        assert(f == rep + replace_ci(rest, pat, rep));
        let fr = replace_ci(rest, pat, rep);
        assert forall|i: int| !#[trigger] match_ci_at(f, i, pat) by {
            if match_ci_at(f, i, pat) {
                if i < rep.len() {
                    assert(f[i] == rep[i]);
                    assert(lower_char(f[i]) == pat[0]);
                    lemma_lower_percent(f[i]);
                    assert(false);
                } else {
                    assert(match_ci_at(fr, i - rep.len(), pat)) by {
                        assert forall|j: int| 0 <= j < pat.len() implies lower_char(
                            fr[i - rep.len() + j],
                        ) == pat[j] by {
                            assert(fr[i - rep.len() + j] == f[i + j]);
                        }
                    }
                    assert(false);
                }
            }
        }
    } else {
        let rest = s.drop_first();
        lemma_rewrite_kills_token(rest, pat, rep);
        assert(f == seq![s[0]] + replace_ci(rest, pat, rep));
        let fr = replace_ci(rest, pat, rep);
        assert forall|i: int| !#[trigger] match_ci_at(f, i, pat) by {
            if match_ci_at(f, i, pat) {
                if i == 0 {
                    assert(match_ci_at(fr, 0, pat.skip(1))) by {
                        assert forall|j: int| 0 <= j < pat.skip(1).len() implies lower_char(fr[j])
                            == pat.skip(1)[j] by {
                            assert(fr[j] == f[j + 1]);
                        }
                    }
                    lemma_tail_reaches_input(rest, pat, rep, pat, 1);
                    assert(match_ci_at(s, 0, pat)) by {
                        assert forall|j: int| 0 <= j < pat.len() implies lower_char(s[j])
                            == pat[j] by {
                            if j == 0 {
                                assert(f[0] == s[0]);
                            } else {
                                assert(rest[j - 1] == s[j]);
                                assert(pat.skip(1)[j - 1] == pat[j]);
                            }
                        }
                    }
                    assert(false);
                } else {
                    assert(match_ci_at(fr, i - 1, pat)) by {
                        assert forall|j: int| 0 <= j < pat.len() implies lower_char(fr[i - 1 + j])
                            == pat[j] by {
                            assert(fr[i - 1 + j] == f[i + j]);
                        }
                    }
                    assert(false);
                }
            }
        }
    }
}

/// A rewrite cannot introduce a percent token that was absent before.
proof fn lemma_rewrite_preserves_absence(s: Seq<char>, pat: Seq<char>, rep: Seq<char>, q: Seq<char>)
    requires
        q.len() > 0,
        q[0] == '%',
        forall|i: int| 0 <= i < q.len() ==> q[i] != '<',
        rep.len() > 0,
        rep[0] == '<',
        forall|i: int| 0 <= i < rep.len() ==> rep[i] != '%',
        !occurs_ci(s, q),
    ensures
        !occurs_ci(replace_ci(s, pat, rep), q),
    decreases s.len(),
{
    let f = replace_ci(s, pat, rep);
    if pat.len() == 0 || s.len() < pat.len() {
    } else if match_ci_at(s, 0, pat) {
        let rest = s.skip(pat.len() as int);
        assert(!occurs_ci(rest, q)) by {
            if occurs_ci(rest, q) {
                let m = choose|m: int| #[trigger] match_ci_at(rest, m, q);
                crate::chars::lemma_match_shift(s, pat.len() as int, m, q);
                assert(match_ci_at(s, pat.len() + m, q));
            }
        }
        lemma_rewrite_preserves_absence(rest, pat, rep, q);
        assert(f == rep + replace_ci(rest, pat, rep));
        let fr = replace_ci(rest, pat, rep);
        assert forall|i: int| !#[trigger] match_ci_at(f, i, q) by {
            if match_ci_at(f, i, q) {
                if i < rep.len() {
                    assert(f[i] == rep[i]);
                    assert(lower_char(f[i]) == q[0]);
                    lemma_lower_percent(f[i]);
                    assert(false);
                } else {
                    assert(match_ci_at(fr, i - rep.len(), q)) by {
                        assert forall|j: int| 0 <= j < q.len() implies lower_char(
                            fr[i - rep.len() + j],
                        ) == q[j] by {
                            assert(fr[i - rep.len() + j] == f[i + j]);
                        }
                    }
                    assert(false);
                }
            }
        }
    } else {
        let rest = s.drop_first();
        assert(!occurs_ci(rest, q)) by {
            if occurs_ci(rest, q) {
                let m = choose|m: int| #[trigger] match_ci_at(rest, m, q);
                crate::chars::lemma_match_shift(s, 1, m, q);
                assert(match_ci_at(s, 1 + m, q));
            }
        }
        lemma_rewrite_preserves_absence(rest, pat, rep, q);
        assert(f == seq![s[0]] + replace_ci(rest, pat, rep));
        let fr = replace_ci(rest, pat, rep);
        assert forall|i: int| !#[trigger] match_ci_at(f, i, q) by {
            if match_ci_at(f, i, q) {
                if i == 0 {
                    assert(match_ci_at(fr, 0, q.skip(1))) by {
                        assert forall|j: int| 0 <= j < q.skip(1).len() implies lower_char(fr[j])
                            == q.skip(1)[j] by {
                            assert(fr[j] == f[j + 1]);
                        }
                    }
                    lemma_tail_reaches_input(rest, pat, rep, q, 1);
                    assert(match_ci_at(s, 0, q)) by {
                        assert forall|j: int| 0 <= j < q.len() implies lower_char(s[j])
                            == q[j] by {
                            if j == 0 {
                                assert(f[0] == s[0]);
                            } else {
                                assert(rest[j - 1] == s[j]);
                                assert(q.skip(1)[j - 1] == q[j]);
                            }
                        }
                    }
                    assert(false);
                } else {
                    assert(match_ci_at(fr, i - 1, q)) by {
                        assert forall|j: int| 0 <= j < q.len() implies lower_char(fr[i - 1 + j])
                            == q[j] by {
                            assert(fr[i - 1 + j] == f[i + j]);
                        }
                    }
                    assert(false);
                }
            }
        }
    }
}

/// Like [`lemma_rewrite_preserves_absence`], for the case-sensitive rewrite.
proof fn lemma_exact_rewrite_preserves_absence(
    s: Seq<char>,
    pat: Seq<char>,
    rep: Seq<char>,
    q: Seq<char>,
)
    requires
        q.len() > 0,
        q[0] == '%',
        forall|i: int| 0 <= i < q.len() ==> q[i] != '<',
        rep.len() > 0,
        rep[0] == '<',
        forall|i: int| 0 <= i < rep.len() ==> rep[i] != '%',
        !occurs_ci(s, q),
    ensures
        !occurs_ci(replace_exact(s, pat, rep), q),
    decreases s.len(),
{
    let f = replace_exact(s, pat, rep);
    if pat.len() == 0 || s.len() < pat.len() {
    } else if match_at(s, 0, pat) {
        let rest = s.skip(pat.len() as int);
        assert(!occurs_ci(rest, q)) by {
            if occurs_ci(rest, q) {
                let m = choose|m: int| #[trigger] match_ci_at(rest, m, q);
                crate::chars::lemma_match_shift(s, pat.len() as int, m, q);
                assert(match_ci_at(s, pat.len() + m, q));
            }
        }
        lemma_exact_rewrite_preserves_absence(rest, pat, rep, q);
        assert(f == rep + replace_exact(rest, pat, rep));
        let fr = replace_exact(rest, pat, rep);
        assert forall|i: int| !#[trigger] match_ci_at(f, i, q) by {
            if match_ci_at(f, i, q) {
                if i < rep.len() {
                    assert(f[i] == rep[i]);
                    assert(lower_char(f[i]) == q[0]);
                    lemma_lower_percent(f[i]);
                    assert(false);
                } else {
                    assert(match_ci_at(fr, i - rep.len(), q)) by {
                        assert forall|j: int| 0 <= j < q.len() implies lower_char(
                            fr[i - rep.len() + j],
                        ) == q[j] by {
                            assert(fr[i - rep.len() + j] == f[i + j]);
                        }
                    }
                    assert(false);
                }
            }
        }
    } else {
        let rest = s.drop_first();
        assert(!occurs_ci(rest, q)) by {
            if occurs_ci(rest, q) {
                let m = choose|m: int| #[trigger] match_ci_at(rest, m, q);
                crate::chars::lemma_match_shift(s, 1, m, q);
                assert(match_ci_at(s, 1 + m, q));
            }
        }
        lemma_exact_rewrite_preserves_absence(rest, pat, rep, q);
        assert(f == seq![s[0]] + replace_exact(rest, pat, rep));
        let fr = replace_exact(rest, pat, rep);
        assert forall|i: int| !#[trigger] match_ci_at(f, i, q) by {
            if match_ci_at(f, i, q) {
                if i == 0 {
                    assert(match_ci_at(fr, 0, q.skip(1))) by {
                        assert forall|j: int| 0 <= j < q.skip(1).len() implies lower_char(fr[j])
                            == q.skip(1)[j] by {
                            assert(fr[j] == f[j + 1]);
                        }
                    }
                    lemma_tail_reaches_input_exact(rest, pat, rep, q, 1);
                    assert(match_ci_at(s, 0, q)) by {
                        assert forall|j: int| 0 <= j < q.len() implies lower_char(s[j])
                            == q[j] by {
                            if j == 0 {
                                assert(f[0] == s[0]);
                            } else {
                                assert(rest[j - 1] == s[j]);
                                assert(q.skip(1)[j - 1] == q[j]);
                            }
                        }
                    }
                    assert(false);
                } else {
                    assert(match_ci_at(fr, i - 1, q)) by {
                        assert forall|j: int| 0 <= j < q.len() implies lower_char(fr[i - 1 + j])
                            == q[j] by {
                            assert(fr[i - 1 + j] == f[i + j]);
                        }
                    }
                    assert(false);
                }
            }
        }
    }
}

/// Placeholder closure: a normalized path never holds a recognized
/// environment-variable token, in any case mixture: the token rewrites
/// consume every occurrence and no later rewrite can recreate one. (Unknown
/// `%NAME%` tokens are instead rejected by [`sp_usable`] outright.)
pub proof fn lemma_placeholder_closure(s: Seq<char>)
    ensures
        !occurs_ci(norm_path(s), "%appdata%"@),
        !occurs_ci(norm_path(s), "%localappdata%"@),
        !occurs_ci(norm_path(s), "%userprofile%"@),
{
    reveal_strlit("%appdata%");
    reveal_strlit("%localappdata%");
    reveal_strlit("%userprofile%");
    reveal_strlit("%userprofile%/appdata/roaming");
    reveal_strlit("%userprofile%/appdata/local/");
    reveal_strlit("%userprofile%/documents");
    reveal_strlit("{64BitSteamID}");
    reveal_strlit("{Steam3AccountID}");
    reveal_strlit("<winAppData>");
    reveal_strlit("<winLocalAppData>");
    reveal_strlit("<winLocalAppData>/");
    reveal_strlit("<home>");
    reveal_strlit("<winDocuments>");
    reveal_strlit("<storeUserId>");
    let qa = "%appdata%"@;
    let ql = "%localappdata%"@;
    let qu = "%userprofile%"@;
    let t = expand_tilde(norm_structure(s));
    let a = replace_ci(t, qa, "<winAppData>"@);
    let b = replace_ci(a, "%userprofile%/appdata/roaming"@, "<winAppData>"@);
    let c = replace_ci(b, ql, "<winLocalAppData>"@);
    let d = replace_ci(c, "%userprofile%/appdata/local/"@, "<winLocalAppData>/"@);
    let e = replace_ci(d, qu, "<home>"@);
    let f = replace_ci(e, "%userprofile%/documents"@, "<winDocuments>"@);
    let g = replace_exact(f, "{64BitSteamID}"@, "<storeUserId>"@);
    let h = replace_exact(g, "{Steam3AccountID}"@, "<storeUserId>"@);
    assert(norm_path(s) == h);

    lemma_rewrite_kills_token(t, qa, "<winAppData>"@);
    lemma_rewrite_preserves_absence(a, "%userprofile%/appdata/roaming"@, "<winAppData>"@, qa);
    lemma_rewrite_kills_token(b, ql, "<winLocalAppData>"@);
    lemma_rewrite_preserves_absence(b, ql, "<winLocalAppData>"@, qa);
    lemma_rewrite_preserves_absence(c, "%userprofile%/appdata/local/"@, "<winLocalAppData>/"@, qa);
    lemma_rewrite_preserves_absence(c, "%userprofile%/appdata/local/"@, "<winLocalAppData>/"@, ql);
    lemma_rewrite_kills_token(d, qu, "<home>"@);
    lemma_rewrite_preserves_absence(d, qu, "<home>"@, qa);
    lemma_rewrite_preserves_absence(d, qu, "<home>"@, ql);
    lemma_rewrite_preserves_absence(e, "%userprofile%/documents"@, "<winDocuments>"@, qa);
    lemma_rewrite_preserves_absence(e, "%userprofile%/documents"@, "<winDocuments>"@, ql);
    lemma_rewrite_preserves_absence(e, "%userprofile%/documents"@, "<winDocuments>"@, qu);
    lemma_exact_rewrite_preserves_absence(f, "{64BitSteamID}"@, "<storeUserId>"@, qa);
    lemma_exact_rewrite_preserves_absence(f, "{64BitSteamID}"@, "<storeUserId>"@, ql);
    lemma_exact_rewrite_preserves_absence(f, "{64BitSteamID}"@, "<storeUserId>"@, qu);
    lemma_exact_rewrite_preserves_absence(g, "{Steam3AccountID}"@, "<storeUserId>"@, qa);
    lemma_exact_rewrite_preserves_absence(g, "{Steam3AccountID}"@, "<storeUserId>"@, ql);
    lemma_exact_rewrite_preserves_absence(g, "{Steam3AccountID}"@, "<storeUserId>"@, qu);
}

} // verus!
