//! The registry-path grammar: a stricter parallel of the file-path grammar.
//!
//! Only two root hives are valid; the bare hive or its immediate first-level
//! children are rejected as too broad, and any path containing control or
//! format characters is rejected.

use vstd::prelude::*;

use crate::chars::{
    is_control_char, is_control_exec, is_format_char, is_format_exec, lower, lower_vec, match_at,
    match_at_exec, occurs, occurs_exec, str_chars, chars_eq, chars_str,
};
use crate::path::norm_structure;
use crate::path::norm_structure_exec;

verus! {

/// Canonical form of a raw registry path: the structural phases of the file
/// grammar, without placeholder-token rewriting.
pub open spec fn norm_registry(s: Seq<char>) -> Seq<char> {
    norm_structure(s)
}

/// Length of the valid hive name the path starts with, ignoring ASCII case;
/// zero when it starts with neither.
pub open spec fn sp_hive_len(low: Seq<char>) -> int {
    if match_at(low, 0, "hkey_current_user"@) {
        "hkey_current_user"@.len() as int
    } else if match_at(low, 0, "hkey_local_machine"@) {
        "hkey_local_machine"@.len() as int
    } else {
        0
    }
}

/// A registry path that names no valid hive, a bare hive, one of a hive's
/// immediate first-level children, or a hive's 32-bit software root
/// (compared ignoring ASCII case).
pub open spec fn sp_reg_too_broad(s: Seq<char>) -> bool {
    let low = lower(s);
    let hl = sp_hive_len(low);
    ||| hl == 0
    ||| low.len() == hl
    ||| (low.len() > hl && low[hl] == '/' && !(exists|i: int|
        hl + 1 <= i < low.len() && low[i] == '/'))
    ||| low == "hkey_current_user/software/wow6432node"@
    ||| low == "hkey_local_machine/software/wow6432node"@
}

/// A registry path containing a control or format character.
pub open spec fn sp_has_unprintable(s: Seq<char>) -> bool {
    exists|i: int| 0 <= i < s.len() && (is_control_char(s[i]) || is_format_char(s[i]))
}

/// A canonical registry path worth keeping: non-empty, free of unresolved
/// markup, rooted in a valid hive below its software root, and printable.
pub open spec fn sp_reg_usable(s: Seq<char>) -> bool {
    &&& s.len() > 0
    &&& !occurs(s, "{{"@)
    &&& !sp_reg_too_broad(s)
    &&& !sp_has_unprintable(s)
}

/// Normalize a raw registry path into its canonical form.
pub fn normalize(path: &str) -> (r: String)
    ensures
        r@ == norm_registry(path@),
{
    let v = str_chars(path);
    let s = norm_structure_exec(&v);
    chars_str(&s)
}

/// Exec counterpart of [`sp_reg_too_broad`].
#[verifier::loop_isolation(false)]
fn too_broad_chars(v: &Vec<char>) -> (r: bool)
    ensures
        r == sp_reg_too_broad(v@),
{
    let low = lower_vec(v);
    proof {
        reveal_strlit("hkey_current_user");
        reveal_strlit("hkey_local_machine");
    }
    let hl: usize = if match_at_exec(&low, 0, &str_chars("hkey_current_user")) {
        17
    } else if match_at_exec(&low, 0, &str_chars("hkey_local_machine")) {
        18
    } else {
        0
    };
    proof {
        assert(hl as int == sp_hive_len(low@));
    }
    if hl == 0 {
        return true;
    }
    let n = low.len();
    if n == hl {
        return true;
    }
    if low[hl] == '/' {
        let mut deeper = false;
        let mut i: usize = hl + 1;
        while i < n
            invariant
                hl + 1 <= i <= n,
                deeper == exists|k: int| hl + 1 <= k < i && low@[k] == '/',
            decreases n - i,
        {
            if low[i] == '/' {
                deeper = true;
            }
            i = i + 1;
        }
        if !deeper {
            return true;
        }
    }
    chars_eq(&low, &str_chars("hkey_current_user/software/wow6432node")) || chars_eq(
        &low,
        &str_chars("hkey_local_machine/software/wow6432node"),
    )
}

/// Exec counterpart of [`sp_has_unprintable`].
fn has_unprintable(v: &Vec<char>) -> (r: bool)
    ensures
        r == sp_has_unprintable(v@),
{
    let n = v.len();
    for i in 0..n
        invariant
            n == v@.len(),
            forall|j: int| 0 <= j < i ==> !(is_control_char(v@[j]) || is_format_char(v@[j])),
    {
        if is_control_exec(v[i]) || is_format_exec(v[i]) {
            return true;
        }
    }
    false
}

/// Exec counterpart of [`sp_reg_usable`] on a character vector.
pub fn usable_chars(v: &Vec<char>) -> (r: bool)
    ensures
        r == sp_reg_usable(v@),
{
    if v.len() == 0 {
        return false;
    }
    if occurs_exec(v, &str_chars("{{")) {
        return false;
    }
    if too_broad_chars(v) {
        return false;
    }
    !has_unprintable(v)
}

/// Whether a canonical registry path should be kept in the manifest.
pub fn usable(path: &str) -> (r: bool)
    ensures
        r == sp_reg_usable(path@),
{
    let v = str_chars(path);
    usable_chars(&v)
}

} // verus!
