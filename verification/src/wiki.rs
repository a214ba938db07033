//! The wiki cache: per-article records with staleness state, rename history
//! and raw path templates, plus the markup flattener that turns parsed
//! template trees into path candidates.

use vstd::prelude::*;

use crate::chars::{
    chars_eq, chars_str, clone_opt_string, clone_vec_string, is_space_char, lower, lower_char,
    lower_char_exec, lower_vec, match_at, match_at_exec, occurs, occurs_exec, str_chars,
};
use crate::dedup::DedupSet;
use crate::manifest::{opt_str_view, trim_ws_end, trim_ws_end_exec, Os, Store, Tag};
use crate::path::trim_lead;
use crate::strmap::StringMap;
use crate::{Regularity, State};

verus! {

/// A piece of parsed markup: literal text, a template invocation, an internal
/// link, or a list item. Links and list items carry nothing the flattener
/// reads.
#[derive(Debug)]
pub enum Piece {
    Text(String),
    Template(TemplateNode),
    Link,
    ListItem,
}

/// A template invocation: its tag, its raw source text, and its attributes.
#[derive(Debug)]
pub struct TemplateNode {
    pub tag: String,
    pub source: String,
    pub attributes: Vec<AttrNode>,
}

/// One attribute of a template: its optional name, its value rendered as
/// text, and the value's parsed pieces.
#[derive(Debug)]
pub struct AttrNode {
    pub name: Option<String>,
    pub text: String,
    pub pieces: Vec<Piece>,
}

#[verifier::external_type_specification]
#[verifier::external_body]
pub struct ExTextPiece(wikitext_parser::TextPiece);

#[verifier::external_type_specification]
#[verifier::external_body]
pub struct ExAttribute(wikitext_parser::Attribute);

/// The template pieces and malformed flag that parsing a given markup text
/// under a given article headline yields.
pub uninterp spec fn parsed_templates(raw: Seq<char>, article: Seq<char>) -> (Seq<Piece>, bool);

/// Relies on `wikitext_parser::TextPiece`'s variants and `Display`: each
/// variant is mapped to the matching [`Piece`] variant, moving its fields.
#[verifier::external_body]
fn convert_piece(piece: &wikitext_parser::TextPiece) -> Piece {
    match piece {
        wikitext_parser::TextPiece::Text { text, .. } => Piece::Text(text.clone()),
        wikitext_parser::TextPiece::DoubleBraceExpression { tag, attributes } => Piece::Template(
            TemplateNode {
                tag: tag.to_string(),
                source: piece.to_string(),
                attributes: attributes.iter().map(convert_attr).collect(),
            },
        ),
        wikitext_parser::TextPiece::InternalLink { .. } => Piece::Link,
        wikitext_parser::TextPiece::ListItem { .. } => Piece::ListItem,
    }
}

/// Relies on `wikitext_parser::Attribute`'s fields and `Display`: the name and
/// value are moved over, the value both rendered and kept as parsed pieces.
#[verifier::external_body]
fn convert_attr(a: &wikitext_parser::Attribute) -> AttrNode {
    AttrNode {
        name: a.name.clone(),
        text: a.value.to_string(),
        pieces: a.value.pieces.iter().map(convert_piece).collect(),
    }
}

/// Relies on `wikitext_parser::parse_wikitext` and
/// `Wikitext::list_double_brace_expressions`: parses the markup, reports
/// whether the parser consumed any error, and hands back the top-level
/// template pieces. Parsing depends only on the text and headline.
#[verifier::external_body]
pub fn parse_wikitext_templates(raw: &str, article: &str) -> (r: (Vec<Piece>, bool))
    ensures
        (r.0@, r.1) == parsed_templates(raw@, article@),
{
    let mut malformed = false;
    let parsed = wikitext_parser::parse_wikitext(raw, article.to_string(), |_e| {
        malformed = true;
    });
    let pieces = parsed.list_double_brace_expressions().iter().map(convert_piece).collect();
    (pieces, malformed)
}

/// Position of the first close delimiter after `start` whose span back to
/// `start` is non-empty and free of line breaks; nothing otherwise.
pub open spec fn find_close(s: Seq<char>, start: int, j: int, close: Seq<char>) -> Option<int>
    decreases s.len() - j,
{
    if j < start || j > s.len() {
        None
    } else if j + close.len() <= s.len() && match_at(s, j, close) && j > start {
        Some(j)
    } else if j < s.len() && s[j] != '\n' {
        find_close(s, start, j + 1, close)
    } else {
        None
    }
}

/// Markup with every `open`..`close` annotation span removed: spans start at
/// an `open` delimiter, end at the nearest `close`, hold at least one
/// character, and do not cross a line break.
pub open spec fn strip_spans(s: Seq<char>, open: Seq<char>, close: Seq<char>) -> Seq<char>
    decreases s.len(),
    via strip_spans_dec
{
    if s.len() == 0 || open.len() == 0 || close.len() == 0 {
        s
    } else if match_at(s, 0, open) && find_close(s, open.len() as int, open.len() as int, close) is Some {
        let j = find_close(s, open.len() as int, open.len() as int, close)->Some_0;
        strip_spans(s.skip(j + close.len()), open, close)
    } else {
        seq![s[0]] + strip_spans(s.drop_first(), open, close)
    }
}

#[via_fn]
proof fn strip_spans_dec(s: Seq<char>, open: Seq<char>, close: Seq<char>) {
    if s.len() != 0 && open.len() != 0 && close.len() != 0 {
        if match_at(s, 0, open) && find_close(
            s,
            open.len() as int,
            open.len() as int,
            close,
        ) is Some {
            lemma_find_close_bounds(
                s,
                open.len() as int,
                open.len() as int,
                close,
                find_close(s, open.len() as int, open.len() as int, close)->Some_0,
            );
        }
    }
}

/// A found close delimiter lies after `start` and fits inside the text.
pub proof fn lemma_find_close_bounds(s: Seq<char>, start: int, j0: int, close: Seq<char>, j: int)
    requires
        find_close(s, start, j0, close) == Some(j),
    ensures
        start < j,
        j0 <= j,
        j + close.len() <= s.len(),
    decreases s.len() - j0,
{
    if j0 < start || j0 > s.len() {
    } else if j0 + close.len() <= s.len() && match_at(s, j0, close) && j0 > start {
    } else if j0 < s.len() && s[j0] != '\n' {
        lemma_find_close_bounds(s, start, j0 + 1, close, j);
    }
}

/// Markup with annotation comments and reference notes removed.
pub open spec fn sp_preprocess(s: Seq<char>) -> Seq<char> {
    strip_spans(strip_spans(s, "<!--"@, "-->"@), "<ref>"@, "</ref>"@)
}

/// Exec counterpart of [`find_close`], scanning from `j0 = start`.
fn find_close_exec(s: &Vec<char>, start: usize, close: &Vec<char>) -> (r: Option<usize>)
    requires
        start <= s@.len(),
    ensures
        match r {
            Some(j) => find_close(s@, start as int, start as int, close@) == Some(j as int),
            None => find_close(s@, start as int, start as int, close@) is None,
        },
{
    let n = s.len();
    let mut j: usize = start;
    loop
        invariant
            start <= j <= n,
            n == s@.len(),
            find_close(s@, start as int, start as int, close@) == find_close(
                s@,
                start as int,
                j as int,
                close@,
            ),
        decreases n - j,
    {
        if close.len() <= n - j && match_at_exec(s, j, close) && j > start {
            return Some(j);
        }
        if j < n && s[j] != '\n' {
            j = j + 1;
        } else {
            return None;
        }
    }
}

/// Exec counterpart of [`strip_spans`].
fn strip_spans_exec(s: &Vec<char>, open: &Vec<char>, close: &Vec<char>) -> (r: Vec<char>)
    requires
        open@.len() > 0,
        close@.len() > 0,
    ensures
        r@ == strip_spans(s@, open@, close@),
{
    let mut out: Vec<char> = Vec::new();
    let n = s.len();
    let mut i: usize = 0;
    proof {
        assert(s@.skip(0) =~= s@);
    }
    while i < n
        invariant
            n == s@.len(),
            i <= n,
            open@.len() > 0,
            close@.len() > 0,
            strip_spans(s@, open@, close@) == out@ + strip_spans(s@.skip(i as int), open@, close@),
        decreases n - i,
    {
        let ghost t = s@.skip(i as int);
        let suffix = vec_skip(s, i);
        proof {
            assert(suffix@ == t);
            assert(t[0] == s@[i as int]);
            assert(t.drop_first() =~= s@.skip(i as int + 1));
        }
        if match_at_exec(s, i, open) {
            proof {
                crate::chars::lemma_match_shift(s@, i as int, 0, open@);
                assert(match_at(t, 0, open@));
            }
            match find_close_exec(&suffix, open.len(), close) {
                Some(j) => {
                    proof {
                        lemma_find_close_bounds(
                            t,
                            open@.len() as int,
                            open@.len() as int,
                            close@,
                            j as int,
                        );
                        assert(strip_spans(t, open@, close@) == strip_spans(
                            t.skip(j + close@.len()),
                            open@,
                            close@,
                        ));
                        assert(t.skip(j + close@.len()) =~= s@.skip(i + j + close@.len()));
                    }
                    i = i + j + close.len();
                },
                None => {
                    proof {
                        assert(strip_spans(t, open@, close@) == seq![t[0]] + strip_spans(
                            t.drop_first(),
                            open@,
                            close@,
                        ));
                    }
                    out.push(s[i]);
                    proof {
                        assert(out@ =~= out@.drop_last() + seq![t[0]]);
                        assert(out@.drop_last() + (seq![t[0]] + strip_spans(
                            t.drop_first(),
                            open@,
                            close@,
                        )) =~= out@ + strip_spans(s@.skip(i as int + 1), open@, close@));
                    }
                    i = i + 1;
                },
            }
        } else {
            proof {
                crate::chars::lemma_match_shift(s@, i as int, 0, open@);
                assert(!match_at(t, 0, open@));
                assert(strip_spans(t, open@, close@) == seq![t[0]] + strip_spans(
                    t.drop_first(),
                    open@,
                    close@,
                ));
            }
            out.push(s[i]);
            proof {
                assert(out@ =~= out@.drop_last() + seq![t[0]]);
                assert(out@.drop_last() + (seq![t[0]] + strip_spans(
                    t.drop_first(),
                    open@,
                    close@,
                )) =~= out@ + strip_spans(s@.skip(i as int + 1), open@, close@));
            }
            i = i + 1;
        }
    }
    proof {
        assert(s@.skip(i as int) =~= Seq::<char>::empty());
        assert(strip_spans(s@, open@, close@) =~= out@);
    }
    out
}

/// The characters of `s` from index `i` on.
fn vec_skip(s: &Vec<char>, i: usize) -> (r: Vec<char>)
    requires
        i <= s@.len(),
    ensures
        r@ == s@.skip(i as int),
{
    let mut out: Vec<char> = Vec::new();
    let n = s.len();
    let mut j: usize = i;
    while j < n
        invariant
            n == s@.len(),
            i <= j <= n,
            out@ =~= s@.subrange(i as int, j as int),
        decreases n - j,
    {
        out.push(s[j]);
        j = j + 1;
    }
    proof {
        assert(out@ =~= s@.skip(i as int));
    }
    out
}

/// Remove annotation comments and reference notes that the markup parser does
/// not understand.
pub fn preprocess_text(raw: &str) -> (r: String)
    ensures
        r@ == sp_preprocess(raw@),
{
    let v = str_chars(raw);
    proof {
        reveal_strlit("<!--");
        reveal_strlit("-->");
        reveal_strlit("<ref>");
        reveal_strlit("</ref>");
    }
    let a = strip_spans_exec(&v, &str_chars("<!--"), &str_chars("-->"));
    let b = strip_spans_exec(&a, &str_chars("<ref>"), &str_chars("</ref>"));
    chars_str(&b)
}

/// A decimal digit.
pub open spec fn is_digit(c: char) -> bool {
    '0' <= c && c <= '9'
}

/// Numeric value of a digit string, most significant first.
pub open spec fn digits_val(s: Seq<char>) -> int
    decreases s.len(),
{
    if s.len() == 0 {
        0
    } else {
        digits_val(s.drop_last()) * 10 + (s.last() as int - 48)
    }
}

/// The digits of a decimal literal, after an optional leading plus sign.
pub open spec fn num_body(s: Seq<char>) -> Seq<char> {
    if s.len() > 0 && s[0] == '+' {
        s.skip(1)
    } else {
        s
    }
}

/// The value of an unsigned decimal literal with an optional leading plus
/// sign, as `str::parse` reads it; nothing on malformed or too-large input.
pub open spec fn sp_parse_u64(s: Seq<char>) -> Option<u64> {
    let body = num_body(s);
    if body.len() == 0 {
        None
    } else if exists|i: int| 0 <= i < body.len() && !is_digit(#[trigger] body[i]) {
        None
    } else if digits_val(body) > u64::MAX {
        None
    } else {
        Some(digits_val(body) as u64)
    }
}

/// Like [`sp_parse_u64`], bounded by `u32::MAX`.
pub open spec fn sp_parse_u32(s: Seq<char>) -> Option<u32> {
    let body = num_body(s);
    if body.len() == 0 {
        None
    } else if exists|i: int| 0 <= i < body.len() && !is_digit(#[trigger] body[i]) {
        None
    } else if digits_val(body) > u32::MAX {
        None
    } else {
        Some(digits_val(body) as u32)
    }
}

/// A digit string's value never shrinks as digits are appended.
proof fn lemma_digits_val_grows(s: Seq<char>, i: int, j: int)
    requires
        0 <= i <= j <= s.len(),
        forall|k: int| 0 <= k < s.len() ==> is_digit(#[trigger] s[k]),
    ensures
        0 <= digits_val(s.take(i)) <= digits_val(s.take(j)),
    decreases j - i,
{
    if i == j {
        lemma_digits_val_nonneg(s.take(i));
    } else {
        lemma_digits_val_grows(s, i, j - 1);
        assert(s.take(j).drop_last() =~= s.take(j - 1));
        assert(s.take(j).last() == s[j - 1]);
        assert(is_digit(s[j - 1]));
        lemma_digits_val_nonneg(s.take(j - 1));
    }
}

/// A digit string's value is never negative.
proof fn lemma_digits_val_nonneg(s: Seq<char>)
    requires
        forall|k: int| 0 <= k < s.len() ==> is_digit(#[trigger] s[k]),
    ensures
        digits_val(s) >= 0,
    decreases s.len(),
{
    if s.len() > 0 {
        assert(s.drop_last() =~= s.take(s.len() - 1));
        assert forall|k: int| 0 <= k < s.drop_last().len() implies is_digit(
            #[trigger] s.drop_last()[k],
        ) by {
            assert(s.drop_last()[k] == s[k]);
        }
        lemma_digits_val_nonneg(s.drop_last());
        assert(is_digit(s.last()));
    }
}

/// Exec counterpart of [`sp_parse_u64`] on a character vector.
#[verifier::loop_isolation(false)]
pub fn parse_u64_chars(v: &Vec<char>) -> (r: Option<u64>)
    ensures
        r == sp_parse_u64(v@),
{
    let n = v.len();
    let start: usize = if n > 0 && v[0] == '+' {
        1
    } else {
        0
    };
    let ghost body = num_body(v@);
    proof {
        assert(body =~= v@.subrange(start as int, n as int));
    }
    if n == start {
        return None;
    }
    let mut acc: u64 = 0;
    let mut i: usize = start;
    while i < n
        invariant
            start <= i <= n,
            forall|k: int| 0 <= k < i - start ==> is_digit(#[trigger] body[k]),
            acc == digits_val(body.take(i - start)),
        decreases n - i,
    {
        let c = v[i];
        if c < '0' || c > '9' {
            proof {
                assert(body[i - start] == v@[i as int]);
                assert(!is_digit(body[i - start]));
            }
            return None;
        }
        let d: u64 = (c as u32 as u64) - 48;
        proof {
            assert(body.take(i - start + 1).drop_last() =~= body.take(i - start));
            assert(body.take(i - start + 1).last() == body[i - start]);
            assert(body[i - start] == v@[i as int]);
        }
        if acc > 1844674407370955161u64 || (acc == 1844674407370955161u64 && d > 5) {
            proof {
                assert(digits_val(body.take(i - start + 1)) == acc * 10 + d);
                assert(digits_val(body.take(i - start + 1)) > u64::MAX);
                if forall|k: int| 0 <= k < body.len() ==> is_digit(#[trigger] body[k]) {
                    lemma_digits_val_grows(body, i - start + 1, body.len() as int);
                    assert(body.take(body.len() as int) =~= body);
                    assert(digits_val(body) > u64::MAX);
                }
            }
            return None;
        }
        acc = acc * 10 + d;
        i = i + 1;
    }
    proof {
        assert(body.take(body.len() as int) =~= body);
        assert(acc == digits_val(body));
    }
    Some(acc)
}

/// Exec counterpart of [`sp_parse_u32`] on a character vector.
pub fn parse_u32_chars(v: &Vec<char>) -> (r: Option<u32>)
    ensures
        r == sp_parse_u32(v@),
{
    let r64 = parse_u64_chars(v);
    proof {
        let body = num_body(v@);
        if r64 is Some {
            assert(!(exists|i: int| 0 <= i < body.len() && !is_digit(#[trigger] body[i])));
            assert(forall|k: int| 0 <= k < body.len() ==> is_digit(#[trigger] body[k]));
            lemma_digits_val_nonneg(body);
        }
    }
    match r64 {
        Some(x) => {
            if x <= 0xFFFF_FFFFu64 {
                Some(x as u32)
            } else {
                None
            }
        },
        None => None,
    }
}

/// Kind of location a path candidate names.
#[derive(Debug, Clone, Copy, PartialEq, Eq, Structural)]
pub enum PathKind {
    File,
    Registry,
}

/// Spec-level model of a path candidate.
pub struct WikiPathV {
    pub composite: Seq<char>,
    pub regularity: Regularity,
    pub kind: Option<PathKind>,
    pub store: Option<Store>,
    pub os: Option<Os>,
    pub tags: Set<Tag>,
}

/// The model of a candidate before anything is incorporated.
pub open spec fn empty_path_model() -> WikiPathV {
    WikiPathV {
        composite: Seq::empty(),
        regularity: Regularity::Regular,
        kind: None,
        store: None,
        os: None,
        tags: Set::empty(),
    }
}

/// A path candidate assembled by the flattener: a composite string plus the
/// metadata collected along the way.
#[derive(Debug)]
pub struct WikiPath {
    pub composite: String,
    pub regularity: Regularity,
    pub kind: Option<PathKind>,
    pub store: Option<Store>,
    pub os: Option<Os>,
    pub tags: DedupSet<Tag>,
}

/// A placeholder mapping for one recognized macro name.
#[derive(Debug)]
pub struct MappedPath {
    pub manifest: &'static str,
    pub os: Option<Os>,
    pub store: Option<Store>,
    pub kind: Option<PathKind>,
}

/// Spec-level model of a placeholder mapping.
pub struct MappedSpec {
    pub manifest: Seq<char>,
    pub os: Option<Os>,
    pub store: Option<Store>,
    pub kind: Option<PathKind>,
}

/// A mapping with no forced metadata.
pub open spec fn plain_mapped(manifest: Seq<char>) -> MappedSpec {
    MappedSpec { manifest, os: None, store: None, kind: None }
}

/// A mapping that forces an operating system.
pub open spec fn os_mapped(manifest: Seq<char>, os: Os) -> MappedSpec {
    MappedSpec { manifest, os: Some(os), store: None, kind: None }
}

/// A mapping that forces the registry kind under Windows.
pub open spec fn registry_mapped(manifest: Seq<char>) -> MappedSpec {
    MappedSpec { manifest, os: Some(Os::Windows), store: None, kind: Some(PathKind::Registry) }
}

/// The placeholder table: what each recognized macro name (already lowered)
/// stands for in the manifest, with any forced OS, store, or kind.
pub open spec fn sp_mapped(k: Seq<char>) -> Option<MappedSpec> {
    if k == "game"@ {
        Some(plain_mapped("<base>"@))
    } else if k == "uid"@ {
        Some(plain_mapped("<storeUserId>"@))
    } else if k == "steam"@ {
        Some(MappedSpec { manifest: "<root>"@, os: None, store: Some(Store::Steam), kind: None })
    } else if k == "uplay"@ || k == "ubisoftconnect"@ {
        Some(MappedSpec { manifest: "<root>"@, os: None, store: Some(Store::Uplay), kind: None })
    } else if k == "hkcu"@ || k == "hkey_current_user"@ {
        Some(registry_mapped("HKEY_CURRENT_USER"@))
    } else if k == "hklm"@ || k == "hkey_local_machine"@ {
        Some(registry_mapped("HKEY_LOCAL_MACHINE"@))
    } else if k == "wow64"@ {
        Some(registry_mapped("WOW6432Node"@))
    } else if k == "username"@ {
        Some(os_mapped("<osUserName>"@, Os::Windows))
    } else if k == "userprofile"@ {
        Some(os_mapped("<home>"@, Os::Windows))
    } else if k == "userprofile\\documents"@ {
        Some(os_mapped("<winDocuments>"@, Os::Windows))
    } else if k == "userprofile\\appdata\\locallow"@ {
        Some(os_mapped("<home>/AppData/LocalLow"@, Os::Windows))
    } else if k == "appdata"@ {
        Some(os_mapped("<winAppData>"@, Os::Windows))
    } else if k == "localappdata"@ {
        Some(os_mapped("<winLocalAppData>"@, Os::Windows))
    } else if k == "public"@ {
        Some(os_mapped("<winPublic>"@, Os::Windows))
    } else if k == "allusersprofile"@ || k == "programdata"@ {
        Some(os_mapped("<winProgramData>"@, Os::Windows))
    } else if k == "programfiles"@ {
        Some(os_mapped("C:/Program Files"@, Os::Windows))
    } else if k == "windir"@ {
        Some(os_mapped("<winDir>"@, Os::Windows))
    } else if k == "syswow64"@ {
        Some(os_mapped("<winDir>/SysWOW64"@, Os::Windows))
    } else if k == "osxhome"@ {
        Some(os_mapped("<home>"@, Os::Mac))
    } else if k == "linuxhome"@ {
        Some(os_mapped("<home>"@, Os::Linux))
    } else if k == "xdgdatahome"@ {
        Some(os_mapped("<xdgData>"@, Os::Linux))
    } else if k == "xdgconfighome"@ {
        Some(os_mapped("<xdgConfig>"@, Os::Linux))
    } else {
        None
    }
}

/// Exec counterpart of [`sp_mapped`].
pub fn mapped_path(key: &Vec<char>) -> (r: Option<MappedPath>)
    ensures
        match r {
            Some(m) => sp_mapped(key@) == Some(
                MappedSpec { manifest: m.manifest@, os: m.os, store: m.store, kind: m.kind },
            ),
            None => sp_mapped(key@) is None,
        },
{
    if chars_eq(key, &str_chars("game")) {
        Some(MappedPath { manifest: "<base>", os: None, store: None, kind: None })
    } else if chars_eq(key, &str_chars("uid")) {
        Some(MappedPath { manifest: "<storeUserId>", os: None, store: None, kind: None })
    } else if chars_eq(key, &str_chars("steam")) {
        Some(MappedPath { manifest: "<root>", os: None, store: Some(Store::Steam), kind: None })
    } else if chars_eq(key, &str_chars("uplay")) || chars_eq(key, &str_chars("ubisoftconnect")) {
        Some(MappedPath { manifest: "<root>", os: None, store: Some(Store::Uplay), kind: None })
    } else if chars_eq(key, &str_chars("hkcu")) || chars_eq(key, &str_chars("hkey_current_user")) {
        Some(
            MappedPath {
                manifest: "HKEY_CURRENT_USER",
                os: Some(Os::Windows),
                store: None,
                kind: Some(PathKind::Registry),
            },
        )
    } else if chars_eq(key, &str_chars("hklm")) || chars_eq(key, &str_chars("hkey_local_machine")) {
        Some(
            MappedPath {
                manifest: "HKEY_LOCAL_MACHINE",
                os: Some(Os::Windows),
                store: None,
                kind: Some(PathKind::Registry),
            },
        )
    } else if chars_eq(key, &str_chars("wow64")) {
        Some(
            MappedPath {
                manifest: "WOW6432Node",
                os: Some(Os::Windows),
                store: None,
                kind: Some(PathKind::Registry),
            },
        )
    } else if chars_eq(key, &str_chars("username")) {
        Some(
            MappedPath { manifest: "<osUserName>", os: Some(Os::Windows), store: None, kind: None },
        )
    } else if chars_eq(key, &str_chars("userprofile")) {
        Some(MappedPath { manifest: "<home>", os: Some(Os::Windows), store: None, kind: None })
    } else if chars_eq(key, &str_chars("userprofile\\documents")) {
        Some(
            MappedPath {
                manifest: "<winDocuments>",
                os: Some(Os::Windows),
                store: None,
                kind: None,
            },
        )
    } else if chars_eq(key, &str_chars("userprofile\\appdata\\locallow")) {
        Some(
            MappedPath {
                manifest: "<home>/AppData/LocalLow",
                os: Some(Os::Windows),
                store: None,
                kind: None,
            },
        )
    } else if chars_eq(key, &str_chars("appdata")) {
        Some(
            MappedPath { manifest: "<winAppData>", os: Some(Os::Windows), store: None, kind: None },
        )
    } else if chars_eq(key, &str_chars("localappdata")) {
        Some(
            MappedPath {
                manifest: "<winLocalAppData>",
                os: Some(Os::Windows),
                store: None,
                kind: None,
            },
        )
    } else if chars_eq(key, &str_chars("public")) {
        Some(MappedPath { manifest: "<winPublic>", os: Some(Os::Windows), store: None, kind: None })
    } else if chars_eq(key, &str_chars("allusersprofile")) || chars_eq(
        key,
        &str_chars("programdata"),
    ) {
        Some(
            MappedPath {
                manifest: "<winProgramData>",
                os: Some(Os::Windows),
                store: None,
                kind: None,
            },
        )
    } else if chars_eq(key, &str_chars("programfiles")) {
        Some(
            MappedPath {
                manifest: "C:/Program Files",
                os: Some(Os::Windows),
                store: None,
                kind: None,
            },
        )
    } else if chars_eq(key, &str_chars("windir")) {
        Some(MappedPath { manifest: "<winDir>", os: Some(Os::Windows), store: None, kind: None })
    } else if chars_eq(key, &str_chars("syswow64")) {
        Some(
            MappedPath {
                manifest: "<winDir>/SysWOW64",
                os: Some(Os::Windows),
                store: None,
                kind: None,
            },
        )
    } else if chars_eq(key, &str_chars("osxhome")) {
        Some(MappedPath { manifest: "<home>", os: Some(Os::Mac), store: None, kind: None })
    } else if chars_eq(key, &str_chars("linuxhome")) {
        Some(MappedPath { manifest: "<home>", os: Some(Os::Linux), store: None, kind: None })
    } else if chars_eq(key, &str_chars("xdgdatahome")) {
        Some(MappedPath { manifest: "<xdgData>", os: Some(Os::Linux), store: None, kind: None })
    } else if chars_eq(key, &str_chars("xdgconfighome")) {
        Some(MappedPath { manifest: "<xdgConfig>", os: Some(Os::Linux), store: None, kind: None })
    } else {
        None
    }
}

/// Merging metadata: the worse regularity wins, and a later non-empty kind,
/// store, or OS wins over an earlier one.
pub open spec fn sp_inc(acc: WikiPathV, o: WikiPathV) -> WikiPathV {
    WikiPathV {
        composite: acc.composite,
        regularity: acc.regularity.spec_worst(o.regularity),
        kind: if o.kind is Some {
            o.kind
        } else {
            acc.kind
        },
        store: if o.store is Some {
            o.store
        } else {
            acc.store
        },
        os: if o.os is Some {
            o.os
        } else {
            acc.os
        },
        tags: acc.tags,
    }
}

/// Literal text joins the composite; text holding angle brackets is unparsed
/// markup leakage, so it also makes the candidate irregular (it is still
/// appended: the consumer must distrust such a path, not silently lose it).
pub open spec fn sp_inc_text(acc: WikiPathV, text: Seq<char>) -> WikiPathV {
    let regularity = if exists|i: int|
        0 <= i < text.len() && ((#[trigger] text[i]) == '<' || text[i] == '>') {
        Regularity::Irregular
    } else {
        acc.regularity
    };
    WikiPathV { composite: acc.composite + text, regularity, ..acc }
}

/// A child's raw text joins the composite, then its metadata merges in.
pub open spec fn sp_inc_raw(acc: WikiPathV, o: WikiPathV) -> WikiPathV {
    sp_inc(sp_inc_text(acc, o.composite), o)
}

/// A child's composite is looked up in the placeholder table: a hit appends
/// the canonical placeholder and forces its metadata; a non-empty miss makes
/// the candidate irregular. The child's metadata then merges in.
pub open spec fn sp_inc_path(acc: WikiPathV, o: WikiPathV) -> WikiPathV {
    let looked = match sp_mapped(lower(o.composite)) {
        Some(m) => WikiPathV {
            composite: acc.composite + m.manifest,
            kind: if m.kind is Some {
                m.kind
            } else {
                acc.kind
            },
            store: if m.store is Some {
                m.store
            } else {
                acc.store
            },
            os: if m.os is Some {
                m.os
            } else {
                acc.os
            },
            regularity: acc.regularity,
            tags: acc.tags,
        },
        None => if o.composite.len() > 0 {
            WikiPathV { regularity: Regularity::Irregular, ..acc }
        } else {
            acc
        },
    };
    sp_inc(looked, o)
}

impl WikiPath {
    /// Spec-level model of the candidate.
    pub open spec fn model(&self) -> WikiPathV {
        WikiPathV {
            composite: self.composite@,
            regularity: self.regularity,
            kind: self.kind,
            store: self.store,
            os: self.os,
            tags: self.tags@,
        }
    }

    pub open spec fn wf(&self) -> bool {
        self.tags.wf()
    }

    pub fn new() -> (r: Self)
        ensures
            r.wf(),
            r.model() == empty_path_model(),
    {
        let r = WikiPath {
            composite: String::new(),
            regularity: Regularity::Regular,
            kind: None,
            store: None,
            os: None,
            tags: DedupSet::new(),
        };
        proof {
            assert(r.model() =~= empty_path_model());
        }
        r
    }

    /// Merge another candidate's metadata (not its composite or tags).
    fn incorporate(&mut self, other: &WikiPath)
        requires
            old(self).wf(),
        ensures
            final(self).wf(),
            final(self).model() == sp_inc(old(self).model(), other.model()),
    {
        self.regularity = self.regularity.worst(other.regularity);
        if other.kind.is_some() {
            self.kind = other.kind;
        }
        if other.store.is_some() {
            self.store = other.store;
        }
        if other.os.is_some() {
            self.os = other.os;
        }
        proof {
            assert(self.model() =~= sp_inc(old(self).model(), other.model()));
        }
    }

    /// Append literal text, or mark the candidate irregular if the text leaks
    /// raw markup.
    pub fn incorporate_text(&mut self, text: &str)
        requires
            old(self).wf(),
        ensures
            final(self).wf(),
            final(self).model() == sp_inc_text(old(self).model(), text@),
    {
        let v = str_chars(text);
        let mut has_angle = false;
        let n = v.len();
        for i in 0..n
            invariant
                n == v@.len(),
                has_angle == exists|j: int|
                    0 <= j < i && ((#[trigger] v@[j]) == '<' || v@[j] == '>'),
        {
            if v[i] == '<' || v[i] == '>' {
                has_angle = true;
            }
        }
        vstd::string::StringExecFns::append(&mut self.composite, text);
        if has_angle {
            self.regularity = Regularity::Irregular;
        }
        proof {
            assert(self.model() =~= sp_inc_text(old(self).model(), text@));
        }
    }

    /// Incorporate a child flattened without placeholder lookup: its raw text
    /// joins the composite.
    pub fn incorporate_raw(&mut self, other: WikiPath)
        requires
            old(self).wf(),
        ensures
            final(self).wf(),
            final(self).model() == sp_inc_raw(old(self).model(), other.model()),
    {
        self.incorporate_text(other.composite.as_str());
        self.incorporate(&other);
    }

    /// Incorporate a child flattened as a path macro, through the placeholder
    /// lookup.
    pub fn incorporate_path(&mut self, other: WikiPath)
        requires
            old(self).wf(),
        ensures
            final(self).wf(),
            final(self).model() == sp_inc_path(old(self).model(), other.model()),
    {
        let key_chars = str_chars(other.composite.as_str());
        let key = lower_vec(&key_chars);
        match mapped_path(&key) {
            Some(mapped) => {
                vstd::string::StringExecFns::append(&mut self.composite, mapped.manifest);
                if mapped.kind.is_some() {
                    self.kind = mapped.kind;
                }
                if mapped.store.is_some() {
                    self.store = mapped.store;
                }
                if mapped.os.is_some() {
                    self.os = mapped.os;
                }
            },
            None => {
                if key.len() != 0 {
                    self.regularity = Regularity::Irregular;
                }
            },
        }
        self.incorporate(&other);
        proof {
            assert(self.model() =~= sp_inc_path(old(self).model(), other.model()));
        }
    }
}

/// The candidate assembled by flattening the pieces of one attribute value.
pub open spec fn sp_flatten_attr(a: AttrNode) -> WikiPathV
    decreases a,
{
    sp_flatten_pieces(a.pieces@, empty_path_model())
}

/// Fold [`sp_apply_piece`] over a piece sequence.
pub open spec fn sp_flatten_pieces(pieces: Seq<Piece>, acc: WikiPathV) -> WikiPathV
    decreases pieces,
{
    if pieces.len() == 0 {
        acc
    } else {
        sp_flatten_pieces(pieces.drop_first(), sp_apply_piece(acc, pieces[0]))
    }
}

/// The effect of one markup piece on a candidate: text joins the composite; a
/// nested path macro recurses through the placeholder lookup; a code or file
/// macro appends an opaque wildcard at semiregular confidence; a localized
/// path recurses without the lookup; notes contribute nothing; any other
/// macro makes the candidate irregular.
pub open spec fn sp_apply_piece(acc: WikiPathV, p: Piece) -> WikiPathV
    decreases p,
{
    match p {
        Piece::Text(t) => sp_inc_text(acc, t@),
        Piece::Template(tn) => {
            let tag = trim_ws_end(trim_lead(lower(tn.tag@)));
            if tag == "p"@ || tag == "path"@ {
                sp_fold_path_attrs(tn.attributes@, acc)
            } else if tag == "code"@ || tag == "file"@ {
                WikiPathV {
                    composite: acc.composite + "*"@,
                    regularity: Regularity::Semiregular,
                    ..acc
                }
            } else if tag == "localizedpath"@ {
                sp_fold_raw_attrs(tn.attributes@, acc)
            } else if tag == "note"@ || tag == "cn"@ {
                acc
            } else {
                WikiPathV { regularity: Regularity::Irregular, ..acc }
            }
        },
        Piece::Link => acc,
        Piece::ListItem => acc,
    }
}

/// Fold a path macro's attributes into the candidate through the lookup.
pub open spec fn sp_fold_path_attrs(attrs: Seq<AttrNode>, acc: WikiPathV) -> WikiPathV
    decreases attrs,
{
    if attrs.len() == 0 {
        acc
    } else {
        sp_fold_path_attrs(attrs.drop_first(), sp_inc_path(acc, sp_flatten_attr(attrs[0])))
    }
}

/// Fold a localized path macro's attributes into the candidate as raw text.
pub open spec fn sp_fold_raw_attrs(attrs: Seq<AttrNode>, acc: WikiPathV) -> WikiPathV
    decreases attrs,
{
    if attrs.len() == 0 {
        acc
    } else {
        sp_fold_raw_attrs(attrs.drop_first(), sp_inc_raw(acc, sp_flatten_attr(attrs[0])))
    }
}

/// Flatten one attribute value into a path candidate.
pub fn flatten_path(attribute: &AttrNode) -> (r: WikiPath)
    ensures
        r.wf(),
        r.model() == sp_flatten_attr(*attribute),
    decreases *attribute,
{
    let mut out = WikiPath::new();
    let n = attribute.pieces.len();
    let mut i: usize = 0;
    proof {
        assert(attribute.pieces@.skip(0) =~= attribute.pieces@);
    }
    while i < n
        invariant
            n == attribute.pieces@.len(),
            i <= n,
            out.wf(),
            sp_flatten_attr(*attribute) == sp_flatten_pieces(
                attribute.pieces@.skip(i as int),
                out.model(),
            ),
        decreases n - i,
    {
        let ghost rest = attribute.pieces@.skip(i as int);
        let ghost acc0 = out.model();
        proof {
            assert(rest[0] == attribute.pieces@[i as int]);
            assert(rest.drop_first() =~= attribute.pieces@.skip(i as int + 1));
        }
        let piece = &attribute.pieces[i];
        match piece {
            Piece::Text(t) => {
                out.incorporate_text(t.as_str());
            },
            Piece::Template(tn) => {
                proof {
                    assert(decreases_to!(*attribute => attribute.pieces));
                    assert(decreases_to!(attribute.pieces => attribute.pieces@));
                    assert(decreases_to!(attribute.pieces@ => attribute.pieces@[i as int]));
                    assert(attribute.pieces@[i as int] == Piece::Template(*tn));
                    assert(decreases_to!(Piece::Template(*tn) => *tn));
                    assert(decreases_to!(*tn => tn.attributes));
                    assert(decreases_to!(tn.attributes => tn.attributes@));
                }
                let tag_chars = str_chars(tn.tag.as_str());
                let tag_low = lower_vec(&tag_chars);
                let tag_lead = crate::path::trim_lead_exec(&tag_low);
                let tag = trim_ws_end_exec(tag_lead);
                if chars_eq(&tag, &str_chars("p")) || chars_eq(&tag, &str_chars("path")) {
                    let an = tn.attributes.len();
                    let mut j: usize = 0;
                    proof {
                        assert(tn.attributes@.skip(0) =~= tn.attributes@);
                    }
                    while j < an
                        invariant
                            an == tn.attributes@.len(),
                            j <= an,
                            out.wf(),
                            i < attribute.pieces@.len(),
                            attribute.pieces@[i as int] == Piece::Template(*tn),
                            sp_fold_path_attrs(tn.attributes@, acc0) == sp_fold_path_attrs(
                                tn.attributes@.skip(j as int),
                                out.model(),
                            ),
                        decreases an - j,
                    {
                        let ghost arest = tn.attributes@.skip(j as int);
                        proof {
                            assert(arest[0] == tn.attributes@[j as int]);
                            assert(arest.drop_first() =~= tn.attributes@.skip(j as int + 1));
                            assert(decreases_to!(*attribute => attribute.pieces));
                            assert(decreases_to!(attribute.pieces => attribute.pieces@));
                            assert(decreases_to!(attribute.pieces@ => attribute.pieces@[i as int]));
                            let p0 = attribute.pieces@[i as int];
                            assert(p0 == Piece::Template(*tn));
                            assert(decreases_to!(p0 => p0->Template_0));
                            assert(p0->Template_0 == *tn);
                            assert(decreases_to!(*tn => tn.attributes));
                            assert(decreases_to!(tn.attributes => tn.attributes@));
                            assert(decreases_to!(tn.attributes@ => tn.attributes@[j as int]));
                        }
                        let flat = flatten_path(&tn.attributes[j]);
                        out.incorporate_path(flat);
                        j = j + 1;
                    }
                    proof {
                        assert(tn.attributes@.skip(an as int) =~= Seq::<AttrNode>::empty());
                        assert(sp_fold_path_attrs(tn.attributes@, acc0) == out.model());
                    }
                } else if chars_eq(&tag, &str_chars("code")) || chars_eq(&tag, &str_chars("file")) {
                    out.regularity = Regularity::Semiregular;
                    vstd::string::StringExecFns::append(&mut out.composite, "*");
                } else if chars_eq(&tag, &str_chars("localizedpath")) {
                    let an = tn.attributes.len();
                    let mut j: usize = 0;
                    proof {
                        assert(tn.attributes@.skip(0) =~= tn.attributes@);
                    }
                    while j < an
                        invariant
                            an == tn.attributes@.len(),
                            j <= an,
                            out.wf(),
                            i < attribute.pieces@.len(),
                            attribute.pieces@[i as int] == Piece::Template(*tn),
                            sp_fold_raw_attrs(tn.attributes@, acc0) == sp_fold_raw_attrs(
                                tn.attributes@.skip(j as int),
                                out.model(),
                            ),
                        decreases an - j,
                    {
                        let ghost arest = tn.attributes@.skip(j as int);
                        proof {
                            assert(arest[0] == tn.attributes@[j as int]);
                            assert(arest.drop_first() =~= tn.attributes@.skip(j as int + 1));
                            assert(decreases_to!(*attribute => attribute.pieces));
                            assert(decreases_to!(attribute.pieces => attribute.pieces@));
                            assert(decreases_to!(attribute.pieces@ => attribute.pieces@[i as int]));
                            let p0 = attribute.pieces@[i as int];
                            assert(p0 == Piece::Template(*tn));
                            assert(decreases_to!(p0 => p0->Template_0));
                            assert(p0->Template_0 == *tn);
                            assert(decreases_to!(*tn => tn.attributes));
                            assert(decreases_to!(tn.attributes => tn.attributes@));
                            assert(decreases_to!(tn.attributes@ => tn.attributes@[j as int]));
                        }
                        let flat = flatten_path(&tn.attributes[j]);
                        out.incorporate_raw(flat);
                        j = j + 1;
                    }
                    proof {
                        assert(tn.attributes@.skip(an as int) =~= Seq::<AttrNode>::empty());
                        assert(sp_fold_raw_attrs(tn.attributes@, acc0) == out.model());
                    }
                } else if chars_eq(&tag, &str_chars("note")) || chars_eq(&tag, &str_chars("cn")) {
                } else {
                    out.regularity = Regularity::Irregular;
                }
            },
            Piece::Link => {},
            Piece::ListItem => {},
        }
        proof {
            assert(out.model() =~= sp_apply_piece(acc0, rest[0]));
            assert(sp_flatten_pieces(rest, acc0) == sp_flatten_pieces(
                rest.drop_first(),
                sp_apply_piece(acc0, rest[0]),
            ));
        }
        i = i + 1;
    }
    proof {
        assert(attribute.pieces@.skip(n as int) =~= Seq::<Piece>::empty());
    }
    out
}

/// Both ends trimmed of whitespace.
pub open spec fn sp_trim_both(s: Seq<char>) -> Seq<char> {
    trim_ws_end(trim_lead(s))
}

/// The platform label's effect on a candidate: a recognized operating-system
/// label sets the OS, a recognized storefront label sets the store, and the
/// one hybrid label sets both; anything else changes nothing.
pub open spec fn sp_with_platform(m: WikiPathV, platform: Seq<char>) -> WikiPathV {
    let t = sp_trim_both(lower(platform));
    if t == "windows"@ {
        WikiPathV { os: Some(Os::Windows), ..m }
    } else if t == "os x"@ {
        WikiPathV { os: Some(Os::Mac), ..m }
    } else if t == "linux"@ {
        WikiPathV { os: Some(Os::Linux), ..m }
    } else if t == "dos"@ {
        WikiPathV { os: Some(Os::Dos), ..m }
    } else if t == "steam"@ {
        WikiPathV { store: Some(Store::Steam), ..m }
    } else if t == "microsoft store"@ {
        WikiPathV { os: Some(Os::Windows), store: Some(Store::Microsoft), ..m }
    } else if t == "gog.com"@ {
        WikiPathV { store: Some(Store::Gog), ..m }
    } else if t == "epic games"@ {
        WikiPathV { store: Some(Store::Epic), ..m }
    } else if t == "uplay"@ {
        WikiPathV { store: Some(Store::Uplay), ..m }
    } else if t == "origin"@ {
        WikiPathV { store: Some(Store::Origin), ..m }
    } else {
        m
    }
}

/// Tags added for the template kinds the candidate came from.
pub open spec fn sp_with_tags(m: WikiPathV, save: bool, config: bool) -> WikiPathV {
    let t1 = if save {
        m.tags.insert(Tag::Save)
    } else {
        m.tags
    };
    let t2 = if config {
        t1.insert(Tag::Config)
    } else {
        t1
    };
    WikiPathV { tags: t2, ..m }
}

/// The candidate normalized under the grammar its kind selects, with the kind
/// defaulted to a file path.
pub open spec fn sp_wiki_normalize(m: WikiPathV) -> WikiPathV {
    let composite = match m.kind {
        Some(PathKind::Registry) => crate::registry::norm_registry(m.composite),
        _ => crate::path::norm_path(m.composite),
    };
    let kind = if m.kind is None {
        Some(PathKind::File)
    } else {
        m.kind
    };
    WikiPathV { composite, kind, ..m }
}

/// A candidate graded irregular, or still holding unresolved markup.
pub open spec fn sp_wiki_irregular(m: WikiPathV) -> bool {
    m.regularity == Regularity::Irregular || occurs(m.composite, "{{"@)
}

/// A candidate graded semiregular.
pub open spec fn sp_wiki_semiregular(m: WikiPathV) -> bool {
    m.regularity == Regularity::Semiregular
}

/// A candidate worth keeping: usable under its grammar and not irregular.
pub open spec fn sp_wiki_usable(m: WikiPathV) -> bool {
    match m.kind {
        Some(PathKind::Registry) => crate::registry::sp_reg_usable(m.composite)
            && !sp_wiki_irregular(m),
        _ => crate::path::sp_usable(m.composite) && !sp_wiki_irregular(m),
    }
}

impl WikiPath {
    /// Apply a leading platform or store label to the candidate.
    pub fn with_platform(self, platform: &str) -> (r: Self)
        requires
            self.wf(),
        ensures
            r.wf(),
            r.model() == sp_with_platform(self.model(), platform@),
    {
        let v = str_chars(platform);
        let low = lower_vec(&v);
        let lead = crate::path::trim_lead_exec(&low);
        let t = trim_ws_end_exec(lead);
        let mut out = self;
        if chars_eq(&t, &str_chars("windows")) {
            out.os = Some(Os::Windows);
        } else if chars_eq(&t, &str_chars("os x")) {
            out.os = Some(Os::Mac);
        } else if chars_eq(&t, &str_chars("linux")) {
            out.os = Some(Os::Linux);
        } else if chars_eq(&t, &str_chars("dos")) {
            out.os = Some(Os::Dos);
        } else if chars_eq(&t, &str_chars("steam")) {
            out.store = Some(Store::Steam);
        } else if chars_eq(&t, &str_chars("microsoft store")) {
            out.os = Some(Os::Windows);
            out.store = Some(Store::Microsoft);
        } else if chars_eq(&t, &str_chars("gog.com")) {
            out.store = Some(Store::Gog);
        } else if chars_eq(&t, &str_chars("epic games")) {
            out.store = Some(Store::Epic);
        } else if chars_eq(&t, &str_chars("uplay")) {
            out.store = Some(Store::Uplay);
        } else if chars_eq(&t, &str_chars("origin")) {
            out.store = Some(Store::Origin);
        }
        proof {
            assert(out.model() =~= sp_with_platform(self.model(), platform@));
        }
        out
    }

    /// Tag the candidate with the template kinds it came from.
    pub fn with_tags(self, save: bool, config: bool) -> (r: Self)
        requires
            self.wf(),
        ensures
            r.wf(),
            r.model() == sp_with_tags(self.model(), save, config),
    {
        let mut out = self;
        if save {
            out.tags.insert(Tag::Save);
        }
        if config {
            out.tags.insert(Tag::Config);
        }
        proof {
            assert(out.model() =~= sp_with_tags(self.model(), save, config));
        }
        out
    }

    /// Normalize the composite under the grammar the kind selects, defaulting
    /// the kind to a file path.
    pub fn normalize(self) -> (r: Self)
        requires
            self.wf(),
        ensures
            r.wf(),
            r.model() == sp_wiki_normalize(self.model()),
    {
        let mut out = self;
        let is_registry = matches!(out.kind, Some(PathKind::Registry));
        if is_registry {
            out.composite = crate::registry::normalize(out.composite.as_str());
        } else {
            out.composite = crate::path::normalize(out.composite.as_str());
        }
        if out.kind.is_none() {
            out.kind = Some(PathKind::File);
        }
        proof {
            assert(out.model() =~= sp_wiki_normalize(self.model()));
        }
        out
    }

    /// Whether the candidate is graded irregular or still holds markup.
    pub fn irregular(&self) -> (r: bool)
        ensures
            r == sp_wiki_irregular(self.model()),
    {
        if matches!(self.regularity, Regularity::Irregular) {
            return true;
        }
        let v = str_chars(self.composite.as_str());
        occurs_exec(&v, &str_chars("{{"))
    }

    /// Whether the candidate is graded semiregular.
    pub fn semiregular(&self) -> (r: bool)
        ensures
            r == sp_wiki_semiregular(self.model()),
    {
        matches!(self.regularity, Regularity::Semiregular)
    }

    /// Whether the candidate should be kept.
    pub fn usable(&self) -> (r: bool)
        ensures
            r == sp_wiki_usable(self.model()),
    {
        let v = str_chars(self.composite.as_str());
        let is_registry = matches!(self.kind, Some(PathKind::Registry));
        if is_registry {
            crate::registry::usable_chars(&v) && !self.irregular()
        } else {
            crate::path::usable_chars(&v) && !self.irregular()
        }
    }
}

/// Index of the first comma, if any.
pub open spec fn sp_first_comma(s: Seq<char>) -> Option<int>
    decreases s.len(),
{
    if s.len() == 0 {
        None
    } else if s[0] == ',' {
        Some(0)
    } else {
        match sp_first_comma(s.drop_first()) {
            Some(i) => Some(i + 1),
            None => None,
        }
    }
}

/// A comma hiding after a comma-free prefix is the first one.
proof fn lemma_first_comma(s: Seq<char>, j: int)
    requires
        0 <= j <= s.len(),
        forall|k: int| 0 <= k < j ==> s[k] != ',',
        j < s.len() ==> s[j] == ',',
    ensures
        j < s.len() ==> sp_first_comma(s) == Some(j),
        j == s.len() ==> sp_first_comma(s) is None,
    decreases s.len(),
{
    if s.len() > 0 && s[0] != ',' {
        assert forall|k: int| 0 <= k < j - 1 implies s.drop_first()[k] != ',' by {
            assert(s.drop_first()[k] == s[k + 1]);
        }
        if j < s.len() {
            assert(s.drop_first()[j - 1] == s[j]);
        }
        lemma_first_comma(s.drop_first(), j - 1);
    }
}

/// The side identifiers one comma-separated segment contributes: its trimmed
/// text parsed as a number, kept when positive.
pub open spec fn sp_seg_u32(seg: Seq<char>) -> Set<u32> {
    match sp_parse_u32(sp_trim_both(seg)) {
        Some(v) => if v > 0 {
            set![v]
        } else {
            Set::empty()
        },
        None => Set::empty(),
    }
}

/// A first comma lies inside the text.
proof fn lemma_first_comma_bounds(s: Seq<char>, i: int)
    requires
        sp_first_comma(s) == Some(i),
    ensures
        0 <= i < s.len(),
    decreases s.len(),
{
    if s.len() > 0 && s[0] != ',' {
        if sp_first_comma(s.drop_first()) is Some {
            lemma_first_comma_bounds(s.drop_first(), i - 1);
        }
    }
}

/// All side identifiers in a comma-separated list.
pub open spec fn sp_side_u32(s: Seq<char>) -> Set<u32>
    decreases s.len(),
    via sp_side_u32_dec
{
    match sp_first_comma(s) {
        None => sp_seg_u32(s),
        Some(i) => sp_seg_u32(s.take(i)).union(sp_side_u32(s.skip(i + 1))),
    }
}

#[via_fn]
proof fn sp_side_u32_dec(s: Seq<char>) {
    if sp_first_comma(s) is Some {
        lemma_first_comma_bounds(s, sp_first_comma(s)->Some_0);
    }
}

/// Like [`sp_seg_u32`] for the wider identifier space.
pub open spec fn sp_seg_u64(seg: Seq<char>) -> Set<u64> {
    match sp_parse_u64(sp_trim_both(seg)) {
        Some(v) => if v > 0 {
            set![v]
        } else {
            Set::empty()
        },
        None => Set::empty(),
    }
}

/// Like [`sp_side_u32`] for the wider identifier space.
pub open spec fn sp_side_u64(s: Seq<char>) -> Set<u64>
    decreases s.len(),
    via sp_side_u64_dec
{
    match sp_first_comma(s) {
        None => sp_seg_u64(s),
        Some(i) => sp_seg_u64(s.take(i)).union(sp_side_u64(s.skip(i + 1))),
    }
}

#[via_fn]
proof fn sp_side_u64_dec(s: Seq<char>) {
    if sp_first_comma(s) is Some {
        lemma_first_comma_bounds(s, sp_first_comma(s)->Some_0);
    }
}

/// The first comma lies where the scan of the suffix stops.
proof fn lemma_first_comma_at(s: Seq<char>, start: int, i: int)
    requires
        0 <= start <= i <= s.len(),
        forall|k: int| start <= k < i ==> s[k] != ',',
        i < s.len() ==> s[i] == ',',
    ensures
        i < s.len() ==> sp_first_comma(s.skip(start)) == Some(i - start),
        i == s.len() ==> sp_first_comma(s.skip(start)) is None,
{
    let t = s.skip(start);
    assert forall|k: int| 0 <= k < i - start implies t[k] != ',' by {
        assert(t[k] == s[start + k]);
    }
    if i < s.len() {
        assert(t[i - start] == s[i]);
    }
    lemma_first_comma(t, i - start);
}

/// One segment's contribution, as executable code computes it.
fn side_segment_u32(s: &Vec<char>, start: usize, end: usize, ids: &mut DedupSet<u32>)
    requires
        old(ids).wf(),
        start <= end <= s@.len(),
    ensures
        final(ids).wf(),
        final(ids)@ == old(ids)@.union(sp_seg_u32(s@.subrange(start as int, end as int))),
{
    let mut seg: Vec<char> = Vec::new();
    let mut j: usize = start;
    while j < end
        invariant
            start <= j <= end <= s@.len(),
            seg@ =~= s@.subrange(start as int, j as int),
        decreases end - j,
    {
        seg.push(s[j]);
        j = j + 1;
    }
    let lead = crate::path::trim_lead_exec(&seg);
    let trimmed = trim_ws_end_exec(lead);
    match parse_u32_chars(&trimmed) {
        Some(v) => {
            if v > 0 {
                ids.insert(v);
                proof {
                    assert(final(ids)@ =~= old(ids)@.union(
                        sp_seg_u32(s@.subrange(start as int, end as int)),
                    ));
                }
            } else {
                proof {
                    assert(final(ids)@ =~= old(ids)@.union(
                        sp_seg_u32(s@.subrange(start as int, end as int)),
                    ));
                }
            }
        },
        None => {
            proof {
                assert(final(ids)@ =~= old(ids)@.union(
                    sp_seg_u32(s@.subrange(start as int, end as int)),
                ));
            }
        },
    }
}

/// Like [`side_segment_u32`] for the wider identifier space.
fn side_segment_u64(s: &Vec<char>, start: usize, end: usize, ids: &mut DedupSet<u64>)
    requires
        old(ids).wf(),
        start <= end <= s@.len(),
    ensures
        final(ids).wf(),
        final(ids)@ == old(ids)@.union(sp_seg_u64(s@.subrange(start as int, end as int))),
{
    let mut seg: Vec<char> = Vec::new();
    let mut j: usize = start;
    while j < end
        invariant
            start <= j <= end <= s@.len(),
            seg@ =~= s@.subrange(start as int, j as int),
        decreases end - j,
    {
        seg.push(s[j]);
        j = j + 1;
    }
    let lead = crate::path::trim_lead_exec(&seg);
    let trimmed = trim_ws_end_exec(lead);
    match parse_u64_chars(&trimmed) {
        Some(v) => {
            if v > 0 {
                ids.insert(v);
                proof {
                    assert(final(ids)@ =~= old(ids)@.union(
                        sp_seg_u64(s@.subrange(start as int, end as int)),
                    ));
                }
            } else {
                proof {
                    assert(final(ids)@ =~= old(ids)@.union(
                        sp_seg_u64(s@.subrange(start as int, end as int)),
                    ));
                }
            }
        },
        None => {
            proof {
                assert(final(ids)@ =~= old(ids)@.union(
                    sp_seg_u64(s@.subrange(start as int, end as int)),
                ));
            }
        },
    }
}

/// Exec counterpart of [`sp_side_u32`].
pub fn side_ids_u32(s: &Vec<char>) -> (r: DedupSet<u32>)
    ensures
        r.wf(),
        r@ == sp_side_u32(s@),
{
    let mut ids: DedupSet<u32> = DedupSet::new();
    let n = s.len();
    let mut start: usize = 0;
    let mut i: usize = 0;
    proof {
        assert(s@.skip(0) =~= s@);
        assert(ids@.union(sp_side_u32(s@)) =~= sp_side_u32(s@));
    }
    while i < n
        invariant
            start <= i <= n,
            n == s@.len(),
            ids.wf(),
            forall|k: int| start <= k < i ==> s@[k] != ',',
            sp_side_u32(s@) == ids@.union(sp_side_u32(s@.skip(start as int))),
        decreases n - i,
    {
        if s[i] == ',' {
            proof {
                lemma_first_comma_at(s@, start as int, i as int);
                assert(s@.skip(start as int).take(i - start) =~= s@.subrange(
                    start as int,
                    i as int,
                ));
                assert(s@.skip(start as int).skip(i - start + 1) =~= s@.skip(i as int + 1));
            }
            side_segment_u32(s, start, i, &mut ids);
            proof {
                assert(sp_side_u32(s@) =~= ids@.union(sp_side_u32(s@.skip(i as int + 1))));
            }
            start = i + 1;
        }
        i = i + 1;
    }
    proof {
        lemma_first_comma_at(s@, start as int, n as int);
        assert(s@.subrange(start as int, n as int) =~= s@.skip(start as int));
    }
    side_segment_u32(s, start, n, &mut ids);
    proof {
        assert(sp_side_u32(s@.skip(start as int)) == sp_seg_u32(s@.skip(start as int)));
        assert(sp_side_u32(s@) =~= ids@);
    }
    ids
}

/// Exec counterpart of [`sp_side_u64`].
pub fn side_ids_u64(s: &Vec<char>) -> (r: DedupSet<u64>)
    ensures
        r.wf(),
        r@ == sp_side_u64(s@),
{
    let mut ids: DedupSet<u64> = DedupSet::new();
    let n = s.len();
    let mut start: usize = 0;
    let mut i: usize = 0;
    proof {
        assert(s@.skip(0) =~= s@);
        assert(ids@.union(sp_side_u64(s@)) =~= sp_side_u64(s@));
    }
    while i < n
        invariant
            start <= i <= n,
            n == s@.len(),
            ids.wf(),
            forall|k: int| start <= k < i ==> s@[k] != ',',
            sp_side_u64(s@) == ids@.union(sp_side_u64(s@.skip(start as int))),
        decreases n - i,
    {
        if s[i] == ',' {
            proof {
                lemma_first_comma_at(s@, start as int, i as int);
                assert(s@.skip(start as int).take(i - start) =~= s@.subrange(
                    start as int,
                    i as int,
                ));
                assert(s@.skip(start as int).skip(i - start + 1) =~= s@.skip(i as int + 1));
            }
            side_segment_u64(s, start, i, &mut ids);
            proof {
                assert(sp_side_u64(s@) =~= ids@.union(sp_side_u64(s@.skip(i as int + 1))));
            }
            start = i + 1;
        }
        i = i + 1;
    }
    proof {
        lemma_first_comma_at(s@, start as int, n as int);
        assert(s@.subrange(start as int, n as int) =~= s@.skip(start as int));
    }
    side_segment_u64(s, start, n, &mut ids);
    proof {
        assert(sp_side_u64(s@.skip(start as int)) == sp_seg_u64(s@.skip(start as int)));
        assert(sp_side_u64(s@) =~= ids@);
    }
    ids
}

/// Spec-level model of a cached article record.
pub struct WikiEntryV {
    pub state: State,
    pub cloud: crate::manifest::CloudMetadata,
    pub gog: Option<u64>,
    pub gog_side: Set<u64>,
    pub lutris: Option<Seq<char>>,
    pub malformed: bool,
    pub page_id: u64,
    pub renamed_from: Seq<Seq<char>>,
    pub steam: Option<u32>,
    pub steam_side: Set<u32>,
    pub templates: Seq<Seq<char>>,
    pub new_title: Option<Seq<char>>,
}

/// Per-article cached record.
#[derive(Debug)]
pub struct WikiCacheEntry {
    pub state: State,
    /// Cloud-save support flags per storefront, as the article declares them.
    pub cloud: crate::manifest::CloudMetadata,
    pub gog: Option<u64>,
    pub gog_side: DedupSet<u64>,
    pub lutris: Option<String>,
    /// The markup parser consumed at least one error on this article.
    pub malformed: bool,
    pub page_id: u64,
    /// Previous titles this entry was renamed from, oldest first.
    pub renamed_from: Vec<String>,
    pub steam: Option<u32>,
    pub steam_side: DedupSet<u32>,
    /// Raw save/config template sources, kept uninterpreted until flattened.
    pub templates: Vec<String>,
    /// Set after resolving a redirect.
    pub new_title: Option<String>,
}

/// Views of a string sequence.
pub open spec fn str_views(v: Seq<String>) -> Seq<Seq<char>> {
    Seq::new(v.len(), |i: int| v[i]@)
}

/// Appending a string appends its view.
pub proof fn lemma_str_views_push(v: Seq<String>, x: String)
    ensures
        str_views(v.push(x)) =~= str_views(v).push(x@),
{
}

impl WikiCacheEntry {
    pub open spec fn model(&self) -> WikiEntryV {
        WikiEntryV {
            state: self.state,
            cloud: self.cloud,
            gog: self.gog,
            gog_side: self.gog_side@,
            lutris: opt_str_view(self.lutris),
            malformed: self.malformed,
            page_id: self.page_id,
            renamed_from: str_views(self.renamed_from@),
            steam: self.steam,
            steam_side: self.steam_side@,
            templates: str_views(self.templates@),
            new_title: opt_str_view(self.new_title),
        }
    }

    pub open spec fn wf(&self) -> bool {
        self.gog_side.wf() && self.steam_side.wf()
    }

    /// An empty record in the terminal state.
    pub fn new() -> (r: Self)
        ensures
            r.wf(),
            r.model() == blank_entry(),
    {
        let r = WikiCacheEntry {
            state: State::Handled,
            cloud: crate::manifest::CloudMetadata::new(),
            gog: None,
            gog_side: DedupSet::new(),
            lutris: None,
            malformed: false,
            page_id: 0,
            renamed_from: Vec::new(),
            steam: None,
            steam_side: DedupSet::new(),
            templates: Vec::new(),
            new_title: None,
        };
        proof {
            assert(str_views(r.renamed_from@) =~= Seq::<Seq<char>>::empty());
            assert(str_views(r.templates@) =~= Seq::<Seq<char>>::empty());
            assert(r.model() =~= blank_entry());
        }
        r
    }

    /// A copy of the record, equal at the model level.
    pub fn duplicate(&self) -> (r: Self)
        requires
            self.wf(),
        ensures
            r.wf(),
            r.model() == self.model(),
    {
        let r = WikiCacheEntry {
            state: self.state,
            cloud: self.cloud,
            gog: self.gog,
            gog_side: self.gog_side.duplicate(),
            lutris: clone_opt_string(&self.lutris),
            malformed: self.malformed,
            page_id: self.page_id,
            renamed_from: clone_vec_string(&self.renamed_from),
            steam: self.steam,
            steam_side: self.steam_side.duplicate(),
            templates: clone_vec_string(&self.templates),
            new_title: clone_opt_string(&self.new_title),
        };
        proof {
            assert(str_views(r.renamed_from@) =~= str_views(self.renamed_from@));
            assert(str_views(r.templates@) =~= str_views(self.templates@));
            assert(r.model() =~= self.model());
        }
        r
    }
}

/// The blank record: terminal state, no identifiers, no history, no markup.
pub open spec fn blank_entry() -> WikiEntryV {
    WikiEntryV {
        state: State::Handled,
        cloud: crate::manifest::CloudMetadata {
            epic: false,
            gog: false,
            origin: false,
            steam: false,
            uplay: false,
        },
        gog: None,
        gog_side: Set::empty(),
        lutris: None,
        malformed: false,
        page_id: 0,
        renamed_from: Seq::empty(),
        steam: None,
        steam_side: Set::empty(),
        templates: Seq::empty(),
        new_title: None,
    }
}

/// One identifier attribute's effect on the record: storefront identifiers
/// must be positive numbers, side listings replace the side sets, and a
/// non-empty launcher name is kept verbatim. Attribute values are preprocessed
/// to drop annotations.
pub open spec fn sp_apply_infobox_attr(acc: WikiEntryV, a: AttrNode) -> WikiEntryV {
    match a.name {
        Some(nm) => if nm@ == "steam appid"@ {
            match sp_parse_u32(sp_preprocess(a.text@)) {
                Some(v) => if v > 0 {
                    WikiEntryV { steam: Some(v), ..acc }
                } else {
                    acc
                },
                None => acc,
            }
        } else if nm@ == "steam appid side"@ {
            WikiEntryV { steam_side: sp_side_u32(sp_preprocess(a.text@)), ..acc }
        } else if nm@ == "gogcom id"@ {
            match sp_parse_u64(sp_preprocess(a.text@)) {
                Some(v) => if v > 0 {
                    WikiEntryV { gog: Some(v), ..acc }
                } else {
                    acc
                },
                None => acc,
            }
        } else if nm@ == "gogcom id side"@ {
            WikiEntryV { gog_side: sp_side_u64(sp_preprocess(a.text@)), ..acc }
        } else if nm@ == "lutris"@ {
            if sp_preprocess(a.text@).len() > 0 {
                WikiEntryV { lutris: Some(sp_preprocess(a.text@)), ..acc }
            } else {
                acc
            }
        } else {
            acc
        },
        None => acc,
    }
}

/// Fold [`sp_apply_infobox_attr`] over a template's attributes.
pub open spec fn sp_fold_infobox(attrs: Seq<AttrNode>, acc: WikiEntryV) -> WikiEntryV
    decreases attrs.len(),
{
    if attrs.len() == 0 {
        acc
    } else {
        sp_fold_infobox(attrs.drop_first(), sp_apply_infobox_attr(acc, attrs[0]))
    }
}

/// The raw template sources a game-data attribute's pieces contribute: nested
/// save or config templates (matched on their exact tag), skipping any whose
/// second attribute renders empty.
pub open spec fn sp_game_data_pieces(pieces: Seq<Piece>) -> Seq<Seq<char>>
    decreases pieces.len(),
{
    if pieces.len() == 0 {
        Seq::empty()
    } else {
        let head: Seq<Seq<char>> = match pieces[0] {
            Piece::Template(sub) => {
                let lt = lower(sub.tag@);
                if (lt == "game data/saves"@ || lt == "game data/config"@) && !(sub.attributes@.len()
                    > 1 && sub.attributes@[1].text@.len() == 0) {
                    seq![sub.source@]
                } else {
                    Seq::empty()
                }
            },
            _ => Seq::empty(),
        };
        head + sp_game_data_pieces(pieces.drop_first())
    }
}

/// All raw template sources a game-data template's attributes contribute.
pub open spec fn sp_game_data_attrs(attrs: Seq<AttrNode>) -> Seq<Seq<char>>
    decreases attrs.len(),
{
    if attrs.len() == 0 {
        Seq::empty()
    } else {
        sp_game_data_pieces(attrs[0].pieces@) + sp_game_data_attrs(attrs.drop_first())
    }
}

/// One top-level template's effect on the record: an identifier box updates
/// the identifiers, a game-data box contributes raw template sources, and
/// anything else is ignored.
pub open spec fn sp_apply_top_piece(acc: WikiEntryV, p: Piece) -> WikiEntryV {
    match p {
        Piece::Template(tn) => {
            let tag = sp_trim_both(lower(tn.tag@));
            if tag == "infobox game"@ {
                sp_fold_infobox(tn.attributes@, acc)
            } else if tag == "game data"@ {
                WikiEntryV { templates: acc.templates + sp_game_data_attrs(tn.attributes@), ..acc }
            } else {
                acc
            }
        },
        _ => acc,
    }
}

/// Fold [`sp_apply_top_piece`] over the article's top-level templates.
pub open spec fn sp_fold_top(pieces: Seq<Piece>, acc: WikiEntryV) -> WikiEntryV
    decreases pieces.len(),
{
    if pieces.len() == 0 {
        acc
    } else {
        sp_fold_top(pieces.drop_first(), sp_apply_top_piece(acc, pieces[0]))
    }
}

/// The record extracted from an article's markup: freshly fetched, with the
/// identifiers and raw path templates its recognized templates carry.
pub open spec fn sp_from_markup(raw: Seq<char>, article: Seq<char>) -> WikiEntryV {
    let parsed = parsed_templates(raw, article);
    let base = WikiEntryV { state: State::Updated, malformed: parsed.1, ..blank_entry() };
    sp_fold_top(parsed.0, base)
}

impl WikiCacheEntry {
    /// Extract a freshly fetched record from an article's markup. The page
    /// identifier, any redirect title and the rename history are supplied by
    /// the caller, which owns the fetch.
    pub fn from_markup(raw: &str, article: &str) -> (r: Self)
        ensures
            r.wf(),
            r.model() == sp_from_markup(raw@, article@),
    {
        let (pieces, malformed) = parse_wikitext_templates(raw, article);
        let mut out = WikiCacheEntry::new();
        out.state = State::Updated;
        out.malformed = malformed;
        proof {
            assert(out.model() =~= (WikiEntryV {
                state: State::Updated,
                malformed,
                ..blank_entry()
            }));
            assert(pieces@.skip(0) =~= pieces@);
        }
        let n = pieces.len();
        let mut i: usize = 0;
        while i < n
            invariant
                n == pieces@.len(),
                i <= n,
                out.wf(),
                sp_from_markup(raw@, article@) == sp_fold_top(pieces@.skip(i as int), out.model()),
        decreases n - i,
        {
            let ghost rest = pieces@.skip(i as int);
            let ghost acc0 = out.model();
            proof {
                assert(rest[0] == pieces@[i as int]);
                assert(rest.drop_first() =~= pieces@.skip(i as int + 1));
            }
            let piece = &pieces[i];
            match piece {
                Piece::Template(tn) => {
                    let tag_chars = str_chars(tn.tag.as_str());
                    let tag_low = lower_vec(&tag_chars);
                    let tag_lead = crate::path::trim_lead_exec(&tag_low);
                    let tag = trim_ws_end_exec(tag_lead);
                    if chars_eq(&tag, &str_chars("infobox game")) {
                        apply_infobox(&tn.attributes, &mut out);
                        proof {
                            assert(out.model() =~= sp_apply_top_piece(acc0, rest[0]));
                        }
                    } else if chars_eq(&tag, &str_chars("game data")) {
                        collect_game_data(&tn.attributes, &mut out);
                        proof {
                            assert(out.model() =~= sp_apply_top_piece(acc0, rest[0]));
                        }
                    } else {
                        proof {
                            assert(out.model() =~= sp_apply_top_piece(acc0, rest[0]));
                        }
                    }
                },
                _ => {
                    proof {
                        assert(out.model() =~= sp_apply_top_piece(acc0, rest[0]));
                    }
                },
            }
            i = i + 1;
        }
        proof {
            assert(pieces@.skip(n as int) =~= Seq::<Piece>::empty());
        }
        out
    }
}

/// Apply an identifier box's attributes to the record.
fn apply_infobox(attrs: &Vec<AttrNode>, out: &mut WikiCacheEntry)
    requires
        old(out).wf(),
    ensures
        final(out).wf(),
        final(out).model() == sp_fold_infobox(attrs@, old(out).model()),
{
    let n = attrs.len();
    let mut i: usize = 0;
    proof {
        assert(attrs@.skip(0) =~= attrs@);
    }
    while i < n
        invariant
            n == attrs@.len(),
            i <= n,
            out.wf(),
            sp_fold_infobox(attrs@, old(out).model()) == sp_fold_infobox(
                attrs@.skip(i as int),
                out.model(),
            ),
        decreases n - i,
    {
        let ghost rest = attrs@.skip(i as int);
        let ghost acc0 = out.model();
        proof {
            assert(rest[0] == attrs@[i as int]);
            assert(rest.drop_first() =~= attrs@.skip(i as int + 1));
        }
        let a = &attrs[i];
        match &a.name {
            Some(nm) => {
                let nv = str_chars(nm.as_str());
                if chars_eq(&nv, &str_chars("steam appid")) {
                    let text = preprocess_text(a.text.as_str());
                    let tv = str_chars(text.as_str());
                    match parse_u32_chars(&tv) {
                        Some(v) => {
                            if v > 0 {
                                out.steam = Some(v);
                            }
                        },
                        None => {},
                    }
                } else if chars_eq(&nv, &str_chars("steam appid side")) {
                    let text = preprocess_text(a.text.as_str());
                    let tv = str_chars(text.as_str());
                    out.steam_side = side_ids_u32(&tv);
                } else if chars_eq(&nv, &str_chars("gogcom id")) {
                    let text = preprocess_text(a.text.as_str());
                    let tv = str_chars(text.as_str());
                    match parse_u64_chars(&tv) {
                        Some(v) => {
                            if v > 0 {
                                out.gog = Some(v);
                            }
                        },
                        None => {},
                    }
                } else if chars_eq(&nv, &str_chars("gogcom id side")) {
                    let text = preprocess_text(a.text.as_str());
                    let tv = str_chars(text.as_str());
                    out.gog_side = side_ids_u64(&tv);
                } else if chars_eq(&nv, &str_chars("lutris")) {
                    let text = preprocess_text(a.text.as_str());
                    if text.as_str().unicode_len() > 0 {
                        out.lutris = Some(text);
                    }
                }
            },
            None => {},
        }
        proof {
            assert(out.model() =~= sp_apply_infobox_attr(acc0, rest[0]));
        }
        i = i + 1;
    }
    proof {
        assert(attrs@.skip(n as int) =~= Seq::<AttrNode>::empty());
    }
}

/// Collect the raw save/config template sources of a game-data template.
fn collect_game_data(attrs: &Vec<AttrNode>, out: &mut WikiCacheEntry)
    requires
        old(out).wf(),
    ensures
        final(out).wf(),
        final(out).model() == (WikiEntryV {
            templates: old(out).model().templates + sp_game_data_attrs(attrs@),
            ..old(out).model()
        }),
{
    let n = attrs.len();
    let mut i: usize = 0;
    proof {
        assert(attrs@.skip(0) =~= attrs@);
        assert(old(out).model().templates + sp_game_data_attrs(attrs@) =~= str_views(
            out.templates@,
        ) + sp_game_data_attrs(attrs@.skip(0)));
    }
    while i < n
        invariant
            n == attrs@.len(),
            i <= n,
            out.wf(),
            out.state == old(out).state,
            out.cloud == old(out).cloud,
            out.gog == old(out).gog,
            out.gog_side == old(out).gog_side,
            out.lutris == old(out).lutris,
            out.malformed == old(out).malformed,
            out.page_id == old(out).page_id,
            out.renamed_from == old(out).renamed_from,
            out.steam == old(out).steam,
            out.steam_side == old(out).steam_side,
            out.new_title == old(out).new_title,
            old(out).model().templates + sp_game_data_attrs(attrs@) =~= str_views(out.templates@)
                + sp_game_data_attrs(attrs@.skip(i as int)),
        decreases n - i,
    {
        let ghost rest = attrs@.skip(i as int);
        proof {
            assert(rest[0] == attrs@[i as int]);
            assert(rest.drop_first() =~= attrs@.skip(i as int + 1));
        }
        let a = &attrs[i];
        collect_game_data_pieces(&a.pieces, &mut out.templates);
        proof {
            assert(old(out).model().templates + sp_game_data_attrs(attrs@) =~= str_views(
                out.templates@,
            ) + sp_game_data_attrs(attrs@.skip(i as int + 1)));
        }
        i = i + 1;
    }
    proof {
        assert(attrs@.skip(n as int) =~= Seq::<AttrNode>::empty());
        assert(sp_game_data_attrs(attrs@.skip(n as int)) =~= Seq::<Seq<char>>::empty());
        assert(str_views(out.templates@) =~= old(out).model().templates + sp_game_data_attrs(
            attrs@,
        ));
        assert(out.model() =~= (WikiEntryV {
            templates: old(out).model().templates + sp_game_data_attrs(attrs@),
            ..old(out).model()
        }));
    }
}

/// Collect the raw sources of save/config templates among the given pieces.
fn collect_game_data_pieces(pieces: &Vec<Piece>, templates: &mut Vec<String>)
    ensures
        str_views(final(templates)@) == str_views(old(templates)@) + sp_game_data_pieces(pieces@),
{
    let n = pieces.len();
    let mut i: usize = 0;
    proof {
        assert(pieces@.skip(0) =~= pieces@);
        assert(str_views(templates@) + sp_game_data_pieces(pieces@) =~= str_views(old(templates)@)
            + sp_game_data_pieces(pieces@.skip(0)));
    }
    while i < n
        invariant
            n == pieces@.len(),
            i <= n,
            str_views(old(templates)@) + sp_game_data_pieces(pieces@) =~= str_views(templates@)
                + sp_game_data_pieces(pieces@.skip(i as int)),
        decreases n - i,
    {
        let ghost rest = pieces@.skip(i as int);
        let ghost before = templates@;
        proof {
            assert(rest[0] == pieces@[i as int]);
            assert(rest.drop_first() =~= pieces@.skip(i as int + 1));
        }
        let piece = &pieces[i];
        match piece {
            Piece::Template(sub) => {
                let tag_chars = str_chars(sub.tag.as_str());
                let lt = lower_vec(&tag_chars);
                let is_save = chars_eq(&lt, &str_chars("game data/saves"));
                let is_config = chars_eq(&lt, &str_chars("game data/config"));
                let mut skip_it = !(is_save || is_config);
                if !skip_it && sub.attributes.len() > 1 {
                    if sub.attributes[1].text.as_str().unicode_len() == 0 {
                        skip_it = true;
                    }
                }
                if !skip_it {
                    templates.push(sub.source.clone());
                    proof {
                        assert(str_views(templates@) =~= str_views(before).push(sub.source@));
                        assert(sp_game_data_pieces(rest) =~= seq![sub.source@]
                            + sp_game_data_pieces(rest.drop_first()));
                        assert(str_views(old(templates)@) + sp_game_data_pieces(pieces@)
                            =~= str_views(templates@) + sp_game_data_pieces(
                            pieces@.skip(i as int + 1),
                        ));
                    }
                } else {
                    proof {
                        assert(sp_game_data_pieces(rest) =~= sp_game_data_pieces(
                            rest.drop_first(),
                        ));
                    }
                }
            },
            _ => {
                proof {
                    assert(sp_game_data_pieces(rest) =~= sp_game_data_pieces(rest.drop_first()));
                }
            },
        }
        i = i + 1;
    }
    proof {
        assert(pieces@.skip(n as int) =~= Seq::<Piece>::empty());
        assert(sp_game_data_pieces(pieces@.skip(n as int)) =~= Seq::<Seq<char>>::empty());
        assert(str_views(templates@) =~= str_views(old(templates)@) + sp_game_data_pieces(pieces@));
    }
}

/// Primary storefront identifiers claimed across all live entries.
pub struct PrimaryIds {
    pub steam: DedupSet<u32>,
    pub gog: DedupSet<u64>,
}

/// The per-article cache, keyed by article title.
#[derive(Debug)]
pub struct WikiCache(pub StringMap<WikiCacheEntry>);

impl WikiCache {
    pub open spec fn wf(&self) -> bool {
        &&& self.0.wf()
        &&& forall|i: int|
            0 <= i < self.0.entries().len() ==> (#[trigger] self.0.entries()[i]).1.wf()
    }

    pub fn new() -> (r: Self)
        ensures
            r.wf(),
            r.0@ == Map::<Seq<char>, WikiCacheEntry>::empty(),
            r.0.entries().len() == 0,
    {
        WikiCache(StringMap::new())
    }

    /// Every entry's value is well formed, also seen through the map.
    pub proof fn lemma_value_wf(&self, k: Seq<char>)
        requires
            self.wf(),
            self.0@.contains_key(k),
        ensures
            self.0@[k].wf(),
    {
        self.0.lemma_key_has_entry(k);
        let i = choose|i: int|
            0 <= i < self.0.entries().len() && #[trigger] self.0.entries()[i].0@ == k;
        self.0.lemma_entry_in_map(i);
    }

    /// The primary identifiers of all entries: an identifier is in the result
    /// exactly when some entry claims it as its primary one.
    pub fn primary_ids(&self) -> (r: PrimaryIds)
        requires
            self.wf(),
        ensures
            r.steam.wf(),
            r.gog.wf(),
            forall|id: u32|
                r.steam@.contains(id) <==> exists|i: int|
                    0 <= i < self.0.entries().len() && (#[trigger] self.0.entries()[i]).1.steam
                        == Some(id),
            forall|id: u64|
                r.gog@.contains(id) <==> exists|i: int|
                    0 <= i < self.0.entries().len() && (#[trigger] self.0.entries()[i]).1.gog
                        == Some(id),
    {
        let mut steam: DedupSet<u32> = DedupSet::new();
        let mut gog: DedupSet<u64> = DedupSet::new();
        let n = self.0.len();
        for i in 0..n
            invariant
                n == self.0.entries().len(),
                steam.wf(),
                gog.wf(),
                forall|id: u32|
                    steam@.contains(id) <==> exists|j: int|
                        0 <= j < i && (#[trigger] self.0.entries()[j]).1.steam == Some(id),
                forall|id: u64|
                    gog@.contains(id) <==> exists|j: int|
                        0 <= j < i && (#[trigger] self.0.entries()[j]).1.gog == Some(id),
        {
            let (_, entry) = self.0.entry_at(i);
            if let Some(id) = entry.steam {
                steam.insert(id);
            }
            if let Some(id) = entry.gog {
                gog.insert(id);
            }
            proof {
                assert forall|id: u32| steam@.contains(id) implies exists|j: int|
                    0 <= j < i + 1 && (#[trigger] self.0.entries()[j]).1.steam == Some(id) by {
                    if self.0.entries()[i as int].1.steam == Some(id) {
                        assert(0 <= i < i + 1 && self.0.entries()[i as int].1.steam == Some(id));
                    }
                }
                assert forall|id: u64| gog@.contains(id) implies exists|j: int|
                    0 <= j < i + 1 && (#[trigger] self.0.entries()[j]).1.gog == Some(id) by {
                    if self.0.entries()[i as int].1.gog == Some(id) {
                        assert(0 <= i < i + 1 && self.0.entries()[i as int].1.gog == Some(id));
                    }
                }
            }
        }
        PrimaryIds { steam, gog }
    }

    /// Position of the first entry claiming a page identifier, if any.
    fn find_page_id(&self, page_id: u64) -> (r: Option<usize>)
        ensures
            match r {
                Some(j) => j < self.0.entries().len() && self.0.entries()[j as int].1.page_id
                    == page_id && forall|k: int|
                    0 <= k < j ==> (#[trigger] self.0.entries()[k]).1.page_id != page_id,
                None => forall|k: int|
                    0 <= k < self.0.entries().len() ==> (#[trigger] self.0.entries()[k]).1.page_id
                        != page_id,
            },
    {
        let n = self.0.len();
        for j in 0..n
            invariant
                n == self.0.entries().len(),
                forall|k: int| 0 <= k < j ==> (#[trigger] self.0.entries()[k]).1.page_id != page_id,
        {
            let (_, entry) = self.0.entry_at(j);
            if entry.page_id == page_id {
                return Some(j);
            }
        }
        None
    }

    /// React to one recent-change listing for an article that is not a
    /// redirect stub. A cached title is marked outdated; a new title claiming
    /// a cached page identifier relocates that entry under the new title,
    /// appending the old title to its rename history; otherwise nothing
    /// changes and the caller must ask whether the title is a game article
    /// (and, if so, call [`WikiCache::add_new_game`]).
    #[verifier::rlimit(100)]
    #[verifier::spinoff_prover]
    pub fn flag_recent_change(&mut self, title: &String, page_id: u64) -> (needs_check: bool)
        requires
            old(self).wf(),
        ensures
            final(self).wf(),
            old(self).0@.contains_key(title@) ==> {
                &&& !needs_check
                &&& final(self).0@.contains_key(title@)
                &&& final(self).0@[title@].model() == (WikiEntryV {
                    state: State::Outdated,
                    ..old(self).0@[title@].model()
                })
                &&& forall|k: Seq<char>|
                    k != title@ ==> (#[trigger] final(self).0@.contains_key(k) <==> old(self).0@.contains_key(k)) && (old(self).0@.contains_key(k) ==> final(self).0@[k]
                        == old(self).0@[k])
            },
            !old(self).0@.contains_key(title@) ==> {
                if exists|j: int|
                    0 <= j < old(self).0.entries().len() && (#[trigger] old(self).0.entries()[j]).1.page_id == page_id {
                    let j = choose|j: int|
                        0 <= j < old(self).0.entries().len() && (#[trigger] old(self).0.entries()[j]).1.page_id == page_id && forall|k: int|
                            0 <= k < j ==> (#[trigger] old(self).0.entries()[k]).1.page_id
                                != page_id;
                    let old_name = old(self).0.entries()[j].0@;
                    let old_model = old(self).0.entries()[j].1.model();
                    &&& !needs_check
                    &&& !final(self).0@.contains_key(old_name)
                    &&& final(self).0@.contains_key(title@)
                    &&& final(self).0@[title@].model() == (WikiEntryV {
                        state: State::Outdated,
                        page_id,
                        renamed_from: old_model.renamed_from.push(old_name),
                        ..old_model
                    })
                    &&& forall|k: Seq<char>|
                        k != title@ && k != old_name ==> (#[trigger] final(self).0@.contains_key(k) <==> old(self).0@.contains_key(k)) && (old(self).0@.contains_key(k) ==> final(self).0@[k] == old(self).0@[k])
                } else {
                    needs_check && final(self).0@ == old(self).0@
                }
            },
    {
        if let Some(i) = self.0.index_of(title) {
            let (_, entry) = self.0.entry_at(i);
            let mut updated = entry.duplicate();
            updated.state = State::Outdated;
            proof {
                self.0.lemma_entry_in_map(i as int);
            }
            self.0.set_value_at(i, updated);
            proof {
                assert(final(self).0@ =~= old(self).0@.insert(title@, updated));
                assert forall|k: Seq<char>| k != title@ implies (#[trigger] final(self).0@.contains_key(k) <==> old(self).0@.contains_key(k)) && (old(self).0@.contains_key(k) ==> final(self).0@[k] == old(self).0@[k]) by {}
            }
            return false;
        }
        match self.find_page_id(page_id) {
            Some(j) => {
                let (old_name_ref, entry) = self.0.entry_at(j);
                let old_name = old_name_ref.clone();
                let mut moved = entry.duplicate();
                moved.page_id = page_id;
                moved.state = State::Outdated;
                moved.renamed_from.push(old_name.clone());
                proof {
                    self.0.lemma_entry_in_map(j as int);
                    assert(str_views(moved.renamed_from@) =~= old(self).0.entries()[j as int].1.model().renamed_from.push(
                        old(self).0.entries()[j as int].0@,
                    ));
                }
                self.0.remove(&old_name);
                self.0.insert(title.clone(), moved);
                proof {
                    let jj = choose|jj: int|
                        0 <= jj < old(self).0.entries().len() && (#[trigger] old(self).0.entries()[jj]).1.page_id == page_id && forall|k: int|
                            0 <= k < jj ==> (#[trigger] old(self).0.entries()[k]).1.page_id
                                != page_id;
                    assert(jj == j as int);
                }
                false
            },
            None => true,
        }
    }

    /// Insert a brand-new article known to be a game, marked for fetching.
    pub fn add_new_game(&mut self, title: &String, page_id: u64)
        requires
            old(self).wf(),
        ensures
            final(self).wf(),
            final(self).0@.contains_key(title@),
            final(self).0@[title@].model() == (WikiEntryV {
                state: State::Outdated,
                page_id,
                ..blank_entry()
            }),
            forall|k: Seq<char>|
                k != title@ ==> (#[trigger] final(self).0@.contains_key(k) <==> old(self).0@.contains_key(k)) && (old(self).0@.contains_key(k) ==> final(self).0@[k] == old(self).0@[k]),
    {
        let mut entry = WikiCacheEntry::new();
        entry.state = State::Outdated;
        entry.page_id = page_id;
        self.0.insert(title.clone(), entry);
    }

    /// React to one listing of the games category: a cached title changes
    /// nothing; a new title claiming a cached page identifier relocates that
    /// entry (appending the old title to its rename history unless already
    /// recorded); otherwise a fresh entry is inserted, marked for fetching.
    #[verifier::rlimit(100)]
    #[verifier::spinoff_prover]
    pub fn add_category_member(&mut self, title: &String, page_id: u64)
        requires
            old(self).wf(),
        ensures
            final(self).wf(),
            old(self).0@.contains_key(title@) ==> final(self).0@ == old(self).0@,
            !old(self).0@.contains_key(title@) ==> final(self).0@.contains_key(title@) && final(self).0@[title@].state == State::Outdated && final(self).0@[title@].page_id == page_id,
            !old(self).0@.contains_key(title@) ==> {
                if exists|j: int|
                    0 <= j < old(self).0.entries().len() && (#[trigger] old(self).0.entries()[j]).1.page_id == page_id {
                    let j = choose|j: int|
                        0 <= j < old(self).0.entries().len() && (#[trigger] old(self).0.entries()[j]).1.page_id == page_id && forall|k: int|
                            0 <= k < j ==> (#[trigger] old(self).0.entries()[k]).1.page_id
                                != page_id;
                    let old_name = old(self).0.entries()[j].0@;
                    let old_model = old(self).0.entries()[j].1.model();
                    &&& !final(self).0@.contains_key(old_name)
                    &&& final(self).0@[title@].model() == (WikiEntryV {
                        state: State::Outdated,
                        renamed_from: if old_model.renamed_from.contains(old_name) {
                            old_model.renamed_from
                        } else {
                            old_model.renamed_from.push(old_name)
                        },
                        ..old_model
                    })
                    &&& forall|k: Seq<char>|
                        k != title@ && k != old_name ==> (#[trigger] final(self).0@.contains_key(k)
                            <==> old(self).0@.contains_key(k)) && (old(self).0@.contains_key(k)
                            ==> final(self).0@[k] == old(self).0@[k])
                } else {
                    &&& final(self).0@[title@].model() == (WikiEntryV {
                        state: State::Outdated,
                        page_id,
                        ..blank_entry()
                    })
                    &&& forall|k: Seq<char>|
                        k != title@ ==> (#[trigger] final(self).0@.contains_key(k) <==> old(self).0@.contains_key(k)) && (old(self).0@.contains_key(k) ==> final(self).0@[k]
                            == old(self).0@[k])
                }
            },
    {
        if self.0.contains_key(title) {
            return ;
        }
        match self.find_page_id(page_id) {
            Some(j) => {
                let (old_name_ref, entry) = self.0.entry_at(j);
                let old_name = old_name_ref.clone();
                let mut moved = entry.duplicate();
                moved.state = State::Outdated;
                let mut already = false;
                let rn = moved.renamed_from.len();
                for k in 0..rn
                    invariant
                        rn == moved.renamed_from@.len(),
                        already == exists|x: int|
                            0 <= x < k && (#[trigger] moved.renamed_from@[x])@ == old_name@,
                {
                    if moved.renamed_from[k] == old_name {
                        already = true;
                    }
                }
                let ghost old_model = old(self).0.entries()[j as int].1.model();
                proof {
                    assert(str_views(moved.renamed_from@) =~= old_model.renamed_from);
                    if already {
                        assert(old_model.renamed_from.contains(old_name@)) by {
                            let x = choose|x: int|
                                0 <= x < moved.renamed_from@.len() && (
                                #[trigger] moved.renamed_from@[x])@ == old_name@;
                            assert(old_model.renamed_from[x] == old_name@);
                        }
                    } else {
                        if old_model.renamed_from.contains(old_name@) {
                            let x = choose|x: int|
                                0 <= x < old_model.renamed_from.len()
                                    && old_model.renamed_from[x] == old_name@;
                            assert(moved.renamed_from@[x]@ == old_name@);
                            assert(false);
                        }
                    }
                }
                if !already {
                    let ghost prev = moved.renamed_from@;
                    moved.renamed_from.push(old_name.clone());
                    proof {
                        lemma_str_views_push(prev, old_name);
                    }
                }
                proof {
                    self.0.lemma_entry_in_map(j as int);
                    assert(moved.model() == (WikiEntryV {
                        state: State::Outdated,
                        renamed_from: if old_model.renamed_from.contains(old_name@) {
                            old_model.renamed_from
                        } else {
                            old_model.renamed_from.push(old_name@)
                        },
                        ..old_model
                    }));
                }
                self.0.insert(title.clone(), moved);
                self.0.remove(&old_name);
                proof {
                    assert(old_name@ != title@);
                    let jj = choose|jj: int|
                        0 <= jj < old(self).0.entries().len() && (#[trigger] old(self).0.entries()[jj]).1.page_id == page_id && forall|k: int|
                            0 <= k < jj ==> (#[trigger] old(self).0.entries()[k]).1.page_id
                                != page_id;
                    assert(jj == j as int);
                }
            },
            None => {
                let mut entry = WikiCacheEntry::new();
                entry.state = State::Outdated;
                entry.page_id = page_id;
                self.0.insert(title.clone(), entry);
            },
        }
    }

    /// Drop an entry whose article no longer exists or is no longer a game.
    pub fn remove_entry(&mut self, title: &String)
        requires
            old(self).wf(),
        ensures
            final(self).wf(),
            final(self).0@ == old(self).0@.remove(title@),
    {
        self.0.remove(title);
    }

    /// Store a freshly fetched record for an article that did not redirect:
    /// the fetched record keeps the cached rename history.
    pub fn apply_fetched(&mut self, title: &String, latest: WikiCacheEntry)
        requires
            old(self).wf(),
            latest.wf(),
        ensures
            final(self).wf(),
            final(self).0@.contains_key(title@),
            final(self).0@[title@].model() == (WikiEntryV {
                renamed_from: if old(self).0@.contains_key(title@) {
                    old(self).0@[title@].model().renamed_from
                } else {
                    Seq::empty()
                },
                ..latest.model()
            }),
            forall|k: Seq<char>|
                k != title@ ==> (#[trigger] final(self).0@.contains_key(k) <==> old(self).0@.contains_key(k)) && (old(self).0@.contains_key(k) ==> final(self).0@[k] == old(self).0@[k]),
    {
        let mut latest = latest;
        match self.0.index_of(title) {
            Some(i) => {
                let (_, cached) = self.0.entry_at(i);
                latest.renamed_from = clone_vec_string(&cached.renamed_from);
                proof {
                    self.0.lemma_entry_in_map(i as int);
                    assert(str_views(latest.renamed_from@) =~= old(self).0@[title@].model().renamed_from);
                }
            },
            None => {
                latest.renamed_from = Vec::new();
                proof {
                    assert(str_views(latest.renamed_from@) =~= Seq::<Seq<char>>::empty());
                }
            },
        }
        self.0.insert(title.clone(), latest);
    }

    /// Store a freshly fetched record for an article that was found under a
    /// new title (a redirect, or a rename resolved by page identifier). The
    /// stored record accumulates the old title's history, any history already
    /// cached at the destination, and finally the old title itself; the old
    /// title's entry is dropped.
    pub fn apply_relocated(&mut self, old_title: &String, new_title: &String, latest: WikiCacheEntry)
        requires
            old(self).wf(),
            latest.wf(),
        ensures
            final(self).wf(),
            new_title@ != old_title@ ==> {
                &&& final(self).0@.contains_key(new_title@)
                &&& !final(self).0@.contains_key(old_title@)
                &&& final(self).0@[new_title@].model() == (WikiEntryV {
                    renamed_from: (if old(self).0@.contains_key(old_title@) {
                        old(self).0@[old_title@].model().renamed_from
                    } else {
                        Seq::empty()
                    }) + (if old(self).0@.contains_key(new_title@) {
                        old(self).0@[new_title@].model().renamed_from
                    } else {
                        Seq::empty()
                    }) + seq![old_title@],
                    ..latest.model()
                })
                &&& forall|k: Seq<char>|
                    k != new_title@ && k != old_title@ ==> (#[trigger] final(self).0@.contains_key(k) <==> old(self).0@.contains_key(k)) && (old(self).0@.contains_key(k) ==> final(self).0@[k] == old(self).0@[k])
            },
    {
        let mut latest = latest;
        let mut renames: Vec<String> = Vec::new();
        let ghost mut from_old: Seq<Seq<char>> = Seq::empty();
        match self.0.index_of(old_title) {
            Some(i) => {
                let (_, cached) = self.0.entry_at(i);
                renames = clone_vec_string(&cached.renamed_from);
                proof {
                    self.0.lemma_entry_in_map(i as int);
                    from_old = old(self).0@[old_title@].model().renamed_from;
                    assert(str_views(renames@) =~= from_old);
                }
            },
            None => {},
        }
        let ghost mut from_new: Seq<Seq<char>> = Seq::empty();
        match self.0.index_of(new_title) {
            Some(i) => {
                let (_, dest) = self.0.entry_at(i);
                let mut extra = clone_vec_string(&dest.renamed_from);
                proof {
                    self.0.lemma_entry_in_map(i as int);
                    from_new = old(self).0@[new_title@].model().renamed_from;
                }
                let en = extra.len();
                let ghost renames0 = str_views(renames@);
                let mut k: usize = 0;
                while k < en
                    invariant
                        en == extra@.len(),
                        k <= en,
                        str_views(extra@) == from_new,
                        str_views(renames@) =~= renames0 + from_new.take(k as int),
                    decreases en - k,
                {
                    let ghost prev = renames@;
                    renames.push(extra[k].clone());
                    proof {
                        lemma_str_views_push(prev, extra@[k as int]);
                        assert(str_views(extra@)[k as int] == extra@[k as int]@);
                        assert(from_new.take(k as int + 1) =~= from_new.take(k as int).push(
                            from_new[k as int],
                        ));
                        assert(str_views(renames@) =~= renames0 + from_new.take(k as int + 1));
                    }
                    k = k + 1;
                }
                proof {
                    assert(from_new.take(en as int) =~= from_new);
                }
            },
            None => {},
        }
        renames.push(old_title.clone());
        latest.renamed_from = renames;
        proof {
            assert(str_views(latest.renamed_from@) =~= from_old + from_new + seq![old_title@]);
        }
        self.0.insert(new_title.clone(), latest);
        self.0.remove(old_title);
    }
}

/// The path candidates one save/config template node yields: one per path
/// attribute, each flattened, stamped with the leading platform label and the
/// template's tags, and normalized.
pub open spec fn sp_template_paths(tn: TemplateNode) -> Seq<WikiPathV> {
    let is_save = tn.tag@ == "Game data/saves"@;
    let is_config = tn.tag@ == "Game data/config"@;
    if (!is_save && !is_config) || tn.attributes@.len() < 2 {
        Seq::empty()
    } else {
        Seq::new(
            (tn.attributes@.len() - 1) as nat,
            |k: int|
                sp_wiki_normalize(
                    sp_with_tags(
                        sp_with_platform(
                            sp_flatten_attr(tn.attributes@[k + 1]),
                            tn.attributes@[0].text@,
                        ),
                        is_save,
                        is_config,
                    ),
                ),
        )
    }
}

/// All candidates among a parsed template list.
pub open spec fn sp_pieces_paths(pieces: Seq<Piece>) -> Seq<WikiPathV>
    decreases pieces.len(),
{
    if pieces.len() == 0 {
        Seq::empty()
    } else {
        let head: Seq<WikiPathV> = match pieces[0] {
            Piece::Template(tn) => sp_template_paths(tn),
            _ => Seq::empty(),
        };
        head + sp_pieces_paths(pieces.drop_first())
    }
}

/// All candidates an entry's raw templates yield under a given article name.
pub open spec fn sp_all_paths(templates: Seq<Seq<char>>, article: Seq<char>) -> Seq<WikiPathV>
    decreases templates.len(),
{
    if templates.len() == 0 {
        Seq::empty()
    } else {
        sp_all_paths(templates.drop_last(), article) + sp_pieces_paths(
            parsed_templates(sp_preprocess(templates.last()), article).0,
        )
    }
}

/// The candidates worth keeping, in order.
pub open spec fn sp_usable_paths(ps: Seq<WikiPathV>) -> Seq<WikiPathV>
    decreases ps.len(),
{
    if ps.len() == 0 {
        Seq::empty()
    } else {
        let rest = sp_usable_paths(ps.drop_last());
        if sp_wiki_usable(ps.last()) {
            rest.push(ps.last())
        } else {
            rest
        }
    }
}

/// Models of a candidate vector.
pub open spec fn path_models(v: Seq<WikiPath>) -> Seq<WikiPathV> {
    Seq::new(v.len(), |i: int| v[i].model())
}

impl WikiCacheEntry {
    /// All path candidates of this entry, including unusable ones.
    fn parse_all_paths(&self, article: &String) -> (r: Vec<WikiPath>)
        ensures
            path_models(r@) == sp_all_paths(self.model().templates, article@),
            forall|i: int| 0 <= i < r@.len() ==> (#[trigger] r@[i]).wf(),
    {
        let mut out: Vec<WikiPath> = Vec::new();
        let tn_count = self.templates.len();
        proof {
            assert(str_views(self.templates@).take(0) =~= Seq::<Seq<char>>::empty());
            assert(path_models(out@) =~= sp_all_paths(
                str_views(self.templates@).take(0),
                article@,
            ));
        }
        for ti in 0..tn_count
            invariant
                tn_count == self.templates@.len(),
                path_models(out@) == sp_all_paths(
                    str_views(self.templates@).take(ti as int),
                    article@,
                ),
                forall|i: int| 0 <= i < out@.len() ==> (#[trigger] out@[i]).wf(),
        {
            let prepared = preprocess_text(self.templates[ti].as_str());
            let (pieces, _) = parse_wikitext_templates(prepared.as_str(), article.as_str());
            let ghost base = path_models(out@);
            proof {
                assert(pieces@.skip(0) =~= pieces@);
                assert(base + sp_pieces_paths(pieces@.skip(0)) =~= base + sp_pieces_paths(pieces@));
            }
            let pn = pieces.len();
            let mut pi: usize = 0;
            while pi < pn
                invariant
                    pn == pieces@.len(),
                    pi <= pn,
                    forall|i: int| 0 <= i < out@.len() ==> (#[trigger] out@[i]).wf(),
                    path_models(out@) + sp_pieces_paths(pieces@.skip(pi as int)) =~= base
                        + sp_pieces_paths(pieces@),
                decreases pn - pi,
            {
                let ghost rest = pieces@.skip(pi as int);
                proof {
                    assert(rest[0] == pieces@[pi as int]);
                    assert(rest.drop_first() =~= pieces@.skip(pi as int + 1));
                }
                let piece = &pieces[pi];
                match piece {
                    Piece::Template(tn) => {
                        let tag_chars = str_chars(tn.tag.as_str());
                        let is_save = chars_eq(&tag_chars, &str_chars("Game data/saves"));
                        let is_config = chars_eq(&tag_chars, &str_chars("Game data/config"));
                        if (is_save || is_config) && tn.attributes.len() >= 2 {
                            let platform = &tn.attributes[0].text;
                            let an = tn.attributes.len();
                            let ghost mid = path_models(out@);
                            let mut k: usize = 1;
                            while k < an
                                invariant
                                    an == tn.attributes@.len(),
                                    an >= 2,
                                    1 <= k <= an,
                                    is_save == (tn.tag@ == "Game data/saves"@),
                                    is_config == (tn.tag@ == "Game data/config"@),
                                    is_save || is_config,
                                    platform == tn.attributes@[0].text,
                                    forall|i: int|
                                        0 <= i < out@.len() ==> (#[trigger] out@[i]).wf(),
                                    path_models(out@) =~= mid + sp_template_paths(*tn).take(
                                        k - 1,
                                    ),
                                decreases an - k,
                            {
                                let flat = flatten_path(&tn.attributes[k]);
                                let stamped = flat.with_platform(platform.as_str()).with_tags(
                                    is_save,
                                    is_config,
                                ).normalize();
                                out.push(stamped);
                                proof {
                                    let tp = sp_template_paths(*tn);
                                    assert(tp[k - 1] == stamped.model());
                                    assert(path_models(out@) =~= (mid + tp.take(k - 1)).push(
                                        stamped.model(),
                                    ));
                                    assert(tp.take(k as int) =~= tp.take(k - 1).push(tp[k - 1]));
                                    assert(path_models(out@) =~= mid + tp.take(k as int));
                                }
                                k = k + 1;
                            }
                            proof {
                                assert(sp_template_paths(*tn).take(an - 1) =~= sp_template_paths(
                                    *tn,
                                ));
                                assert(sp_pieces_paths(rest) =~= sp_template_paths(*tn)
                                    + sp_pieces_paths(rest.drop_first()));
                                assert(path_models(out@) + sp_pieces_paths(
                                    pieces@.skip(pi as int + 1),
                                ) =~= base + sp_pieces_paths(pieces@));
                            }
                        } else {
                            proof {
                                assert(sp_template_paths(*tn) =~= Seq::<WikiPathV>::empty());
                                assert(sp_pieces_paths(rest) =~= sp_pieces_paths(
                                    rest.drop_first(),
                                ));
                            }
                        }
                    },
                    _ => {
                        proof {
                            assert(sp_pieces_paths(rest) =~= sp_pieces_paths(rest.drop_first()));
                        }
                    },
                }
                pi = pi + 1;
            }
            proof {
                assert(pieces@.skip(pn as int) =~= Seq::<Piece>::empty());
                assert(sp_pieces_paths(pieces@.skip(pn as int)) =~= Seq::<WikiPathV>::empty());
                assert(path_models(out@) =~= base + sp_pieces_paths(pieces@));
                assert(str_views(self.templates@).take(ti + 1).drop_last() =~= str_views(
                    self.templates@,
                ).take(ti as int));
                assert(str_views(self.templates@).take(ti + 1).last() == self.templates@[ti as int]@);
                assert(prepared@ == sp_preprocess(self.templates@[ti as int]@));
                assert(path_models(out@) =~= sp_all_paths(
                    str_views(self.templates@).take(ti + 1),
                    article@,
                ));
            }
        }
        proof {
            assert(str_views(self.templates@).take(tn_count as int) =~= str_views(self.templates@));
            assert(self.model().templates == str_views(self.templates@));
        }
        out
    }

    /// The usable path candidates of this entry: flattened, stamped,
    /// normalized, and filtered to those worth keeping.
    pub fn parse_paths(&self, article: String) -> (r: Vec<WikiPath>)
        ensures
            path_models(r@) == sp_usable_paths(sp_all_paths(self.model().templates, article@)),
            forall|i: int| 0 <= i < r@.len() ==> (#[trigger] r@[i]).wf(),
            forall|i: int| 0 <= i < r@.len() ==> sp_wiki_usable((#[trigger] r@[i]).model()),
    {
        let all = self.parse_all_paths(&article);
        let ghost allv = path_models(all@);
        let mut out: Vec<WikiPath> = Vec::new();
        let n = all.len();
        let mut i: usize = 0;
        proof {
            assert(allv.take(0) =~= Seq::<WikiPathV>::empty());
            assert(path_models(out@) =~= sp_usable_paths(allv.take(0)));
        }
        let mut all = all;
        let ghost all0 = all@;
        while i < n
            invariant
                n == all0.len(),
                all@ =~= all0.skip(i as int),
                allv == path_models(all0),
                i <= n,
                forall|j: int| 0 <= j < all@.len() ==> (#[trigger] all@[j]).wf(),
                forall|j: int| 0 <= j < out@.len() ==> (#[trigger] out@[j]).wf(),
                forall|j: int|
                    0 <= j < out@.len() ==> sp_wiki_usable((#[trigger] out@[j]).model()),
                path_models(out@) =~= sp_usable_paths(allv.take(i as int)),
            decreases n - i,
        {
            let p = all.remove(0);
            proof {
                assert(p == all0[i as int]);
                assert(all0.skip(i as int).remove(0) =~= all0.skip(i as int + 1));
                assert(p.model() == allv[i as int]);
                assert(allv.take(i as int + 1).drop_last() =~= allv.take(i as int));
                assert(allv.take(i as int + 1).last() == allv[i as int]);
            }
            if p.usable() {
                out.push(p);
                proof {
                    assert(path_models(out@) =~= sp_usable_paths(allv.take(i as int + 1)));
                }
            } else {
                proof {
                    assert(path_models(out@) =~= sp_usable_paths(allv.take(i as int + 1)));
                }
            }
            i = i + 1;
        }
        proof {
            assert(allv.take(n as int) =~= allv);
        }
        out
    }

    /// Whether any of the entry's candidates, usable or not, is graded below
    /// regular.
    pub fn any_irregular_paths(&self, article: String) -> (r: bool)
        ensures
            r == exists|i: int|
                #![trigger sp_all_paths(self.model().templates, article@)[i]]
                {
                    let ps = sp_all_paths(self.model().templates, article@);
                    0 <= i < ps.len() && (sp_wiki_irregular(ps[i]) || sp_wiki_semiregular(ps[i]))
                },
    {
        let all = self.parse_all_paths(&article);
        let ghost ps = sp_all_paths(self.model().templates, article@);
        let n = all.len();
        for i in 0..n
            invariant
                n == all@.len(),
                path_models(all@) == ps,
                ps == sp_all_paths(self.model().templates, article@),
                forall|j: int|
                    0 <= j < i ==> !(sp_wiki_irregular(#[trigger] ps[j]) || sp_wiki_semiregular(
                        ps[j],
                    )),
        {
            let bad = all[i].irregular() || all[i].semiregular();
            proof {
                assert(path_models(all@)[i as int] == all@[i as int].model());
                assert(all@[i as int].model() == ps[i as int]);
                assert(sp_all_paths(self.model().templates, article@)[i as int] == ps[i as int]);
            }
            if bad {
                proof {
                    assert(sp_wiki_irregular(ps[i as int]) || sp_wiki_semiregular(ps[i as int]));
                }
                return true;
            }
        }
        false
    }
}

/// Combining path candidates never improves regularity: however a child's
/// metadata is incorporated, the merged grade is at least as bad as either
/// side's grade.
pub proof fn lemma_combining_never_improves_regularity(acc: WikiPathV, other: WikiPathV)
    ensures
        sp_inc(acc, other).regularity.rank() >= acc.regularity.rank(),
        sp_inc(acc, other).regularity.rank() >= other.regularity.rank(),
        sp_inc_raw(acc, other).regularity.rank() >= acc.regularity.rank(),
        sp_inc_raw(acc, other).regularity.rank() >= other.regularity.rank(),
        sp_inc_path(acc, other).regularity.rank() >= acc.regularity.rank(),
        sp_inc_path(acc, other).regularity.rank() >= other.regularity.rank(),
{
}

} // verus!
