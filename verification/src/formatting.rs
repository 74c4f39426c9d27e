//! Wiki page paths, line endings and per-user branch names.
use vstd::prelude::*;
use crate::text::{
    chars_of, char_is_control, has_char, is_control, lemma_split_on_step, lemma_split_on_without_sep, push_str, split_on,
    string_of, to_lowercase, trim_chars, trim_end_by, trim_start_by, trim_end_chars,
    trim_start_chars, trim, unicode_lowercase, lemma_trim_start_by_shape, lemma_trim_end_by_shape,
};

verus! {

/// The page shown when no article path is given.
pub const HOME_PAGE: &'static str = "Home";

/// `input` with every `\r\n` and every remaining `\r` replaced by `\n`.
pub open spec fn normalised_newlines(s: Seq<char>) -> Seq<char>
    decreases s.len(),
{
    if s.len() == 0 {
        Seq::<char>::empty()
    } else if s[0] == '\r' && s.len() >= 2 && s[1] == '\n' {
        seq!['\n'] + normalised_newlines(s.skip(2))
    } else if s[0] == '\r' {
        seq!['\n'] + normalised_newlines(s.skip(1))
    } else {
        seq![s[0]] + normalised_newlines(s.skip(1))
    }
}

/// Replaces all occurences of `\r\n` and `\r` with `\n`.
pub fn normalise_newlines(input: &str) -> (r: String)
    ensures
        r@ == normalised_newlines(input@),
{
    let v = chars_of(input);
    let mut out: Vec<char> = Vec::new();
    let mut i: usize = 0;
    assert(v@.skip(0) == v@);
    while i < v.len()
        invariant
            i <= v.len(),
            normalised_newlines(v@) == out@ + normalised_newlines(v@.skip(i as int)),
        decreases v.len() - i,
    {
        let ghost rest = v@.skip(i as int);
        if v[i] == '\r' && i + 1 < v.len() && v[i + 1] == '\n' {
            assert(rest.skip(2) == v@.skip(i + 2));
            out.push('\n');
            i = i + 2;
        } else {
            assert(rest.skip(1) == v@.skip(i + 1));
            if v[i] == '\r' {
                out.push('\n');
            } else {
                out.push(v[i]);
            }
            i = i + 1;
        }
        assert(out@ + normalised_newlines(v@.skip(i as int)) == normalised_newlines(v@));
    }
    assert(v@.skip(i as int) =~= Seq::<char>::empty());
    assert(out@ + Seq::<char>::empty() == out@);
    string_of(&out)
}

/// The error for an article path that cannot name a wiki page.
#[derive(Debug, Clone, Copy, PartialEq, Eq, Structural)]
pub struct InvalidWikiPath;

/// A piece between two `/` of a page path is usable: not empty, `.` or `..`.
pub open spec fn valid_segment(seg: Seq<char>) -> bool {
    seg.len() > 0 && seg != seq!['.'] && seg != seq!['.', '.']
}

/// A character that no page path may contain.
pub open spec fn forbidden_path_char(c: char) -> bool {
    c == '\\' || c == '\0' || is_control(c)
}

/// The rules for a wiki slug: no leading or trailing `/`, no backslash,
/// NUL or control character, and no empty, `.` or `..` segment.
pub open spec fn is_valid_wiki_slug(s: Seq<char>) -> bool {
    &&& !(s.len() > 0 && s[0] == '/')
    &&& !(s.len() > 0 && s.last() == '/')
    &&& forall|k: int| 0 <= k < s.len() ==> !forbidden_path_char(#[trigger] s[k])
    &&& forall|j: int|
        0 <= j < split_on(s, '/').len() ==> valid_segment(#[trigger] split_on(s, '/')[j])
}

fn segment_ok(seg: &Vec<char>) -> (b: bool)
    ensures
        b == valid_segment(seg@),
{
    if seg.len() == 0 {
        false
    } else if seg.len() == 1 && seg[0] == '.' {
        assert(seg@ == seq!['.']);
        false
    } else if seg.len() == 2 && seg[0] == '.' && seg[1] == '.' {
        assert(seg@ == seq!['.', '.']);
        false
    } else {
        assert(seg@ != seq!['.']);
        assert(seg@ != seq!['.', '.']);
        true
    }
}

/// Checks `article_path` against the slug rules.
pub fn validate_wiki_slug(article_path: &str) -> (r: Result<(), InvalidWikiPath>)
    ensures
        r is Ok <==> is_valid_wiki_slug(article_path@),
        r matches Err(e) ==> e == InvalidWikiPath,
{
    let v = chars_of(article_path);
    let mut chars_ok = true;
    let mut segs_ok = true;
    let mut cur: Vec<char> = Vec::new();
    let mut i: usize = 0;
    proof {
        assert(v@.take(0) =~= Seq::<char>::empty());
        reveal_with_fuel(split_on, 2);
    }
    while i < v.len()
        invariant
            i <= v.len(),
            split_on(v@.take(i as int), '/').len() >= 1,
            cur@ == split_on(v@.take(i as int), '/').last(),
            chars_ok == forall|k: int| 0 <= k < i ==> !forbidden_path_char(#[trigger] v@[k]),
            segs_ok == forall|j: int|
                0 <= j < split_on(v@.take(i as int), '/').len() - 1 ==> valid_segment(
                    #[trigger] split_on(v@.take(i as int), '/')[j],
                ),
        decreases v.len() - i,
    {
        let c = v[i];
        proof {
            lemma_split_on_step(v@, '/', i as int);
        }
        let ghost old_segs = split_on(v@.take(i as int), '/');
        let ghost old_segs_ok = segs_ok;
        let ghost old_chars_ok = chars_ok;
        if c == '\\' || c == '\0' || char_is_control(c) {
            chars_ok = false;
        }
        if c == '/' {
            let ok = segment_ok(&cur);
            segs_ok = segs_ok && ok;
            cur = Vec::new();
            proof {
                let new_segs = split_on(v@.take(i + 1), '/');
                assert(new_segs == old_segs.push(Seq::<char>::empty()));
                assert(segs_ok == forall|j: int|
                    0 <= j < new_segs.len() - 1 ==> valid_segment(#[trigger] new_segs[j])) by {
                    if segs_ok {
                        assert forall|j: int| 0 <= j < new_segs.len() - 1 implies valid_segment(
                            #[trigger] new_segs[j],
                        ) by {
                            if j < old_segs.len() - 1 {
                                assert(new_segs[j] == old_segs[j]);
                            }
                        }
                    } else if old_segs_ok {
                        assert(!valid_segment(new_segs[old_segs.len() - 1]));
                    } else {
                        let j = choose|j: int|
                            0 <= j < old_segs.len() - 1 && !valid_segment(#[trigger] old_segs[j]);
                        assert(new_segs[j] == old_segs[j]);
                    }
                }
            }
        } else {
            cur.push(c);
            proof {
                let new_segs = split_on(v@.take(i + 1), '/');
                assert(segs_ok == forall|j: int|
                    0 <= j < new_segs.len() - 1 ==> valid_segment(#[trigger] new_segs[j])) by {
                    if !segs_ok {
                        let j = choose|j: int|
                            0 <= j < old_segs.len() - 1 && !valid_segment(#[trigger] old_segs[j]);
                        assert(new_segs[j] == old_segs[j]);
                    }
                }
            }
        }
        proof {
            assert(chars_ok == forall|k: int|
                0 <= k < i + 1 ==> !forbidden_path_char(#[trigger] v@[k])) by {
                if old_chars_ok && chars_ok {
                } else if !old_chars_ok {
                    let k = choose|k: int| 0 <= k < i && forbidden_path_char(#[trigger] v@[k]);
                }
            }
        }
        i = i + 1;
    }
    let last_ok = segment_ok(&cur);
    proof {
        assert(v@.take(i as int) == v@);
        let segs = split_on(v@, '/');
        if segs_ok && last_ok {
            assert forall|j: int| 0 <= j < segs.len() implies valid_segment(#[trigger] segs[j]) by {
                if j == segs.len() - 1 {
                }
            }
        }
    }
    let starts = v.len() > 0 && v[0] == '/';
    let ends = v.len() > 0 && v[v.len() - 1] == '/';
    if starts || ends || !chars_ok || !segs_ok || !last_ok {
        Err(InvalidWikiPath)
    } else {
        Ok(())
    }
}

/// The slug that `article_path` names: the home page when it is absent or
/// empty, the path itself when it is a valid slug, and an error otherwise.
pub open spec fn article_slug(article_path: Option<Seq<char>>) -> Result<Seq<char>, InvalidWikiPath> {
    match article_path {
        None => Ok(HOME_PAGE@),
        Some(p) => if p.len() == 0 {
            Ok(HOME_PAGE@)
        } else if is_valid_wiki_slug(p) {
            Ok(p)
        } else {
            Err(InvalidWikiPath)
        },
    }
}

pub open spec fn opt_view(o: Option<String>) -> Option<Seq<char>> {
    match o {
        Some(s) => Some(s@),
        None => None,
    }
}

/// Resolves `{article_path}` to a validated wiki slug without the `wiki/` prefix or `.md` suffix.
pub fn resolve_article_slug(article_path: Option<String>) -> (r: Result<String, InvalidWikiPath>)
    ensures
        match (r, article_slug(opt_view(article_path))) {
            (Ok(s), Ok(t)) => s@ == t,
            (Err(e), Err(f)) => e == f,
            _ => false,
        },
{
    match article_path {
        None => Ok(HOME_PAGE.to_owned()),
        Some(article_path) => {
            if article_path.as_str().is_empty() {
                return Ok(HOME_PAGE.to_owned());
            }
            match validate_wiki_slug(article_path.as_str()) {
                Ok(()) => Ok(article_path),
                Err(e) => Err(e),
            }
        },
    }
}

/// The repository file of a page: `wiki/{slug}.md`.
pub open spec fn article_file(slug: Seq<char>) -> Seq<char> {
    "wiki/"@ + slug + ".md"@
}

/// Resolves `{article_path}` to `wiki/{article_path}.md`.
/// Defaults to `Home` when `article_path` is `None` or empty.
pub fn resolve_article_path(article_path: Option<String>) -> (r: Result<String, InvalidWikiPath>)
    ensures
        match (r, article_slug(opt_view(article_path))) {
            (Ok(s), Ok(t)) => s@ == article_file(t),
            (Err(e), Err(f)) => e == f,
            _ => false,
        },
{
    let slug = resolve_article_slug(article_path)?;
    let mut path = "wiki/".to_owned();
    push_str(&mut path, slug.as_str());
    push_str(&mut path, ".md");
    Ok(path)
}

/// ASCII letters and digits.
pub open spec fn is_ascii_alphanumeric(c: char) -> bool {
    ('a' <= c && c <= 'z') || ('A' <= c && c <= 'Z') || ('0' <= c && c <= '9')
}

/// A character kept in a branch name, or `-` in its place.
pub open spec fn branch_char(c: char) -> char {
    if is_ascii_alphanumeric(c) {
        c
    } else {
        '-'
    }
}

/// Every run of consecutive `-` shortened to a single `-`.
pub open spec fn collapse_dashes(s: Seq<char>) -> Seq<char>
    decreases s.len(),
{
    if s.len() == 0 {
        s
    } else {
        let p = collapse_dashes(s.drop_last());
        if s.last() == '-' && p.len() > 0 && p.last() == '-' {
            p
        } else {
            p.push(s.last())
        }
    }
}

/// `-` removed from both ends.
pub open spec fn trim_dashes(s: Seq<char>) -> Seq<char> {
    trim_end_by(trim_start_by(s, |c: char| c == '-'), |c: char| c == '-')
}

/// The branch suffix made from an email: trimmed, lowercased, every
/// character but an ASCII letter or digit turned into `-`, runs of `-`
/// collapsed, and `-` stripped from both ends.
pub open spec fn branch_slug(email: Seq<char>) -> Seq<char> {
    trim_dashes(collapse_dashes(unicode_lowercase(trim(email)).map_values(|c: char| branch_char(c))))
}

/// The branch a page is read from or written to: `user/{slug}` for a user in
/// edit mode whose email gives a non-empty slug, `prime` otherwise.
pub open spec fn branch_name(edit_mode: Option<bool>, email: Option<Seq<char>>) -> Seq<char> {
    if edit_mode == Some(true) {
        match email {
            None => "prime"@,
            Some(e) => if branch_slug(e).len() == 0 {
                "prime"@
            } else {
                "user/"@ + branch_slug(e)
            },
        }
    } else {
        "prime"@
    }
}

pub open spec fn opt_ref_view(o: Option<&String>) -> Option<Seq<char>> {
    match o {
        Some(s) => Some(s@),
        None => None,
    }
}

fn map_branch_chars(v: &Vec<char>) -> (r: Vec<char>)
    ensures
        r@ == v@.map_values(|c: char| branch_char(c)),
{
    let mut r: Vec<char> = Vec::new();
    for i in 0..v.len()
        invariant
            r@ == v@.take(i as int).map_values(|c: char| branch_char(c)),
    {
        let c = v[i];
        let d = if ('a' <= c && c <= 'z') || ('A' <= c && c <= 'Z') || ('0' <= c && c <= '9') {
            c
        } else {
            '-'
        };
        r.push(d);
        assert(v@.take(i + 1).map_values(|c: char| branch_char(c)) == v@.take(i as int).map_values(
            |c: char| branch_char(c),
        ).push(branch_char(c)));
    }
    assert(v@.take(v.len() as int) == v@);
    r
}

fn collapse_dash_runs(v: &Vec<char>) -> (r: Vec<char>)
    ensures
        r@ == collapse_dashes(v@),
{
    let mut r: Vec<char> = Vec::new();
    for i in 0..v.len()
        invariant
            r@ == collapse_dashes(v@.take(i as int)),
    {
        assert(v@.take(i + 1).drop_last() == v@.take(i as int));
        if v[i] == '-' && r.len() > 0 && r[r.len() - 1] == '-' {
        } else {
            r.push(v[i]);
        }
    }
    assert(v@.take(v.len() as int) == v@);
    r
}

/// Resolves branch name based on if user is logged in and in edit mode or not.
/// Defaults to `prime` when `edit_mode` is `None` or false or `email` is None.
pub fn resolve_branch_name(edit_mode: Option<bool>, email: Option<&String>) -> (r: String)
    ensures
        r@ == branch_name(edit_mode, opt_ref_view(email)),
{
    let on = match edit_mode {
        Some(b) => b,
        None => false,
    };
    if on {
        match email {
            None => "prime".to_owned(),
            Some(email) => {
                let trimmed = trim_chars(&chars_of(email.as_str()));
                let lowered = to_lowercase(string_of(&trimmed).as_str());
                let mapped = map_branch_chars(&chars_of(lowered.as_str()));
                let collapsed = collapse_dash_runs(&mapped);
                let stripped = trim_end_chars(&trim_start_chars(&collapsed, true), true);
                if stripped.len() == 0 {
                    "prime".to_owned()
                } else {
                    let mut name = "user/".to_owned();
                    push_str(&mut name, string_of(&stripped).as_str());
                    name
                }
            },
        }
    } else {
        "prime".to_owned()
    }
}

proof fn lemma_normalised_no_cr(s: Seq<char>)
    ensures
        forall|k: int|
            0 <= k < normalised_newlines(s).len() ==> #[trigger] normalised_newlines(s)[k] != '\r',
    decreases s.len(),
{
    if s.len() > 0 {
        let r = normalised_newlines(s);
        if s[0] == '\r' && s.len() >= 2 && s[1] == '\n' {
            lemma_normalised_no_cr(s.skip(2));
            assert forall|k: int| 0 <= k < r.len() implies #[trigger] r[k] != '\r' by {
                if k > 0 {
                    assert(r[k] == normalised_newlines(s.skip(2))[k - 1]);
                }
            }
        } else {
            lemma_normalised_no_cr(s.skip(1));
            assert forall|k: int| 0 <= k < r.len() implies #[trigger] r[k] != '\r' by {
                if k > 0 {
                    assert(r[k] == normalised_newlines(s.skip(1))[k - 1]);
                }
            }
        }
    }
}

proof fn lemma_normalised_fixed(s: Seq<char>)
    requires
        forall|k: int| 0 <= k < s.len() ==> #[trigger] s[k] != '\r',
    ensures
        normalised_newlines(s) == s,
    decreases s.len(),
{
    if s.len() > 0 {
        lemma_normalised_fixed(s.skip(1));
        assert(seq![s[0]] + s.skip(1) == s);
    }
}

/// Normalised text holds no carriage return, text without one is left as it
/// is, and normalising twice gives what normalising once gives.
pub proof fn law_normalise_newlines(s: Seq<char>)
    ensures
        !has_char(normalised_newlines(s), '\r'),
        !has_char(s, '\r') ==> normalised_newlines(s) == s,
        normalised_newlines(normalised_newlines(s)) == normalised_newlines(s),
{
    lemma_normalised_no_cr(s);
    lemma_normalised_fixed(normalised_newlines(s));
    if !has_char(s, '\r') {
        assert forall|k: int| 0 <= k < s.len() implies #[trigger] s[k] != '\r' by {}
        lemma_normalised_fixed(s);
    }
}

/// A character that may appear in a branch suffix.
pub open spec fn branch_suffix_char(c: char) -> bool {
    is_ascii_alphanumeric(c) || c == '-'
}

/// Shape of a branch suffix: non-empty, ASCII letters, digits and `-` only,
/// no `--`, and no `-` at either end.
pub open spec fn well_formed_branch_suffix(b: Seq<char>) -> bool {
    &&& b.len() > 0
    &&& forall|k: int| 0 <= k < b.len() ==> branch_suffix_char(#[trigger] b[k])
    &&& forall|k: int| 0 <= k < b.len() - 1 ==> !(#[trigger] b[k] == '-' && b[k + 1] == '-')
    &&& b[0] != '-'
    &&& b.last() != '-'
}

proof fn lemma_collapse_shape(s: Seq<char>)
    requires
        forall|k: int| 0 <= k < s.len() ==> branch_suffix_char(#[trigger] s[k]),
    ensures
        forall|k: int|
            0 <= k < collapse_dashes(s).len() ==> branch_suffix_char(#[trigger] collapse_dashes(s)[k]),
        forall|k: int|
            0 <= k < collapse_dashes(s).len() - 1 ==> !(#[trigger] collapse_dashes(s)[k] == '-'
                && collapse_dashes(s)[k + 1] == '-'),
    decreases s.len(),
{
    if s.len() > 0 {
        lemma_collapse_shape(s.drop_last());
        let p = collapse_dashes(s.drop_last());
        if s.last() == '-' && p.len() > 0 && p.last() == '-' {
        } else {
            let r = p.push(s.last());
            assert forall|k: int| 0 <= k < r.len() - 1 implies !(#[trigger] r[k] == '-' && r[k + 1]
                == '-') by {
                if k < p.len() - 1 {
                    assert(r[k] == p[k] && r[k + 1] == p[k + 1]);
                }
            }
        }
    }
}

/// A branch name is `prime`, or `user/` followed by a well-formed suffix; it
/// is `prime` unless edit mode is on.
pub proof fn law_branch_name_shape(edit_mode: Option<bool>, email: Option<Seq<char>>)
    ensures
        branch_name(edit_mode, email) == "prime"@ || exists|b: Seq<char>|
            well_formed_branch_suffix(b) && branch_name(edit_mode, email) == "user/"@ + b,
        edit_mode != Some(true) ==> branch_name(edit_mode, email) == "prime"@,
{
    if edit_mode == Some(true) {
        if let Some(e) = email {
            let m = unicode_lowercase(trim(e)).map_values(|c: char| branch_char(c));
            assert forall|k: int| 0 <= k < m.len() implies branch_suffix_char(#[trigger] m[k]) by {}
            lemma_collapse_shape(m);
            let c = collapse_dashes(m);
            let dash = |c: char| c == '-';
            let t = trim_start_by(c, dash);
            lemma_trim_start_by_shape(c, dash);
            lemma_trim_end_by_shape(t, dash);
            let b = branch_slug(e);
            assert(b == trim_end_by(t, dash));
            if b.len() > 0 {
                let i = choose|k: int| 0 <= k <= c.len() && t == c.skip(k);
                let j = choose|k: int| 0 <= k <= t.len() && b == t.take(k);
                assert(b == c.subrange(i, i + j));
                assert(b[0] == t[0]);
                assert forall|k: int| 0 <= k < b.len() implies branch_suffix_char(#[trigger] b[k]) by {
                    assert(b[k] == c[i + k]);
                }
                assert forall|k: int| 0 <= k < b.len() - 1 implies !(#[trigger] b[k] == '-' && b[k
                    + 1] == '-') by {
                    assert(b[k] == c[i + k] && b[k + 1] == c[i + k + 1]);
                }
                assert(well_formed_branch_suffix(b));
            }
        }
    }
}

/// No page file lies outside the wiki: every slug an article path resolves
/// to, the home page included, is a non-empty valid slug, so the page's
/// file is `wiki/`, then `/`-separated names none of which is empty, `.` or
/// `..`, then `.md`.
pub proof fn law_resolved_slug_is_valid(article_path: Option<Seq<char>>)
    ensures
        article_slug(article_path) matches Ok(s) ==> s.len() > 0 && is_valid_wiki_slug(s),
{
    reveal_strlit("Home");
    let h = HOME_PAGE@;
    assert forall|k: int| 0 <= k < h.len() implies #[trigger] h[k] != '/' by {}
    lemma_split_on_without_sep(h, '/');
    assert(split_on(h, '/')[0] == h);
    assert(h != seq!['.']);
    assert(h != seq!['.', '.']);
}

/// The slug rules, character by character: a slug is valid exactly when it
/// neither starts nor ends with `/`, holds no backslash, NUL or control
/// character (U+0000 to U+001F and U+007F to U+009F), and every piece
/// between `/`s is non-empty and neither `.` nor `..`. Every other
/// character, `-`, `_`, `.`, spaces and non-ASCII letters among them, is
/// allowed.
pub proof fn law_slug_rules(s: Seq<char>)
    ensures
        is_valid_wiki_slug(s) <==> {
            &&& (s.len() == 0 || (s[0] != '/' && s[s.len() - 1] != '/'))
            &&& forall|k: int|
                0 <= k < s.len() ==> {
                    let c = #[trigger] s[k];
                    c != '\\' && c != '\0' && !(c <= '\u{1f}' || ('\u{7f}' <= c && c <= '\u{9f}'))
                }
            &&& forall|j: int|
                0 <= j < split_on(s, '/').len() ==> {
                    let seg = #[trigger] split_on(s, '/')[j];
                    seg.len() > 0 && seg != seq!['.'] && seg != seq!['.', '.']
                }
        },
{
}

/// A plain slug, made of ASCII letters, digits, `-`, `_`, `.` and spaces in
/// pieces separated by single `/`s, with no `/` at either end and no piece
/// that is `.` or `..`, is accepted, and its page file is
/// `wiki/{slug}.md`.
pub proof fn law_plain_slugs_accepted(s: Seq<char>)
    requires
        s.len() > 0,
        s[0] != '/',
        s[s.len() - 1] != '/',
        forall|k: int|
            0 <= k < s.len() ==> {
                let c = #[trigger] s[k];
                ||| ('a' <= c && c <= 'z')
                ||| ('A' <= c && c <= 'Z')
                ||| ('0' <= c && c <= '9')
                ||| c == '-' || c == '_' || c == '.' || c == ' ' || c == '/'
            },
        forall|j: int|
            0 <= j < split_on(s, '/').len() ==> {
                let seg = #[trigger] split_on(s, '/')[j];
                seg.len() > 0 && seg != seq!['.'] && seg != seq!['.', '.']
            },
    ensures
        is_valid_wiki_slug(s),
        article_slug(Some(s)) == Ok::<Seq<char>, InvalidWikiPath>(s),
        article_file(s) == "wiki/"@ + s + ".md"@,
{
    law_slug_rules(s);
}

} // verus!
