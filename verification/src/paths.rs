//! Unix path joining and extension replacement on path strings, as
//! `PathBuf::push` and `PathBuf::set_extension` do them.
use vstd::prelude::*;
use crate::text::{has_char, push_char, push_str, string_of, chars_of};

verus! {

/// `PathBuf::push`: an absolute `p` replaces `base`; otherwise `p` is
/// appended after a `/`, which is left out when `base` is empty or already
/// ends with one.
pub open spec fn path_join(base: Seq<char>, p: Seq<char>) -> Seq<char> {
    if p.len() > 0 && p[0] == '/' {
        p
    } else if base.len() > 0 && base.last() != '/' {
        base + seq!['/'] + p
    } else {
        base + p
    }
}

/// The end of the path once trailing separators and trailing `.`
/// components are left out.
pub open spec fn trimmed_end(s: Seq<char>, e: int) -> int
    decreases e,
{
    if e <= 0 {
        0
    } else if s[e - 1] == '/' || (s[e - 1] == '.' && e >= 2 && s[e - 2] == '/') {
        trimmed_end(s, e - 1)
    } else {
        e
    }
}

/// Where the component ending at `e` starts: just after the last `/`
/// before `e`, or at 0.
pub open spec fn component_start(s: Seq<char>, e: int) -> int
    decreases e,
{
    if e <= 0 {
        0
    } else if s[e - 1] == '/' {
        e
    } else {
        component_start(s, e - 1)
    }
}

/// `Path::file_name`: the span of the last component when it is a normal
/// one (not empty, `.`, `..` or the root).
pub open spec fn file_name_span(s: Seq<char>) -> Option<(int, int)> {
    let e = trimmed_end(s, s.len() as int);
    let b = component_start(s, e);
    let name = s.subrange(b, e);
    if e == 0 || name == seq!['.'] || name == seq!['.', '.'] {
        None
    } else {
        Some((b, e))
    }
}

/// The index of the last `.` in `name` before `i`, or -1.
pub open spec fn last_dot(name: Seq<char>, i: int) -> int
    decreases i,
{
    if i <= 0 {
        -1
    } else if name[i - 1] == '.' {
        i - 1
    } else {
        last_dot(name, i - 1)
    }
}

/// `Path::file_stem`'s length: the name up to its last `.`, or the whole
/// name when it has no `.` or only a leading one.
pub open spec fn stem_len(name: Seq<char>) -> int {
    let d = last_dot(name, name.len() as int);
    if d <= 0 {
        name.len() as int
    } else {
        d
    }
}

/// `PathBuf::set_extension`: when the path has a file name, everything
/// after its stem is replaced by `.` and `ext` (just removed when `ext` is
/// empty); a path without a file name is left as it is.
pub open spec fn path_with_extension(s: Seq<char>, ext: Seq<char>) -> Seq<char> {
    match file_name_span(s) {
        None => s,
        Some((b, e)) => s.take(b + stem_len(s.subrange(b, e))) + if ext.len() > 0 {
            seq!['.'] + ext
        } else {
            Seq::<char>::empty()
        },
    }
}

/// `base` joined with `p`, as `Path::join` does it.
pub fn join_path(base: &str, p: &str) -> (r: String)
    ensures
        r@ == path_join(base@, p@),
{
    let b = chars_of(base);
    let q = chars_of(p);
    if q.len() > 0 && q[0] == '/' {
        return p.to_owned();
    }
    let mut r = base.to_owned();
    if b.len() > 0 && b[b.len() - 1] != '/' {
        push_char(&mut r, '/');
    }
    push_str(&mut r, p);
    r
}

/// `path` with its extension replaced by `ext`, as
/// `Path::with_extension` does it.
pub fn with_extension(path: &str, ext: &str) -> (r: String)
    requires
        !has_char(ext@, '/'),
    ensures
        r@ == path_with_extension(path@, ext@),
{
    let v = chars_of(path);
    let mut e: usize = v.len();
    while e > 0 && (v[e - 1] == '/' || (v[e - 1] == '.' && e >= 2 && v[e - 2] == '/'))
        invariant
            e <= v@.len(),
            trimmed_end(v@, v@.len() as int) == trimmed_end(v@, e as int),
        decreases e,
    {
        e = e - 1;
    }
    assert(trimmed_end(v@, e as int) == e);
    let mut b: usize = e;
    while b > 0 && v[b - 1] != '/'
        invariant
            b <= e,
            e <= v@.len(),
            component_start(v@, e as int) == component_start(v@, b as int),
        decreases b,
    {
        b = b - 1;
    }
    assert(component_start(v@, b as int) == b);
    let is_dot = e - b == 1 && v[b] == '.';
    let is_dotdot = e - b == 2 && v[b] == '.' && v[b + 1] == '.';
    proof {
        let name = v@.subrange(b as int, e as int);
        if e - b == 1 {
            assert(name == seq!['.'] <==> v@[b as int] == '.') by {
                assert(name[0] == v@[b as int]);
                if v@[b as int] == '.' {
                    assert(name =~= seq!['.']);
                }
            }
        }
        if e - b == 2 {
            assert(name == seq!['.', '.'] <==> (v@[b as int] == '.' && v@[b + 1] == '.')) by {
                assert(name[0] == v@[b as int] && name[1] == v@[b + 1]);
                if v@[b as int] == '.' && v@[b + 1] == '.' {
                    assert(name =~= seq!['.', '.']);
                }
            }
        }
        if name == seq!['.'] {
            assert(name.len() == 1);
        }
        if name == seq!['.', '.'] {
            assert(name.len() == 2);
        }
    }
    if e == 0 || is_dot || is_dotdot {
        return path.to_owned();
    }
    let ghost name = v@.subrange(b as int, e as int);
    let mut i: usize = e;
    while i > b && v[i - 1] != '.'
        invariant
            b <= i <= e,
            e <= v@.len(),
            name == v@.subrange(b as int, e as int),
            last_dot(name, name.len() as int) == last_dot(name, i - b),
        decreases i,
    {
        assert(name[i - b - 1] == v@[i - 1]);
        i = i - 1;
    }
    proof {
        if i > b {
            assert(name[i - b - 1] == v@[i - 1]);
        }
    }
    let stem_end = if i == b || i - 1 == b {
        e
    } else {
        i - 1
    };
    let mut out: Vec<char> = Vec::new();
    let mut k: usize = 0;
    while k < stem_end
        invariant
            k <= stem_end <= v@.len(),
            out@ == v@.take(k as int),
        decreases stem_end - k,
    {
        out.push(v[k]);
        assert(v@.take(k + 1) == v@.take(k as int).push(v@[k as int]));
        k = k + 1;
    }
    let mut r = string_of(&out);
    let x = chars_of(ext);
    if x.len() > 0 {
        push_char(&mut r, '.');
        push_str(&mut r, ext);
        assert(r@ == v@.take(stem_end as int) + (seq!['.'] + ext@));
    } else {
        assert(r@ == v@.take(stem_end as int) + Seq::<char>::empty());
    }
    r
}

} // verus!
