//! The navigation tree of wiki pages: built from the page files of a branch
//! and written out as nested HTML lists.
use vstd::prelude::*;
use crate::formatting::HOME_PAGE;
use crate::routes::wiki::{encode_url_path, escape_html, escaped_html, url_encoded};
use crate::text::{
    chars_eq, chars_lt, chars_of, lemma_seq_lt_irreflexive, lemma_seq_lt_total, lemma_seq_lt_transitive, lemma_split_on_nonempty, push_str, seq_lt,
    split_chars, split_on, string_of, to_lowercase, unicode_lowercase,
};

verus! {

/// A node of the page tree: a page, a directory of pages, or both.
pub struct FileTreeNode {
    pub name: String,
    pub href: Option<String>,
    pub is_dir: bool,
    pub children: Vec<FileTreeNode>,
    pub is_current: bool,
    pub is_current_ancestor: bool,
}

// ------------------------------------------------------------------------
// What the tree is
// ------------------------------------------------------------------------

pub open spec fn ends_with_md(s: Seq<char>) -> bool {
    s.len() >= 3 && s[s.len() - 3] == '.' && s[s.len() - 2] == 'm' && s[s.len() - 1] == 'd'
}

/// `trim_end_matches(".md")`: every trailing `.md` removed.
pub open spec fn strip_md(s: Seq<char>) -> Seq<char>
    decreases s.len(),
{
    if ends_with_md(s) {
        strip_md(s.take(s.len() - 3))
    } else {
        s
    }
}

/// `slug` is a page of the tree: some listed file, without its `.md`
/// endings, is `slug`, and it is neither empty nor the home page.
pub open spec fn listed(paths: Seq<Seq<char>>, slug: Seq<char>) -> bool {
    &&& slug.len() > 0
    &&& slug != HOME_PAGE@
    &&& exists|k: int| 0 <= k < paths.len() && strip_md(#[trigger] paths[k]) == slug
}

/// The `/`-separated pieces of a slug.
pub open spec fn slug_segments(slug: Seq<char>) -> Seq<Seq<char>> {
    split_on(slug, '/')
}

/// The pieces of `slug` begin with `p`.
pub open spec fn reaches(slug: Seq<char>, p: Seq<Seq<char>>) -> bool {
    p.len() <= slug_segments(slug).len() && slug_segments(slug).take(p.len() as int) == p
}

/// The tree has a node at `p`.
pub open spec fn tree_has(paths: Seq<Seq<char>>, p: Seq<Seq<char>>) -> bool {
    exists|slug: Seq<char>| listed(paths, slug) && reaches(slug, p)
}

/// `slug` is the page at `p`.
pub open spec fn page_at(paths: Seq<Seq<char>>, p: Seq<Seq<char>>, slug: Seq<char>) -> bool {
    listed(paths, slug) && slug_segments(slug) == p
}

/// The node at `p` has nodes below it.
pub open spec fn has_below(paths: Seq<Seq<char>>, p: Seq<Seq<char>>) -> bool {
    exists|slug: Seq<char>| listed(paths, slug) && reaches(slug, p) && slug_segments(slug).len() > p.len()
}

/// The current page is at `p` or below it.
pub open spec fn current_below(paths: Seq<Seq<char>>, current: Seq<char>, p: Seq<Seq<char>>) -> bool {
    listed(paths, current) && reaches(current, p)
}

/// The order of siblings: directories first, then by lowercased name, then
/// by name.
pub open spec fn key_before(
    da: bool,
    la: Seq<char>,
    na: Seq<char>,
    db: bool,
    lb: Seq<char>,
    nb: Seq<char>,
) -> bool {
    ||| da && !db
    ||| da == db && (seq_lt(la, lb) || (la == lb && seq_lt(na, nb)))
}

pub open spec fn sorts_before(a: FileTreeNode, b: FileTreeNode) -> bool {
    key_before(
        a.is_dir,
        unicode_lowercase(a.name@),
        a.name@,
        b.is_dir,
        unicode_lowercase(b.name@),
        b.name@,
    )
}

/// `n` is the node at `p`: its name is the last piece of `p`; it links to
/// the page at `p` when there is one; it is current when that page is the
/// current one; it is a directory when nodes lie below it; it is an
/// ancestor of the current page when the current page lies strictly below
/// it; and its children are the level below `p`.
pub open spec fn node_ok(
    n: FileTreeNode,
    paths: Seq<Seq<char>>,
    current: Seq<char>,
    p: Seq<Seq<char>>,
) -> bool
    decreases n,
{
    &&& p.len() >= 1
    &&& p.last() == n.name@
    &&& tree_has(paths, p)
    &&& (n.href matches Some(h) ==> exists|slug: Seq<char>|
        page_at(paths, p, slug) && h@ == seq!['/'] + url_encoded(slug))
    &&& (n.href is None ==> !exists|slug: Seq<char>| page_at(paths, p, slug))
    &&& n.is_current == page_at(paths, p, current)
    &&& n.is_dir == has_below(paths, p)
    &&& n.is_current_ancestor == (current_below(paths, current, p) && !n.is_current && n.is_dir)
    &&& level_ok(n.children@, paths, current, p)
}

/// `ns` is the level of the tree below `p`: one node for each name that
/// extends `p` in the tree, each the node at its place, in sibling order.
pub open spec fn level_ok(
    ns: Seq<FileTreeNode>,
    paths: Seq<Seq<char>>,
    current: Seq<char>,
    p: Seq<Seq<char>>,
) -> bool
    decreases ns,
{
    &&& forall|i: int| 0 <= i < ns.len() ==> node_ok(#[trigger] ns[i], paths, current, p.push(ns[i].name@))
    &&& forall|name: Seq<char>|
        tree_has(paths, #[trigger] p.push(name)) ==> exists|i: int| 0 <= i < ns.len() && ns[i].name@ == name
    &&& forall|i: int, j: int| 0 <= i < j < ns.len() ==> sorts_before(#[trigger] ns[i], #[trigger] ns[j])
}

proof fn lemma_key_transitive(
    da: bool,
    la: Seq<char>,
    na: Seq<char>,
    db: bool,
    lb: Seq<char>,
    nb: Seq<char>,
    dc: bool,
    lc: Seq<char>,
    nc: Seq<char>,
)
    requires
        key_before(da, la, na, db, lb, nb),
        key_before(db, lb, nb, dc, lc, nc),
    ensures
        key_before(da, la, na, dc, lc, nc),
{
    if da == db && db == dc {
        if seq_lt(la, lb) && seq_lt(lb, lc) {
            lemma_seq_lt_transitive(la, lb, lc);
        } else if seq_lt(la, lb) {
        } else if seq_lt(lb, lc) {
        } else {
            lemma_seq_lt_transitive(na, nb, nc);
        }
    }
}

proof fn lemma_key_total(
    da: bool,
    la: Seq<char>,
    na: Seq<char>,
    db: bool,
    lb: Seq<char>,
    nb: Seq<char>,
)
    requires
        na != nb,
    ensures
        key_before(da, la, na, db, lb, nb) || key_before(db, lb, nb, da, la, na),
{
    lemma_seq_lt_total(la, lb);
    lemma_seq_lt_total(na, nb);
}

// ------------------------------------------------------------------------
// Building the tree
// ------------------------------------------------------------------------

/// A page of the tree with its pieces, and whether it is the current page.
struct TreeEntry {
    slug: Vec<char>,
    segs: Vec<Vec<char>>,
    is_current: bool,
}

spec fn segs_view(segs: Seq<Vec<char>>) -> Seq<Seq<char>> {
    segs.map_values(|v: Vec<char>| v@)
}

spec fn entry_ok(e: TreeEntry, paths: Seq<Seq<char>>, current: Seq<char>) -> bool {
    &&& listed(paths, e.slug@)
    &&& segs_view(e.segs@) == slug_segments(e.slug@)
    &&& e.is_current == (e.slug@ == current)
}

/// Every page of the tree has an entry.
spec fn entries_complete(entries: Seq<TreeEntry>, paths: Seq<Seq<char>>) -> bool {
    forall|slug: Seq<char>|
        listed(paths, slug) ==> exists|k: int| 0 <= k < entries.len() && (#[trigger] entries[k]).slug@ == slug
}

/// The sort key of a sibling: its name, lowercased name, and whether it is
/// a directory.
struct LevelKey {
    name: Vec<char>,
    lower: Vec<char>,
    is_dir: bool,
}

spec fn level_key_before(a: LevelKey, b: LevelKey) -> bool {
    key_before(a.is_dir, a.lower@, a.name@, b.is_dir, b.lower@, b.name@)
}

fn level_key_lt(a: &LevelKey, b: &LevelKey) -> (r: bool)
    ensures
        r == level_key_before(*a, *b),
{
    if a.is_dir && !b.is_dir {
        true
    } else if a.is_dir != b.is_dir {
        false
    } else if chars_lt(&a.lower, &b.lower) {
        true
    } else if chars_eq(&a.lower, &b.lower) {
        chars_lt(&a.name, &b.name)
    } else {
        false
    }
}

fn strip_md_chars(v: &Vec<char>) -> (r: Vec<char>)
    ensures
        r@ == strip_md(v@),
{
    let mut r = v.clone();
    assert(r@ == v@);
    while r.len() >= 3 && r[r.len() - 3] == '.' && r[r.len() - 2] == 'm' && r[r.len() - 1] == 'd'
        invariant
            strip_md(r@) == strip_md(v@),
        decreases r.len(),
    {
        let n = r.len() - 3;
        r.truncate(n);
    }
    r
}

fn collect_entries(paths: &[String], current: &Vec<char>) -> (r: (Vec<TreeEntry>, usize))
    ensures
        forall|k: int| 0 <= k < r.0@.len() ==> entry_ok(#[trigger] r.0@[k], strings_view(paths@), current@),
        forall|k: int| 0 <= k < r.0@.len() ==> (#[trigger] r.0@[k]).segs@.len() <= r.1,
        entries_complete(r.0@, strings_view(paths@)),
{
    let ghost pv = strings_view(paths@);
    let home = chars_of(HOME_PAGE);
    let mut entries: Vec<TreeEntry> = Vec::new();
    let mut max_len: usize = 0;
    for k in 0..paths.len()
        invariant
            pv == strings_view(paths@),
            home@ == HOME_PAGE@,
            forall|j: int| 0 <= j < entries@.len() ==> entry_ok(#[trigger] entries@[j], pv, current@),
            forall|j: int| 0 <= j < entries@.len() ==> (#[trigger] entries@[j]).segs@.len() <= max_len,
            forall|q: int|
                0 <= q < k && strip_md(pv[q]).len() > 0 && strip_md(pv[q]) != HOME_PAGE@ ==> exists|j: int|
                    0 <= j < entries@.len() && (#[trigger] entries@[j]).slug@ == strip_md(pv[q]),
    {
        let slug = strip_md_chars(&chars_of(paths[k].as_str()));
        assert(pv[k as int] == paths@[k as int]@);
        if slug.len() > 0 && !chars_eq(&slug, &home) {
            let segs = split_chars(&slug, '/');
            assert(segs_view(segs@) == slug_segments(slug@));
            let is_current = chars_eq(&slug, current);
            if segs.len() > max_len {
                max_len = segs.len();
            }
            proof {
                assert(strip_md(pv[k as int]) == slug@);
            }
            let ghost old_entries = entries@;
            entries.push(TreeEntry { slug, segs, is_current });
            proof {
                assert(entries@.last().slug@ == strip_md(pv[k as int]));
                assert forall|q: int|
                    0 <= q < k + 1 && strip_md(pv[q]).len() > 0 && strip_md(pv[q]) != HOME_PAGE@ implies exists|j: int|
                        0 <= j < entries@.len() && (#[trigger] entries@[j]).slug@ == strip_md(pv[q]) by {
                    if q < k {
                        let j = choose|j: int| 0 <= j < old_entries.len() && (#[trigger] old_entries[j]).slug@ == strip_md(pv[q]);
                        assert(entries@[j] == old_entries[j]);
                    } else {
                        assert(entries@[entries@.len() - 1].slug@ == strip_md(pv[q]));
                    }
                }
            }
        }
    }
    proof {
        assert forall|slug: Seq<char>| listed(pv, slug) implies exists|j: int|
            0 <= j < entries@.len() && (#[trigger] entries@[j]).slug@ == slug by {
            let q = choose|q: int| 0 <= q < pv.len() && strip_md(#[trigger] pv[q]) == slug;
        }
    }
    (entries, max_len)
}

proof fn lemma_reaches_push(slug: Seq<char>, p: Seq<Seq<char>>, name: Seq<char>)
    ensures
        reaches(slug, p.push(name)) <==> (reaches(slug, p) && slug_segments(slug).len() > p.len()
            && slug_segments(slug)[p.len() as int] == name),
{
    let s = slug_segments(slug);
    if reaches(slug, p.push(name)) {
        assert(s.take(p.len() as int) == s.take(p.len() as int + 1).take(p.len() as int));
        assert(p.push(name).take(p.len() as int) == p);
        assert(s[p.len() as int] == s.take(p.len() as int + 1)[p.len() as int]);
    }
    if reaches(slug, p) && s.len() > p.len() && s[p.len() as int] == name {
        assert(s.take(p.len() as int + 1) == s.take(p.len() as int).push(s[p.len() as int]));
    }
}

proof fn lemma_entry_segs(e: TreeEntry, paths: Seq<Seq<char>>, current: Seq<char>)
    requires
        entry_ok(e, paths, current),
    ensures
        e.segs@.len() == slug_segments(e.slug@).len(),
        forall|j: int| 0 <= j < e.segs@.len() ==> (#[trigger] e.segs@[j])@ == slug_segments(e.slug@)[j],
{
    assert forall|j: int| 0 <= j < e.segs@.len() implies (#[trigger] e.segs@[j])@ == slug_segments(
        e.slug@,
    )[j] by {
        assert(segs_view(e.segs@)[j] == e.segs@[j]@);
    }
}

/// The entry's piece at `depth` is `name`.
spec fn entry_has(e: TreeEntry, depth: int, name: Seq<char>) -> bool {
    e.segs@.len() > depth && e.segs@[depth]@ == name
}

/// The conditions under which `idxs` lists exactly the entries reaching `p`.
spec fn level_input_ok(
    entries: Seq<TreeEntry>,
    idxs: Seq<usize>,
    paths: Seq<Seq<char>>,
    current: Seq<char>,
    p: Seq<Seq<char>>,
    max_len: int,
) -> bool {
    &&& forall|k: int| 0 <= k < entries.len() ==> entry_ok(#[trigger] entries[k], paths, current)
    &&& forall|k: int| 0 <= k < entries.len() ==> (#[trigger] entries[k]).segs@.len() <= max_len
    &&& entries_complete(entries, paths)
    &&& forall|t: int| 0 <= t < idxs.len() ==> (#[trigger] idxs[t]) < entries.len() && reaches(entries[idxs[t] as int].slug@, p)
    &&& forall|k: int|
        0 <= k < entries.len() && reaches((#[trigger] entries[k]).slug@, p) ==> exists|t: int|
            0 <= t < idxs.len() && idxs[t] == k
}

proof fn lemma_entry_in_level(
    entries: Seq<TreeEntry>,
    idxs: Seq<usize>,
    paths: Seq<Seq<char>>,
    current: Seq<char>,
    p: Seq<Seq<char>>,
    max_len: int,
    slug: Seq<char>,
) -> (t: int)
    requires
        level_input_ok(entries, idxs, paths, current, p, max_len),
        listed(paths, slug),
        reaches(slug, p),
    ensures
        0 <= t < idxs.len(),
        entries[idxs[t] as int].slug@ == slug,
{
    let k = choose|k: int| 0 <= k < entries.len() && (#[trigger] entries[k]).slug@ == slug;
    assert(reaches(entries[k].slug@, p));
    choose|t: int| 0 <= t < idxs.len() && idxs[t] == k
}

fn find_key(keys: &Vec<LevelKey>, name: &Vec<char>) -> (r: bool)
    ensures
        r == exists|i: int| 0 <= i < keys@.len() && (#[trigger] keys@[i]).name@ == name@,
{
    let mut i: usize = 0;
    while i < keys.len()
        invariant
            i <= keys@.len(),
            forall|j: int| 0 <= j < i ==> (#[trigger] keys@[j]).name@ != name@,
        decreases keys.len() - i,
    {
        if chars_eq(&keys[i].name, name) {
            return true;
        }
        i = i + 1;
    }
    false
}

fn name_has_below(entries: &Vec<TreeEntry>, idxs: &Vec<usize>, depth: usize, name: &Vec<char>) -> (r: bool)
    requires
        forall|t: int| 0 <= t < idxs@.len() ==> (#[trigger] idxs@[t]) < entries@.len(),
    ensures
        r == exists|t: int|
            0 <= t < idxs@.len() && entry_has(entries@[idxs@[t] as int], depth as int, name@)
                && entries@[idxs@[t] as int].segs@.len() > depth + 1,
{
    let mut t: usize = 0;
    while t < idxs.len()
        invariant
            t <= idxs@.len(),
            forall|t: int| 0 <= t < idxs@.len() ==> (#[trigger] idxs@[t]) < entries@.len(),
            forall|u: int|
                0 <= u < t ==> !(entry_has(entries@[#[trigger] idxs@[u] as int], depth as int, name@)
                    && entries@[idxs@[u] as int].segs@.len() > depth + 1),
        decreases idxs.len() - t,
    {
        let e = &entries[idxs[t]];
        if e.segs.len() > depth && e.segs.len() - depth > 1 && chars_eq(&e.segs[depth], name) {
            return true;
        }
        t = t + 1;
    }
    false
}

spec fn keys_sorted(keys: Seq<LevelKey>) -> bool {
    forall|i: int, j: int| 0 <= i < j < keys.len() ==> level_key_before(#[trigger] keys[i], #[trigger] keys[j])
}

spec fn key_ok(k: LevelKey, paths: Seq<Seq<char>>, p: Seq<Seq<char>>) -> bool {
    &&& k.lower@ == unicode_lowercase(k.name@)
    &&& k.is_dir == has_below(paths, p.push(k.name@))
    &&& tree_has(paths, p.push(k.name@))
}

fn collect_level_keys(
    entries: &Vec<TreeEntry>,
    idxs: &Vec<usize>,
    depth: usize,
    Ghost(paths): Ghost<Seq<Seq<char>>>,
    Ghost(current): Ghost<Seq<char>>,
    Ghost(p): Ghost<Seq<Seq<char>>>,
    Ghost(max_len): Ghost<int>,
) -> (keys: Vec<LevelKey>)
    requires
        level_input_ok(entries@, idxs@, paths, current, p, max_len),
        p.len() == depth,
    ensures
        keys_sorted(keys@),
        forall|q: int| 0 <= q < keys@.len() ==> key_ok(#[trigger] keys@[q], paths, p),
        forall|name: Seq<char>|
            tree_has(paths, #[trigger] p.push(name)) ==> exists|i: int|
                0 <= i < keys@.len() && keys@[i].name@ == name,
{
    let mut keys: Vec<LevelKey> = Vec::new();
    for t in 0..idxs.len()
        invariant
            level_input_ok(entries@, idxs@, paths, current, p, max_len),
            p.len() == depth,
            keys_sorted(keys@),
            forall|q: int| 0 <= q < keys@.len() ==> key_ok(#[trigger] keys@[q], paths, p),
            forall|u: int|
                0 <= u < t && (#[trigger] entries@[idxs@[u] as int]).segs@.len() > depth ==> exists|i: int|
                    0 <= i < keys@.len() && keys@[i].name@ == entries@[idxs@[u] as int].segs@[depth as int]@,
    {
        let k = idxs[t];
        let e = &entries[k];
        assert(entry_ok(entries@[k as int], paths, current));
        if e.segs.len() > depth {
            let name = &e.segs[depth];
            if !find_key(&keys, name) {
                let ghost slug = e.slug@;
                proof {
                    lemma_entry_segs(*e, paths, current);
                    lemma_reaches_push(slug, p, name@);
                }
                let is_dir = name_has_below(entries, idxs, depth, name);
                proof {
                    let q = p.push(name@);
                    if is_dir {
                        let u = choose|u: int|
                            0 <= u < idxs@.len() && entry_has(entries@[idxs@[u] as int], depth as int, name@)
                                && entries@[idxs@[u] as int].segs@.len() > depth + 1;
                        let f = entries@[idxs@[u] as int];
                        assert(entry_ok(f, paths, current));
                        lemma_entry_segs(f, paths, current);
                        lemma_reaches_push(f.slug@, p, name@);
                    }
                    if has_below(paths, q) {
                        let s2 = choose|s2: Seq<char>|
                            listed(paths, s2) && reaches(s2, q) && slug_segments(s2).len() > q.len();
                        lemma_reaches_push(s2, p, name@);
                        let u = lemma_entry_in_level(entries@, idxs@, paths, current, p, max_len, s2);
                        let f = entries@[idxs@[u] as int];
                        assert(entry_ok(f, paths, current));
                        lemma_entry_segs(f, paths, current);
                        assert(entry_has(f, depth as int, name@) && f.segs@.len() > depth + 1);
                    }
                    assert(is_dir == has_below(paths, q));
                }
                let lower = chars_of(to_lowercase(string_of(name).as_str()).as_str());
                let new_key = LevelKey { name: name.clone(), lower, is_dir };
                assert(new_key.name@ == name@);
                let mut pos: usize = 0;
                while pos < keys.len() && !level_key_lt(&new_key, &keys[pos])
                    invariant
                        pos <= keys@.len(),
                        forall|i: int| 0 <= i < keys@.len() ==> (#[trigger] keys@[i]).name@ != new_key.name@,
                        forall|i: int| 0 <= i < pos ==> level_key_before(#[trigger] keys@[i], new_key),
                    decreases keys.len() - pos,
                {
                    proof {
                        let o = keys@[pos as int];
                        lemma_key_total(o.is_dir, o.lower@, o.name@, new_key.is_dir, new_key.lower@, new_key.name@);
                    }
                    pos = pos + 1;
                }
                let ghost old_keys = keys@;
                let ghost nk = new_key;
                keys.insert(pos, new_key);
                proof {
                    assert(keys@ == old_keys.insert(pos as int, nk));
                    assert forall|i: int, j: int| 0 <= i < j < keys@.len() implies level_key_before(
                        #[trigger] keys@[i],
                        #[trigger] keys@[j],
                    ) by {
                        if i < pos && j < pos {
                            assert(level_key_before(old_keys[i], old_keys[j]));
                        } else if i < pos && j == pos {
                        } else if i < pos {
                            assert(level_key_before(old_keys[i], old_keys[j - 1]));
                        } else if i == pos {
                            let o = old_keys[pos as int];
                            assert(level_key_before(nk, o));
                            if j - 1 > pos {
                                assert(level_key_before(o, old_keys[j - 1]));
                                let w = old_keys[j - 1];
                                lemma_key_transitive(nk.is_dir, nk.lower@, nk.name@, o.is_dir, o.lower@, o.name@, w.is_dir, w.lower@, w.name@);
                            }
                        } else {
                            assert(level_key_before(old_keys[i - 1], old_keys[j - 1]));
                        }
                    }
                    assert forall|q: int| 0 <= q < keys@.len() implies key_ok(#[trigger] keys@[q], paths, p) by {
                        if q < pos {
                            assert(keys@[q] == old_keys[q]);
                        } else if q > pos {
                            assert(keys@[q] == old_keys[q - 1]);
                        } else {
                            assert(tree_has(paths, p.push(name@)));
                        }
                    }
                    assert forall|u: int|
                        0 <= u < t + 1 && (#[trigger] entries@[idxs@[u] as int]).segs@.len() > depth implies exists|i: int|
                            0 <= i < keys@.len() && keys@[i].name@ == entries@[idxs@[u] as int].segs@[depth as int]@ by {
                        if u < t {
                            let i = choose|i: int| 0 <= i < old_keys.len() && old_keys[i].name@ == entries@[idxs@[u] as int].segs@[depth as int]@;
                            if i < pos {
                                assert(keys@[i] == old_keys[i]);
                            } else {
                                assert(keys@[i + 1] == old_keys[i]);
                            }
                        } else {
                            assert(keys@[pos as int].name@ == name@);
                        }
                    }
                }
            }
        }
    }
    proof {
        assert forall|name: Seq<char>| tree_has(paths, #[trigger] p.push(name)) implies exists|i: int|
            0 <= i < keys@.len() && keys@[i].name@ == name by {
            let s2 = choose|s2: Seq<char>| listed(paths, s2) && reaches(s2, p.push(name));
            lemma_reaches_push(s2, p, name);
            let u = lemma_entry_in_level(entries@, idxs@, paths, current, p, max_len, s2);
            let f = entries@[idxs@[u] as int];
            assert(entry_ok(f, paths, current));
            lemma_entry_segs(f, paths, current);
        }
    }
    keys
}

fn build_level(
    entries: &Vec<TreeEntry>,
    idxs: &Vec<usize>,
    depth: usize,
    max_len: usize,
    Ghost(paths): Ghost<Seq<Seq<char>>>,
    Ghost(current): Ghost<Seq<char>>,
    Ghost(p): Ghost<Seq<Seq<char>>>,
) -> (r: Vec<FileTreeNode>)
    requires
        level_input_ok(entries@, idxs@, paths, current, p, max_len as int),
        p.len() == depth,
        depth <= max_len,
    ensures
        level_ok(r@, paths, current, p),
        r@.len() > 0 <==> has_below(paths, p),
    decreases max_len - depth,
{
    let keys = collect_level_keys(entries, idxs, depth, Ghost(paths), Ghost(current), Ghost(p), Ghost(max_len as int));
    let mut nodes: Vec<FileTreeNode> = Vec::new();
    for i in 0..keys.len()
        invariant
            level_input_ok(entries@, idxs@, paths, current, p, max_len as int),
            p.len() == depth,
            depth <= max_len,
            keys_sorted(keys@),
            forall|q: int| 0 <= q < keys@.len() ==> key_ok(#[trigger] keys@[q], paths, p),
            nodes@.len() == i,
            forall|q: int|
                0 <= q < i ==> node_ok(#[trigger] nodes@[q], paths, current, p.push(nodes@[q].name@)),
            forall|q: int| 0 <= q < i ==> (#[trigger] nodes@[q]).name@ == keys@[q].name@ && nodes@[q].is_dir
                == keys@[q].is_dir,
    {
        let key = &keys[i];
        assert(key_ok(keys@[i as int], paths, p));
        let name = &key.name;
        let ghost q = p.push(name@);
        let mut sub: Vec<usize> = Vec::new();
        let mut href: Option<String> = None;
        let mut is_current = false;
        let mut contains_current = false;
        for t in 0..idxs.len()
            invariant
                level_input_ok(entries@, idxs@, paths, current, p, max_len as int),
                p.len() == depth,
                q == p.push(name@),
                forall|s: int| 0 <= s < sub@.len() ==> (#[trigger] sub@[s]) < entries@.len() && reaches(
                    entries@[sub@[s] as int].slug@,
                    q,
                ),
                forall|u: int|
                    0 <= u < t && entry_has(#[trigger] entries@[idxs@[u] as int], depth as int, name@) ==> exists|s: int|
                        0 <= s < sub@.len() && sub@[s] == idxs@[u],
                href matches Some(h) ==> exists|slug: Seq<char>|
                    page_at(paths, q, slug) && h@ == seq!['/'] + url_encoded(slug),
                href is None ==> forall|u: int|
                    0 <= u < t ==> !(entry_has(#[trigger] entries@[idxs@[u] as int], depth as int, name@)
                        && entries@[idxs@[u] as int].segs@.len() == depth + 1),
                is_current == exists|u: int|
                    0 <= u < t && entry_has(#[trigger] entries@[idxs@[u] as int], depth as int, name@)
                        && entries@[idxs@[u] as int].segs@.len() == depth + 1 && entries@[idxs@[u] as int].is_current,
                contains_current == exists|u: int|
                    0 <= u < t && entry_has(#[trigger] entries@[idxs@[u] as int], depth as int, name@)
                        && entries@[idxs@[u] as int].is_current,
        {
            let k = idxs[t];
            let e = &entries[k];
            proof {
                assert(entry_ok(entries@[k as int], paths, current));
                lemma_entry_segs(*e, paths, current);
                lemma_reaches_push(e.slug@, p, name@);
            }
            let ghost old_sub = sub@;
            if e.segs.len() > depth && chars_eq(&e.segs[depth], name) {
                sub.push(k);
                proof {
                    assert forall|u: int|
                        0 <= u < t + 1 && entry_has(#[trigger] entries@[idxs@[u] as int], depth as int, name@) implies exists|s: int|
                            0 <= s < sub@.len() && sub@[s] == idxs@[u] by {
                        if u < t {
                            let s = choose|s: int| 0 <= s < old_sub.len() && old_sub[s] == idxs@[u];
                            assert(sub@[s] == old_sub[s]);
                        } else {
                            assert(sub@[sub@.len() - 1] == idxs@[u]);
                        }
                    }
                }
                if e.segs.len() == depth + 1 {
                    proof {
                        assert(slug_segments(e.slug@).take(q.len() as int) == slug_segments(e.slug@));
                        assert(page_at(paths, q, e.slug@));
                    }
                    let mut h = "/".to_owned();
                    push_str(&mut h, encode_url_path(string_of(&e.slug).as_str()).as_str());
                    proof {
                        reveal_strlit("/");
                        assert(h@ == seq!['/'] + url_encoded(e.slug@));
                    }
                    href = Some(h);
                    if e.is_current {
                        is_current = true;
                    }
                }
                if e.is_current {
                    contains_current = true;
                }
            }
        }
        proof {
            // The node's flags, read back into the tree's terms.
            if is_current {
                let u = choose|u: int|
                    0 <= u < idxs@.len() && entry_has(#[trigger] entries@[idxs@[u] as int], depth as int, name@)
                        && entries@[idxs@[u] as int].segs@.len() == depth + 1 && entries@[idxs@[u] as int].is_current;
                let f = entries@[idxs@[u] as int];
                assert(entry_ok(f, paths, current));
                lemma_entry_segs(f, paths, current);
                lemma_reaches_push(f.slug@, p, name@);
                assert(slug_segments(f.slug@).take(q.len() as int) == slug_segments(f.slug@));
            }
            if page_at(paths, q, current) {
                assert(slug_segments(current).take(q.len() as int) == slug_segments(current));
                lemma_reaches_push(current, p, name@);
                let u = lemma_entry_in_level(entries@, idxs@, paths, current, p, max_len as int, current);
                let f = entries@[idxs@[u] as int];
                assert(entry_ok(f, paths, current));
                lemma_entry_segs(f, paths, current);
                assert(entry_has(f, depth as int, name@));
            }
            assert(is_current == page_at(paths, q, current));
            if contains_current {
                let u = choose|u: int|
                    0 <= u < idxs@.len() && entry_has(#[trigger] entries@[idxs@[u] as int], depth as int, name@)
                        && entries@[idxs@[u] as int].is_current;
                let f = entries@[idxs@[u] as int];
                assert(entry_ok(f, paths, current));
                lemma_entry_segs(f, paths, current);
                lemma_reaches_push(f.slug@, p, name@);
            }
            if current_below(paths, current, q) {
                lemma_reaches_push(current, p, name@);
                let u = lemma_entry_in_level(entries@, idxs@, paths, current, p, max_len as int, current);
                let f = entries@[idxs@[u] as int];
                assert(entry_ok(f, paths, current));
                lemma_entry_segs(f, paths, current);
                assert(entry_has(f, depth as int, name@));
            }
            assert(contains_current == current_below(paths, current, q));
            if href is None {
                if exists|slug: Seq<char>| page_at(paths, q, slug) {
                    let slug = choose|slug: Seq<char>| page_at(paths, q, slug);
                    assert(slug_segments(slug).take(q.len() as int) == slug_segments(slug));
                    lemma_reaches_push(slug, p, name@);
                    let u = lemma_entry_in_level(entries@, idxs@, paths, current, p, max_len as int, slug);
                    let f = entries@[idxs@[u] as int];
                    assert(entry_ok(f, paths, current));
                    lemma_entry_segs(f, paths, current);
                    assert(entry_has(f, depth as int, name@));
                }
            }
            // The entries below the node are exactly those in `sub`.
            assert forall|k: int|
                0 <= k < entries@.len() && reaches((#[trigger] entries@[k]).slug@, q) implies exists|s: int|
                    0 <= s < sub@.len() && sub@[s] == k by {
                let f = entries@[k];
                assert(entry_ok(f, paths, current));
                lemma_entry_segs(f, paths, current);
                lemma_reaches_push(f.slug@, p, name@);
                let u = choose|u: int| 0 <= u < idxs@.len() && idxs@[u] == k;
                assert(entry_has(entries@[idxs@[u] as int], depth as int, name@));
            }
            // There is an entry below the node, so the depth bound leaves room.
            let s2 = choose|s2: Seq<char>| listed(paths, s2) && reaches(s2, q);
            let k2 = choose|k2: int| 0 <= k2 < entries@.len() && (#[trigger] entries@[k2]).slug@ == s2;
            assert(entry_ok(entries@[k2], paths, current));
            lemma_entry_segs(entries@[k2], paths, current);
            assert(entries@[k2].segs@.len() <= max_len);
        }
        let children = build_level(entries, &sub, depth + 1, max_len, Ghost(paths), Ghost(current), Ghost(q));
        let is_dir = key.is_dir;
        let node = FileTreeNode {
            name: string_of(name),
            href,
            is_dir,
            children,
            is_current,
            is_current_ancestor: contains_current && !is_current && is_dir,
        };
        proof {
            assert(node.name@ == name@);
            assert(node_ok(node, paths, current, q));
        }
        nodes.push(node);
    }
    proof {
        assert forall|a: int, b: int| 0 <= a < b < nodes@.len() implies sorts_before(
            #[trigger] nodes@[a],
            #[trigger] nodes@[b],
        ) by {
            assert(level_key_before(keys@[a], keys@[b]));
            assert(key_ok(keys@[a], paths, p));
            assert(key_ok(keys@[b], paths, p));
        }
        assert forall|name: Seq<char>| tree_has(paths, #[trigger] p.push(name)) implies exists|i: int|
            0 <= i < nodes@.len() && nodes@[i].name@ == name by {
            let i = choose|i: int| 0 <= i < keys@.len() && keys@[i].name@ == name;
            assert(nodes@[i].name@ == keys@[i].name@);
        }
        if nodes@.len() > 0 {
            assert(key_ok(keys@[0], paths, p));
            let s2 = choose|s2: Seq<char>| listed(paths, s2) && reaches(s2, p.push(keys@[0].name@));
            lemma_reaches_push(s2, p, keys@[0].name@);
        }
        if has_below(paths, p) {
            let s2 = choose|s2: Seq<char>|
                listed(paths, s2) && reaches(s2, p) && slug_segments(s2).len() > p.len();
            let nm = slug_segments(s2)[p.len() as int];
            lemma_reaches_push(s2, p, nm);
            assert(tree_has(paths, p.push(nm)));
        }
    }
    nodes
}

/// Builds the page tree from the page files of a branch (`a/b.md`, ...)
/// and the slug of the page being shown.
pub fn build_file_tree(paths: &[String], current_slug: &str) -> (r: Vec<FileTreeNode>)
    ensures
        level_ok(r@, strings_view(paths@), current_slug@, Seq::<Seq<char>>::empty()),
{
    let ghost pv = strings_view(paths@);
    let current = chars_of(current_slug);
    let (entries, max_len) = collect_entries(paths, &current);
    let mut idxs: Vec<usize> = Vec::new();
    for k in 0..entries.len()
        invariant
            idxs@.len() == k,
            forall|t: int| 0 <= t < k ==> idxs@[t] == t,
    {
        idxs.push(k);
    }
    proof {
        let p = Seq::<Seq<char>>::empty();
        assert forall|k: int| 0 <= k < entries@.len() implies reaches((#[trigger] entries@[k]).slug@, p) by {
            assert(slug_segments(entries@[k].slug@).take(0) == p);
        }
        assert forall|k: int|
            0 <= k < entries@.len() && reaches((#[trigger] entries@[k]).slug@, p) implies exists|t: int|
                0 <= t < idxs@.len() && idxs@[t] == k by {
            assert(idxs@[k] == k);
        }
    }
    build_level(&entries, &idxs, 0, max_len, Ghost(pv), Ghost(current@), Ghost(Seq::<Seq<char>>::empty()))
}

// ------------------------------------------------------------------------
// Writing the tree out as HTML
// ------------------------------------------------------------------------

/// The class list of a node's link.
pub open spec fn link_class(n: FileTreeNode, in_summary: bool) -> Seq<char> {
    "file-tree__link"@ + (if in_summary {
        " file-tree__link--summary"@
    } else {
        Seq::<char>::empty()
    }) + (if n.is_current && !in_summary {
        " active"@
    } else {
        Seq::<char>::empty()
    })
}

/// A node's link: an `<a>` to its page, or a `<span>` when it has none,
/// with its name escaped.
pub open spec fn link_html(n: FileTreeNode, in_summary: bool) -> Seq<char> {
    match n.href {
        Some(h) => "<a href=\""@ + escaped_html(h@) + "\" class=\""@ + link_class(n, in_summary) + "\">"@
            + escaped_html(n.name@) + "</a>"@,
        None => "<span class=\""@ + link_class(n, in_summary) + "\">"@ + escaped_html(n.name@)
            + "</span>"@,
    }
}

/// A node as a list item: a directory is a `<details>` element, open when
/// it is or holds the current page, whose summary is its link and whose
/// body lists its children; any other node is its link.
pub open spec fn node_html(n: FileTreeNode) -> Seq<char>
    decreases n, 0int,
{
    "<li class=\"file-tree__item\">"@ + (if n.is_dir {
        "<details class=\"file-tree__dir\""@ + (if n.is_current || n.is_current_ancestor {
            " open"@
        } else {
            Seq::<char>::empty()
        }) + "><summary class=\""@ + "file-tree__summary"@ + (if n.is_current {
            " active"@
        } else {
            Seq::<char>::empty()
        }) + "\">"@ + link_html(n, true) + "</summary>"@ + (if n.children@.len() > 0 {
            "<ul class=\"file-tree\">"@ + nodes_html(n.children@, n.children@.len() as int) + "</ul>"@
        } else {
            Seq::<char>::empty()
        }) + "</details>"@
    } else {
        link_html(n, false)
    }) + "</li>"@
}

/// The first `i` nodes of `ns` as list items, one after another.
pub open spec fn nodes_html(ns: Seq<FileTreeNode>, i: int) -> Seq<char>
    decreases ns, i,
{
    if i <= 0 || i > ns.len() {
        Seq::<char>::empty()
    } else {
        nodes_html(ns, i - 1) + node_html(ns[i - 1])
    }
}

/// The whole tree as a `<ul class="file-tree">` list.
pub open spec fn tree_html(ns: Seq<FileTreeNode>) -> Seq<char> {
    "<ul class=\"file-tree\">"@ + nodes_html(ns, ns.len() as int) + "</ul>"@
}

fn render_node_link(node: &FileTreeNode, output: &mut String, in_summary: bool)
    ensures
        final(output)@ == old(output)@ + link_html(*node, in_summary),
{
    let mut class = "file-tree__link".to_owned();
    if in_summary {
        push_str(&mut class, " file-tree__link--summary");
    }
    if node.is_current && !in_summary {
        push_str(&mut class, " active");
    }
    assert(class@ == link_class(*node, in_summary));
    match &node.href {
        Some(href) => {
            push_str(output, "<a href=\"");
            push_str(output, escape_html(href.as_str()).as_str());
            push_str(output, "\" class=\"");
            push_str(output, class.as_str());
            push_str(output, "\">");
            push_str(output, escape_html(node.name.as_str()).as_str());
            push_str(output, "</a>");
        },
        None => {
            push_str(output, "<span class=\"");
            push_str(output, class.as_str());
            push_str(output, "\">");
            push_str(output, escape_html(node.name.as_str()).as_str());
            push_str(output, "</span>");
        },
    }
}

fn node_string(node: &FileTreeNode) -> (r: String)
    ensures
        r@ == node_html(*node),
    decreases *node,
{
    let mut out = "<li class=\"file-tree__item\">".to_owned();
    let ghost li = out@;
    if node.is_dir {
        let mut d = "<details class=\"file-tree__dir\"".to_owned();
        let ghost d0 = d@;
        if node.is_current || node.is_current_ancestor {
            push_str(&mut d, " open");
        } else {
            assert(d0 + Seq::<char>::empty() == d0);
        }
        push_str(&mut d, "><summary class=\"");
        push_str(&mut d, "file-tree__summary");
        let ghost d1 = d@;
        if node.is_current {
            push_str(&mut d, " active");
        } else {
            assert(d1 + Seq::<char>::empty() == d1);
        }
        push_str(&mut d, "\">");
        render_node_link(node, &mut d, true);
        push_str(&mut d, "</summary>");
        let ghost d2 = d@;
        if node.children.len() > 0 {
            push_str(&mut d, "<ul class=\"file-tree\">");
            render_nodes(&node.children, &mut d);
            push_str(&mut d, "</ul>");
        } else {
            assert(d2 + Seq::<char>::empty() == d2);
        }
        push_str(&mut d, "</details>");
        push_str(&mut out, d.as_str());
    } else {
        let mut l = String::new();
        render_node_link(node, &mut l, false);
        assert(l@ == Seq::<char>::empty() + link_html(*node, false));
        assert(Seq::<char>::empty() + link_html(*node, false) == link_html(*node, false));
        push_str(&mut out, l.as_str());
    }
    push_str(&mut out, "</li>");
    out
}

fn render_nodes(nodes: &Vec<FileTreeNode>, output: &mut String)
    ensures
        final(output)@ == old(output)@ + nodes_html(nodes@, nodes@.len() as int),
    decreases nodes@,
{
    let ghost start = output@;
    assert(start + Seq::<char>::empty() == start);
    for i in 0..nodes.len()
        invariant
            output@ == start + nodes_html(nodes@, i as int),
    {
        let item = node_string(&nodes[i]);
        push_str(output, item.as_str());
        assert(start + nodes_html(nodes@, i as int) + node_html(nodes@[i as int]) == start + (
        nodes_html(nodes@, i as int) + node_html(nodes@[i as int])));
    }
}

/// Writes the page tree as nested HTML lists.
pub fn render_file_tree_html(nodes: &Vec<FileTreeNode>) -> (r: String)
    ensures
        r@ == tree_html(nodes@),
{
    let mut output = String::new();
    push_str(&mut output, "<ul class=\"file-tree\">");
    render_nodes(nodes, &mut output);
    push_str(&mut output, "</ul>");
    output
}

pub open spec fn strings_view(paths: Seq<String>) -> Seq<Seq<char>> {
    paths.map_values(|s: String| s@)
}

/// Sibling order: in every level of the tree, directories come before
/// pages, and among siblings of the same kind one whose lowercased name
/// comes first (by code point) comes first, whatever the case of the
/// names; names that lowercase alike keep the order of the names
/// themselves.
pub proof fn law_siblings_sorted_ignoring_case(
    ns: Seq<FileTreeNode>,
    paths: Seq<Seq<char>>,
    current: Seq<char>,
    p: Seq<Seq<char>>,
    i: int,
    j: int,
)
    requires
        level_ok(ns, paths, current, p),
        0 <= i < ns.len(),
        0 <= j < ns.len(),
    ensures
        ns[i].is_dir && !ns[j].is_dir ==> i < j,
        ns[i].is_dir == ns[j].is_dir && seq_lt(
            unicode_lowercase(ns[i].name@),
            unicode_lowercase(ns[j].name@),
        ) ==> i < j,
        ns[i].is_dir == ns[j].is_dir && unicode_lowercase(ns[i].name@) == unicode_lowercase(ns[j].name@)
            && seq_lt(ns[i].name@, ns[j].name@) ==> i < j,
{
    let li = unicode_lowercase(ns[i].name@);
    let lj = unicode_lowercase(ns[j].name@);
    lemma_seq_lt_irreflexive(li);
    lemma_seq_lt_irreflexive(ns[i].name@);
    if j < i {
        assert(sorts_before(ns[j], ns[i]));
        if seq_lt(li, lj) && seq_lt(lj, li) {
            lemma_seq_lt_transitive(li, lj, li);
        }
        if seq_lt(ns[i].name@, ns[j].name@) && seq_lt(ns[j].name@, ns[i].name@) {
            lemma_seq_lt_transitive(ns[i].name@, ns[j].name@, ns[i].name@);
        }
    }
}

/// A text holds `t` somewhere.
pub open spec fn contains(s: Seq<char>, t: Seq<char>) -> bool {
    exists|k: int| 0 <= k && k + t.len() <= s.len() && #[trigger] s.subrange(k, k + t.len()) == t
}

proof fn lemma_contains_extend(a: Seq<char>, t: Seq<char>, pre: Seq<char>, post: Seq<char>)
    requires
        contains(a, t),
    ensures
        contains(pre + a + post, t),
{
    let k = choose|k: int| 0 <= k && k + t.len() <= a.len() && #[trigger] a.subrange(k, k + t.len()) == t;
    let s = pre + a + post;
    let m = k + pre.len();
    assert(s.subrange(m, m + t.len()) =~= a.subrange(k, k + t.len()));
}

proof fn lemma_prefix_contained(s: Seq<char>, t: Seq<char>)
    requires
        t.len() <= s.len(),
        s.subrange(0, t.len() as int) == t,
    ensures
        contains(s, t),
{
    assert(s.subrange(0, 0 + t.len() as int) == t);
}

/// The start of the link to a page: `<a href="` and the escaped address.
pub open spec fn link_start(h: Seq<char>) -> Seq<char> {
    "<a href=\""@ + escaped_html(h) + "\""@
}

proof fn lemma_link_in_node(n: FileTreeNode)
    ensures
        n.href matches Some(h) ==> contains(node_html(n), link_start(h@)),
        n.href is None ==> contains(node_html(n), "<span class=\"file-tree__link"@),
{
    let l = link_html(n, n.is_dir);
    reveal_strlit("<a href=\"");
    reveal_strlit("\" class=\"");
    reveal_strlit("\"");
    reveal_strlit("<span class=\"");
    reveal_strlit("<span class=\"file-tree__link");
    reveal_strlit("file-tree__link");
    match n.href {
        Some(h) => {
            let t = link_start(h@);
            assert(l.subrange(0, t.len() as int) =~= t);
            lemma_prefix_contained(l, t);
        },
        None => {
            let t = "<span class=\"file-tree__link"@;
            assert(l.subrange(0, t.len() as int) =~= t);
            lemma_prefix_contained(l, t);
        },
    }
    let head = "<li class=\"file-tree__item\">"@;
    if n.is_dir {
        let before = "<details class=\"file-tree__dir\""@ + (if n.is_current || n.is_current_ancestor {
            " open"@
        } else {
            Seq::<char>::empty()
        }) + "><summary class=\""@ + "file-tree__summary"@ + (if n.is_current {
            " active"@
        } else {
            Seq::<char>::empty()
        }) + "\">"@;
        let after = "</summary>"@ + (if n.children@.len() > 0 {
            "<ul class=\"file-tree\">"@ + nodes_html(n.children@, n.children@.len() as int) + "</ul>"@
        } else {
            Seq::<char>::empty()
        }) + "</details>"@ + "</li>"@;
        assert(node_html(n) =~= (head + before) + l + after);
        match n.href {
            Some(h) => lemma_contains_extend(l, link_start(h@), head + before, after),
            None => lemma_contains_extend(l, "<span class=\"file-tree__link"@, head + before, after),
        }
    } else {
        assert(node_html(n) =~= head + l + "</li>"@);
        match n.href {
            Some(h) => lemma_contains_extend(l, link_start(h@), head, "</li>"@),
            None => lemma_contains_extend(l, "<span class=\"file-tree__link"@, head, "</li>"@),
        }
    }
}

proof fn lemma_node_in_nodes(ns: Seq<FileTreeNode>, i: int, m: int, t: Seq<char>)
    requires
        0 <= i < m <= ns.len(),
        contains(node_html(ns[i]), t),
    ensures
        contains(nodes_html(ns, m), t),
    decreases m,
{
    if m == i + 1 {
        lemma_contains_extend(node_html(ns[i]), t, nodes_html(ns, i), Seq::<char>::empty());
        assert(nodes_html(ns, i) + node_html(ns[i]) + Seq::<char>::empty() =~= nodes_html(ns, m));
    } else {
        lemma_node_in_nodes(ns, i, m - 1, t);
        lemma_contains_extend(nodes_html(ns, m - 1), t, Seq::<char>::empty(), node_html(ns[m - 1]));
        assert(Seq::<char>::empty() + nodes_html(ns, m - 1) + node_html(ns[m - 1]) =~= nodes_html(ns, m));
    }
}

/// Every node of a tree that links to a page is written as a link to that
/// page, `<a href="` and its escaped address, whether it is a page or a
/// directory summary and whatever it says of the current page; only a
/// node without a page is written as a `<span>`.
pub proof fn law_pages_are_linked(ns: Seq<FileTreeNode>, i: int)
    requires
        0 <= i < ns.len(),
    ensures
        ns[i].href matches Some(h) ==> contains(tree_html(ns), link_start(h@)),
        ns[i].href is None ==> contains(tree_html(ns), "<span class=\"file-tree__link"@),
{
    lemma_link_in_node(ns[i]);
    let pre = "<ul class=\"file-tree\">"@;
    let post = "</ul>"@;
    match ns[i].href {
        Some(h) => {
            lemma_node_in_nodes(ns, i, ns.len() as int, link_start(h@));
            lemma_contains_extend(nodes_html(ns, ns.len() as int), link_start(h@), pre, post);
        },
        None => {
            lemma_node_in_nodes(ns, i, ns.len() as int, "<span class=\"file-tree__link"@);
            lemma_contains_extend(nodes_html(ns, ns.len() as int), "<span class=\"file-tree__link"@, pre, post);
        },
    }
}

} // verus!
