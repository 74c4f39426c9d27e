//! Character-level definitions shared by the rest of the crate: Unicode
//! whitespace and control characters, trimming, splitting on a separator,
//! and the conversions between `String` and `Vec<char>`.
use vstd::prelude::*;

verus! {

/// `char::is_whitespace`: the Unicode `White_Space` property.
pub open spec fn is_whitespace(c: char) -> bool {
    ||| ('\u{9}' <= c && c <= '\u{d}')
    ||| c == ' '
    ||| c == '\u{85}'
    ||| c == '\u{a0}'
    ||| c == '\u{1680}'
    ||| ('\u{2000}' <= c && c <= '\u{200a}')
    ||| c == '\u{2028}'
    ||| c == '\u{2029}'
    ||| c == '\u{202f}'
    ||| c == '\u{205f}'
    ||| c == '\u{3000}'
}

/// `char::is_control`: the Unicode general category `Cc`.
pub open spec fn is_control(c: char) -> bool {
    c <= '\u{1f}' || ('\u{7f}' <= c && c <= '\u{9f}')
}

pub fn char_is_whitespace(c: char) -> (b: bool)
    ensures
        b == is_whitespace(c),
{
    ('\u{9}' <= c && c <= '\u{d}') || c == ' ' || c == '\u{85}' || c == '\u{a0}' || c == '\u{1680}'
        || ('\u{2000}' <= c && c <= '\u{200a}') || c == '\u{2028}' || c == '\u{2029}' || c
        == '\u{202f}' || c == '\u{205f}' || c == '\u{3000}'
}

pub fn char_is_control(c: char) -> (b: bool)
    ensures
        b == is_control(c),
{
    c <= '\u{1f}' || ('\u{7f}' <= c && c <= '\u{9f}')
}

/// The characters of `s`, in order.
pub fn chars_of(s: &str) -> (v: Vec<char>)
    ensures
        v@ == s@,
{
    let mut v: Vec<char> = Vec::new();
    for c in it: s.chars()
        invariant
            v@ == it.seq().take(it.index() as int),
            it.seq() == s@,
    {
        v.push(c);
    }
    v
}

/// `String::push`: appends one character.
#[verifier::external_body]
pub(crate) fn push_char(s: &mut String, c: char)
    ensures
        final(s)@ == old(s)@.push(c),
{
    s.push(c);
}

/// The string made of the characters of `v`, in order.
pub fn string_of(v: &[char]) -> (s: String)
    ensures
        s@ == v@,
{
    let mut s = String::new();
    for i in 0..v.len()
        invariant
            s@ == v@.take(i as int),
    {
        push_char(&mut s, v[i]);
        assert(v@.take(i + 1) == v@.take(i as int).push(v@[i as int]));
    }
    assert(v@.take(v.len() as int) == v@);
    s
}

/// `String::push_str`: appends a string slice.
#[verifier::external_body]
pub(crate) fn push_str(s: &mut String, t: &str)
    ensures
        final(s)@ == old(s)@ + t@,
{
    s.push_str(t);
}

/// The name of `str::to_lowercase`'s result: the Unicode lowercase mapping
/// of a whole string (which may change its length).
pub uninterp spec fn unicode_lowercase(s: Seq<char>) -> Seq<char>;

/// `str::to_lowercase`, which maps every character to its Unicode lowercase
/// form; its result depends on the argument alone.
#[verifier::external_body]
pub(crate) fn to_lowercase(s: &str) -> (r: String)
    ensures
        r@ == unicode_lowercase(s@),
{
    s.to_lowercase()
}

/// `s` with leading characters satisfying `p` removed.
pub open spec fn trim_start_by(s: Seq<char>, p: spec_fn(char) -> bool) -> Seq<char>
    decreases s.len(),
{
    if s.len() > 0 && p(s[0]) {
        trim_start_by(s.skip(1), p)
    } else {
        s
    }
}

/// `s` with trailing characters satisfying `p` removed.
pub open spec fn trim_end_by(s: Seq<char>, p: spec_fn(char) -> bool) -> Seq<char>
    decreases s.len(),
{
    if s.len() > 0 && p(s.last()) {
        trim_end_by(s.drop_last(), p)
    } else {
        s
    }
}

/// `str::trim_start`.
pub open spec fn trim_start(s: Seq<char>) -> Seq<char> {
    trim_start_by(s, |c: char| is_whitespace(c))
}

/// `str::trim_end`.
pub open spec fn trim_end(s: Seq<char>) -> Seq<char> {
    trim_end_by(s, |c: char| is_whitespace(c))
}

/// `str::trim`: whitespace removed from both ends.
pub open spec fn trim(s: Seq<char>) -> Seq<char> {
    trim_end(trim_start(s))
}

pub proof fn lemma_trim_start_skip(s: Seq<char>, p: spec_fn(char) -> bool, i: int)
    requires
        0 <= i <= s.len(),
        forall|k: int| 0 <= k < i ==> p(#[trigger] s[k]),
    ensures
        trim_start_by(s, p) == trim_start_by(s.skip(i), p),
    decreases i,
{
    if i > 0 {
        assert(s.skip(1).skip(i - 1) == s.skip(i));
        lemma_trim_start_skip(s.skip(1), p, i - 1);
    } else {
        assert(s.skip(0) == s);
    }
}

pub proof fn lemma_trim_end_take(s: Seq<char>, p: spec_fn(char) -> bool, j: int)
    requires
        0 <= j <= s.len(),
        forall|k: int| j <= k < s.len() ==> p(#[trigger] s[k]),
    ensures
        trim_end_by(s, p) == trim_end_by(s.take(j), p),
    decreases s.len() - j,
{
    if j < s.len() {
        assert(s.drop_last().take(j) == s.take(j));
        lemma_trim_end_take(s.drop_last(), p, j);
    } else {
        assert(s.take(j) == s);
    }
}

fn trimmed_char(c: char, dash: bool) -> (b: bool)
    ensures
        b == (if dash { c == '-' } else { is_whitespace(c) }),
{
    if dash {
        c == '-'
    } else {
        char_is_whitespace(c)
    }
}

/// Removes leading characters that are whitespace (when `dash` is false)
/// or `'-'` (when `dash` is true).
pub fn trim_start_chars(v: &[char], dash: bool) -> (r: Vec<char>)
    ensures
        !dash ==> r@ == trim_start(v@),
        dash ==> r@ == trim_start_by(v@, |c: char| c == '-'),
{
    let ghost p: spec_fn(char) -> bool = if dash { |c: char| c == '-' } else { |c: char| is_whitespace(c) };
    let mut a: usize = 0;
    while a < v.len() && trimmed_char(v[a], dash)
        invariant
            a <= v.len(),
            forall|k: int| 0 <= k < a ==> p(#[trigger] v@[k]),
            p == (if dash { |c: char| c == '-' } else { |c: char| is_whitespace(c) }),
        decreases v.len() - a,
    {
        a = a + 1;
    }
    proof {
        lemma_trim_start_skip(v@, p, a as int);
    }
    let mut r: Vec<char> = Vec::new();
    let mut i = a;
    while i < v.len()
        invariant
            a <= i <= v.len(),
            r@ == v@.subrange(a as int, i as int),
        decreases v.len() - i,
    {
        r.push(v[i]);
        i = i + 1;
    }
    assert(r@ == v@.skip(a as int));
    r
}

/// Removes trailing characters that are whitespace (when `dash` is false)
/// or `'-'` (when `dash` is true).
pub fn trim_end_chars(v: &[char], dash: bool) -> (r: Vec<char>)
    ensures
        !dash ==> r@ == trim_end(v@),
        dash ==> r@ == trim_end_by(v@, |c: char| c == '-'),
{
    let ghost p: spec_fn(char) -> bool = if dash { |c: char| c == '-' } else { |c: char| is_whitespace(c) };
    let mut b: usize = v.len();
    while b > 0 && trimmed_char(v[b - 1], dash)
        invariant
            b <= v.len(),
            forall|k: int| b <= k < v.len() ==> p(#[trigger] v@[k]),
            p == (if dash { |c: char| c == '-' } else { |c: char| is_whitespace(c) }),
        decreases b,
    {
        b = b - 1;
    }
    proof {
        lemma_trim_end_take(v@, p, b as int);
    }
    let mut r: Vec<char> = Vec::new();
    let mut i: usize = 0;
    while i < b
        invariant
            i <= b <= v.len(),
            r@ == v@.take(i as int),
        decreases b - i,
    {
        r.push(v[i]);
        i = i + 1;
    }
    r
}

/// Both ends trimmed of whitespace: `str::trim`.
pub fn trim_chars(v: &[char]) -> (r: Vec<char>)
    ensures
        r@ == trim(v@),
{
    let a = trim_start_chars(v, false);
    trim_end_chars(&a, false)
}

/// What `trim_start_by` leaves is a suffix of its input that does not begin
/// with a trimmed character.
pub proof fn lemma_trim_start_by_shape(s: Seq<char>, p: spec_fn(char) -> bool)
    ensures
        exists|k: int| 0 <= k <= s.len() && trim_start_by(s, p) == s.skip(k),
        trim_start_by(s, p).len() > 0 ==> !p(trim_start_by(s, p)[0]),
    decreases s.len(),
{
    if s.len() > 0 && p(s[0]) {
        lemma_trim_start_by_shape(s.skip(1), p);
        let k = choose|k: int| 0 <= k <= s.skip(1).len() && trim_start_by(s.skip(1), p) == s.skip(1).skip(k);
        assert(s.skip(1).skip(k) == s.skip(k + 1));
    } else {
        assert(s.skip(0) == s);
    }
}

/// What `trim_end_by` leaves is a prefix of its input that does not end
/// with a trimmed character.
pub proof fn lemma_trim_end_by_shape(s: Seq<char>, p: spec_fn(char) -> bool)
    ensures
        exists|k: int| 0 <= k <= s.len() && trim_end_by(s, p) == s.take(k),
        trim_end_by(s, p).len() > 0 ==> !p(trim_end_by(s, p).last()),
    decreases s.len(),
{
    if s.len() > 0 && p(s.last()) {
        lemma_trim_end_by_shape(s.drop_last(), p);
        let k = choose|k: int| 0 <= k <= s.drop_last().len() && trim_end_by(s.drop_last(), p) == s.drop_last().take(k);
        assert(s.drop_last().take(k) == s.take(k));
    } else {
        assert(s.take(s.len() as int) == s);
    }
}

/// `str::split(sep)`: the pieces between occurrences of `sep`; there is
/// always at least one piece.
pub open spec fn split_on(s: Seq<char>, sep: char) -> Seq<Seq<char>>
    decreases s.len(),
{
    if s.len() == 0 {
        seq![Seq::<char>::empty()]
    } else {
        let p = split_on(s.drop_last(), sep);
        if s.last() == sep {
            p.push(Seq::<char>::empty())
        } else {
            p.update(p.len() - 1, p.last().push(s.last()))
        }
    }
}

pub proof fn lemma_split_on_nonempty(s: Seq<char>, sep: char)
    ensures
        split_on(s, sep).len() >= 1,
    decreases s.len(),
{
    if s.len() > 0 {
        lemma_split_on_nonempty(s.drop_last(), sep);
    }
}

/// A sequence without the separator is its own single piece.
pub proof fn lemma_split_on_without_sep(s: Seq<char>, sep: char)
    requires
        forall|k: int| 0 <= k < s.len() ==> #[trigger] s[k] != sep,
    ensures
        split_on(s, sep) == seq![s],
    decreases s.len(),
{
    if s.len() == 0 {
        assert(s =~= Seq::<char>::empty());
    } else {
        let d = s.drop_last();
        assert forall|k: int| 0 <= k < d.len() implies #[trigger] d[k] != sep by {
            assert(d[k] == s[k]);
        }
        lemma_split_on_without_sep(d, sep);
        assert(s.last() != sep);
        assert(d.push(s.last()) =~= s);
        assert(seq![d].update(0, d.push(s.last())) =~= seq![s]);
    }
}

/// One step of `split_on` along a growing prefix.
pub proof fn lemma_split_on_step(s: Seq<char>, sep: char, i: int)
    requires
        0 <= i < s.len(),
    ensures
        split_on(s.take(i), sep).len() >= 1,
        s[i] == sep ==> split_on(s.take(i + 1), sep) == split_on(s.take(i), sep).push(
            Seq::<char>::empty(),
        ),
        s[i] != sep ==> split_on(s.take(i + 1), sep) == split_on(s.take(i), sep).update(
            split_on(s.take(i), sep).len() - 1,
            split_on(s.take(i), sep).last().push(s[i]),
        ),
{
    lemma_split_on_nonempty(s.take(i), sep);
    assert(s.take(i + 1).drop_last() == s.take(i));
}

/// The pieces of `v` between occurrences of `sep`.
pub fn split_chars(v: &[char], sep: char) -> (r: Vec<Vec<char>>)
    ensures
        r@.len() == split_on(v@, sep).len(),
        forall|j: int| 0 <= j < r@.len() ==> (#[trigger] r@[j])@ == split_on(v@, sep)[j],
{
    let mut r: Vec<Vec<char>> = Vec::new();
    r.push(Vec::new());
    proof {
        assert(v@.take(0) =~= Seq::<char>::empty());
    }
    for i in 0..v.len()
        invariant
            r@.len() == split_on(v@.take(i as int), sep).len(),
            r@.len() >= 1,
            forall|j: int|
                0 <= j < r@.len() ==> (#[trigger] r@[j])@ == split_on(v@.take(i as int), sep)[j],
    {
        proof {
            lemma_split_on_step(v@, sep, i as int);
        }
        let ghost old_r = r@;
        if v[i] == sep {
            r.push(Vec::new());
            assert forall|j: int| 0 <= j < r@.len() implies (#[trigger] r@[j])@ == split_on(
                v@.take(i + 1),
                sep,
            )[j] by {
                if j < old_r.len() {
                    assert(r@[j] == old_r[j]);
                }
            }
        } else {
            let mut last = r.pop().unwrap();
            last.push(v[i]);
            r.push(last);
            assert forall|j: int| 0 <= j < r@.len() implies (#[trigger] r@[j])@ == split_on(
                v@.take(i + 1),
                sep,
            )[j] by {
                if j < old_r.len() - 1 {
                    assert(r@[j] == old_r[j]);
                }
            }
        }
    }
    assert(v@.take(v.len() as int) == v@);
    r
}

/// A line without the `\r` of a `\r\n` ending.
pub open spec fn strip_cr(l: Seq<char>) -> Seq<char> {
    if l.len() > 0 && l.last() == '\r' {
        l.drop_last()
    } else {
        l
    }
}

/// `str::lines`: the pieces between `\n`, each without the `\r` of a
/// `\r\n` ending, and with no empty piece after a final `\n`.
pub open spec fn lines(s: Seq<char>) -> Seq<Seq<char>> {
    let segs = split_on(s, '\n');
    let n = segs.len();
    Seq::new(
        (if segs.last().len() == 0 {
            n - 1
        } else {
            n as int
        }) as nat,
        |i: int|
            if i < n - 1 {
                strip_cr(segs[i])
            } else {
                segs[i]
            },
    )
}

/// The lines of `v`, as `str::lines` gives them.
pub fn lines_of(v: &[char]) -> (r: Vec<Vec<char>>)
    ensures
        r@.len() == lines(v@).len(),
        forall|j: int| 0 <= j < r@.len() ==> (#[trigger] r@[j])@ == lines(v@)[j],
{
    let segs = split_chars(v, '\n');
    proof {
        lemma_split_on_nonempty(v@, '\n');
    }
    let n = segs.len();
    let count = if segs[n - 1].len() == 0 {
        n - 1
    } else {
        n
    };
    let mut r: Vec<Vec<char>> = Vec::new();
    for i in 0..count
        invariant
            n == segs@.len(),
            n >= 1,
            count <= n,
            count == lines(v@).len(),
            segs@.len() == split_on(v@, '\n').len(),
            forall|j: int| 0 <= j < segs@.len() ==> (#[trigger] segs@[j])@ == split_on(v@, '\n')[j],
            r@.len() == i,
            forall|j: int| 0 <= j < i ==> (#[trigger] r@[j])@ == lines(v@)[j],
    {
        let seg = &segs[i];
        let mut line: Vec<char> = Vec::new();
        let keep = if i < n - 1 && seg.len() > 0 && seg[seg.len() - 1] == '\r' {
            seg.len() - 1
        } else {
            seg.len()
        };
        for k in 0..keep
            invariant
                keep <= seg@.len(),
                line@ == seg@.take(k as int),
        {
            line.push(seg[k]);
            assert(seg@.take(k + 1) == seg@.take(k as int).push(seg@[k as int]));
        }
        proof {
            assert(segs@[i as int]@ == split_on(v@, '\n')[i as int]);
            if keep == seg.len() {
                assert(seg@.take(keep as int) == seg@);
            } else {
                assert(seg@.take(keep as int) == seg@.drop_last());
            }
        }
        r.push(line);
    }
    r
}

/// Lexicographic order on character sequences (by code point), which is
/// the order of their UTF-8 bytes, as `String`'s `Ord` compares them.
pub open spec fn seq_lt(a: Seq<char>, b: Seq<char>) -> bool
    decreases a.len(),
{
    if a.len() == 0 {
        b.len() > 0
    } else if b.len() == 0 {
        false
    } else if a[0] != b[0] {
        a[0] < b[0]
    } else {
        seq_lt(a.skip(1), b.skip(1))
    }
}

/// The order is lexicographic by code point: `a` comes before `b` exactly
/// when `a` is a proper prefix of `b`, or at the first place where they
/// differ `a` has the smaller character.
pub proof fn law_seq_lt_lexicographic(a: Seq<char>, b: Seq<char>)
    ensures
        seq_lt(a, b) <==> (a.len() < b.len() && b.take(a.len() as int) == a) || exists|k: int|
            0 <= k < a.len() && k < b.len() && a.take(k) == b.take(k) && #[trigger] a[k] < b[k],
    decreases a.len(),
{
    if a.len() == 0 {
        assert(b.take(0) =~= a);
    } else if b.len() == 0 {
    } else if a[0] != b[0] {
        assert(a.take(0) =~= b.take(0));
        if a[0] > b[0] {
            assert forall|k: int| 0 <= k < a.len() && k < b.len() && a.take(k) == b.take(k) implies !(
            #[trigger] a[k] < b[k]) by {
                if k > 0 {
                    assert(a.take(k)[0] == b.take(k)[0]);
                }
            }
            if a.len() < b.len() && b.take(a.len() as int) == a {
                assert(b.take(a.len() as int)[0] == b[0]);
            }
        }
    } else {
        let a1 = a.skip(1);
        let b1 = b.skip(1);
        law_seq_lt_lexicographic(a1, b1);
        if a1.len() < b1.len() && b1.take(a1.len() as int) == a1 {
            assert(b.take(a.len() as int) =~= a) by {
                assert forall|i: int| 0 <= i < a.len() implies #[trigger] b.take(a.len() as int)[i] == a[i] by {
                    if i > 0 {
                        assert(b1.take(a1.len() as int)[i - 1] == a1[i - 1]);
                    }
                }
            }
        }
        if a.len() < b.len() && b.take(a.len() as int) == a {
            assert(b1.take(a1.len() as int) =~= a1) by {
                assert forall|i: int| 0 <= i < a1.len() implies #[trigger] b1.take(a1.len() as int)[i] == a1[i] by {
                    assert(b.take(a.len() as int)[i + 1] == a[i + 1]);
                }
            }
        }
        if exists|k: int| 0 <= k < a1.len() && k < b1.len() && a1.take(k) == b1.take(k) && #[trigger] a1[k] < b1[k] {
            let k = choose|k: int| 0 <= k < a1.len() && k < b1.len() && a1.take(k) == b1.take(k) && #[trigger] a1[k] < b1[k];
            assert(a.take(k + 1) =~= b.take(k + 1)) by {
                assert forall|i: int| 0 <= i < k + 1 implies #[trigger] a.take(k + 1)[i] == b.take(k + 1)[i] by {
                    if i > 0 {
                        assert(a1.take(k)[i - 1] == b1.take(k)[i - 1]);
                    }
                }
            }
            assert(a[k + 1] < b[k + 1]);
        }
        if exists|k: int| 0 <= k < a.len() && k < b.len() && a.take(k) == b.take(k) && #[trigger] a[k] < b[k] {
            let k = choose|k: int| 0 <= k < a.len() && k < b.len() && a.take(k) == b.take(k) && #[trigger] a[k] < b[k];
            assert(k > 0);
            assert(a1.take(k - 1) =~= b1.take(k - 1)) by {
                assert forall|i: int| 0 <= i < k - 1 implies #[trigger] a1.take(k - 1)[i] == b1.take(k - 1)[i] by {
                    assert(a.take(k)[i + 1] == b.take(k)[i + 1]);
                }
            }
            assert(a1[k - 1] < b1[k - 1]);
        }
    }
}

/// No sequence comes before itself.
pub proof fn lemma_seq_lt_irreflexive(a: Seq<char>)
    ensures
        !seq_lt(a, a),
    decreases a.len(),
{
    if a.len() > 0 {
        lemma_seq_lt_irreflexive(a.skip(1));
    }
}

pub proof fn lemma_seq_lt_transitive(a: Seq<char>, b: Seq<char>, c: Seq<char>)
    requires
        seq_lt(a, b),
        seq_lt(b, c),
    ensures
        seq_lt(a, c),
    decreases a.len(),
{
    if a.len() > 0 && b.len() > 0 && c.len() > 0 {
        if a[0] == b[0] && b[0] == c[0] {
            lemma_seq_lt_transitive(a.skip(1), b.skip(1), c.skip(1));
        }
    }
}

pub proof fn lemma_seq_lt_total(a: Seq<char>, b: Seq<char>)
    ensures
        a == b || seq_lt(a, b) || seq_lt(b, a),
    decreases a.len(),
{
    if a.len() > 0 && b.len() > 0 && a[0] == b[0] {
        lemma_seq_lt_total(a.skip(1), b.skip(1));
        if a.skip(1) == b.skip(1) {
            assert(a == seq![a[0]] + a.skip(1));
            assert(b == seq![b[0]] + b.skip(1));
        }
    } else if a.len() == 0 && b.len() == 0 {
        assert(a == b);
    }
}

/// Whether `a` comes before `b` in lexicographic order.
pub fn chars_lt(a: &[char], b: &[char]) -> (r: bool)
    ensures
        r == seq_lt(a@, b@),
{
    let mut i: usize = 0;
    assert(a@.skip(0) == a@ && b@.skip(0) == b@);
    while i < a.len() && i < b.len() && a[i] == b[i]
        invariant
            i <= a.len(),
            i <= b.len(),
            seq_lt(a@, b@) == seq_lt(a@.skip(i as int), b@.skip(i as int)),
        decreases a.len() - i,
    {
        assert(a@.skip(i as int).skip(1) == a@.skip(i + 1));
        assert(b@.skip(i as int).skip(1) == b@.skip(i + 1));
        i = i + 1;
    }
    if i == a.len() {
        i < b.len()
    } else if i == b.len() {
        false
    } else {
        a[i] < b[i]
    }
}

/// `s` contains the character `c`.
pub open spec fn has_char(s: Seq<char>, c: char) -> bool {
    exists|k: int| 0 <= k < s.len() && s[k] == c
}

/// Equality of two character sequences.
pub fn chars_eq(a: &[char], b: &[char]) -> (r: bool)
    ensures
        r == (a@ == b@),
{
    if a.len() != b.len() {
        return false;
    }
    let mut i: usize = 0;
    while i < a.len()
        invariant
            a.len() == b.len(),
            i <= a.len(),
            forall|k: int| 0 <= k < i ==> a@[k] == b@[k],
        decreases a.len() - i,
    {
        if a[i] != b[i] {
            return false;
        }
        i = i + 1;
    }
    assert(a@ == b@);
    true
}

} // verus!
