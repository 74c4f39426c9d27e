//! Article pages: their URLs and titles, the navigation tree of all pages,
//! and the decisions behind showing, editing and previewing a page.
use vstd::prelude::*;
use crate::formatting::{
    article_file, article_slug, branch_name, normalise_newlines, normalised_newlines, opt_ref_view,
    opt_view, resolve_article_path, resolve_article_slug, resolve_branch_name, HOME_PAGE,
    InvalidWikiPath,
};
use crate::git::Author;
use crate::http::{cookie_is, CookieSpec, HttpStatus};
use crate::routes::auth::{csrf_accepts, safe_redirect, safe_redirect_path, verify_csrf_cookie, CurrentUser};
pub use crate::routes::file_tree::{build_file_tree, render_file_tree_html, FileTreeNode};
use crate::routes::file_tree::{level_ok, strings_view, tree_html};
use crate::text::{
    chars_eq, chars_of, lemma_split_on_nonempty, lines, lines_of, push_char, push_str,
    split_chars, split_on, string_of, trim, trim_chars, trim_start, trim_start_chars,
};

verus! {

/// Bytes left as they are by percent-encoding.
pub open spec fn is_unreserved(b: u8) -> bool {
    ||| (65 <= b && b <= 90)
    ||| (97 <= b && b <= 122)
    ||| (48 <= b && b <= 57)
    ||| b == 45 || b == 95 || b == 46 || b == 126 || b == 47
}

/// The uppercase hexadecimal digit of `n < 16`.
pub open spec fn hex_upper(n: u8) -> char {
    if n < 10 {
        ((n + 48) as u8) as char
    } else {
        ((n + 55) as u8) as char
    }
}

/// One byte percent-encoded: itself when unreserved, `%XX` otherwise.
pub open spec fn encode_byte(b: u8) -> Seq<char> {
    if is_unreserved(b) {
        seq![b as char]
    } else {
        seq!['%', hex_upper(b / 16), hex_upper(b % 16)]
    }
}

/// The bytes percent-encoded one after another.
pub open spec fn percent_encoded(bytes: Seq<u8>) -> Seq<char>
    decreases bytes.len(),
{
    if bytes.len() == 0 {
        Seq::<char>::empty()
    } else {
        percent_encoded(bytes.drop_last()) + encode_byte(bytes.last())
    }
}

/// The UTF-8 bytes of `s`, percent-encoded.
pub open spec fn url_encoded(s: Seq<char>) -> Seq<char> {
    percent_encoded(vstd::utf8::encode_utf8(s))
}

fn hex_digit(n: u8) -> (c: char)
    requires
        n < 16,
    ensures
        c == hex_upper(n),
{
    if n < 10 {
        (n + 48) as char
    } else {
        (n + 55) as char
    }
}

fn percent_encode(value: &str) -> (r: String)
    ensures
        r@ == url_encoded(value@),
{
    let bytes = value.as_bytes();
    let mut out = String::new();
    let mut i: usize = 0;
    while i < bytes.len()
        invariant
            i <= bytes@.len(),
            bytes@ == vstd::utf8::encode_utf8(value@),
            out@ == percent_encoded(bytes@.take(i as int)),
        decreases bytes.len() - i,
    {
        let b = bytes[i];
        assert(bytes@.take(i + 1).drop_last() == bytes@.take(i as int));
        if (65 <= b && b <= 90) || (97 <= b && b <= 122) || (48 <= b && b <= 57) || b == 45 || b
            == 95 || b == 46 || b == 126 || b == 47 {
            push_char(&mut out, b as char);
        } else {
            push_char(&mut out, '%');
            push_char(&mut out, hex_digit(b / 16));
            push_char(&mut out, hex_digit(b % 16));
        }
        i = i + 1;
    }
    assert(bytes@.take(bytes@.len() as int) == bytes@);
    out
}

/// A character an encoded URL part may hold: an ASCII letter or digit, one
/// of `-_.~/`, or the `%` of an escape.
pub open spec fn url_char(c: char) -> bool {
    ||| ('A' <= c && c <= 'Z')
    ||| ('a' <= c && c <= 'z')
    ||| ('0' <= c && c <= '9')
    ||| c == '-' || c == '_' || c == '.' || c == '~' || c == '/' || c == '%'
}

proof fn lemma_encode_byte_chars(b: u8)
    ensures
        forall|k: int| 0 <= k < encode_byte(b).len() ==> url_char(#[trigger] encode_byte(b)[k]),
{
    assert(b / 16 < 16);
    assert(b % 16 < 16);
}

proof fn lemma_percent_encoded_chars(bytes: Seq<u8>)
    ensures
        forall|k: int|
            0 <= k < percent_encoded(bytes).len() ==> url_char(#[trigger] percent_encoded(bytes)[k]),
    decreases bytes.len(),
{
    if bytes.len() > 0 {
        lemma_percent_encoded_chars(bytes.drop_last());
        lemma_encode_byte_chars(bytes.last());
        let a = percent_encoded(bytes.drop_last());
        let b = encode_byte(bytes.last());
        assert forall|k: int| 0 <= k < (a + b).len() implies url_char(#[trigger] (a + b)[k]) by {
            if k < a.len() {
                assert((a + b)[k] == a[k]);
            } else {
                assert((a + b)[k] == b[k - a.len()]);
            }
        }
    }
}

/// An encoded URL part holds only ASCII letters and digits, `-_.~/` and the
/// `%` of escapes: no space, quote, `?`, `#`, `&` or other character that
/// would end or change the part it is put in.
pub proof fn law_url_encoded_chars(s: Seq<char>)
    ensures
        forall|k: int| 0 <= k < url_encoded(s).len() ==> url_char(#[trigger] url_encoded(s)[k]),
{
    lemma_percent_encoded_chars(vstd::utf8::encode_utf8(s));
}

/// The value of an uppercase hexadecimal digit.
pub open spec fn hex_value(c: char) -> int {
    if '0' <= c && c <= '9' {
        c as int - 48
    } else if 'A' <= c && c <= 'F' {
        c as int - 55
    } else {
        0
    }
}

/// Percent-decoding: `%XX` becomes the byte `XX`, any other character the
/// byte of its code.
pub open spec fn percent_decoded(s: Seq<char>) -> Seq<u8>
    decreases s.len(),
{
    if s.len() == 0 {
        Seq::<u8>::empty()
    } else if s[0] == '%' && s.len() >= 3 {
        seq![(hex_value(s[1]) * 16 + hex_value(s[2])) as u8] + percent_decoded(s.skip(3))
    } else {
        seq![s[0] as u8] + percent_decoded(s.skip(1))
    }
}

/// How many of the bytes are escaped.
pub open spec fn escaped_count(bytes: Seq<u8>) -> nat
    decreases bytes.len(),
{
    if bytes.len() == 0 {
        0
    } else {
        escaped_count(bytes.drop_last()) + if is_unreserved(bytes.last()) {
            0nat
        } else {
            1nat
        }
    }
}

proof fn lemma_percent_encoded_append(a: Seq<u8>, b: Seq<u8>)
    ensures
        percent_encoded(a + b) == percent_encoded(a) + percent_encoded(b),
    decreases b.len(),
{
    if b.len() == 0 {
        assert(a + b =~= a);
        assert(percent_encoded(a) + Seq::<char>::empty() =~= percent_encoded(a));
    } else {
        lemma_percent_encoded_append(a, b.drop_last());
        assert((a + b).drop_last() =~= a + b.drop_last());
        assert((a + b).last() == b.last());
        assert(percent_encoded(a) + percent_encoded(b.drop_last()) + encode_byte(b.last())
            =~= percent_encoded(a) + (percent_encoded(b.drop_last()) + encode_byte(b.last())));
    }
}

proof fn lemma_hex_roundtrip(n: u8)
    requires
        n < 16,
    ensures
        hex_value(hex_upper(n)) == n,
{
}

proof fn lemma_decode_byte(b: u8, rest: Seq<char>)
    ensures
        percent_decoded(encode_byte(b) + rest) == seq![b] + percent_decoded(rest),
{
    let x = encode_byte(b) + rest;
    if is_unreserved(b) {
        assert(x[0] == b as char);
        assert(x.skip(1) =~= rest);
        assert((b as char) as u8 == b);
    } else {
        lemma_hex_roundtrip(b / 16);
        lemma_hex_roundtrip(b % 16);
        assert(x[0] == '%' && x[1] == hex_upper(b / 16) && x[2] == hex_upper(b % 16));
        assert(x.skip(3) =~= rest);
        assert((b / 16) * 16 + b % 16 == b);
    }
}

/// Percent-encoding loses nothing: decoding the encoded bytes gives them
/// back, and the encoding is two characters longer for each escaped byte.
pub proof fn law_percent_encoding_roundtrip(bytes: Seq<u8>)
    ensures
        percent_decoded(percent_encoded(bytes)) == bytes,
        percent_encoded(bytes).len() == bytes.len() + 2 * escaped_count(bytes),
    decreases bytes.len(),
{
    if bytes.len() > 0 {
        let t = bytes.skip(1);
        law_percent_encoding_roundtrip(t);
        lemma_percent_encoded_append(seq![bytes[0]], t);
        assert(seq![bytes[0]] + t =~= bytes);
        let one = seq![bytes[0]];
        assert(one.drop_last() =~= Seq::<u8>::empty());
        assert(one.last() == bytes[0]);
        assert(percent_encoded(one.drop_last()) =~= Seq::<char>::empty());
        assert(Seq::<char>::empty() + encode_byte(bytes[0]) =~= encode_byte(bytes[0]));
        assert(percent_encoded(one) == encode_byte(bytes[0]));
        lemma_decode_byte(bytes[0], percent_encoded(t));
        assert(seq![bytes[0]] + t == bytes);
        lemma_escaped_count_length(bytes);
    }
}

proof fn lemma_escaped_count_length(bytes: Seq<u8>)
    ensures
        percent_encoded(bytes).len() == bytes.len() + 2 * escaped_count(bytes),
    decreases bytes.len(),
{
    if bytes.len() > 0 {
        lemma_escaped_count_length(bytes.drop_last());
    }
}

proof fn lemma_escaped_count_append(a: Seq<u8>, b: Seq<u8>)
    ensures
        escaped_count(a + b) == escaped_count(a) + escaped_count(b),
    decreases b.len(),
{
    if b.len() == 0 {
        assert(a + b =~= a);
    } else {
        lemma_escaped_count_append(a, b.drop_last());
        assert((a + b).drop_last() =~= a + b.drop_last());
        assert((a + b).last() == b.last());
    }
}

proof fn lemma_utf8_not_shorter(s: Seq<char>)
    ensures
        s.len() <= vstd::utf8::encode_utf8(s).len(),
    decreases s.len(),
{
    if s.len() > 0 {
        lemma_utf8_not_shorter(s.drop_first());
    }
}

proof fn lemma_no_escapes_each(bytes: Seq<u8>)
    requires
        escaped_count(bytes) == 0,
    ensures
        forall|i: int| 0 <= i < bytes.len() ==> is_unreserved(#[trigger] bytes[i]),
    decreases bytes.len(),
{
    if bytes.len() > 0 {
        lemma_no_escapes_each(bytes.drop_last());
        assert forall|i: int| 0 <= i < bytes.len() implies is_unreserved(#[trigger] bytes[i]) by {
            if i < bytes.len() - 1 {
                assert(bytes[i] == bytes.drop_last()[i]);
            }
        }
    }
}

proof fn lemma_ascii_text_unchanged(s: Seq<char>)
    requires
        escaped_count(vstd::utf8::encode_utf8(s)) == 0,
    ensures
        url_encoded(s) == s,
    decreases s.len(),
{
    if s.len() > 0 {
        let v = s[0] as u32;
        let e = vstd::utf8::encode_scalar(v);
        let rest = vstd::utf8::encode_utf8(s.drop_first());
        assert(vstd::utf8::encode_utf8(s) == e + rest);
        lemma_escaped_count_append(e, rest);
        lemma_no_escapes_each(e);
        vstd::utf8::char_is_scalar(s[0]);
        assert(is_unreserved(e[0]));
        if !vstd::utf8::has_width_1_encoding(v) {
            if vstd::utf8::has_width_2_encoding(v) {
                let x = ((v >> 6) & 0x1F) as u8;
                assert(0xC0u8 | x >= 0xC0) by (bit_vector);
            } else if vstd::utf8::has_width_3_encoding(v) {
                let x = ((v >> 12) & 0x0F) as u8;
                assert(0xE0u8 | x >= 0xE0) by (bit_vector);
            } else {
                let x = ((v >> 18) & 0x7) as u8;
                assert(0xF0u8 | x >= 0xF0) by (bit_vector);
            }
            assert(false);
        }
        let b = e[0];
        assert(e == seq![b]);
        assert(b == (v & 0x7F) as u8);
        assert((v & 0x7F) as u8 == v as u8 && v as u8 == v) by (bit_vector)
            requires
                v <= 0x7F,
        ;
        vstd::utf8::char_u32_cast(s[0], v);
        assert((b as char) == s[0]);
        lemma_ascii_text_unchanged(s.drop_first());
        lemma_percent_encoded_append(e, rest);
        assert(e.drop_last() =~= Seq::<u8>::empty());
        assert(e.last() == b);
        assert(percent_encoded(e.drop_last()) =~= Seq::<char>::empty());
        assert(Seq::<char>::empty() + encode_byte(b) =~= encode_byte(b));
        assert(percent_encoded(e) == seq![s[0]]);
        assert(seq![s[0]] + s.drop_first() =~= s);
    }
}

/// A URL part is the text itself exactly when no byte of the text's UTF-8
/// form needs escaping.
pub proof fn law_url_encoded_unchanged(s: Seq<char>)
    ensures
        url_encoded(s) == s <==> escaped_count(vstd::utf8::encode_utf8(s)) == 0,
{
    let b = vstd::utf8::encode_utf8(s);
    lemma_escaped_count_length(b);
    lemma_utf8_not_shorter(s);
    if escaped_count(b) == 0 {
        lemma_ascii_text_unchanged(s);
    }
}

/// A URL part decodes back to the UTF-8 bytes of the text it was made from.
pub proof fn law_url_encoded_decodes(s: Seq<char>)
    ensures
        percent_decoded(url_encoded(s)) == vstd::utf8::encode_utf8(s),
{
    law_percent_encoding_roundtrip(vstd::utf8::encode_utf8(s));
}

/// Percent-encodes a value for a query string, byte by byte of its UTF-8
/// form, leaving ASCII letters, digits and `-_.~/` as they are.
pub fn encode_query_value(value: &str) -> (r: String)
    ensures
        r@ == url_encoded(value@),
{
    percent_encode(value)
}

/// Percent-encodes a page path for a URL, exactly as a query value is.
pub fn encode_url_path(path: &str) -> (r: String)
    ensures
        r@ == url_encoded(path@),
{
    percent_encode(path)
}

/// One character as HTML text: `& < > " '` become entities.
pub open spec fn escape_char(c: char) -> Seq<char> {
    if c == '&' {
        "&amp;"@
    } else if c == '<' {
        "&lt;"@
    } else if c == '>' {
        "&gt;"@
    } else if c == '"' {
        "&quot;"@
    } else if c == '\'' {
        "&#39;"@
    } else {
        seq![c]
    }
}

/// The characters escaped one after another.
pub open spec fn escaped_html(s: Seq<char>) -> Seq<char>
    decreases s.len(),
{
    if s.len() == 0 {
        Seq::<char>::empty()
    } else {
        escaped_html(s.drop_last()) + escape_char(s.last())
    }
}

/// A character that escaping changes.
pub open spec fn html_special(c: char) -> bool {
    c == '&' || c == '<' || c == '>' || c == '"' || c == '\''
}

proof fn lemma_escape_char_inert(c: char)
    ensures
        forall|k: int|
            0 <= k < escape_char(c).len() ==> {
                let d = #[trigger] escape_char(c)[k];
                d != '<' && d != '>' && d != '"' && d != '\''
            },
        !html_special(c) ==> escape_char(c) == seq![c],
{
    reveal_strlit("&amp;");
    reveal_strlit("&lt;");
    reveal_strlit("&gt;");
    reveal_strlit("&quot;");
    reveal_strlit("&#39;");
}

/// Escaped text holds no `<`, `>`, `"` or `'`, so it can neither open a tag
/// nor close an attribute; text without any of the five special characters
/// is left as it is.
pub proof fn law_escaped_html_is_inert(s: Seq<char>)
    ensures
        forall|k: int|
            0 <= k < escaped_html(s).len() ==> {
                let d = #[trigger] escaped_html(s)[k];
                d != '<' && d != '>' && d != '"' && d != '\''
            },
        (forall|k: int| 0 <= k < s.len() ==> !html_special(#[trigger] s[k])) ==> escaped_html(s) == s,
    decreases s.len(),
{
    if s.len() > 0 {
        let d = s.drop_last();
        law_escaped_html_is_inert(d);
        lemma_escape_char_inert(s.last());
        let a = escaped_html(d);
        let b = escape_char(s.last());
        assert(escaped_html(s) == a + b);
        assert forall|k: int| 0 <= k < (a + b).len() implies {
            let x = #[trigger] (a + b)[k];
            x != '<' && x != '>' && x != '"' && x != '\''
        } by {
            if k < a.len() {
                assert((a + b)[k] == a[k]);
            } else {
                assert((a + b)[k] == b[k - a.len()]);
            }
        }
        if forall|k: int| 0 <= k < s.len() ==> !html_special(#[trigger] s[k]) {
            assert forall|k: int| 0 <= k < d.len() implies !html_special(#[trigger] d[k]) by {
                assert(d[k] == s[k]);
            }
            assert(!html_special(s[s.len() - 1]));
            assert(d + seq![s.last()] =~= s);
        }
    }
}

/// HTML unescaping of the five entities that escaping writes, read from
/// the front; any other character stands for itself.
pub open spec fn unescaped_html(s: Seq<char>) -> Seq<char>
    decreases s.len(),
{
    if s.len() == 0 {
        Seq::<char>::empty()
    } else if s.len() >= 5 && s.take(5) == "&amp;"@ {
        seq!['&'] + unescaped_html(s.skip(5))
    } else if s.len() >= 4 && s.take(4) == "&lt;"@ {
        seq!['<'] + unescaped_html(s.skip(4))
    } else if s.len() >= 4 && s.take(4) == "&gt;"@ {
        seq!['>'] + unescaped_html(s.skip(4))
    } else if s.len() >= 6 && s.take(6) == "&quot;"@ {
        seq!['"'] + unescaped_html(s.skip(6))
    } else if s.len() >= 5 && s.take(5) == "&#39;"@ {
        seq!['\''] + unescaped_html(s.skip(5))
    } else {
        seq![s[0]] + unescaped_html(s.skip(1))
    }
}

proof fn lemma_escaped_html_append(a: Seq<char>, b: Seq<char>)
    ensures
        escaped_html(a + b) == escaped_html(a) + escaped_html(b),
    decreases b.len(),
{
    if b.len() == 0 {
        assert(a + b =~= a);
        assert(escaped_html(a) + Seq::<char>::empty() =~= escaped_html(a));
    } else {
        lemma_escaped_html_append(a, b.drop_last());
        assert((a + b).drop_last() =~= a + b.drop_last());
        assert((a + b).last() == b.last());
        assert(escaped_html(a) + escaped_html(b.drop_last()) + escape_char(b.last()) =~= escaped_html(a)
            + (escaped_html(b.drop_last()) + escape_char(b.last())));
    }
}

proof fn lemma_unescape_char(c: char, rest: Seq<char>)
    ensures
        unescaped_html(escape_char(c) + rest) == seq![c] + unescaped_html(rest),
{
    reveal_strlit("&amp;");
    reveal_strlit("&lt;");
    reveal_strlit("&gt;");
    reveal_strlit("&quot;");
    reveal_strlit("&#39;");
    let e = escape_char(c);
    let x = e + rest;
    assert(x.skip(e.len() as int) =~= rest);
    assert(x.take(e.len() as int) =~= e);
    if c == '&' {
    } else if c == '<' {
        assert(x[1] == 'l');
        assert(x.len() >= 5 ==> x.take(5)[1] != "&amp;"@[1]);
    } else if c == '>' {
        assert(x[1] == 'g');
        assert(x.len() >= 5 ==> x.take(5)[1] != "&amp;"@[1]);
        assert(x.take(4)[1] != "&lt;"@[1]);
    } else if c == '"' {
        assert(x[1] == 'q');
        assert(x.len() >= 5 ==> x.take(5)[1] != "&amp;"@[1]);
        assert(x.take(4)[1] != "&lt;"@[1]);
        assert(x.take(4)[1] != "&gt;"@[1]);
    } else if c == '\'' {
        assert(x[1] == '#');
        assert(x.len() >= 5 ==> x.take(5)[1] != "&amp;"@[1]);
        assert(x.take(4)[1] != "&lt;"@[1]);
        assert(x.take(4)[1] != "&gt;"@[1]);
    } else {
        assert(x[0] == c);
        assert(x.len() >= 5 ==> x.take(5)[0] != "&amp;"@[0]);
        assert(x.len() >= 4 ==> x.take(4)[0] != "&lt;"@[0]);
        assert(x.len() >= 4 ==> x.take(4)[0] != "&gt;"@[0]);
        assert(x.len() >= 6 ==> x.take(6)[0] != "&quot;"@[0]);
        assert(x.len() >= 5 ==> x.take(5)[0] != "&#39;"@[0]);
    }
}

/// Escaping loses nothing: unescaping escaped text gives the text back.
pub proof fn law_escaped_html_unescapes(s: Seq<char>)
    ensures
        unescaped_html(escaped_html(s)) == s,
    decreases s.len(),
{
    if s.len() > 0 {
        let t = s.skip(1);
        law_escaped_html_unescapes(t);
        let one = seq![s[0]];
        lemma_escaped_html_append(one, t);
        assert(one + t =~= s);
        assert(one.drop_last() =~= Seq::<char>::empty());
        assert(one.last() == s[0]);
        assert(escaped_html(one.drop_last()) =~= Seq::<char>::empty());
        assert(Seq::<char>::empty() + escape_char(s[0]) =~= escape_char(s[0]));
        assert(escaped_html(one) == escape_char(s[0]));
        lemma_unescape_char(s[0], escaped_html(t));
        assert(seq![s[0]] + t =~= s);
    }
}

/// `str::replace`: every occurrence of `pat`, taken from the front without
/// overlaps, replaced by `rep`.
pub open spec fn replaced(s: Seq<char>, pat: Seq<char>, rep: Seq<char>) -> Seq<char>
    decreases s.len(),
{
    if s.len() == 0 {
        Seq::<char>::empty()
    } else if pat.len() > 0 && s.len() >= pat.len() && s.take(pat.len() as int) == pat {
        rep + replaced(s.skip(pat.len() as int), pat, rep)
    } else {
        seq![s[0]] + replaced(s.skip(1), pat, rep)
    }
}

/// Unescaping by replacing the entities back, `&amp;` last.
pub open spec fn replace_entities_back(r: Seq<char>) -> Seq<char> {
    replaced(
        replaced(
            replaced(replaced(replaced(r, "&lt;"@, "<"@), "&gt;"@, ">"@), "&quot;"@, "\""@),
            "&#39;"@,
            "'"@,
        ),
        "&amp;"@,
        "&"@,
    )
}

/// One of the five entities that escaping writes starts at `k`.
pub open spec fn entity_at(r: Seq<char>, k: int) -> bool {
    ||| (k + 5 <= r.len() && r.subrange(k, k + 5) == "&amp;"@)
    ||| (k + 4 <= r.len() && r.subrange(k, k + 4) == "&lt;"@)
    ||| (k + 4 <= r.len() && r.subrange(k, k + 4) == "&gt;"@)
    ||| (k + 6 <= r.len() && r.subrange(k, k + 6) == "&quot;"@)
    ||| (k + 5 <= r.len() && r.subrange(k, k + 5) == "&#39;"@)
}

/// The place of a special character in the order in which entities are
/// replaced back; 5 for any other character.
spec fn entity_rank(c: char) -> int {
    if c == '<' {
        0
    } else if c == '>' {
        1
    } else if c == '"' {
        2
    } else if c == '\'' {
        3
    } else if c == '&' {
        4
    } else {
        5
    }
}

spec fn entity_of_rank(k: int) -> Seq<char> {
    if k == 0 {
        "&lt;"@
    } else if k == 1 {
        "&gt;"@
    } else if k == 2 {
        "&quot;"@
    } else if k == 3 {
        "&#39;"@
    } else {
        "&amp;"@
    }
}

spec fn char_of_rank(k: int) -> char {
    if k == 0 {
        '<'
    } else if k == 1 {
        '>'
    } else if k == 2 {
        '"'
    } else if k == 3 {
        '\''
    } else {
        '&'
    }
}

/// A character after the first `k` replacements.
spec fn stage_char(c: char, k: int) -> Seq<char> {
    if entity_rank(c) < k {
        seq![c]
    } else {
        escape_char(c)
    }
}

/// Escaped text after the first `k` replacements.
spec fn stage(s: Seq<char>, k: int) -> Seq<char>
    decreases s.len(),
{
    if s.len() == 0 {
        Seq::<char>::empty()
    } else {
        stage_char(s[0], k) + stage(s.skip(1), k)
    }
}

proof fn lemma_entity_literals()
    ensures
        "&amp;"@ == seq!['&', 'a', 'm', 'p', ';'],
        "&lt;"@ == seq!['&', 'l', 't', ';'],
        "&gt;"@ == seq!['&', 'g', 't', ';'],
        "&quot;"@ == seq!['&', 'q', 'u', 'o', 't', ';'],
        "&#39;"@ == seq!['&', '#', '3', '9', ';'],
        "<"@ == seq!['<'],
        ">"@ == seq!['>'],
        "\""@ == seq!['"'],
        "'"@ == seq!['\''],
        "&"@ == seq!['&'],
{
    reveal_strlit("&amp;");
    reveal_strlit("&lt;");
    reveal_strlit("&gt;");
    reveal_strlit("&quot;");
    reveal_strlit("&#39;");
    reveal_strlit("<");
    reveal_strlit(">");
    reveal_strlit("\"");
    reveal_strlit("'");
    reveal_strlit("&");
}

proof fn lemma_replaced_without_amp(u: Seq<char>, rest: Seq<char>, pat: Seq<char>, rep: Seq<char>)
    requires
        pat.len() > 0,
        pat[0] == '&',
        forall|i: int| 0 <= i < u.len() ==> #[trigger] u[i] != '&',
    ensures
        replaced(u + rest, pat, rep) == u + replaced(rest, pat, rep),
    decreases u.len(),
{
    if u.len() == 0 {
        assert(u + rest =~= rest);
        assert(u + replaced(rest, pat, rep) =~= replaced(rest, pat, rep));
    } else {
        let x = u + rest;
        assert(x[0] == u[0]);
        if x.len() >= pat.len() {
            assert(x.take(pat.len() as int)[0] != pat[0]);
        }
        let t = u.skip(1);
        assert forall|i: int| 0 <= i < t.len() implies #[trigger] t[i] != '&' by {
            assert(t[i] == u[i + 1]);
        }
        lemma_replaced_without_amp(t, rest, pat, rep);
        assert(x.skip(1) =~= t + rest);
        assert(seq![u[0]] + (t + replaced(rest, pat, rep)) =~= u + replaced(rest, pat, rep));
    }
}

proof fn lemma_stage_char_step(c: char, rest: Seq<char>, k: int)
    requires
        0 <= k < 5,
    ensures
        replaced(stage_char(c, k) + rest, entity_of_rank(k), seq![char_of_rank(k)]) == stage_char(c, k + 1)
            + replaced(rest, entity_of_rank(k), seq![char_of_rank(k)]),
{
    lemma_entity_literals();
    let pat = entity_of_rank(k);
    let rep = seq![char_of_rank(k)];
    let t = stage_char(c, k);
    let x = t + rest;
    if entity_rank(c) == k {
        assert(t == pat);
        assert(x.take(pat.len() as int) =~= pat);
        assert(x.skip(pat.len() as int) =~= rest);
        assert(stage_char(c, k + 1) == rep);
    } else if entity_rank(c) < k || entity_rank(c) == 5 {
        assert(t == seq![c]);
        assert(c != '&');
        lemma_replaced_without_amp(t, rest, pat, rep);
    } else {
        assert(t == entity_of_rank(entity_rank(c)));
        assert(t[1] != pat[1]);
        if x.len() >= pat.len() {
            assert(x.take(pat.len() as int)[1] != pat[1]);
        }
        let u = t.skip(1);
        assert forall|i: int| 0 <= i < u.len() implies #[trigger] u[i] != '&' by {
            assert(u[i] == t[i + 1]);
        }
        lemma_replaced_without_amp(u, rest, pat, rep);
        assert(x.skip(1) =~= u + rest);
        assert(seq![t[0]] + (u + replaced(rest, pat, rep)) =~= t + replaced(rest, pat, rep));
    }
}

proof fn lemma_stage_step(s: Seq<char>, k: int)
    requires
        0 <= k < 5,
    ensures
        replaced(stage(s, k), entity_of_rank(k), seq![char_of_rank(k)]) == stage(s, k + 1),
    decreases s.len(),
{
    if s.len() == 0 {
    } else {
        lemma_stage_step(s.skip(1), k);
        lemma_stage_char_step(s[0], stage(s.skip(1), k), k);
    }
}

proof fn lemma_stage_ends(s: Seq<char>)
    ensures
        stage(s, 0) == escaped_html(s),
        stage(s, 5) == s,
    decreases s.len(),
{
    if s.len() > 0 {
        lemma_stage_ends(s.skip(1));
        let one = seq![s[0]];
        lemma_escaped_html_append(one, s.skip(1));
        assert(one + s.skip(1) =~= s);
        assert(one.drop_last() =~= Seq::<char>::empty());
        assert(one.last() == s[0]);
        assert(escaped_html(one.drop_last()) =~= Seq::<char>::empty());
        assert(Seq::<char>::empty() + escape_char(s[0]) =~= escape_char(s[0]));
        assert(escaped_html(one) == escape_char(s[0]));
        assert(stage_char(s[0], 5) == seq![s[0]]) by {
            lemma_entity_literals();
        }
        assert(seq![s[0]] + s.skip(1) =~= s);
    }
}

proof fn lemma_escaped_amp_entities(s: Seq<char>)
    ensures
        forall|k: int|
            0 <= k < escaped_html(s).len() && #[trigger] escaped_html(s)[k] == '&' ==> entity_at(
                escaped_html(s),
                k,
            ),
    decreases s.len(),
{
    if s.len() > 0 {
        lemma_escaped_amp_entities(s.skip(1));
        lemma_stage_ends(s);
        lemma_stage_ends(s.skip(1));
        lemma_entity_literals();
        let e = escape_char(s[0]);
        let rest = escaped_html(s.skip(1));
        let r = escaped_html(s);
        assert(r == e + rest);
        assert forall|k: int| 0 <= k < r.len() && #[trigger] r[k] == '&' implies entity_at(r, k) by {
            if k < e.len() {
                assert(r[k] == e[k]);
                assert(k == 0);
                assert(r.subrange(0, e.len() as int) =~= e);
            } else {
                let j = k - e.len();
                assert(rest[j] == r[k]);
                assert(entity_at(rest, j));
                assert forall|m: int| 0 <= m && j + m <= rest.len() implies #[trigger] r.subrange(
                    k,
                    k + m,
                ) == rest.subrange(j, j + m) by {
                    assert(r.subrange(k, k + m) =~= rest.subrange(j, j + m));
                }
            }
        }
    }
}

/// Escaping writes `&` only as the start of one of its five entities, and
/// replacing the entities back (`&amp;` last) gives the text back.
pub proof fn law_escape_html_entities(s: Seq<char>)
    ensures
        forall|k: int|
            0 <= k < escaped_html(s).len() && #[trigger] escaped_html(s)[k] == '&' ==> entity_at(
                escaped_html(s),
                k,
            ),
        replace_entities_back(escaped_html(s)) == s,
{
    lemma_escaped_amp_entities(s);
    lemma_stage_ends(s);
    lemma_entity_literals();
    lemma_stage_step(s, 0);
    lemma_stage_step(s, 1);
    lemma_stage_step(s, 2);
    lemma_stage_step(s, 3);
    lemma_stage_step(s, 4);
}

/// Escapes `&`, `<`, `>`, `"` and `'` for use in HTML text and attributes.
pub fn escape_html(input: &str) -> (r: String)
    ensures
        r@ == escaped_html(input@),
{
    let v = chars_of(input);
    let mut out = String::new();
    for i in 0..v.len()
        invariant
            v@ == input@,
            out@ == escaped_html(v@.take(i as int)),
    {
        let c = v[i];
        assert(v@.take(i + 1).drop_last() == v@.take(i as int));
        if c == '&' {
            push_str(&mut out, "&amp;");
        } else if c == '<' {
            push_str(&mut out, "&lt;");
        } else if c == '>' {
            push_str(&mut out, "&gt;");
        } else if c == '"' {
            push_str(&mut out, "&quot;");
        } else if c == '\'' {
            push_str(&mut out, "&#39;");
        } else {
            push_char(&mut out, c);
        }
    }
    assert(v@.take(v.len() as int) == v@);
    out
}

// ------------------------------------------------------------------------
// Page titles
// ------------------------------------------------------------------------

/// The heading of a line written `# heading` (after leading whitespace),
/// trimmed; none when the line is not such a heading or the heading is
/// empty.
pub open spec fn line_heading(line: Seq<char>) -> Option<Seq<char>> {
    let t = trim_start(line);
    if t.len() >= 2 && t[0] == '#' && t[1] == ' ' && trim(t.skip(2)).len() > 0 {
        Some(trim(t.skip(2)))
    } else {
        None
    }
}

/// The heading of the first line of `ls` that has one.
pub open spec fn first_heading_in(ls: Seq<Seq<char>>) -> Option<Seq<char>>
    decreases ls.len(),
{
    if ls.len() == 0 {
        None
    } else {
        match line_heading(ls[0]) {
            Some(h) => Some(h),
            None => first_heading_in(ls.skip(1)),
        }
    }
}

/// The first level-one heading of a markdown text.
pub open spec fn markdown_first_heading(markdown: Seq<char>) -> Option<Seq<char>> {
    first_heading_in(lines(markdown))
}

proof fn lemma_first_heading_skip(ls: Seq<Seq<char>>, i: int)
    requires
        0 <= i <= ls.len(),
        forall|j: int| 0 <= j < i ==> line_heading(#[trigger] ls[j]) is None,
    ensures
        first_heading_in(ls) == first_heading_in(ls.skip(i)),
    decreases i,
{
    if i == 0 {
        assert(ls.skip(0) == ls);
    } else {
        assert(line_heading(ls[0]) is None);
        assert(ls.skip(1).skip(i - 1) == ls.skip(i));
        assert forall|j: int| 0 <= j < i - 1 implies line_heading(#[trigger] ls.skip(1)[j]) is None by {
            assert(ls.skip(1)[j] == ls[j + 1]);
        }
        lemma_first_heading_skip(ls.skip(1), i - 1);
    }
}

fn line_heading_of(line: &Vec<char>) -> (r: Option<Vec<char>>)
    ensures
        match (r, line_heading(line@)) {
            (Some(a), Some(b)) => a@ == b,
            (None, None) => true,
            _ => false,
        },
{
    let t = trim_start_chars(line, false);
    if t.len() >= 2 && t[0] == '#' && t[1] == ' ' {
        let mut rest: Vec<char> = Vec::new();
        let mut k: usize = 2;
        while k < t.len()
            invariant
                2 <= k <= t.len(),
                rest@ == t@.subrange(2, k as int),
            decreases t.len() - k,
        {
            rest.push(t[k]);
            k = k + 1;
        }
        assert(rest@ == t@.skip(2));
        let h = trim_chars(&rest);
        if h.len() > 0 {
            Some(h)
        } else {
            None
        }
    } else {
        None
    }
}

/// The first `# heading` line of a markdown text, trimmed.
pub fn first_heading(markdown: &str) -> (r: Option<String>)
    ensures
        match (r, markdown_first_heading(markdown@)) {
            (Some(a), Some(b)) => a@ == b,
            (None, None) => true,
            _ => false,
        },
{
    let ls = lines_of(&chars_of(markdown));
    let mut i: usize = 0;
    while i < ls.len()
        invariant
            i <= ls@.len(),
            ls@.len() == lines(markdown@).len(),
            forall|j: int| 0 <= j < ls@.len() ==> (#[trigger] ls@[j])@ == lines(markdown@)[j],
            forall|j: int| 0 <= j < i ==> line_heading(#[trigger] lines(markdown@)[j]) is None,
        decreases ls.len() - i,
    {
        assert(ls@[i as int]@ == lines(markdown@)[i as int]);
        match line_heading_of(&ls[i]) {
            Some(h) => {
                proof {
                    lemma_first_heading_skip(lines(markdown@), i as int);
                }
                return Some(string_of(&h));
            },
            None => {},
        }
        i = i + 1;
    }
    proof {
        lemma_first_heading_skip(lines(markdown@), i as int);
    }
    None
}

/// The last `/`-separated piece of a slug.
pub open spec fn last_segment(slug: Seq<char>) -> Seq<char> {
    split_on(slug, '/').last()
}

/// A page's title: `Aenyrathia` for the home page, otherwise
/// `Aenyrathia - ` followed by the page's first heading, or by the last
/// piece of its slug when it has none.
pub open spec fn title_of(current_slug: Seq<char>, content: Seq<char>) -> Seq<char> {
    if current_slug == HOME_PAGE@ {
        "Aenyrathia"@
    } else {
        "Aenyrathia - "@ + match markdown_first_heading(content) {
            Some(h) => h,
            None => last_segment(current_slug),
        }
    }
}

/// The title of the page `current_slug` with content `raw_file_content`.
pub fn page_title(current_slug: &str, raw_file_content: &str) -> (r: String)
    ensures
        r@ == title_of(current_slug@, raw_file_content@),
{
    let slug = chars_of(current_slug);
    if chars_eq(&slug, &chars_of(HOME_PAGE)) {
        return "Aenyrathia".to_owned();
    }
    let title = match first_heading(raw_file_content) {
        Some(h) => h,
        None => {
            let segs = split_chars(&slug, '/');
            proof {
                lemma_split_on_nonempty(slug@, '/');
            }
            string_of(&segs[segs.len() - 1])
        },
    };
    let mut r = "Aenyrathia - ".to_owned();
    push_str(&mut r, title.as_str());
    r
}

// ------------------------------------------------------------------------
// Showing, editing and previewing articles
// ------------------------------------------------------------------------

/// The article editor's form.
pub struct EditForm {
    pub markdown: String,
    pub csrf_token: Option<String>,
}

/// The `redirect_to` query parameter.
pub struct RedirectQuery {
    pub redirect_to: Option<String>,
}

/// A form that carries only the CSRF token.
pub struct CsrfForm {
    pub csrf_token: String,
}

/// Edit mode is on when the `edit_mode` cookie says `true`.
pub open spec fn edit_mode_cookie_on(cookie: Option<Seq<char>>) -> bool {
    cookie == Some("true"@)
}

fn edit_mode_from_cookie(cookie: Option<&String>) -> (b: bool)
    ensures
        b == edit_mode_cookie_on(opt_ref_view(cookie)),
{
    match cookie {
        Some(v) => chars_eq(&chars_of(v.as_str()), &chars_of("true")),
        None => false,
    }
}

/// The URL path of a page: `/` for the home page, `/` and the encoded slug
/// otherwise.
pub open spec fn page_url(slug: Seq<char>) -> Seq<char> {
    if slug == HOME_PAGE@ {
        "/"@
    } else {
        seq!['/'] + url_encoded(slug)
    }
}

/// What showing an article needs before the store is read.
pub struct ArticlePlan {
    /// The page's slug.
    pub slug: String,
    /// The page's file in the repository.
    pub relative_path: String,
    /// The page's URL path.
    pub current_path: String,
    /// The URL path, encoded for a query string.
    pub current_path_query: String,
    /// Whether the page is shown for editing.
    pub edit_mode: bool,
    /// The branch to read from.
    pub branch: String,
}

/// Plans the showing of an article: `400` for a path that is not a valid
/// slug; otherwise the page's file, URL and branch. Edit mode needs a
/// signed-in user and an `edit_mode` cookie set to `true`; the branch is the
/// user's branch in edit mode and `prime` otherwise.
pub fn plan_article(
    article_path: Option<String>,
    user: Option<&CurrentUser>,
    edit_mode_cookie: Option<&String>,
) -> (r: Result<ArticlePlan, HttpStatus>)
    ensures
        article_slug(opt_view(article_path)) is Err <==> r == Err::<ArticlePlan, HttpStatus>(HttpStatus::BadRequest),
        article_slug(opt_view(article_path)) is Ok <==> r is Ok,
        r matches Ok(plan) ==> {
            let slug = article_slug(opt_view(article_path))->Ok_0;
            let edit = user is Some && edit_mode_cookie_on(opt_ref_view(edit_mode_cookie));
            &&& plan.slug@ == slug
            &&& plan.relative_path@ == article_file(slug)
            &&& plan.current_path@ == page_url(slug)
            &&& plan.current_path_query@ == url_encoded(page_url(slug))
            &&& plan.edit_mode == edit
            &&& plan.branch@ == branch_name(Some(edit), match user {
                Some(u) => Some(u.email@),
                None => None,
            })
        },
{
    let copy = match &article_path {
        Some(p) => Some(p.clone()),
        None => None,
    };
    let slug = match resolve_article_slug(article_path) {
        Ok(s) => s,
        Err(_) => return Err(HttpStatus::BadRequest),
    };
    let relative_path = match resolve_article_path(copy) {
        Ok(p) => p,
        Err(_) => return Err(HttpStatus::BadRequest),
    };
    let current_path = if chars_eq(&chars_of(slug.as_str()), &chars_of(HOME_PAGE)) {
        "/".to_owned()
    } else {
        let mut p = "/".to_owned();
        push_str(&mut p, encode_url_path(slug.as_str()).as_str());
        proof {
            reveal_strlit("/");
            assert("/"@ =~= seq!['/']);
        }
        p
    };
    let current_path_query = encode_query_value(current_path.as_str());
    let edit_mode = match user {
        None => false,
        Some(_) => edit_mode_from_cookie(edit_mode_cookie),
    };
    let branch = match user {
        Some(u) => resolve_branch_name(Some(edit_mode), Some(&u.email)),
        None => resolve_branch_name(Some(edit_mode), None),
    };
    Ok(ArticlePlan { slug, relative_path, current_path, current_path_query, edit_mode, branch })
}

/// What an article request shows once the store has been read.
pub enum ArticlePage {
    /// The article: its markdown, title and the page tree.
    Found { raw_file_content: String, page_title: String, file_tree_html: String },
    /// The page does not exist and the user is not editing: a 404 page
    /// with the page tree.
    NotFound { file_tree_html: String },
}

/// The page tree of `file_paths` around the current page, as HTML, for the
/// page `plan.slug` whose file holds `file_content` (`None` when it does not
/// exist). A missing page is shown empty in edit mode and as not found
/// otherwise.
pub fn article_page(plan: &ArticlePlan, file_content: Option<String>, file_paths: &Vec<String>) -> (r: ArticlePage)
    ensures
        match r {
            ArticlePage::Found { raw_file_content, page_title, file_tree_html } => {
                &&& (file_content is Some || plan.edit_mode)
                &&& raw_file_content@ == match file_content {
                    Some(c) => c@,
                    None => Seq::<char>::empty(),
                }
                &&& page_title@ == title_of(plan.slug@, raw_file_content@)
                &&& exists|t: Seq<FileTreeNode>|
                    level_ok(t, strings_view(file_paths@), plan.slug@, Seq::<Seq<char>>::empty())
                        && file_tree_html@ == tree_html(t)
            },
            ArticlePage::NotFound { file_tree_html } => {
                &&& file_content is None && !plan.edit_mode
                &&& exists|t: Seq<FileTreeNode>|
                    level_ok(t, strings_view(file_paths@), plan.slug@, Seq::<Seq<char>>::empty())
                        && file_tree_html@ == tree_html(t)
            },
        },
{
    let tree = build_file_tree(file_paths.as_slice(), plan.slug.as_str());
    let file_tree_html = render_file_tree_html(&tree);
    let raw_file_content = match file_content {
        Some(c) => c,
        None => {
            if plan.edit_mode {
                String::new()
            } else {
                return ArticlePage::NotFound { file_tree_html };
            }
        },
    };
    let page_title = page_title(plan.slug.as_str(), raw_file_content.as_str());
    ArticlePage::Found { raw_file_content, page_title, file_tree_html }
}

/// Toggling edit mode: `403` for a bad CSRF cookie, `401` without a
/// signed-in user, `403` when the token is not the user's; otherwise the
/// `edit_mode` cookie (path `/`) set to the opposite of its current value,
/// and the safe redirect target.
pub fn toggle_edit_mode(
    csrf_cookie: Option<&String>,
    form: &CsrfForm,
    user: Option<&CurrentUser>,
    edit_mode_cookie: Option<&String>,
    redirect_to: Option<String>,
) -> (r: Result<(CookieSpec, String), HttpStatus>)
    ensures
        !csrf_accepts(opt_ref_view(csrf_cookie), form.csrf_token@) ==> r == Err::<(CookieSpec, String), HttpStatus>(
            HttpStatus::Forbidden,
        ),
        csrf_accepts(opt_ref_view(csrf_cookie), form.csrf_token@) && user is None ==> r == Err::<
            (CookieSpec, String),
            HttpStatus,
        >(HttpStatus::Unauthorized),
        user matches Some(u) ==> (csrf_accepts(opt_ref_view(csrf_cookie), form.csrf_token@) ==> (
        u.csrf_token@ != form.csrf_token@ <==> r == Err::<(CookieSpec, String), HttpStatus>(
            HttpStatus::Forbidden,
        ))),
        user matches Some(u) ==> (csrf_accepts(opt_ref_view(csrf_cookie), form.csrf_token@)
            && u.csrf_token@ == form.csrf_token@ <==> r is Ok),
        r matches Ok(v) ==> {
            &&& cookie_is(
                v.0,
                "edit_mode"@,
                if edit_mode_cookie_on(opt_ref_view(edit_mode_cookie)) {
                    "false"@
                } else {
                    "true"@
                },
                Some("/"@),
                false,
                false,
                false,
            )
            &&& v.1@ == safe_redirect(opt_view(redirect_to))
        },
{
    verify_csrf_cookie(csrf_cookie, form.csrf_token.as_str())?;
    let user = match user {
        Some(u) => u,
        None => return Err(HttpStatus::Unauthorized),
    };
    if !chars_eq(&chars_of(user.csrf_token.as_str()), &chars_of(form.csrf_token.as_str())) {
        return Err(HttpStatus::Forbidden);
    }
    let current = edit_mode_from_cookie(edit_mode_cookie);
    let value = if current {
        "false"
    } else {
        "true"
    };
    let cookie = CookieSpec {
        name: "edit_mode".to_owned(),
        value: value.to_owned(),
        path: Some("/".to_owned()),
        http_only: false,
        secure: false,
        same_site_lax: false,
    };
    Ok((cookie, safe_redirect_path(redirect_to)))
}

/// What saving an article writes: the file, the branch, the content and the
/// commit author.
pub struct ArticleWrite {
    pub relative_path: String,
    pub branch: String,
    pub content: String,
    pub author: Author,
}

/// Saving an article: `401` without a signed-in user, `403` without a CSRF
/// token or when it matches neither the CSRF cookie nor the user's token,
/// `400` for an invalid path; otherwise the user's branch, the page's file,
/// the content with normalised line endings, and the user as author.
pub fn plan_article_post(
    article_path: Option<String>,
    user: Option<&CurrentUser>,
    csrf_cookie: Option<&String>,
    form: &EditForm,
) -> (r: Result<ArticleWrite, HttpStatus>)
    ensures
        user is None ==> r == Err::<ArticleWrite, HttpStatus>(HttpStatus::Unauthorized),
        user matches Some(u) ==> match form.csrf_token {
            None => r == Err::<ArticleWrite, HttpStatus>(HttpStatus::Forbidden),
            Some(t) => if !csrf_accepts(opt_ref_view(csrf_cookie), t@) || u.csrf_token@ != t@ {
                r == Err::<ArticleWrite, HttpStatus>(HttpStatus::Forbidden)
            } else if article_slug(opt_view(article_path)) is Err {
                r == Err::<ArticleWrite, HttpStatus>(HttpStatus::BadRequest)
            } else {
                r matches Ok(w) && {
                    &&& w.relative_path@ == article_file(article_slug(opt_view(article_path))->Ok_0)
                    &&& w.branch@ == branch_name(Some(true), Some(u.email@))
                    &&& w.content@ == normalised_newlines(form.markdown@)
                    &&& w.author.name@ == u.full_name@
                    &&& w.author.email@ == u.email@
                }
            },
        },
{
    let user = match user {
        Some(u) => u,
        None => return Err(HttpStatus::Unauthorized),
    };
    let token = match &form.csrf_token {
        Some(t) => t,
        None => return Err(HttpStatus::Forbidden),
    };
    if verify_csrf_cookie(csrf_cookie, token.as_str()).is_err() || !chars_eq(
        &chars_of(user.csrf_token.as_str()),
        &chars_of(token.as_str()),
    ) {
        return Err(HttpStatus::Forbidden);
    }
    let relative_path = match resolve_article_path(article_path) {
        Ok(p) => p,
        Err(_) => return Err(HttpStatus::BadRequest),
    };
    let branch = resolve_branch_name(Some(true), Some(&user.email));
    let content = normalise_newlines(form.markdown.as_str());
    let author = Author { name: user.full_name.clone(), email: user.email.clone() };
    Ok(ArticleWrite { relative_path, branch, content, author })
}

/// The answer to saving an article: `204` when the write went through,
/// `500` otherwise.
pub fn article_post_status(written: bool) -> (s: HttpStatus)
    ensures
        s == if written {
            HttpStatus::NoContent
        } else {
            HttpStatus::InternalServerError
        },
{
    if written {
        HttpStatus::NoContent
    } else {
        HttpStatus::InternalServerError
    }
}

} // verus!
