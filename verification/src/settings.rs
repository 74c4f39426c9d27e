//! The server's settings, from the values of its environment variables.
use vstd::prelude::*;
use crate::formatting::opt_ref_view;
use crate::paths::{join_path, path_join};
use crate::text::{chars_of, push_str};

verus! {

pub open spec fn is_ascii_digit(c: char) -> bool {
    '0' <= c && c <= '9'
}

/// The value of a string of decimal digits.
pub open spec fn digits_value(s: Seq<char>) -> int
    decreases s.len(),
{
    if s.len() == 0 {
        0
    } else {
        digits_value(s.drop_last()) * 10 + (s.last() as int - 48)
    }
}

/// The digits after an optional leading `+`.
pub open spec fn unsigned_digits(s: Seq<char>) -> Seq<char> {
    if s.len() > 0 && s[0] == '+' {
        s.skip(1)
    } else {
        s
    }
}

/// One or more decimal digits.
pub open spec fn all_digits(d: Seq<char>) -> bool {
    d.len() > 0 && forall|k: int| 0 <= k < d.len() ==> is_ascii_digit(#[trigger] d[k])
}

/// `u64::from_str`: an optional `+`, then one or more decimal digits whose
/// value fits in a `u64`.
pub open spec fn parse_u64(s: Seq<char>) -> Option<u64> {
    let d = unsigned_digits(s);
    if all_digits(d) && digits_value(d) <= u64::MAX {
        Some(digits_value(d) as u64)
    } else {
        None
    }
}

proof fn lemma_digits_value_nonneg(s: Seq<char>)
    requires
        forall|k: int| 0 <= k < s.len() ==> is_ascii_digit(#[trigger] s[k]),
    ensures
        0 <= digits_value(s),
    decreases s.len(),
{
    if s.len() > 0 {
        lemma_digits_value_nonneg(s.drop_last());
    }
}

proof fn lemma_digits_value_grows(s: Seq<char>, i: int)
    requires
        0 <= i <= s.len(),
        forall|k: int| 0 <= k < s.len() ==> is_ascii_digit(#[trigger] s[k]),
    ensures
        digits_value(s.take(i)) <= digits_value(s),
    decreases s.len(),
{
    if i == s.len() {
        assert(s.take(i) == s);
    } else {
        lemma_digits_value_grows(s.drop_last(), i);
        assert(s.drop_last().take(i) == s.take(i));
        lemma_digits_value_nonneg(s.drop_last());
    }
}

/// Parses an unsigned 64-bit decimal number as `u64::from_str` does.
pub fn parse_u64_str(value: &str) -> (r: Option<u64>)
    ensures
        r == parse_u64(value@),
{
    let v = chars_of(value);
    let start: usize = if v.len() > 0 && v[0] == '+' {
        1
    } else {
        0
    };
    let ghost d = if v@.len() > 0 && v@[0] == '+' {
        v@.skip(1)
    } else {
        v@
    };
    assert(d == v@.skip(start as int));
    if start >= v.len() {
        return None;
    }
    let mut acc: u64 = 0;
    let mut i: usize = start;
    while i < v.len()
        invariant
            start <= i <= v@.len(),
            v@ == value@,
            start == (if v@.len() > 0 && v@[0] == '+' { 1int } else { 0int }),
            d == unsigned_digits(v@),
            d == v@.skip(start as int),
            forall|k: int| 0 <= k < i - start ==> is_ascii_digit(#[trigger] d[k]),
            acc == digits_value(d.take(i - start)),
        decreases v.len() - i,
    {
        let c = v[i];
        assert(d[i - start] == c);
        if c < '0' || c > '9' {
            assert(!is_ascii_digit(d[i - start]));
            return None;
        }
        let digit = (c as u32 - 48) as u64;
        assert(d.take(i - start + 1).drop_last() == d.take(i - start));
        match acc.checked_mul(10) {
            None => {
                proof {
                    lemma_digits_value_nonneg(d.take(i - start));
                    if forall|k: int| 0 <= k < d.len() ==> is_ascii_digit(#[trigger] d[k]) {
                        lemma_digits_value_grows(d, i - start + 1);
                    }
                }
                return None;
            },
            Some(m) => match m.checked_add(digit) {
                None => {
                    proof {
                        if forall|k: int| 0 <= k < d.len() ==> is_ascii_digit(#[trigger] d[k]) {
                            lemma_digits_value_grows(d, i - start + 1);
                        }
                    }
                    return None;
                },
                Some(n) => {
                    acc = n;
                },
            },
        }
        i = i + 1;
    }
    assert(d.take(i - start) == d);
    Some(acc)
}

/// The background sync interval in milliseconds: the setting when it is a
/// positive number, 1000 otherwise.
pub open spec fn sync_interval(setting: Option<Seq<char>>) -> u64 {
    match setting {
        Some(s) => match parse_u64(s) {
            Some(n) => if n > 0 {
                n
            } else {
                1000
            },
            None => 1000,
        },
        None => 1000,
    }
}

/// Reads the `GIT_SYNC_INTERVAL_MS` setting.
pub fn parse_sync_interval(setting: Option<&String>) -> (r: u64)
    ensures
        r == sync_interval(opt_ref_view(setting)),
{
    match setting {
        Some(s) => match parse_u64_str(s.as_str()) {
            Some(n) => if n > 0 {
                n
            } else {
                1000
            },
            None => 1000,
        },
        None => 1000,
    }
}

/// The settings that come from plain values.
pub struct PlainSettings {
    /// `{host}:{port}` to listen on.
    pub addr: String,
    /// The git remote of the wiki.
    pub git_remote: String,
    /// The background sync interval.
    pub git_sync_interval_ms: u64,
    /// The database URL.
    pub database_url: String,
    /// The data directory to create first, when the database URL was made
    /// from it.
    pub data_dir_to_create: Option<String>,
}

pub open spec fn or_default(v: Option<Seq<char>>, d: Seq<char>) -> Seq<char> {
    match v {
        Some(s) => s,
        None => d,
    }
}

/// The settings from the values of `PORT`, `HOST`, `GIT_REMOTE`,
/// `GIT_SYNC_INTERVAL_MS`, `DATABASE_URL` and `DATA_DIR`: `0.0.0.0:8080`,
/// the project's remote, 1000 ms and a SQLite file in `data` by default.
pub fn resolve_settings(
    port: Option<&String>,
    host: Option<&String>,
    git_remote: Option<&String>,
    sync_interval_ms: Option<&String>,
    database_url: Option<&String>,
    data_dir: Option<&String>,
) -> (r: PlainSettings)
    ensures
        r.addr@ == or_default(opt_ref_view(host), "0.0.0.0"@) + ":"@ + or_default(
            opt_ref_view(port),
            "8080"@,
        ),
        r.git_remote@ == or_default(opt_ref_view(git_remote), "git@github.com:rrvsh/aenyrathia.git"@),
        r.git_sync_interval_ms == sync_interval(opt_ref_view(sync_interval_ms)),
        database_url matches Some(u) ==> r.database_url@ == u@ && r.data_dir_to_create is None,
        database_url is None ==> {
            let dir = or_default(opt_ref_view(data_dir), "data"@);
            &&& r.database_url@ == "sqlite://"@ + path_join(dir, "aenyrathia.sqlite3"@)
            &&& r.data_dir_to_create matches Some(d) && d@ == dir
        },
{
    let mut addr = match host {
        Some(h) => h.clone(),
        None => "0.0.0.0".to_owned(),
    };
    push_str(&mut addr, ":");
    match port {
        Some(p) => push_str(&mut addr, p.as_str()),
        None => push_str(&mut addr, "8080"),
    }
    let git_remote = match git_remote {
        Some(g) => g.clone(),
        None => "git@github.com:rrvsh/aenyrathia.git".to_owned(),
    };
    let git_sync_interval_ms = parse_sync_interval(sync_interval_ms);
    let (database_url, data_dir_to_create) = match database_url {
        Some(u) => (u.clone(), None),
        None => {
            let dir = match data_dir {
                Some(d) => d.clone(),
                None => "data".to_owned(),
            };
            let mut url = "sqlite://".to_owned();
            push_str(&mut url, join_path(dir.as_str(), "aenyrathia.sqlite3").as_str());
            (url, Some(dir))
        },
    };
    PlainSettings { addr, git_remote, git_sync_interval_ms, database_url, data_dir_to_create }
}

} // verus!
