//! Update checks: the release tag in the releases API's answer, the version
//! comparison, the on-disk cache of the last check, and the command that
//! upgrades an installation.

use vstd::prelude::*;
use semver::Version;

use crate::text::{chars_of, decimal, digit_char, is_white_space, push_decimal, white_space};

verus! {

/// The version of this build.
pub const CURRENT_VERSION: &'static str = "0.1.2";

/// The releases API that reports the latest release.
pub const RELEASES_API: &'static str = "https://api.github.com/repos/xira-kth/kaku/releases/latest";

/// How long a cached check stays fresh, in seconds: one day.
pub const CACHE_TTL_SECS: u64 = 86400;

/// The npm package the tool ships as.
pub const NPM_PACKAGE: &'static str = "@voidique/kaku";

// ---------------------------------------------------------------------
// The update notice
// ---------------------------------------------------------------------

/// The notice shown when a newer release exists.
pub open spec fn notice_text(version: Seq<char>) -> Seq<char> {
    "Update available: "@ + version + "  run: kaku update"@
}

/// The notice for a newer version (see `notice_text`).
pub fn update_notice(version: &str) -> (r: String)
    ensures
        r@ == notice_text(version@),
{
    let mut out = "Update available: ".to_string();
    out.append(version);
    out.append("  run: kaku update");
    out
}

// ---------------------------------------------------------------------
// A string value in a JSON text
// ---------------------------------------------------------------------

/// The first position at or after `i` where `pat` occurs in `s`.
pub open spec fn find_from(s: Seq<char>, pat: Seq<char>, i: int) -> Option<int>
    decreases s.len() + 1 - i,
{
    if i < 0 || i + pat.len() > s.len() {
        None
    } else if s.subrange(i, i + pat.len()) == pat {
        Some(i)
    } else {
        find_from(s, pat, i + 1)
    }
}

/// A text without its leading whitespace, as `str::trim_start` leaves it.
pub open spec fn trim_start(s: Seq<char>) -> Seq<char>
    decreases s.len(),
{
    if s.len() > 0 && is_white_space(s[0]) {
        trim_start(s.drop_first())
    } else {
        s
    }
}

/// The characters of a JSON string body up to its closing quote (or the end
/// of the text): a backslash takes the next character as it is.
pub open spec fn string_body(s: Seq<char>, escaped: bool) -> Seq<char>
    decreases s.len(),
{
    if s.len() == 0 {
        Seq::empty()
    } else if escaped {
        seq![s[0]] + string_body(s.drop_first(), false)
    } else if s[0] == '\\' {
        string_body(s.drop_first(), true)
    } else if s[0] == '"' {
        Seq::empty()
    } else {
        seq![s[0]] + string_body(s.drop_first(), false)
    }
}

/// The text `"key":`.
pub open spec fn key_needle(key: Seq<char>) -> Seq<char> {
    seq!['"'] + key + seq!['"', ':']
}

/// The string value of the first `"key":` in a JSON text: `None` when the
/// key is missing or its value, after whitespace, is not a string.
pub open spec fn json_value(body: Seq<char>, key: Seq<char>) -> Option<Seq<char>> {
    let needle = key_needle(key);
    match find_from(body, needle, 0) {
        None => None,
        Some(i) => {
            let rest = trim_start(body.skip(i + needle.len()));
            if rest.len() > 0 && rest[0] == '"' {
                Some(string_body(rest.drop_first(), false))
            } else {
                None
            }
        },
    }
}

proof fn lemma_find_from_skip(s: Seq<char>, pat: Seq<char>, i: int)
    requires
        0 <= i,
        i + pat.len() <= s.len(),
        s.subrange(i, i + pat.len()) != pat,
    ensures
        find_from(s, pat, i) == find_from(s, pat, i + 1),
{
}

proof fn lemma_find_from_bounds(s: Seq<char>, pat: Seq<char>, i: int)
    ensures
        find_from(s, pat, i) matches Some(j) ==> i <= j && j + pat.len() <= s.len(),
    decreases s.len() + 1 - i,
{
    if !(i < 0 || i + pat.len() > s.len()) && s.subrange(i, i + pat.len()) != pat {
        lemma_find_from_bounds(s, pat, i + 1);
    }
}

fn find_chars(s: &Vec<char>, pat: &Vec<char>) -> (r: Option<usize>)
    ensures
        r matches Some(i) ==> find_from(s@, pat@, 0) == Some(i as int) && i + pat.len() <= s.len(),
        r is None ==> find_from(s@, pat@, 0) is None,
{
    proof {
        lemma_find_from_bounds(s@, pat@, 0);
    }
    if pat.len() > s.len() {
        return None;
    }
    let last = s.len() - pat.len();
    let mut i: usize = 0;
    while i <= last
        invariant
            last == s.len() - pat.len(),
            pat.len() <= s.len(),
            i <= last + 1,
            find_from(s@, pat@, 0) == find_from(s@, pat@, i as int),
        decreases last + 1 - i,
    {
        let mut j: usize = 0;
        let mut same = true;
        while j < pat.len()
            invariant
                i <= last,
                last == s.len() - pat.len(),
                j <= pat.len(),
                same == forall|k: int| 0 <= k < j ==> s@[i + k] == pat@[k],
            decreases pat.len() - j,
        {
            if s[i + j] != pat[j] {
                same = false;
            }
            j += 1;
        }
        if same {
            assert(s@.subrange(i as int, i + pat.len()) =~= pat@);
            return Some(i);
        }
        proof {
            let k = choose|k: int| 0 <= k < pat.len() && s@[i + k] != pat@[k];
            assert(s@.subrange(i as int, i + pat.len())[k] != pat@[k]);
            lemma_find_from_skip(s@, pat@, i as int);
        }
        i += 1;
    }
    None
}

/// The string value of `key` in a JSON text (see `json_value`).  This is a
/// plain scan of the text, not a JSON parser.
pub fn extract_json_value(body: &str, key: &str) -> (r: Option<String>)
    ensures
        match json_value(body@, key@) {
            Some(v) => r matches Some(s) && s@ == v,
            None => r is None,
        },
{
    let cs = chars_of(body);
    let mut needle: Vec<char> = vec!['"'];
    let ks = chars_of(key);
    let mut k: usize = 0;
    while k < ks.len()
        invariant
            k <= ks.len(),
            ks@ == key@,
            needle@ == seq!['"'] + ks@.take(k as int),
        decreases ks.len() - k,
    {
        needle.push(ks[k]);
        assert(needle@ =~= seq!['"'] + ks@.take(k + 1));
        k += 1;
    }
    needle.push('"');
    needle.push(':');
    assert(needle@ =~= key_needle(key@));
    let found = find_chars(&cs, &needle);
    let start = match found {
        None => {
            return None;
        },
        Some(i) => i + needle.len(),
    };
    assert(find_from(body@, key_needle(key@), 0) == Some(start - needle@.len()));
    let ghost after = cs@.skip(start as int);
    let mut p: usize = start;
    assert(cs@.subrange(p as int, cs@.len() as int) =~= after);
    while p < cs.len() && white_space(cs[p])
        invariant
            start <= p <= cs.len(),
            after == cs@.skip(start as int),
            trim_start(after) == trim_start(cs@.subrange(p as int, cs@.len() as int)),
        decreases cs.len() - p,
    {
        assert(cs@.subrange(p as int, cs@.len() as int).drop_first() =~= cs@.subrange(
            p + 1,
            cs@.len() as int,
        ));
        p += 1;
    }
    let ghost rest = cs@.subrange(p as int, cs@.len() as int);
    assert(trim_start(after) == rest);
    assert(json_value(body@, key@) == (if rest.len() > 0 && rest[0] == '"' {
        Some(string_body(rest.drop_first(), false))
    } else {
        None
    }));
    if p >= cs.len() || cs[p] != '"' {
        return None;
    }
    let ghost body_chars = rest.drop_first();
    let mut q: usize = p + 1;
    let mut escaped = false;
    let mut value = String::new();
    assert(cs@.subrange(q as int, cs@.len() as int) =~= body_chars);
    while q < cs.len()
        invariant
            p < q <= cs.len(),
            body_chars == cs@.subrange(p + 1, cs@.len() as int),
            value@ + string_body(cs@.subrange(q as int, cs@.len() as int), escaped)
                == string_body(body_chars, false),
        ensures
            value@ == string_body(body_chars, false),
        decreases cs.len() - q,
    {
        let ghost tail = cs@.subrange(q as int, cs@.len() as int);
        assert(tail.drop_first() =~= cs@.subrange(q + 1, cs@.len() as int));
        let c = cs[q];
        if escaped {
            value.push(c);
            escaped = false;
            assert(seq![c] + string_body(tail.drop_first(), false) == string_body(tail, true));
            assert(value@ + string_body(tail.drop_first(), false) =~= (value@.drop_last()
                + seq![c]) + string_body(tail.drop_first(), false));
        } else if c == '\\' {
            escaped = true;
        } else if c == '"' {
            assert(string_body(tail, false) =~= Seq::<char>::empty());
            assert(value@ =~= value@ + Seq::<char>::empty());
            break;
        } else {
            value.push(c);
            assert(value@ + string_body(tail.drop_first(), false) =~= (value@.drop_last()
                + seq![c]) + string_body(tail.drop_first(), false));
        }
        q += 1;
        proof {
            if q >= cs.len() {
                assert(cs@.subrange(q as int, cs@.len() as int) =~= Seq::<char>::empty());
                assert(value@ =~= value@ + Seq::<char>::empty());
            }
        }
    }
    Some(value)
}

// ---------------------------------------------------------------------
// Release tags and version comparison
// ---------------------------------------------------------------------

/// A tag without its leading `v`s, as `trim_start_matches('v')` leaves it.
pub open spec fn without_v(s: Seq<char>) -> Seq<char>
    decreases s.len(),
{
    if s.len() > 0 && s[0] == 'v' {
        without_v(s.drop_first())
    } else {
        s
    }
}

/// The latest version a releases API answer names: its `tag_name` without
/// the leading `v`, or an error when there is none.
pub open spec fn release_version(body: Seq<char>) -> Result<Seq<char>, Seq<char>> {
    match json_value(body, "tag_name"@) {
        Some(tag) => Ok(without_v(tag)),
        None => Err("missing tag_name"@),
    }
}

/// The latest version in a releases API answer (see `release_version`).
pub fn version_from_release(body: &str) -> (r: Result<String, String>)
    ensures
        match release_version(body@) {
            Ok(v) => r matches Ok(s) && s@ == v,
            Err(e) => r matches Err(s) && s@ == e,
        },
{
    let tag = match extract_json_value(body, "tag_name") {
        Some(tag) => tag,
        None => {
            return Err("missing tag_name".to_string());
        },
    };
    let cs = chars_of(tag.as_str());
    let mut i: usize = 0;
    assert(cs@.subrange(0, cs@.len() as int) =~= cs@);
    while i < cs.len() && cs[i] == 'v'
        invariant
            i <= cs.len(),
            cs@ == tag@,
            without_v(tag@) == without_v(cs@.subrange(i as int, cs@.len() as int)),
        decreases cs.len() - i,
    {
        assert(cs@.subrange(i as int, cs@.len() as int).drop_first() =~= cs@.subrange(
            i + 1,
            cs@.len() as int,
        ));
        i += 1;
    }
    Ok(crate::text::string_from_range(&cs, i, cs.len()))
}

/// semver's version number, carried opaquely.
#[verifier::external_type_specification]
#[verifier::external_body]
pub struct ExVersion(Version);

/// Whether semver's `Version::parse` accepts a text.
pub uninterp spec fn semver_parses(text: Seq<char>) -> bool;

/// Whether the version parsed from the first text is greater than the one
/// parsed from the second, in the order `semver::Version` implements.
pub uninterp spec fn semver_greater(a: Seq<char>, b: Seq<char>) -> bool;

/// A version parsed from its text.  Only `parse_version` builds one.
pub struct SemVer {
    text: String,
    version: Version,
}

impl View for SemVer {
    type V = Seq<char>;

    closed spec fn view(&self) -> Seq<char> {
        self.text@
    }
}

/// Parses a version with `semver::Version::parse`; the contract names the
/// outcome `semver_parses(text)`, and the value keeps the text it came from.
#[verifier::external_body]
fn parse_version(text: &str) -> (r: Option<SemVer>)
    ensures
        r is Some <==> semver_parses(text@),
        r matches Some(v) ==> v@ == text@,
{
    match Version::parse(text) {
        Ok(version) => Some(SemVer { text: text.to_string(), version }),
        Err(_) => None,
    }
}

/// Compares two versions with `Version`'s `>`; the contract names the result
/// `semver_greater` of the texts they were parsed from.
#[verifier::external_body]
fn version_greater(a: &SemVer, b: &SemVer) -> (r: bool)
    ensures
        r == semver_greater(a@, b@),
{
    a.version > b.version
}

/// Whether a version text names a release newer than this build: both must
/// parse, and the candidate must be the greater.
pub open spec fn newer_than_current(version: Seq<char>) -> bool {
    &&& semver_parses(CURRENT_VERSION@)
    &&& semver_parses(version)
    &&& semver_greater(version, CURRENT_VERSION@)
}

/// Whether a version is newer than this build (see `newer_than_current`).
pub fn is_newer_than_current(version: &str) -> (r: bool)
    ensures
        r == newer_than_current(version@),
{
    let current = match parse_version(CURRENT_VERSION) {
        Some(v) => v,
        None => {
            return false;
        },
    };
    let candidate = match parse_version(version) {
        Some(v) => v,
        None => {
            return false;
        },
    };
    version_greater(&candidate, &current)
}

// ---------------------------------------------------------------------
// The cache of the last check: the time it ran, then the version it found
// ---------------------------------------------------------------------

/// The index of the first `c` in `s`, or `s.len()`.
pub open spec fn index_of(s: Seq<char>, c: char) -> nat
    decreases s.len(),
{
    if s.len() == 0 {
        0
    } else if s[0] == c {
        0
    } else {
        1 + index_of(s.drop_first(), c)
    }
}

/// The first line of a text, as `str::lines` yields it, and the text after
/// its line ending: `None` for an empty text.  A `\r` before the `\n` is not
/// part of the line.
pub open spec fn first_line(s: Seq<char>) -> Option<(Seq<char>, Seq<char>)> {
    if s.len() == 0 {
        None
    } else {
        let i = index_of(s, '\n');
        if i < s.len() {
            let line = s.take(i as int);
            let line = if line.len() > 0 && line.last() == '\r' {
                line.drop_last()
            } else {
                line
            };
            Some((line, s.skip(i + 1 as int)))
        } else {
            Some((s, Seq::empty()))
        }
    }
}

/// An ASCII decimal digit.
pub open spec fn is_digit(c: char) -> bool {
    '0' <= c <= '9'
}

/// Every character is an ASCII decimal digit.
pub open spec fn all_digits(s: Seq<char>) -> bool {
    forall|i: int| 0 <= i < s.len() ==> is_digit(#[trigger] s[i])
}

/// The number a string of decimal digits spells.
pub open spec fn digits_value(s: Seq<char>) -> nat
    decreases s.len(),
{
    if s.len() == 0 {
        0
    } else {
        digits_value(s.drop_last()) * 10 + ((s.last() as u32) - ('0' as u32)) as nat
    }
}

/// What `str::parse::<u64>` gives: an optional `+`, then at least one
/// decimal digit and nothing else, for a value that fits.
pub open spec fn parsed_u64(s: Seq<char>) -> Option<u64> {
    let d = if s.len() > 0 && s[0] == '+' {
        s.drop_first()
    } else {
        s
    };
    if d.len() > 0 && all_digits(d) && digits_value(d) <= u64::MAX {
        Some(digits_value(d) as u64)
    } else {
        None
    }
}

proof fn lemma_digits_value_grows(s: Seq<char>, k: int)
    requires
        0 <= k <= s.len(),
        forall|i: int| 0 <= i < s.len() ==> is_digit(#[trigger] s[i]),
    ensures
        digits_value(s.take(k)) <= digits_value(s),
    decreases s.len() - k,
{
    if k < s.len() {
        let t = s.take(k + 1);
        assert(t.drop_last() =~= s.take(k));
        assert(is_digit(t.last()));
        lemma_digits_value_grows(s, k + 1);
    } else {
        assert(s.take(k) =~= s);
    }
}

fn parse_u64(s: &str) -> (r: Option<u64>)
    ensures
        r == parsed_u64(s@),
{
    let cs = chars_of(s);
    let start: usize = if cs.len() > 0 && cs[0] == '+' {
        1
    } else {
        0
    };
    let ghost d = if s@.len() > 0 && s@[0] == '+' {
        s@.drop_first()
    } else {
        s@
    };
    assert(d =~= cs@.subrange(start as int, cs@.len() as int));
    if start >= cs.len() {
        return None;
    }
    let mut value: u64 = 0;
    let mut i: usize = start;
    while i < cs.len()
        invariant
            start <= i <= cs.len(),
            cs@ == s@,
            d == (if s@.len() > 0 && s@[0] == '+' {
                s@.drop_first()
            } else {
                s@
            }),
            d == cs@.subrange(start as int, cs@.len() as int),
            forall|j: int| 0 <= j < i - start ==> is_digit(#[trigger] d[j]),
            value == digits_value(d.take(i - start)),
        decreases cs.len() - i,
    {
        let c = cs[i];
        if !('0' <= c && c <= '9') {
            assert(d[i - start] == c);
            assert(!is_digit(d[i - start]));
            assert(!all_digits(d));
            return None;
        }
        let digit = (c as u32 - '0' as u32) as u64;
        assert(d.take(i + 1 - start).drop_last() =~= d.take(i - start));
        let ghost next = digits_value(d.take(i + 1 - start));
        assert(next == value * 10 + digit);
        let scaled = match value.checked_mul(10) {
            Some(v) => v,
            None => {
                proof {
                    if all_digits(d) {
                        lemma_digits_value_grows(d, i + 1 - start);
                        assert(digits_value(d) > u64::MAX);
                    }
                }
                return None;
            },
        };
        let sum = match scaled.checked_add(digit) {
            Some(v) => v,
            None => {
                proof {
                    if all_digits(d) {
                        lemma_digits_value_grows(d, i + 1 - start);
                        assert(digits_value(d) > u64::MAX);
                    }
                }
                return None;
            },
        };
        value = sum;
        i += 1;
    }
    assert(d.take(d.len() as int) =~= d);
    Some(value)
}

fn first_line_of(s: &str) -> (r: Option<(String, String)>)
    ensures
        match first_line(s@) {
            Some((line, rest)) => r matches Some((a, b)) && a@ == line && b@ == rest,
            None => r is None,
        },
{
    let cs = chars_of(s);
    if cs.len() == 0 {
        return None;
    }
    let mut i: usize = 0;
    assert(s@.skip(0) =~= s@);
    while i < cs.len() && cs[i] != '\n'
        invariant
            i <= cs.len(),
            cs@ == s@,
            index_of(s@, '\n') == i + index_of(s@.skip(i as int), '\n'),
        decreases cs.len() - i,
    {
        assert(s@.skip(i as int).drop_first() =~= s@.skip(i + 1));
        i += 1;
    }
    if i < cs.len() {
        assert(index_of(s@, '\n') == i);
        let end = if i > 0 && cs[i - 1] == '\r' {
            i - 1
        } else {
            i
        };
        let line = crate::text::string_from_range(&cs, 0, end);
        let rest = crate::text::string_from_range(&cs, i + 1, cs.len());
        assert(s@.take(i as int) =~= s@.subrange(0, i as int));
        if end < i {
            assert(s@.take(i as int).drop_last() =~= s@.subrange(0, end as int));
        }
        assert(s@.skip(i + 1) =~= s@.subrange(i + 1, s@.len() as int));
        Some((line, rest))
    } else {
        assert(s@.skip(i as int) =~= Seq::<char>::empty());
        Some((s.to_string(), String::new()))
    }
}

/// A version found by an earlier check that is newer than this build, if the
/// check ran at most a day before `now`: the cache holds the time of the
/// check in seconds and the version, each on its own line.
pub open spec fn cached_newer(contents: Seq<char>, now: u64) -> Option<Seq<char>> {
    match first_line(contents) {
        None => None,
        Some((first, rest)) => match parsed_u64(first) {
            None => None,
            Some(checked) => match first_line(rest) {
                None => None,
                Some((version, _)) => if now.saturating_sub(checked) > CACHE_TTL_SECS {
                    None
                } else if newer_than_current(version) {
                    Some(version)
                } else {
                    None
                },
            },
        },
    }
}

/// Reads the cache's contents (see `cached_newer`).
pub fn cached_newer_version(contents: &str, now: u64) -> (r: Option<String>)
    ensures
        match cached_newer(contents@, now) {
            Some(v) => r matches Some(s) && s@ == v,
            None => r is None,
        },
{
    let (first, rest) = match first_line_of(contents) {
        Some(p) => p,
        None => {
            return None;
        },
    };
    let checked = match parse_u64(first.as_str()) {
        Some(c) => c,
        None => {
            return None;
        },
    };
    let (version, _) = match first_line_of(rest.as_str()) {
        Some(p) => p,
        None => {
            return None;
        },
    };
    if now.saturating_sub(checked) > CACHE_TTL_SECS {
        return None;
    }
    if is_newer_than_current(version.as_str()) {
        Some(version)
    } else {
        None
    }
}

/// Whether the update check should run again: there is no cache, its first
/// line is not a time, or the check it records is more than a day old.
pub open spec fn stale(contents: Option<Seq<char>>, now: u64) -> bool {
    match contents {
        None => true,
        Some(c) => match first_line(c) {
            None => true,
            Some((first, _)) => match parsed_u64(first) {
                None => true,
                Some(checked) => now.saturating_sub(checked) > CACHE_TTL_SECS,
            },
        },
    }
}

/// Whether the cached check is stale (see `stale`); `contents` is the
/// cache's text, or `None` when it cannot be read.
pub fn cache_is_stale(contents: Option<&str>, now: u64) -> (r: bool)
    ensures
        r == stale(
            match contents {
                Some(c) => Some(c@),
                None => None,
            },
            now,
        ),
{
    let c = match contents {
        Some(c) => c,
        None => {
            return true;
        },
    };
    let (first, _) = match first_line_of(c) {
        Some(p) => p,
        None => {
            return true;
        },
    };
    match parse_u64(first.as_str()) {
        None => true,
        Some(checked) => now.saturating_sub(checked) > CACHE_TTL_SECS,
    }
}

/// What the cache holds after a check at `now` found `version`.
pub open spec fn cache_text(now: u64, version: Seq<char>) -> Seq<char> {
    decimal(now as nat) + seq!['\n'] + version + seq!['\n']
}

/// The text to cache after a check (see `cache_text`).
pub fn cache_record(now: u64, version: &str) -> (r: String)
    ensures
        r@ == cache_text(now, version@),
{
    let mut out = String::new();
    push_decimal(&mut out, now);
    out.push('\n');
    out.append(version);
    out.push('\n');
    out
}

proof fn lemma_index_of_concat(a: Seq<char>, b: Seq<char>, c: char)
    requires
        !a.contains(c),
    ensures
        index_of(a + b, c) == a.len() + index_of(b, c),
    decreases a.len(),
{
    if a.len() > 0 {
        assert((a + b).drop_first() =~= a.drop_first() + b);
        assert(a[0] != c);
        assert forall|i: int| 0 <= i < a.drop_first().len() implies a.drop_first()[i] != c by {
            assert(a.drop_first()[i] == a[i + 1]);
        }
        lemma_index_of_concat(a.drop_first(), b, c);
    } else {
        assert(a + b =~= b);
    }
}

proof fn lemma_digit_char(d: nat)
    requires
        d < 10,
    ensures
        is_digit(digit_char(d)),
        (digit_char(d) as u32) - ('0' as u32) == d,
{
}

/// The decimal digits of a number: digits only, at least one, and they
/// spell the number.
proof fn lemma_decimal_digits(n: nat)
    ensures
        decimal(n).len() > 0,
        all_digits(decimal(n)),
        digits_value(decimal(n)) == n,
    decreases n,
{
    if n < 10 {
        lemma_digit_char(n);
        assert(decimal(n) =~= seq![digit_char(n)]);
        assert(decimal(n).drop_last() =~= Seq::<char>::empty());
        assert(digits_value(decimal(n).drop_last()) == 0);
        assert(decimal(n).last() == digit_char(n));
        assert(digits_value(decimal(n)) == n);
    } else {
        lemma_decimal_digits(n / 10);
        lemma_digit_char(n % 10);
        let s = decimal(n);
        assert(s == decimal(n / 10).push(digit_char(n % 10)));
        assert(s.drop_last() =~= decimal(n / 10));
        assert forall|i: int| 0 <= i < s.len() implies is_digit(#[trigger] s[i]) by {
            if i < s.len() - 1 {
                assert(s[i] == decimal(n / 10)[i]);
            }
        }
        assert(digits_value(s) == (n / 10) * 10 + n % 10);
        vstd::arithmetic::div_mod::lemma_fundamental_div_mod(n as int, 10);
        assert(digits_value(s) == n);
    }
}

proof fn lemma_first_line_of_terminated(line: Seq<char>, rest: Seq<char>)
    requires
        !line.contains('\n'),
        line.len() == 0 || line.last() != '\r',
    ensures
        first_line(line + seq!['\n'] + rest) == Some((line, rest)),
{
    let s = line + seq!['\n'] + rest;
    assert(s =~= line + (seq!['\n'] + rest));
    lemma_index_of_concat(line, seq!['\n'] + rest, '\n');
    assert(index_of(seq!['\n'] + rest, '\n') == 0);
    assert(s.take(line.len() as int) =~= line);
    assert(s.skip(line.len() + 1 as int) =~= rest);
}

/// Reading back what a check wrote to the cache gives the check's time, and
/// the version it found whenever that version is newer than this build and
/// the check is at most a day old; the cache is stale exactly when the check
/// is older than that.  The version must be one line, not ending in `\r`.
pub proof fn lemma_cache_round_trip(checked: u64, version: Seq<char>, now: u64)
    requires
        !version.contains('\n'),
        version.len() == 0 || version.last() != '\r',
    ensures
        cached_newer(cache_text(checked, version), now) == (if now.saturating_sub(checked)
            <= CACHE_TTL_SECS && newer_than_current(version) {
            Some(version)
        } else {
            None
        }),
        stale(Some(cache_text(checked, version)), now) == (now.saturating_sub(checked)
            > CACHE_TTL_SECS),
{
    let digits = decimal(checked as nat);
    lemma_decimal_digits(checked as nat);
    assert(!digits.contains('\n')) by {
        if digits.contains('\n') {
            let i = choose|i: int| 0 <= i < digits.len() && digits[i] == '\n';
            assert(is_digit(digits[i]));
        }
    }
    assert(is_digit(digits.last()));
    let text = cache_text(checked, version);
    assert(text =~= digits + seq!['\n'] + (version + seq!['\n']));
    lemma_first_line_of_terminated(digits, version + seq!['\n']);
    assert(version + seq!['\n'] =~= version + seq!['\n'] + Seq::<char>::empty());
    lemma_first_line_of_terminated(version, Seq::<char>::empty());
    assert(is_digit(digits[0]));
    assert(parsed_u64(digits) == Some(checked));
}

// ---------------------------------------------------------------------
// Upgrading
// ---------------------------------------------------------------------

/// How the running copy was installed.
#[derive(Debug, Clone, Copy, PartialEq, Eq, Structural)]
pub enum InstallSource {
    Homebrew,
    Npm,
    StandaloneUnix,
    StandaloneWindows,
}

/// On Windows an npm installation, else the standalone installer; elsewhere
/// Homebrew first, then npm, then the standalone installer.
pub open spec fn install_source(windows: bool, homebrew: bool, npm: bool) -> InstallSource {
    if windows {
        if npm {
            InstallSource::Npm
        } else {
            InstallSource::StandaloneWindows
        }
    } else if homebrew {
        InstallSource::Homebrew
    } else if npm {
        InstallSource::Npm
    } else {
        InstallSource::StandaloneUnix
    }
}

/// Chooses the upgrade route from what was found on the machine: whether it
/// runs Windows, whether Homebrew lists the tool, whether npm lists the
/// package globally.
pub fn detect_install_source(windows: bool, homebrew: bool, npm: bool) -> (r: InstallSource)
    ensures
        r == install_source(windows, homebrew, npm),
{
    if windows {
        if npm {
            InstallSource::Npm
        } else {
            InstallSource::StandaloneWindows
        }
    } else if homebrew {
        InstallSource::Homebrew
    } else if npm {
        InstallSource::Npm
    } else {
        InstallSource::StandaloneUnix
    }
}

/// The program and arguments that upgrade an installation.
pub open spec fn upgrade_command(source: InstallSource) -> (Seq<char>, Seq<Seq<char>>) {
    match source {
        InstallSource::Homebrew => ("brew"@, seq!["upgrade"@, "kaku"@]),
        InstallSource::Npm => ("npm"@, seq!["install"@, "-g"@, NPM_PACKAGE@ + "@latest"@]),
        InstallSource::StandaloneUnix => (
            "sh"@,
            seq![
                "-c"@,
                "curl --proto '=https' --tlsv1.2 -LsSf https://github.com/xira-kth/kaku/releases/latest/download/kaku-installer.sh | sh"@,
            ],
        ),
        InstallSource::StandaloneWindows => (
            "powershell"@,
            seq![
                "-ExecutionPolicy"@,
                "Bypass"@,
                "-c"@,
                "irm https://github.com/xira-kth/kaku/releases/latest/download/kaku-installer.ps1 | iex"@,
            ],
        ),
    }
}

/// The program and arguments that upgrade an installation (see
/// `upgrade_command`).
pub fn update_command(source: InstallSource) -> (r: (String, Vec<String>))
    ensures
        r.0@ == upgrade_command(source).0,
        r.1@.map_values(|a: String| a@) == upgrade_command(source).1,
{
    let (program, args) = match source {
        InstallSource::Homebrew => ("brew".to_string(), vec!["upgrade".to_string(), "kaku".to_string()]),
        InstallSource::Npm => {
            let mut package = NPM_PACKAGE.to_string();
            package.append("@latest");
            ("npm".to_string(), vec!["install".to_string(), "-g".to_string(), package])
        },
        InstallSource::StandaloneUnix => (
            "sh".to_string(),
            vec![
                "-c".to_string(),
                "curl --proto '=https' --tlsv1.2 -LsSf https://github.com/xira-kth/kaku/releases/latest/download/kaku-installer.sh | sh".to_string(),
            ],
        ),
        InstallSource::StandaloneWindows => (
            "powershell".to_string(),
            vec![
                "-ExecutionPolicy".to_string(),
                "Bypass".to_string(),
                "-c".to_string(),
                "irm https://github.com/xira-kth/kaku/releases/latest/download/kaku-installer.ps1 | iex".to_string(),
            ],
        ),
    };
    assert(args@.map_values(|a: String| a@) =~= upgrade_command(source).1);
    (program, args)
}

/// The next step of an upgrade, as the program sees it.
pub enum UpdateStep {
    /// No newer release exists: print the message and stop.
    UpToDate(String),
    /// Ask Homebrew whether it lists the tool.
    ProbeHomebrew,
    /// Ask npm whether it lists the package globally.
    ProbeNpm,
    /// Run the program with the arguments.
    Run(String, Vec<String>),
}

/// An upgrade step with its texts as character sequences.
pub enum UpdateStepV {
    UpToDate(Seq<char>),
    ProbeHomebrew,
    ProbeNpm,
    Run(Seq<char>, Seq<Seq<char>>),
}

impl View for UpdateStep {
    type V = UpdateStepV;

    open spec fn view(&self) -> UpdateStepV {
        match self {
            UpdateStep::UpToDate(m) => UpdateStepV::UpToDate(m@),
            UpdateStep::ProbeHomebrew => UpdateStepV::ProbeHomebrew,
            UpdateStep::ProbeNpm => UpdateStepV::ProbeNpm,
            UpdateStep::Run(p, a) => UpdateStepV::Run(p@, a@.map_values(|x: String| x@)),
        }
    }
}

/// What an upgrade does next, given the latest released version (`None`
/// when the query failed, which counts as this build's own version), whether
/// the machine runs Windows, and the answers of the Homebrew and npm probes
/// so far (`None` while a probe has not run).  With no newer release it
/// reports that the tool is up to date.  Otherwise Homebrew is asked first
/// (never on Windows), npm only where Homebrew is not the route, and then
/// the command of the chosen route runs.
pub open spec fn update_step_of(
    latest: Option<Seq<char>>,
    windows: bool,
    homebrew: Option<bool>,
    npm: Option<bool>,
) -> UpdateStepV {
    let version = match latest {
        Some(v) => v,
        None => CURRENT_VERSION@,
    };
    if !newer_than_current(version) {
        UpdateStepV::UpToDate("kaku is up to date ("@ + CURRENT_VERSION@ + ")"@)
    } else if !windows && homebrew is None {
        UpdateStepV::ProbeHomebrew
    } else {
        let on_homebrew = !windows && homebrew == Some(true);
        if (windows || !on_homebrew) && npm is None {
            UpdateStepV::ProbeNpm
        } else {
            let source = install_source(windows, on_homebrew, npm == Some(true));
            UpdateStepV::Run(upgrade_command(source).0, upgrade_command(source).1)
        }
    }
}

/// Decides the next step of an upgrade (see `update_step_of`).
pub fn update_step(
    latest: &Option<String>,
    windows: bool,
    homebrew: Option<bool>,
    npm: Option<bool>,
) -> (r: UpdateStep)
    ensures
        r@ == update_step_of(
            match latest {
                Some(v) => Some(v@),
                None => None,
            },
            windows,
            homebrew,
            npm,
        ),
{
    let newer = match latest {
        Some(v) => is_newer_than_current(v.as_str()),
        None => is_newer_than_current(CURRENT_VERSION),
    };
    if !newer {
        return UpdateStep::UpToDate(up_to_date_message());
    }
    if !windows && homebrew.is_none() {
        return UpdateStep::ProbeHomebrew;
    }
    let on_homebrew = !windows && homebrew == Some(true);
    if (windows || !on_homebrew) && npm.is_none() {
        return UpdateStep::ProbeNpm;
    }
    let source = detect_install_source(windows, on_homebrew, npm == Some(true));
    let (program, args) = update_command(source);
    UpdateStep::Run(program, args)
}

/// The message when no newer release exists.
pub fn up_to_date_message() -> (r: String)
    ensures
        r@ == "kaku is up to date ("@ + CURRENT_VERSION@ + ")"@,
{
    let mut out = "kaku is up to date (".to_string();
    out.append(CURRENT_VERSION);
    out.append(")");
    out
}

/// The user agent the releases API is asked with.
pub fn user_agent() -> (r: String)
    ensures
        r@ == "kaku/"@ + CURRENT_VERSION@,
{
    let mut out = "kaku/".to_string();
    out.append(CURRENT_VERSION);
    out
}

} // verus!
