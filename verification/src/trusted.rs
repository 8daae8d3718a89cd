//! Everything this crate takes on trust: the contracts below describe code
//! that lives in `std` or in another crate and are not proved here.

use rand::Rng;
use sha2::Digest;
use std::fmt::Write;
use std::hash::Hash;
use vstd::prelude::*;
use crate::text::{ascii_lowered, is_ascii_text, opt_view, str_views};

verus! {

/// `str`'s `==` compares the two slices character by character.
pub assume_specification[ <str as PartialEq>::eq ](a: &str, b: &str) -> (r: bool)
    ensures
        r == (a@ == b@),
;

/// `String::push` appends one character at the end.
pub assume_specification[ String::push ](s: &mut String, c: char)
    ensures
        final(s)@ == old(s)@.push(c),
;

/// `chrono::Utc::now().timestamp()`: the wall clock, in whole seconds since
/// the Unix epoch.  Nothing is claimed of the value.  chrono panics where the
/// system clock stands before the epoch.
#[verifier::external_body]
pub(crate) fn now_seconds() -> i64 {
    chrono::Utc::now().timestamp()
}

/// The text chrono writes for the moment `seconds` after the Unix epoch, in
/// UTC, under the format string `pattern`; `None` where chrono cannot
/// represent the moment or rejects the pattern.
pub uninterp spec fn formatted_time(seconds: int, pattern: Seq<char>) -> Option<Seq<char>>;

/// `chrono::DateTime::from_timestamp(seconds, 0)`, then `DateTime::format`
/// with `pattern`, written into a string.  The result depends on the two
/// arguments only: the moment is taken in UTC.
#[verifier::external_body]
pub(crate) fn format_seconds(seconds: i64, pattern: &str) -> (r: Option<String>)
    ensures
        opt_view(r) == formatted_time(seconds as int, pattern@),
{
    let moment = chrono::DateTime::from_timestamp(seconds, 0)?;
    let mut out = String::new();
    write!(out, "{}", moment.format(pattern)).ok()?;
    Some(out)
}

/// `uuid::Uuid::new_v4()` written by its `Display`, the hyphenated form, which
/// is 36 characters long.  The id is random: nothing else is claimed.  uuid
/// panics where the operating system gives no random bytes.
#[verifier::external_body]
pub(crate) fn fresh_id() -> (id: String)
    ensures
        id@.len() == 36,
{
    uuid::Uuid::new_v4().to_string()
}

/// The texts that the regex crate finds in `text` for the pattern
/// `pattern`: its successive non-overlapping matches, from left to right;
/// `None` where it rejects the pattern.
pub uninterp spec fn regex_matches(pattern: Seq<char>, text: Seq<char>) -> Option<Seq<Seq<char>>>;

/// `regex::Regex::new(pattern)`, then `Regex::find_iter(text)`, each match
/// copied out with `Match::as_str`.  The matches depend on the two arguments
/// only.
#[verifier::external_body]
pub(crate) fn regex_find_all(pattern: &str, text: &str) -> (r: Option<Vec<String>>)
    ensures
        match r {
            Some(found) => regex_matches(pattern@, text@) == Some(str_views(found@)),
            None => regex_matches(pattern@, text@) is None,
        },
{
    let re = regex::Regex::new(pattern).ok()?;
    Some(re.find_iter(text).map(|m| m.as_str().to_string()).collect())
}

/// serde_json's error.
#[verifier::external_type_specification]
#[verifier::external_body]
pub struct ExJsonError(serde_json::Error);

/// The text serde_json writes, indented, for the JSON document that it reads
/// from `text`; `None` where it reads no document from `text` or cannot
/// write the one it read.
pub uninterp spec fn pretty_json(text: Seq<char>) -> Option<Seq<char>>;

/// `serde_json::to_string_pretty` on the `serde_json::Value` that
/// `serde_json::from_str` reads from `text`.  Whether this succeeds, and the
/// text it gives, depend on `text` only.  Nothing is claimed of the error.
#[verifier::external_body]
pub(crate) fn json_pretty(text: &str) -> (r: Result<String, serde_json::Error>)
    ensures
        match r {
            Ok(laid_out) => pretty_json(text@) == Some(laid_out@),
            Err(_) => pretty_json(text@) is None,
        },
{
    let value: serde_json::Value = serde_json::from_str(text)?;
    serde_json::to_string_pretty(&value)
}

/// What serde_json's error says of itself, by its `Display`.  Nothing is
/// claimed of the text.
#[verifier::external_body]
pub(crate) fn json_error_text(error: &serde_json::Error) -> String {
    error.to_string()
}

/// `rand::thread_rng().gen_range(0..n)`: some number below `n`, drawn at
/// random.  rand panics on an empty range, so `n` must not be 0; it also
/// panics where the operating system gives no seed.
#[verifier::external_body]
pub(crate) fn random_below(n: usize) -> (i: usize)
    requires
        n > 0,
    ensures
        i < n,
{
    rand::thread_rng().gen_range(0..n)
}

/// The SHA-256 digest of the UTF-8 bytes of `text`, as the sha2 crate
/// computes it.
pub uninterp spec fn sha256_of(text: Seq<char>) -> Seq<u8>;

/// `sha2::Sha256::digest` on the bytes of `text`, copied into a vector.  The
/// digest depends on the text only.
#[verifier::external_body]
pub(crate) fn sha256(text: &str) -> (digest: Vec<u8>)
    ensures
        digest@ == sha256_of(text@),
{
    sha2::Sha256::digest(text.as_bytes()).to_vec()
}

/// What `str`'s `Hash` writes to a hasher for `text`: runs of bytes that
/// depend on the text only.
pub uninterp spec fn hashed_writes(text: Seq<char>) -> Seq<Seq<u8>>;

/// `str`'s `Hash`: feeds `text` to `hasher`.  The hasher has then been
/// written what it had been written before, followed by what is written for
/// `text`; which bytes these are is not claimed.
#[verifier::external_body]
pub(crate) fn hash_text(text: &str, hasher: &mut std::collections::hash_map::DefaultHasher)
    ensures
        final(hasher)@ == old(hasher)@ + hashed_writes(text@),
{
    text.hash(hasher)
}

/// `text` in lower case, as `str::to_lowercase` gives it: by the Unicode
/// rules, which depend on the text only.
pub uninterp spec fn lowercased(text: Seq<char>) -> Seq<char>;

/// `str::to_lowercase`.  By the Unicode rules a text of ASCII characters
/// only is put in lower case letter by letter: `A` to `Z` become `a` to `z`
/// and nothing else changes.
#[verifier::external_body]
pub(crate) fn lowercase(text: &str) -> (lower: String)
    ensures
        lower@ == lowercased(text@),
        is_ascii_text(text@) ==> lower@ == ascii_lowered(text@),
{
    text.to_lowercase()
}

} // verus!
