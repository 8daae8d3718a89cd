//! Helpers that work on a piece of text: pulling addresses out of it,
//! laying out JSON, making a password, hashing.

use std::collections::hash_map::DefaultHasher;
use std::hash::Hasher;
use vstd::std_specs::hash::DefaultHasherAdditionalSpecFns;
use vstd::prelude::*;
use crate::text::{chars_of, str_views};
use crate::trusted::{
    hash_text, hashed_writes, json_error_text, json_pretty, pretty_json, random_below,
    regex_find_all, regex_matches, sha256, sha256_of,
};

verus! {

broadcast use vstd::string::group_string_axioms;

/// What counts as a web address.
pub const URL_PATTERN: &'static str = "https?://[^\\s]+";

/// What counts as a mail address.
pub const EMAIL_PATTERN: &'static str = "\\b[A-Za-z0-9._%+-]+@[A-Za-z0-9.-]+\\.[A-Z|a-z]{2,}\\b";

/// What counts as a phone number.
pub const PHONE_PATTERN: &'static str = "\\b\\d{3}[-.]?\\d{3}[-.]?\\d{4}\\b";

/// The name of the one hash that is computed as a cryptographic digest.
pub const SHA256: &'static str = "sha256";

/// The symbols a password is made of.
pub const PASSWORD_SYMBOLS: &'static str =
    "ABCDEFGHIJKLMNOPQRSTUVWXYZabcdefghijklmnopqrstuvwxyz0123456789!@#$%^&*";

/// The matches of `pattern` in `text`, none where the pattern is rejected.
pub open spec fn found(pattern: Seq<char>, text: Seq<char>) -> Seq<Seq<char>> {
    match regex_matches(pattern, text) {
        Some(m) => m,
        None => Seq::empty(),
    }
}

/// The successive matches of `pattern` in `text`, from left to right.
pub fn extract(pattern: &str, text: &str) -> (r: Vec<String>)
    ensures
        str_views(r@) == found(pattern@, text@),
{
    match regex_find_all(pattern, text) {
        Some(m) => m,
        None => {
            let none: Vec<String> = Vec::new();
            assert(str_views(none@) =~= Seq::<Seq<char>>::empty());
            none
        },
    }
}

/// The web addresses in `text`, from left to right.
pub fn extract_urls(text: &str) -> (r: Vec<String>)
    ensures
        str_views(r@) == found(URL_PATTERN@, text@),
{
    extract(URL_PATTERN, text)
}

/// The mail addresses in `text`, from left to right.
pub fn extract_emails(text: &str) -> (r: Vec<String>)
    ensures
        str_views(r@) == found(EMAIL_PATTERN@, text@),
{
    extract(EMAIL_PATTERN, text)
}

/// The phone numbers in `text`, from left to right.
pub fn extract_phone_numbers(text: &str) -> (r: Vec<String>)
    ensures
        str_views(r@) == found(PHONE_PATTERN@, text@),
{
    extract(PHONE_PATTERN, text)
}

/// Why a text could not be laid out as JSON.
#[derive(Debug)]
pub struct JsonError {
    pub message: String,
}

/// The JSON document that `text` is, laid out again with one member or item
/// to a line.  A text that is no JSON document is refused.
pub fn format_json(text: &str) -> (r: Result<String, JsonError>)
    ensures
        match r {
            Ok(laid_out) => pretty_json(text@) == Some(laid_out@),
            Err(_) => pretty_json(text@) is None,
        },
{
    match json_pretty(text) {
        Ok(laid_out) => json_outcome(Ok(laid_out)),
        Err(e) => json_outcome(Err(json_error_text(&e))),
    }
}

/// What laying out comes to, given what the writer of JSON answered: the
/// text it wrote, or its complaint as an error.
pub fn json_outcome(answer: Result<String, String>) -> (r: Result<String, JsonError>)
    ensures
        match answer {
            Ok(laid_out) => r == Ok::<String, JsonError>(laid_out),
            Err(message) => r == Err::<String, JsonError>(JsonError { message }),
        },
{
    match answer {
        Ok(laid_out) => Ok(laid_out),
        Err(message) => Err(JsonError { message }),
    }
}

/// A password of `length` symbols, each drawn at random from the password
/// symbols.
pub fn generate_password(length: usize) -> (password: String)
    ensures
        password@.len() == length,
        forall|i: int| 0 <= i < length ==> PASSWORD_SYMBOLS@.contains(#[trigger] password@[i]),
{
    proof {
        reveal_strlit("ABCDEFGHIJKLMNOPQRSTUVWXYZabcdefghijklmnopqrstuvwxyz0123456789!@#$%^&*");
    }
    let symbols = chars_of(PASSWORD_SYMBOLS);
    let mut password = String::new();
    let mut n: usize = 0;
    while n < length
        invariant
            n <= length,
            symbols@ == PASSWORD_SYMBOLS@,
            symbols@.len() == 70,
            password@.len() == n,
            forall|i: int| 0 <= i < n ==> PASSWORD_SYMBOLS@.contains(#[trigger] password@[i]),
        decreases length - n,
    {
        let pick = random_below(symbols.len());
        password.push(symbols[pick]);
        n += 1;
    }
    password
}

/// The hexadecimal digit for `d`, in lower case.
pub open spec fn hex_digit(d: int) -> char {
    if d < 10 {
        (48 + d) as u8 as char
    } else {
        (87 + d) as u8 as char
    }
}

/// `bytes` written as two hexadecimal digits each.
pub open spec fn hex_of_bytes(bytes: Seq<u8>) -> Seq<char>
    decreases bytes.len(),
{
    if bytes.len() == 0 {
        Seq::empty()
    } else {
        hex_of_bytes(bytes.drop_last()) + seq![
            hex_digit(bytes.last() as int / 16),
            hex_digit(bytes.last() as int % 16),
        ]
    }
}

/// `n` written in hexadecimal, without leading zeros.
pub open spec fn hex_of_number(n: nat) -> Seq<char>
    decreases n,
{
    if n < 16 {
        seq![hex_digit(n as int)]
    } else {
        hex_of_number(n / 16).push(hex_digit(n as int % 16))
    }
}

fn digit(d: u8) -> (c: char)
    requires
        d < 16,
    ensures
        c == hex_digit(d as int),
{
    if d < 10 {
        (48 + d) as char
    } else {
        (87 + d) as char
    }
}

/// `bytes` written as two hexadecimal digits each, in lower case.
pub fn to_hex(bytes: &Vec<u8>) -> (text: String)
    ensures
        text@ == hex_of_bytes(bytes@),
{
    let mut text = String::new();
    let mut i: usize = 0;
    while i < bytes.len()
        invariant
            i <= bytes.len(),
            text@ == hex_of_bytes(bytes@.take(i as int)),
        decreases bytes.len() - i,
    {
        let b = bytes[i];
        let ghost before = text@;
        text.push(digit(b / 16));
        text.push(digit(b % 16));
        proof {
            let next = bytes@.take(i + 1);
            assert(next.drop_last() =~= bytes@.take(i as int));
            assert(next.last() == b);
            assert(text@ =~= before + seq![hex_digit(b as int / 16), hex_digit(b as int % 16)]);
        }
        i += 1;
    }
    assert(bytes@.take(bytes@.len() as int) =~= bytes@);
    text
}

fn number_to_hex_into(text: &mut String, n: u64)
    ensures
        final(text)@ == old(text)@ + hex_of_number(n as nat),
    decreases n,
{
    if n >= 16 {
        number_to_hex_into(text, n / 16);
    }
    let ghost before = text@;
    text.push(digit((n % 16) as u8));
    proof {
        if n >= 16 {
            assert(text@ =~= old(text)@ + hex_of_number(n as nat / 16).push(
                hex_digit(n as int % 16),
            ));
        } else {
            assert(text@ =~= old(text)@ + seq![hex_digit(n as int)]);
        }
    }
}

/// `n` written in hexadecimal, in lower case, without leading zeros.
pub fn number_to_hex(n: u64) -> (text: String)
    ensures
        text@ == hex_of_number(n as nat),
{
    let mut text = String::new();
    number_to_hex_into(&mut text, n);
    assert(text@ =~= hex_of_number(n as nat));
    text
}

/// The 64-bit hash that a new `DefaultHasher` of std gives for `text`.
pub open spec fn table_hash(text: Seq<char>) -> u64 {
    DefaultHasher::spec_finish(Seq::<Seq<u8>>::empty() + hashed_writes(text))
}

/// The hash of `text` in hexadecimal.  The algorithm `sha256` gives the
/// SHA-256 digest of the text's bytes; any other name gives the 64-bit hash
/// of std's `DefaultHasher`, which is fit for tables, not for security, and
/// may differ from one build of this library to the next.
pub fn calculate_hash(text: &str, algorithm: &str) -> (hash: String)
    ensures
        algorithm@ == SHA256@ ==> hash@ == hex_of_bytes(sha256_of(text@)),
        algorithm@ != SHA256@ ==> hash@ == hex_of_number(table_hash(text@) as nat),
{
    if *algorithm == *SHA256 {
        to_hex(&sha256(text))
    } else {
        let mut hasher = DefaultHasher::new();
        hash_text(text, &mut hasher);
        number_to_hex(hasher.finish())
    }
}

} // verus!
