//! Reading a key combination such as `ctrl+shift+v`.

use vstd::prelude::*;
use crate::text::{
    ascii_lowered, chars_of, is_ascii_text, lemma_run_len, run_len, str_views, string_of, trim,
    trimmed,
};
use crate::trusted::{lowercase, lowercased};

verus! {

/// A key combination: the modifier keys to hold and the letter key to press,
/// an upper-case letter.
#[derive(Debug, Clone, Copy, PartialEq, Eq, Structural)]
pub struct HotKey {
    pub control: bool,
    pub alt: bool,
    pub shift: bool,
    pub meta: bool,
    pub key: char,
}

/// The words with a meaning of their own, in lower case.
pub const CTRL: &'static str = "ctrl";

pub const ALT: &'static str = "alt";

pub const SHIFT: &'static str = "shift";

pub const META: &'static str = "meta";

pub const CMD: &'static str = "cmd";

pub const SUPER: &'static str = "super";

pub const KEY_V: &'static str = "v";

pub const KEY_C: &'static str = "c";

pub const KEY_X: &'static str = "x";

/// The combination before anything is read: no modifier, the key `V`.
pub open spec fn plain() -> HotKey {
    HotKey { control: false, alt: false, shift: false, meta: false, key: 'V' }
}

/// Whether `c` is one of the letters `a` to `z` or `A` to `Z`.
pub open spec fn is_ascii_letter(c: char) -> bool {
    ('a' <= c <= 'z') || ('A' <= c <= 'Z')
}

/// The upper-case form of an ASCII letter.
pub open spec fn upper(c: char) -> char {
    if 'a' <= c <= 'z' {
        ((c as u32 - 32) as u8) as char
    } else {
        c
    }
}

/// The combination `h` after one more word was read: `part` as it stands
/// between two plus signs, `lowered` being the same without the white space
/// around it and in lower case.  The name of a modifier adds the modifier;
/// `v`, `c` and `x` set the key; any other word sets the key to its first
/// character where that is an ASCII letter, and else changes nothing.
pub open spec fn with_word(h: HotKey, part: Seq<char>, lowered: Seq<char>) -> HotKey {
    if lowered == CTRL@ {
        HotKey { control: true, ..h }
    } else if lowered == ALT@ {
        HotKey { alt: true, ..h }
    } else if lowered == SHIFT@ {
        HotKey { shift: true, ..h }
    } else if lowered == META@ || lowered == CMD@ || lowered == SUPER@ {
        HotKey { meta: true, ..h }
    } else if lowered == KEY_V@ {
        HotKey { key: 'V', ..h }
    } else if lowered == KEY_C@ {
        HotKey { key: 'C', ..h }
    } else if lowered == KEY_X@ {
        HotKey { key: 'X', ..h }
    } else if part.len() > 0 && is_ascii_letter(part[0]) {
        HotKey { key: upper(part[0]), ..h }
    } else {
        h
    }
}

/// The characters other than `sep`.
pub open spec fn other_than(sep: char) -> spec_fn(char) -> bool {
    |c: char| c != sep
}

/// What stands between the separators `sep` in `s`.
pub open spec fn pieces(s: Seq<char>, sep: char) -> Seq<Seq<char>>
    decreases s.len(),
{
    let k = run_len(s, other_than(sep));
    if k >= s.len() {
        seq![s]
    } else {
        seq![s.take(k as int)] + pieces(s.skip(k as int + 1), sep)
    }
}

/// `text` in lower case: letter by letter where it is made of ASCII
/// characters only, and else by the Unicode rules.
pub open spec fn lowered(text: Seq<char>) -> Seq<char> {
    if is_ascii_text(text) {
        ascii_lowered(text)
    } else {
        lowercased(text)
    }
}

/// The combination that the words `parts` spell, read from left to right.
pub open spec fn spelled(parts: Seq<Seq<char>>) -> HotKey
    decreases parts.len(),
{
    if parts.len() == 0 {
        plain()
    } else {
        with_word(spelled(parts.drop_last()), parts.last(), lowered(trim(parts.last())))
    }
}

/// The combination `h` after one more word was read.
pub fn read_word(h: HotKey, part: &str, lowered: &str) -> (r: HotKey)
    ensures
        r == with_word(h, part@, lowered@),
{
    if *lowered == *CTRL {
        HotKey { control: true, ..h }
    } else if *lowered == *ALT {
        HotKey { alt: true, ..h }
    } else if *lowered == *SHIFT {
        HotKey { shift: true, ..h }
    } else if *lowered == *META || *lowered == *CMD || *lowered == *SUPER {
        HotKey { meta: true, ..h }
    } else if *lowered == *KEY_V {
        HotKey { key: 'V', ..h }
    } else if *lowered == *KEY_C {
        HotKey { key: 'C', ..h }
    } else if *lowered == *KEY_X {
        HotKey { key: 'X', ..h }
    } else {
        let chars = chars_of(part);
        if chars.len() > 0 {
            let c = chars[0];
            if 'a' <= c && c <= 'z' {
                HotKey { key: ((c as u32 - 32) as u8) as char, ..h }
            } else if 'A' <= c && c <= 'Z' {
                HotKey { key: c, ..h }
            } else {
                h
            }
        } else {
            h
        }
    }
}

/// What stands between the separators `sep` in `text`.
pub fn split_on(text: &str, sep: char) -> (out: Vec<String>)
    ensures
        str_views(out@) == pieces(text@, sep),
{
    let chars = chars_of(text);
    let ghost all = chars@;
    let ghost p = other_than(sep);
    let mut out: Vec<String> = Vec::new();
    let mut start: usize = 0;
    assert(all.skip(0) =~= all);
    assert(str_views(out@) + pieces(all, sep) =~= pieces(all, sep));
    loop
        invariant
            start <= chars.len(),
            all == chars@,
            all == text@,
            p == other_than(sep),
            pieces(all, sep) == str_views(out@) + pieces(all.skip(start as int), sep),
        decreases chars.len() - start,
    {
        let ghost done = str_views(out@);
        let ghost rest = all.skip(start as int);
        let mut end: usize = start;
        while end < chars.len() && chars[end] != sep
            invariant
                start <= end <= chars.len(),
                forall|i: int| start <= i < end ==> #[trigger] chars@[i] != sep,
            decreases chars.len() - end,
        {
            end += 1;
        }
        proof {
            assert forall|i: int| 0 <= i < end - start implies p(#[trigger] rest[i]) by {
                assert(rest[i] == chars@[start + i]);
            }
            if end < chars.len() {
                assert(rest[end - start] == chars@[end as int]);
            }
            lemma_run_len(rest, p, end - start);
            assert(rest.take(end - start) =~= all.subrange(start as int, end as int));
        }
        out.push(string_of(&chars, start, end));
        if end == chars.len() {
            proof {
                assert(rest.take(end - start) =~= rest);
                assert(pieces(rest, sep) == seq![rest]);
                assert(str_views(out@) =~= done + seq![rest]);
            }
            return out;
        }
        proof {
            assert(rest.skip(end - start + 1) =~= all.skip(end + 1));
            assert(str_views(out@) =~= done + seq![rest.take(end - start)]);
            assert(str_views(out@) + pieces(all.skip(end + 1), sep) =~= done + pieces(rest, sep));
        }
        start = end + 1;
    }
}

/// The key combination that `hotkey_str` spells: words with plus signs
/// between them, read from left to right.
pub fn parse_hotkey(hotkey_str: &str) -> (r: HotKey)
    ensures
        r == spelled(pieces(hotkey_str@, '+')),
{
    let parts = split_on(hotkey_str, '+');
    let ghost all = str_views(parts@);
    let mut h = HotKey { control: false, alt: false, shift: false, meta: false, key: 'V' };
    let mut i: usize = 0;
    assert(all.take(0) =~= Seq::<Seq<char>>::empty());
    while i < parts.len()
        invariant
            i <= parts.len(),
            all == str_views(parts@),
            h == spelled(all.take(i as int)),
        decreases parts.len() - i,
    {
        let word = trimmed(parts[i].as_str());
        let lowered = lowercase(word.as_str());
        proof {
            let next = all.take(i + 1);
            assert(next.drop_last() =~= all.take(i as int));
            assert(next.last() == parts[i as int]@);
        }
        h = read_word(h, parts[i].as_str(), lowered.as_str());
        i += 1;
    }
    assert(all.take(parts@.len() as int) =~= all);
    h
}

} // verus!
