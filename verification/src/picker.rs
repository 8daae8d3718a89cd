//! Choosing a clip from the history: the numbered listing that is shown,
//! through an outside fuzzy picker or as a plain menu, and the reading of the
//! answer.  Starting the picker and talking to the terminal is left to the
//! caller.

use vstd::prelude::*;
use vstd::string::StringExecFns;
use crate::database::{clip_views, Clip, ClipView, Database};
use crate::text::{
    chars_of, contains, decimal, is_substring, lemma_run_len, number_in, opt_view, parse_number,
    parse_usize, push_decimal, run_len, str_views, string_of, trim, trimmed,
};

verus! {

/// How many bytes of a clip the picker's listing shows at most.
pub const PICKER_WIDTH: usize = 100;

/// How many bytes of a clip the plain menu shows at most.
pub const MENU_WIDTH: usize = 80;

/// What stands above and below the lines of the plain menu.
pub const MENU_HEAD: &'static str = "\nClipboard History:\n==================\n";

pub const MENU_FOOT: &'static str = "\nEnter number to select (0 to cancel): \n";

/// How many bytes `c` takes in UTF-8.
pub open spec fn utf8_width(c: char) -> nat {
    let u = c as u32;
    if u < 0x80 {
        1
    } else if u < 0x800 {
        2
    } else if u < 0x10000 {
        3
    } else {
        4
    }
}

/// How many bytes `s` takes in UTF-8.
pub open spec fn utf8_len(s: Seq<char>) -> nat
    decreases s.len(),
{
    if s.len() == 0 {
        0
    } else {
        utf8_len(s.drop_last()) + utf8_width(s.last())
    }
}

/// How many characters at the front of `s` fit into `budget` bytes.
pub open spec fn fitting(s: Seq<char>, budget: nat) -> nat
    decreases s.len(),
{
    if s.len() > 0 && utf8_width(s[0]) <= budget {
        1 + fitting(s.drop_first(), (budget - utf8_width(s[0])) as nat)
    } else {
        0
    }
}

/// How many bytes of a clip stand before the three dots in a listing that
/// is `width` bytes wide.
pub open spec fn room(width: nat) -> nat {
    if width >= 3 {
        (width - 3) as nat
    } else {
        0
    }
}

/// What is shown of a clip: the content itself where it takes no more than
/// `width` bytes, else as many whole characters as fit into three bytes
/// less, followed by three dots.
pub open spec fn preview_of(content: Seq<char>, width: nat) -> Seq<char> {
    if utf8_len(content) > width {
        content.take(fitting(content, room(width)) as int) + seq!['.', '.', '.']
    } else {
        content
    }
}

/// One line of a listing: the clip's number, counted from 1, a colon, a
/// space, and the clip's preview.
pub open spec fn listing_line(number: nat, content: Seq<char>, width: nat) -> Seq<char> {
    decimal(number) + seq![':', ' '] + preview_of(content, width)
}

/// The lines of a listing, each ended by a line feed.
pub open spec fn listing_lines(clips: Seq<ClipView>, width: nat) -> Seq<char>
    decreases clips.len(),
{
    if clips.len() == 0 {
        Seq::empty()
    } else {
        listing_lines(clips.drop_last(), width) + listing_line(
            clips.len(),
            clips.last().content,
            width,
        ) + seq!['\n']
    }
}

/// The listing handed to the picker: one line for each clip, with a line
/// feed between two lines and none at the end.
pub open spec fn listing(clips: Seq<ClipView>, width: nat) -> Seq<char> {
    if clips.len() == 0 {
        Seq::empty()
    } else {
        listing_lines(clips, width).drop_last()
    }
}

/// The plain menu: a heading, the lines of the listing, and the prompt.
pub open spec fn menu(clips: Seq<ClipView>) -> Seq<char> {
    MENU_HEAD@ + listing_lines(clips, MENU_WIDTH as nat) + MENU_FOOT@
}

/// The clip that the number `n`, counted from 1, stands for.
pub open spec fn numbered(clips: Seq<ClipView>, n: Option<nat>) -> Option<Seq<char>> {
    match n {
        Some(n) => if 0 < n <= clips.len() {
            Some(clips[n - 1].content)
        } else {
            None
        },
        None => None,
    }
}

/// The number at the front of a line of the listing: what stands before the
/// first colon, where there is a colon and this is a number.
pub open spec fn leading_number(line: Seq<char>) -> Option<nat> {
    let colon = run_len(line, |c: char| c != ':');
    if colon < line.len() {
        parse_number(line.take(colon as int))
    } else {
        None
    }
}

/// The content of the clip that the picker's answer `line` names.
pub open spec fn picked(clips: Seq<ClipView>, line: Seq<char>) -> Option<Seq<char>> {
    numbered(clips, leading_number(line))
}

/// The content of the clip that the answer `input` to the plain menu names:
/// a number, with white space around it at most.  0 and anything that is no
/// number of a clip name none.
pub open spec fn menu_choice(clips: Seq<ClipView>, input: Seq<char>) -> Option<Seq<char>> {
    numbered(clips, parse_number(trim(input)))
}

fn width_of(c: char) -> (w: usize)
    ensures
        w == utf8_width(c),
        1 <= w <= 4,
{
    let u: u32 = c as u32;
    if u < 0x80 {
        1
    } else if u < 0x800 {
        2
    } else if u < 0x10000 {
        3
    } else {
        4
    }
}

/// A prefix takes no more bytes than the whole.
proof fn lemma_utf8_len_grows(s: Seq<char>, k: int)
    requires
        0 <= k <= s.len(),
    ensures
        utf8_len(s.take(k)) <= utf8_len(s),
    decreases s.len() - k,
{
    if k < s.len() {
        lemma_utf8_len_grows(s, k + 1);
        assert(s.take(k + 1).drop_last() =~= s.take(k));
    } else {
        assert(s.take(k) =~= s);
    }
}

/// Whether `chars` takes more than `width` bytes in UTF-8.
fn is_long(chars: &Vec<char>, width: usize) -> (long: bool)
    ensures
        long == (utf8_len(chars@) > width),
{
    let mut used: usize = 0;
    let mut i: usize = 0;
    while i < chars.len()
        invariant
            i <= chars.len(),
            used <= width,
            used == utf8_len(chars@.take(i as int)),
        decreases chars.len() - i,
    {
        let w = width_of(chars[i]);
        proof {
            assert(chars@.take(i + 1).drop_last() =~= chars@.take(i as int));
            assert(chars@.take(i + 1).last() == chars@[i as int]);
            lemma_utf8_len_grows(chars@, i + 1);
        }
        if w > width - used {
            return true;
        }
        used += w;
        i += 1;
    }
    assert(chars@.take(chars@.len() as int) =~= chars@);
    false
}

/// How many characters at the front of `chars` fit into `budget` bytes.
fn count_fitting(chars: &Vec<char>, budget: usize) -> (k: usize)
    ensures
        k == fitting(chars@, budget as nat),
        k <= chars.len(),
{
    let mut used: usize = 0;
    let mut k: usize = 0;
    assert(chars@.skip(0) =~= chars@);
    while k < chars.len() && width_of(chars[k]) <= budget - used
        invariant
            k <= chars.len(),
            used <= budget,
            fitting(chars@, budget as nat) == k + fitting(
                chars@.skip(k as int),
                (budget - used) as nat,
            ),
        decreases chars.len() - k,
    {
        proof {
            let rest = chars@.skip(k as int);
            assert(rest[0] == chars@[k as int]);
            assert(rest.drop_first() =~= chars@.skip(k + 1));
        }
        used += width_of(chars[k]);
        k += 1;
    }
    proof {
        let rest = chars@.skip(k as int);
        if k < chars.len() {
            assert(rest[0] == chars@[k as int]);
        }
    }
    k
}

/// Appends the preview of `content` to `out`.
fn push_preview(out: &mut String, content: &str, width: usize)
    ensures
        final(out)@ == old(out)@ + preview_of(content@, width as nat),
{
    let chars = chars_of(content);
    if is_long(&chars, width) {
        let budget: usize = if width >= 3 {
            width - 3
        } else {
            0
        };
        let k = count_fitting(&chars, budget);
        let head = string_of(&chars, 0, k);
        out.append(head.as_str());
        out.push('.');
        out.push('.');
        out.push('.');
        assert(out@ =~= old(out)@ + (chars@.take(k as int) + seq!['.', '.', '.']));
    } else {
        out.append(content);
    }
}

/// What is shown of a clip with the content `content` in a listing that is
/// `width` bytes wide.
pub fn preview(content: &str, width: usize) -> (out: String)
    ensures
        out@ == preview_of(content@, width as nat),
{
    let mut out = String::new();
    push_preview(&mut out, content, width);
    assert(out@ =~= preview_of(content@, width as nat));
    out
}

/// Appends the lines of the listing of `clips` to `out`.
fn push_lines(out: &mut String, clips: &Vec<Clip>, width: usize)
    ensures
        final(out)@ == old(out)@ + listing_lines(clip_views(clips@), width as nat),
{
    let ghost all = clip_views(clips@);
    let mut i: usize = 0;
    assert(all.take(0) =~= Seq::<ClipView>::empty());
    while i < clips.len()
        invariant
            i <= clips.len(),
            all == clip_views(clips@),
            out@ == old(out)@ + listing_lines(all.take(i as int), width as nat),
        decreases clips.len() - i,
    {
        let ghost before = out@;
        push_decimal(out, (i + 1) as u64);
        out.push(':');
        out.push(' ');
        push_preview(out, clips[i].content.as_str(), width);
        out.push('\n');
        proof {
            let next = all.take(i + 1);
            assert(next.drop_last() =~= all.take(i as int));
            assert(next.last() == clips[i as int]@);
            assert(out@ =~= before + listing_line(
                (i + 1) as nat,
                clips[i as int]@.content,
                width as nat,
            ) + seq!['\n']);
        }
        i += 1;
    }
    assert(all.take(clips@.len() as int) =~= all);
}

/// What to offer for choice: some clips and the text that lists them.
pub struct Offer {
    pub clips: Vec<Clip>,
    pub text: String,
}

/// The listing of the `limit` newest clips of `db` for the fuzzy picker;
/// nothing where the history is empty.
pub fn show_picker(db: &Database, limit: usize) -> (r: Option<Offer>)
    ensures
        match r {
            Some(offer) => {
                &&& db@.recent(limit as nat).len() > 0
                &&& clip_views(offer.clips@) == db@.recent(limit as nat)
                &&& offer.text@ == listing(db@.recent(limit as nat), PICKER_WIDTH as nat)
            },
            None => db@.recent(limit as nat).len() == 0,
        },
{
    let clips = db.get_recent_clips(limit);
    if clips.len() == 0 {
        return None;
    }
    let text = picker_listing(&clips);
    Some(Offer { clips, text })
}

/// The listing of `clips` for the fuzzy picker.
pub fn picker_listing(clips: &Vec<Clip>) -> (text: String)
    ensures
        text@ == listing(clip_views(clips@), PICKER_WIDTH as nat),
{
    let mut lines = String::new();
    push_lines(&mut lines, clips, PICKER_WIDTH);
    let chars = chars_of(lines.as_str());
    if chars.len() == 0 {
        assert(clips@.len() == 0 ==> clip_views(clips@).len() == 0);
        proof {
            if clips@.len() > 0 {
                let v = clip_views(clips@);
                assert(listing_lines(v, PICKER_WIDTH as nat).len() > 0);
            }
        }
        String::new()
    } else {
        proof {
            let v = clip_views(clips@);
            if v.len() == 0 {
                assert(listing_lines(v, PICKER_WIDTH as nat).len() == 0);
            }
            assert(chars@.subrange(0, chars@.len() - 1) =~= chars@.drop_last());
        }
        string_of(&chars, 0, chars.len() - 1)
    }
}

/// The plain menu of the `limit` newest clips of `db`; nothing where the
/// history is empty.
pub fn show_simple_menu(db: &Database, limit: usize) -> (r: Option<Offer>)
    ensures
        match r {
            Some(offer) => {
                &&& db@.recent(limit as nat).len() > 0
                &&& clip_views(offer.clips@) == db@.recent(limit as nat)
                &&& offer.text@ == menu(db@.recent(limit as nat))
            },
            None => db@.recent(limit as nat).len() == 0,
        },
{
    let clips = db.get_recent_clips(limit);
    if clips.len() == 0 {
        return None;
    }
    let mut text = MENU_HEAD.to_owned();
    push_lines(&mut text, &clips, MENU_WIDTH);
    text.append(MENU_FOOT);
    Some(Offer { clips, text })
}

fn nth_content(clips: &Vec<Clip>, n: Option<usize>) -> (r: Option<String>)
    ensures
        opt_view(r) == numbered(
            clip_views(clips@),
            match n {
                Some(k) => Some(k as nat),
                None => None,
            },
        ),
{
    match n {
        Some(k) => if 0 < k && k <= clips.len() {
            Some(clips[k - 1].content.clone())
        } else {
            None
        },
        None => None,
    }
}

impl Offer {
    /// The content of the clip that the picker's answer `line` names.
    pub fn pick(&self, line: &str) -> (r: Option<String>)
        ensures
            opt_view(r) == picked(clip_views(self.clips@), line@),
    {
        let chars = chars_of(line);
        let mut colon: usize = 0;
        while colon < chars.len() && chars[colon] != ':'
            invariant
                colon <= chars.len(),
                forall|i: int| 0 <= i < colon ==> #[trigger] chars@[i] != ':',
            decreases chars.len() - colon,
        {
            colon += 1;
        }
        proof {
            lemma_run_len(chars@, |c: char| c != ':', colon as int);
            assert(chars@.subrange(0, colon as int) =~= chars@.take(colon as int));
        }
        if colon == chars.len() {
            return None;
        }
        let n = number_in(&chars, 0, colon);
        let count = self.clips.len();
        proof {
            let parsed = parse_number(chars@.take(colon as int));
            if parsed is Some && parsed->0 > usize::MAX {
                assert(clip_views(self.clips@).len() == count);
                assert(numbered(clip_views(self.clips@), parsed) is None);
            }
        }
        nth_content(&self.clips, n)
    }

    /// The content of the clip that the answer `input` to the plain menu
    /// names.
    pub fn choose_numbered(&self, input: &str) -> (r: Option<String>)
        ensures
            opt_view(r) == menu_choice(clip_views(self.clips@), input@),
    {
        let answer = trimmed(input);
        let n = parse_usize(answer.as_str());
        let count = self.clips.len();
        proof {
            let parsed = parse_number(trim(input@));
            if parsed is Some && parsed->0 > usize::MAX {
                assert(clip_views(self.clips@).len() == count);
                assert(numbered(clip_views(self.clips@), parsed) is None);
            }
        }
        nth_content(&self.clips, n)
    }
}

/// Why no clip could be picked.
#[derive(Debug)]
pub enum PickerError {
    /// None of the known pickers is installed.
    NoPicker,
    /// The command is none of the known pickers.
    UnknownCommand(String),
    /// The picker ended in failure; this is what it wrote to its error
    /// stream.
    Failed(String),
}

/// The known pickers.
pub const FZF: &'static str = "fzf";

pub const SK: &'static str = "sk";

pub const SKIM: &'static str = "skim";

/// What a picker writes to its error stream when the user leaves it.
pub const ABORTED: &'static str = "User aborted";

pub const CANCELLED: &'static str = "cancelled";

/// The picker to use, given which ones are installed: `fzf` before `sk`
/// before `skim`.
pub fn find_picker_command(has_fzf: bool, has_sk: bool, has_skim: bool) -> (r: Result<
    String,
    PickerError,
>)
    ensures
        match r {
            Ok(cmd) => if has_fzf {
                cmd@ == FZF@
            } else if has_sk {
                cmd@ == SK@
            } else {
                has_skim && cmd@ == SKIM@
            },
            Err(e) => e is NoPicker && !has_fzf && !has_sk && !has_skim,
        },
{
    if has_fzf {
        Ok(FZF.to_owned())
    } else if has_sk {
        Ok(SK.to_owned())
    } else if has_skim {
        Ok(SKIM.to_owned())
    } else {
        Err(PickerError::NoPicker)
    }
}

/// The arguments every known picker is started with.
pub open spec fn picker_flags() -> Seq<Seq<char>> {
    seq!["--height"@, "40%"@, "--reverse"@, "--border"@]
}

/// The arguments to start the picker `cmd` with; a command that is none of
/// the known pickers is refused.
pub fn picker_arguments(cmd: &str) -> (r: Result<Vec<String>, PickerError>)
    ensures
        match r {
            Ok(args) => (cmd@ == FZF@ || cmd@ == SK@ || cmd@ == SKIM@) && str_views(args@)
                == picker_flags(),
            Err(e) => {
                &&& !(cmd@ == FZF@ || cmd@ == SK@ || cmd@ == SKIM@)
                &&& e matches PickerError::UnknownCommand(c)
                &&& c@ == cmd@
            },
        },
{
    if *cmd == *FZF || *cmd == *SK || *cmd == *SKIM {
        let mut args: Vec<String> = Vec::new();
        args.push("--height".to_owned());
        args.push("40%".to_owned());
        args.push("--reverse".to_owned());
        args.push("--border".to_owned());
        assert(str_views(args@) =~= picker_flags());
        Ok(args)
    } else {
        Err(PickerError::UnknownCommand(cmd.to_owned()))
    }
}

/// What the picker's run comes to.  A picker that ended well answers with the
/// line it wrote, white space around it removed, or with nothing where it
/// wrote nothing else.  One that ended in failure because the user left
/// answers with nothing; any other failure is an error.
pub open spec fn answer_of(success: bool, stdout: Seq<char>, stderr: Seq<char>) -> Result<
    Option<Seq<char>>,
    Seq<char>,
> {
    if success {
        if trim(stdout).len() == 0 {
            Ok(None)
        } else {
            Ok(Some(trim(stdout)))
        }
    } else if is_substring(ABORTED@, stderr) || is_substring(CANCELLED@, stderr) {
        Ok(None)
    } else {
        Err(stderr)
    }
}

/// Reads what came of running the picker.
pub fn picker_answer(success: bool, stdout: &str, stderr: &str) -> (r: Result<
    Option<String>,
    PickerError,
>)
    ensures
        match r {
            Ok(line) => answer_of(success, stdout@, stderr@) == Ok::<Option<Seq<char>>, Seq<char>>(
                opt_view(line),
            ),
            Err(e) => {
                &&& e matches PickerError::Failed(why)
                &&& answer_of(success, stdout@, stderr@) == Err::<Option<Seq<char>>, Seq<char>>(
                    why@,
                )
            },
        },
{
    if success {
        let line = trimmed(stdout);
        if line.as_str().is_empty() {
            Ok(None)
        } else {
            Ok(Some(line))
        }
    } else if contains(stderr, ABORTED) || contains(stderr, CANCELLED) {
        Ok(None)
    } else {
        Err(PickerError::Failed(stderr.to_owned()))
    }
}

} // verus!
