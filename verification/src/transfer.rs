//! Moving the history out of the store and into it: the comma-separated and
//! the plain text format, and the import of entries whatever they were read
//! from.

use vstd::prelude::*;
use vstd::string::StringExecFns;
use crate::database::{
    clip_views, holds_drawn_id, Clip, ClipView, Database, StoreError, StoreView, KIND_TEXT,
};
use crate::laws::{kinds, law_import_adds_entries};
use crate::text::{
    blank, chars_of, is_blank, lemma_run_len, push_signed_decimal, run_len, signed_decimal,
    str_views, string_of, trim, trimmed,
};

verus! {

/// The first line of the comma-separated format.
pub const CSV_HEADER: &'static str = "id,content,type,created_at,file_path";

/// `s` with a backslash put before each comma.
pub open spec fn escape(s: Seq<char>) -> Seq<char>
    decreases s.len(),
{
    if s.len() == 0 {
        Seq::empty()
    } else if s.last() == ',' {
        escape(s.drop_last()) + seq!['\\', ',']
    } else {
        escape(s.drop_last()).push(s.last())
    }
}

/// `s` with each backslash that stands before a comma removed.
pub open spec fn unescape(s: Seq<char>) -> Seq<char>
    decreases s.len(),
{
    if s.len() >= 2 && s[0] == '\\' && s[1] == ',' {
        seq![','] + unescape(s.skip(2))
    } else if s.len() > 0 {
        seq![s[0]] + unescape(s.drop_first())
    } else {
        Seq::empty()
    }
}

/// The end of the line of a clip: its time of capture in seconds, a comma,
/// and the path of its file if it has one.
pub open spec fn csv_from_time(c: ClipView) -> Seq<char> {
    signed_decimal(c.created_at) + seq![','] + (match c.file_path {
        Some(p) => p,
        None => Seq::empty(),
    })
}

/// The line of a clip from its kind on.
pub open spec fn csv_from_kind(c: ClipView) -> Seq<char> {
    c.clip_type + seq![','] + csv_from_time(c)
}

/// The line of a clip from its content on; the commas of the content are
/// escaped.
pub open spec fn csv_from_content(c: ClipView) -> Seq<char> {
    escape(c.content) + seq![','] + csv_from_kind(c)
}

/// The line of a clip in the comma-separated format, without the line feed
/// at its end: its id, its content with the commas escaped, its kind, its
/// time of capture in seconds, and the path of its file if it has one, with
/// commas between them.
pub open spec fn csv_body(c: ClipView) -> Seq<char> {
    c.id + seq![','] + csv_from_content(c)
}

/// The line of a clip in the comma-separated format.
pub open spec fn csv_line(c: ClipView) -> Seq<char> {
    csv_body(c) + seq!['\n']
}

/// The lines of `clips` in the comma-separated format.
pub open spec fn csv_lines(clips: Seq<ClipView>) -> Seq<char>
    decreases clips.len(),
{
    if clips.len() == 0 {
        Seq::empty()
    } else {
        csv_lines(clips.drop_last()) + csv_line(clips.last())
    }
}

/// `clips` in the comma-separated format: the header, then one line each.
pub open spec fn csv_of(clips: Seq<ClipView>) -> Seq<char> {
    CSV_HEADER@ + seq!['\n'] + csv_lines(clips)
}

/// `clips` as plain text: the content of each on a line of its own.
pub open spec fn txt_of(clips: Seq<ClipView>) -> Seq<char>
    decreases clips.len(),
{
    if clips.len() == 0 {
        Seq::empty()
    } else {
        txt_of(clips.drop_last()) + clips.last().content + seq!['\n']
    }
}

fn push_escaped(out: &mut String, content: &str)
    ensures
        final(out)@ == old(out)@ + escape(content@),
{
    let chars = chars_of(content);
    let mut i: usize = 0;
    assert(chars@.take(0) =~= Seq::<char>::empty());
    while i < chars.len()
        invariant
            i <= chars.len(),
            out@ == old(out)@ + escape(chars@.take(i as int)),
        decreases chars.len() - i,
    {
        let ghost before = out@;
        let c = chars[i];
        if c == ',' {
            out.push('\\');
        }
        out.push(c);
        proof {
            let next = chars@.take(i + 1);
            assert(next.drop_last() =~= chars@.take(i as int));
            assert(next.last() == c);
            if c == ',' {
                assert(out@ =~= old(out)@ + (escape(chars@.take(i as int)) + seq!['\\', ',']));
            } else {
                assert(out@ =~= old(out)@ + escape(chars@.take(i as int)).push(c));
            }
        }
        i += 1;
    }
    assert(chars@.take(chars@.len() as int) =~= chars@);
}

/// Appends the end of the line of `clip`, from its time of capture on.
fn push_csv_time(out: &mut String, clip: &Clip)
    ensures
        final(out)@ == old(out)@ + csv_from_time(clip@),
{
    let ghost start = out@;
    push_signed_decimal(out, clip.created_at);
    out.push(',');
    match &clip.file_path {
        Some(p) => {
            out.append(p.as_str());
        },
        None => {},
    }
    assert(out@ =~= start + csv_from_time(clip@));
}

/// Appends the line of `clip`, from its kind on.
fn push_csv_kind(out: &mut String, clip: &Clip)
    ensures
        final(out)@ == old(out)@ + csv_from_kind(clip@),
{
    let ghost start = out@;
    out.append(clip.clip_type.as_str());
    out.push(',');
    let ghost mid = out@;
    push_csv_time(out, clip);
    assert(mid =~= start + (clip@.clip_type + seq![',']));
    assert(out@ =~= start + csv_from_kind(clip@));
}

/// Appends the line of `clip`, from its content on.
fn push_csv_content(out: &mut String, clip: &Clip)
    ensures
        final(out)@ == old(out)@ + csv_from_content(clip@),
{
    let ghost start = out@;
    push_escaped(out, clip.content.as_str());
    out.push(',');
    let ghost mid = out@;
    push_csv_kind(out, clip);
    assert(mid =~= start + (escape(clip@.content) + seq![',']));
    assert(out@ =~= start + csv_from_content(clip@));
}

/// Appends the line of `clip`.
fn push_csv_line(out: &mut String, clip: &Clip)
    ensures
        final(out)@ == old(out)@ + csv_line(clip@),
{
    let ghost start = out@;
    out.append(clip.id.as_str());
    out.push(',');
    let ghost mid = out@;
    push_csv_content(out, clip);
    assert(mid =~= start + (clip@.id + seq![',']));
    assert(out@ =~= start + csv_body(clip@));
    out.push('\n');
    assert(out@ =~= start + csv_line(clip@));
}

/// `clips` in the comma-separated format.
pub fn export_csv(clips: &Vec<Clip>) -> (text: String)
    ensures
        text@ == csv_of(clip_views(clips@)),
{
    let ghost all = clip_views(clips@);
    let ghost head = CSV_HEADER@ + seq!['\n'];
    let mut text = CSV_HEADER.to_owned();
    text.push('\n');
    let mut i: usize = 0;
    assert(all.take(0) =~= Seq::<ClipView>::empty());
    assert(text@ =~= head + csv_lines(all.take(0)));
    while i < clips.len()
        invariant
            i <= clips.len(),
            all == clip_views(clips@),
            head == CSV_HEADER@ + seq!['\n'],
            text@ == head + csv_lines(all.take(i as int)),
        decreases clips.len() - i,
    {
        let ghost written = csv_lines(all.take(i as int));
        push_csv_line(&mut text, &clips[i]);
        proof {
            let next = all.take(i + 1);
            assert(next.drop_last() =~= all.take(i as int));
            assert(next.last() == clips[i as int]@);
            assert(csv_lines(next) == written + csv_line(clips[i as int]@));
            assert(text@ =~= head + (written + csv_line(clips[i as int]@)));
        }
        i += 1;
    }
    assert(all.take(clips@.len() as int) =~= all);
    text
}

/// `clips` as plain text.
pub fn export_txt(clips: &Vec<Clip>) -> (text: String)
    ensures
        text@ == txt_of(clip_views(clips@)),
{
    let ghost all = clip_views(clips@);
    let mut text = String::new();
    let mut i: usize = 0;
    assert(all.take(0) =~= Seq::<ClipView>::empty());
    while i < clips.len()
        invariant
            i <= clips.len(),
            all == clip_views(clips@),
            text@ == txt_of(all.take(i as int)),
        decreases clips.len() - i,
    {
        let ghost before = text@;
        text.append(clips[i].content.as_str());
        text.push('\n');
        proof {
            let next = all.take(i + 1);
            assert(next.drop_last() =~= all.take(i as int));
            assert(next.last() == clips[i as int]@);
            assert(text@ =~= before + clips[i as int]@.content + seq!['\n']);
        }
        i += 1;
    }
    assert(all.take(clips@.len() as int) =~= all);
    text
}

/// `line` without the carriage return at its end, where it has one.
pub open spec fn strip_cr(line: Seq<char>) -> Seq<char> {
    if line.len() > 0 && line.last() == '\r' {
        line.drop_last()
    } else {
        line
    }
}

/// The lines of `s`.  A line ends at a line feed, which is no part of it, nor
/// is a carriage return just before the line feed; the last line needs no
/// line feed.
pub open spec fn lines(s: Seq<char>) -> Seq<Seq<char>>
    decreases s.len(),
{
    if s.len() == 0 {
        Seq::empty()
    } else {
        let k = run_len(s, |c: char| c != '\n');
        if k >= s.len() {
            seq![s]
        } else {
            seq![strip_cr(s.take(k as int))] + lines(s.skip(k as int + 1))
        }
    }
}

/// How many characters stand before the first comma of `s` that is not
/// escaped by a backslash; `escaped` says whether a backslash stands just
/// before `s`.
pub open spec fn field_len(s: Seq<char>, escaped: bool) -> nat
    decreases s.len(),
{
    if s.len() == 0 || (s[0] == ',' && !escaped) {
        0
    } else {
        1 + field_len(s.drop_first(), s[0] == '\\')
    }
}

/// The fields of a line: what stands between its commas, but for the commas
/// that are escaped.
pub open spec fn fields(s: Seq<char>) -> Seq<Seq<char>>
    decreases s.len(),
{
    let k = field_len(s, false);
    if k >= s.len() {
        seq![s]
    } else {
        seq![s.take(k as int)] + fields(s.skip(k as int + 1))
    }
}

/// What is imported for one clip: its content and its kind.
#[derive(Debug)]
pub struct Entry {
    pub content: String,
    pub clip_type: String,
}

impl View for Entry {
    type V = (Seq<char>, Seq<char>);

    open spec fn view(&self) -> (Seq<char>, Seq<char>) {
        (self.content@, self.clip_type@)
    }
}

/// The views of a sequence of entries.
pub open spec fn entry_views(s: Seq<Entry>) -> Seq<(Seq<char>, Seq<char>)> {
    s.map_values(|e: Entry| e@)
}

/// What a line of the comma-separated format gives: the second field,
/// unescaped, as the content and the third as the kind.  A line of fewer
/// than three fields gives nothing.
pub open spec fn csv_entry(line: Seq<char>) -> Option<(Seq<char>, Seq<char>)> {
    let f = fields(line);
    if f.len() >= 3 {
        Some((unescape(f[1]), f[2]))
    } else {
        None
    }
}

/// What a line of plain text gives: a text clip of the line without the
/// white space around it.  A blank line gives nothing.
pub open spec fn txt_entry(line: Seq<char>) -> Option<(Seq<char>, Seq<char>)> {
    if is_blank(line) {
        None
    } else {
        Some((trim(line), KIND_TEXT@))
    }
}

/// What the lines `ls` give, line by line.
pub open spec fn gathered(
    ls: Seq<Seq<char>>,
    read: spec_fn(Seq<char>) -> Option<(Seq<char>, Seq<char>)>,
) -> Seq<(Seq<char>, Seq<char>)>
    decreases ls.len(),
{
    if ls.len() == 0 {
        Seq::empty()
    } else {
        match read(ls.last()) {
            Some(e) => gathered(ls.drop_last(), read).push(e),
            None => gathered(ls.drop_last(), read),
        }
    }
}

/// The entries in a text of the comma-separated format: what its lines give,
/// but for the first, which is the header.
pub open spec fn csv_entries(text: Seq<char>) -> Seq<(Seq<char>, Seq<char>)> {
    gathered(after_header(lines(text)), |l: Seq<char>| csv_entry(l))
}

/// The lines after the first.
pub open spec fn after_header(ls: Seq<Seq<char>>) -> Seq<Seq<char>> {
    if ls.len() == 0 {
        ls
    } else {
        ls.drop_first()
    }
}

/// The entries in a plain text.
pub open spec fn txt_entries(text: Seq<char>) -> Seq<(Seq<char>, Seq<char>)> {
    gathered(lines(text), |l: Seq<char>| txt_entry(l))
}

/// The lines of `text`.
pub fn split_lines(text: &str) -> (out: Vec<String>)
    ensures
        str_views(out@) == lines(text@),
{
    let chars = chars_of(text);
    let ghost all = chars@;
    let ghost p = |c: char| c != '\n';
    let mut out: Vec<String> = Vec::new();
    let mut start: usize = 0;
    assert(all.skip(0) =~= all);
    assert(str_views(out@) + lines(all) =~= lines(all));
    while start < chars.len()
        invariant
            start <= chars.len(),
            all == chars@,
            p == |c: char| c != '\n',
            lines(all) == str_views(out@) + lines(all.skip(start as int)),
        decreases chars.len() - start,
    {
        let ghost done = str_views(out@);
        let ghost rest = all.skip(start as int);
        let mut end: usize = start;
        while end < chars.len() && chars[end] != '\n'
            invariant
                start <= end <= chars.len(),
                forall|i: int| start <= i < end ==> #[trigger] chars@[i] != '\n',
            decreases chars.len() - end,
        {
            end += 1;
        }
        proof {
            assert forall|i: int| 0 <= i < end - start implies p(#[trigger] rest[i]) by {
                assert(rest[i] == chars@[start + i]);
            }
            if end < chars.len() {
                assert(rest[end - start] == chars@[end as int]);
            }
            lemma_run_len(rest, p, end - start);
        }
        if end == chars.len() {
            out.push(string_of(&chars, start, end));
            proof {
                assert(all.subrange(start as int, end as int) =~= rest);
                assert(all.skip(end as int) =~= Seq::<char>::empty());
                assert(str_views(out@) =~= done + seq![rest]);
                assert(lines(all.skip(end as int)) =~= Seq::<Seq<char>>::empty());
                assert(str_views(out@) + lines(all.skip(end as int)) =~= done + lines(rest));
            }
            start = end;
        } else {
            let cut: usize = if end > start && chars[end - 1] == '\r' {
                end - 1
            } else {
                end
            };
            out.push(string_of(&chars, start, cut));
            proof {
                let line = rest.take(end - start);
                assert(line =~= all.subrange(start as int, end as int));
                if end > start {
                    assert(line.last() == chars@[end - 1]);
                }
                assert(all.subrange(start as int, cut as int) =~= strip_cr(line));
                assert(rest.skip(end - start + 1) =~= all.skip(end + 1));
                assert(str_views(out@) =~= done + seq![strip_cr(line)]);
                assert(str_views(out@) + lines(all.skip(end + 1)) =~= done + lines(rest));
            }
            start = end + 1;
        }
    }
    proof {
        assert(all.skip(start as int) =~= Seq::<char>::empty());
        assert(str_views(out@) + lines(all.skip(start as int)) =~= str_views(out@));
    }
    out
}

/// The fields of `line`.
pub fn split_fields(line: &str) -> (out: Vec<String>)
    ensures
        str_views(out@) == fields(line@),
{
    let chars = chars_of(line);
    let ghost all = chars@;
    let mut out: Vec<String> = Vec::new();
    let mut start: usize = 0;
    assert(all.skip(0) =~= all);
    assert(str_views(out@) + fields(all) =~= fields(all));
    loop
        invariant
            start <= chars.len(),
            all == chars@,
            all == line@,
            fields(all) == str_views(out@) + fields(all.skip(start as int)),
        decreases chars.len() - start,
    {
        let ghost done = str_views(out@);
        let ghost rest = all.skip(start as int);
        let mut end: usize = start;
        let mut escaped = false;
        assert(rest.skip(0) =~= rest);
        while end < chars.len() && (chars[end] != ',' || escaped)
            invariant
                start <= end <= chars.len(),
                all == chars@,
                rest == all.skip(start as int),
                field_len(rest, false) == (end - start) + field_len(
                    rest.skip(end - start),
                    escaped,
                ),
            decreases chars.len() - end,
        {
            proof {
                let tail = rest.skip(end - start);
                assert(tail[0] == chars@[end as int]);
                assert(tail.drop_first() =~= rest.skip(end - start + 1));
            }
            escaped = chars[end] == '\\';
            end += 1;
        }
        proof {
            let tail = rest.skip(end - start);
            if end < chars.len() {
                assert(tail[0] == chars@[end as int]);
            }
            assert(field_len(tail, escaped) == 0);
            assert(rest.take(end - start) =~= all.subrange(start as int, end as int));
        }
        out.push(string_of(&chars, start, end));
        if end == chars.len() {
            proof {
                assert(rest.take(end - start) =~= rest);
                assert(fields(rest) == seq![rest]);
                assert(str_views(out@) =~= done + seq![rest]);
            }
            return out;
        }
        proof {
            assert(rest.skip(end - start + 1) =~= all.skip(end + 1));
            assert(str_views(out@) =~= done + seq![rest.take(end - start)]);
            assert(str_views(out@) + fields(all.skip(end + 1)) =~= done + fields(rest));
        }
        start = end + 1;
    }
}

/// `field` with each backslash that stands before a comma removed.
pub fn unescaped(field: &str) -> (out: String)
    ensures
        out@ == unescape(field@),
{
    let chars = chars_of(field);
    let ghost all = chars@;
    let mut out = String::new();
    let mut i: usize = 0;
    assert(all.skip(0) =~= all);
    while i < chars.len()
        invariant
            i <= chars.len(),
            all == chars@,
            unescape(all) == out@ + unescape(all.skip(i as int)),
        decreases chars.len() - i,
    {
        let ghost before = out@;
        let ghost rest = all.skip(i as int);
        proof {
            assert(rest[0] == chars@[i as int]);
            if i + 1 < chars.len() {
                assert(rest[1] == chars@[i + 1]);
            }
        }
        if chars[i] == '\\' && i + 1 < chars.len() && chars[i + 1] == ',' {
            out.push(',');
            proof {
                assert(rest.skip(2) =~= all.skip(i + 2));
                assert(out@ + unescape(all.skip(i + 2)) =~= before + unescape(rest));
            }
            i += 2;
        } else {
            out.push(chars[i]);
            proof {
                assert(rest.drop_first() =~= all.skip(i + 1));
                assert(out@ + unescape(all.skip(i + 1)) =~= before + unescape(rest));
            }
            i += 1;
        }
    }
    proof {
        assert(all.skip(i as int) =~= Seq::<char>::empty());
        assert(out@ + unescape(all.skip(i as int)) =~= out@);
    }
    out
}

/// The entries in `text`, a text of the comma-separated format.
pub fn import_csv(text: &str) -> (entries: Vec<Entry>)
    ensures
        entry_views(entries@) == csv_entries(text@),
{
    let ls = split_lines(text);
    let ghost read = |l: Seq<char>| csv_entry(l);
    let ghost body = after_header(lines(text@));
    let mut entries: Vec<Entry> = Vec::new();
    if ls.len() == 0 {
        assert(body =~= Seq::<Seq<char>>::empty());
        assert(entry_views(entries@) =~= gathered(body, read));
        return entries;
    }
    let mut i: usize = 1;
    assert(body.take(0) =~= Seq::<Seq<char>>::empty());
    assert(entry_views(entries@) =~= gathered(body.take(0), read));
    while i < ls.len()
        invariant
            1 <= i <= ls.len(),
            str_views(ls@) == lines(text@),
            body == lines(text@).drop_first(),
            read == |l: Seq<char>| csv_entry(l),
            entry_views(entries@) == gathered(body.take(i - 1), read),
        decreases ls.len() - i,
    {
        let ghost before = entry_views(entries@);
        let parts = split_fields(ls[i].as_str());
        proof {
            let next = body.take(i as int);
            assert(next.drop_last() =~= body.take(i - 1));
            assert(next.last() == str_views(ls@)[i as int]);
            assert(str_views(ls@)[i as int] == ls[i as int]@);
            assert(str_views(parts@).len() == parts.len());
        }
        if parts.len() >= 3 {
            let content = unescaped(parts[1].as_str());
            let clip_type = parts[2].clone();
            proof {
                assert(str_views(parts@)[1] == parts[1]@);
                assert(str_views(parts@)[2] == parts[2]@);
            }
            entries.push(Entry { content, clip_type });
            assert(entry_views(entries@) =~= before.push((unescape(parts[1]@), parts[2]@)));
        }
        i += 1;
    }
    assert(body.take(ls.len() - 1) =~= body);
    entries
}

/// The entries in `text`, a plain text.
pub fn import_txt(text: &str) -> (entries: Vec<Entry>)
    ensures
        entry_views(entries@) == txt_entries(text@),
{
    let ls = split_lines(text);
    let ghost read = |l: Seq<char>| txt_entry(l);
    let ghost all = lines(text@);
    let mut entries: Vec<Entry> = Vec::new();
    let mut i: usize = 0;
    assert(all.take(0) =~= Seq::<Seq<char>>::empty());
    assert(entry_views(entries@) =~= gathered(all.take(0), read));
    while i < ls.len()
        invariant
            i <= ls.len(),
            str_views(ls@) == all,
            all == lines(text@),
            read == |l: Seq<char>| txt_entry(l),
            entry_views(entries@) == gathered(all.take(i as int), read),
        decreases ls.len() - i,
    {
        let ghost before = entry_views(entries@);
        proof {
            let next = all.take(i + 1);
            assert(next.drop_last() =~= all.take(i as int));
            assert(next.last() == str_views(ls@)[i as int]);
            assert(str_views(ls@)[i as int] == ls[i as int]@);
        }
        if !blank(ls[i].as_str()) {
            let content = trimmed(ls[i].as_str());
            entries.push(Entry { content, clip_type: KIND_TEXT.to_owned() });
            assert(entry_views(entries@) =~= before.push((trim(ls[i as int]@), KIND_TEXT@)));
        }
        i += 1;
    }
    assert(all.take(ls.len() as int) =~= all);
    entries
}

/// The store once the clips `cs` are added, one after the other.
pub open spec fn insert_all(v: StoreView, cs: Seq<ClipView>) -> StoreView
    decreases cs.len(),
{
    if cs.len() == 0 {
        v
    } else {
        insert_all(v, cs.drop_last()).inserted(cs.last())
    }
}

/// The clips `cs` are what an import of `entries` stores: one clip for each
/// entry, in order, with the entry's content and kind and no file.
pub open spec fn imported_as(entries: Seq<(Seq<char>, Seq<char>)>, cs: Seq<ClipView>) -> bool {
    &&& cs.len() == entries.len()
    &&& forall|i: int|
        0 <= i < cs.len() ==> {
            &&& (#[trigger] cs[i]).content == entries[i].0
            &&& cs[i].clip_type == entries[i].1
            &&& cs[i].file_path is None
        }
}

/// Stores one clip for each of `entries`, in order, each under a fresh id
/// and the present time, and returns the clips.  The store then holds the
/// contents and kinds it held and those of the entries, each as often as
/// before and as given.  The import ends at the first entry that the store
/// refuses; what was stored before stays.  The store refuses only where the
/// id drawn is taken, so only where it holds an id of the length drawn.
pub fn import_entries(db: &mut Database, entries: &Vec<Entry>) -> (r: Result<Vec<Clip>, StoreError>)
    ensures
        final(db)@.wf(),
        match r {
            Ok(added) => {
                &&& imported_as(entry_views(entries@), clip_views(added@))
                &&& final(db)@ == insert_all(old(db)@, clip_views(added@))
                &&& final(db)@.clips.len() == old(db)@.clips.len() + entries@.len()
                &&& kinds(final(db)@.clips).to_multiset() == kinds(
                    old(db)@.clips,
                ).to_multiset().add(entry_views(entries@).to_multiset())
            },
            Err(e) => {
                &&& e == StoreError::DuplicateId
                &&& exists|cs: Seq<ClipView>|
                    {
                        &&& cs.len() < entries@.len()
                        &&& imported_as(entry_views(entries@).take(cs.len() as int), cs)
                        &&& final(db)@ == #[trigger] insert_all(old(db)@, cs)
                        &&& holds_drawn_id(insert_all(old(db)@, cs).clips)
                    }
            },
        },
{
    proof {
        use_type_invariant(&*db);
        db.lemma_view_wf();
    }
    let ghost all = entry_views(entries@);
    let mut added: Vec<Clip> = Vec::new();
    let mut i: usize = 0;
    assert(clip_views(added@) =~= Seq::<ClipView>::empty());
    while i < entries.len()
        invariant
            db@.wf(),
            i <= entries.len(),
            all == entry_views(entries@),
            imported_as(all.take(i as int), clip_views(added@)),
            db@ == insert_all(old(db)@, clip_views(added@)),
        decreases entries.len() - i,
    {
        let ghost before = clip_views(added@);
        match db.add_clip(entries[i].content.as_str(), entries[i].clip_type.as_str()) {
            Err(e) => {
                proof {
                    assert(db@ == insert_all(old(db)@, before));
                }
                return Err(e);
            },
            Ok(clip) => {
                added.push(clip);
                proof {
                    let now = clip_views(added@);
                    assert(now =~= before.push(clip@));
                    assert(now.drop_last() =~= before);
                    assert(all[i as int] == entries[i as int]@);
                    assert forall|j: int| 0 <= j < now.len() implies {
                        &&& (#[trigger] now[j]).content == all.take(i + 1)[j].0
                        &&& now[j].clip_type == all.take(i + 1)[j].1
                        &&& now[j].file_path is None
                    } by {
                        if j < i {
                            assert(now[j] == before[j]);
                            assert(all.take(i as int)[j] == all.take(i + 1)[j]);
                        }
                    }
                }
            },
        }
        i += 1;
    }
    proof {
        assert(all.take(entries@.len() as int) =~= all);
        law_import_adds_entries(old(db)@, clip_views(added@));
        assert(kinds(clip_views(added@)) =~= all);
    }
    Ok(added)
}

/// The content and the kind of each of `clips`, in order, as entries.
pub fn entries_of(clips: &Vec<Clip>) -> (entries: Vec<Entry>)
    ensures
        entry_views(entries@) == kinds(clip_views(clips@)),
{
    let mut entries: Vec<Entry> = Vec::new();
    let mut i: usize = 0;
    assert(entry_views(entries@) =~= kinds(clip_views(clips@).take(0)));
    while i < clips.len()
        invariant
            i <= clips.len(),
            entry_views(entries@) == kinds(clip_views(clips@).take(i as int)),
        decreases clips.len() - i,
    {
        let ghost before = entry_views(entries@);
        entries.push(
            Entry { content: clips[i].content.clone(), clip_type: clips[i].clip_type.clone() },
        );
        proof {
            let c = clips[i as int]@;
            assert(entry_views(entries@) =~= before.push((c.content, c.clip_type)));
            assert(kinds(clip_views(clips@).take(i + 1)) =~= kinds(
                clip_views(clips@).take(i as int),
            ).push((c.content, c.clip_type)));
        }
        i += 1;
    }
    assert(clip_views(clips@).take(clips@.len() as int) =~= clip_views(clips@));
    entries
}

/// Stores a new clip for each of `clips`, in order, with the content and
/// the kind of that clip, under a fresh id and the present time: the import
/// of clips taken out of a store.  Where it succeeds the store holds the
/// contents and kinds it held and those of `clips`, each as often as before
/// and as given; imported into an empty store, a history comes back with the
/// same contents and kinds, each as often as it held them.
pub fn import_clips(db: &mut Database, clips: &Vec<Clip>) -> (r: Result<Vec<Clip>, StoreError>)
    ensures
        final(db)@.wf(),
        match r {
            Ok(added) => {
                &&& imported_as(kinds(clip_views(clips@)), clip_views(added@))
                &&& final(db)@ == insert_all(old(db)@, clip_views(added@))
                &&& final(db)@.clips.len() == old(db)@.clips.len() + clips@.len()
                &&& kinds(final(db)@.clips).to_multiset() == kinds(
                    old(db)@.clips,
                ).to_multiset().add(kinds(clip_views(clips@)).to_multiset())
            },
            Err(e) => {
                &&& e == StoreError::DuplicateId
                &&& exists|cs: Seq<ClipView>|
                    {
                        &&& cs.len() < clips@.len()
                        &&& imported_as(kinds(clip_views(clips@)).take(cs.len() as int), cs)
                        &&& final(db)@ == #[trigger] insert_all(old(db)@, cs)
                        &&& holds_drawn_id(insert_all(old(db)@, cs).clips)
                    }
            },
        },
{
    let entries = entries_of(clips);
    assert(entries@.len() == entry_views(entries@).len());
    import_entries(db, &entries)
}

} // verus!
