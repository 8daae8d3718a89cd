//! Reading back what was written: a text in one of the two text formats
//! gives back the contents and the kinds of the clips it was written from,
//! as long as these hold nothing that the format itself gives a meaning to.

use vstd::prelude::*;
use crate::database::{ClipView, KIND_TEXT};
use crate::laws::{kinds, law_unescape_escape, lemma_decimal_digits, lemma_escape_concat};
use crate::text::{
    decimal, is_blank, is_digit, is_space, lemma_run_len, lemma_run_len_splits, run_len,
    signed_decimal, trim,
};
use crate::transfer::{
    after_header, csv_body, csv_entries, csv_entry, csv_from_content, csv_from_kind,
    csv_from_time, csv_line, csv_lines, csv_of, escape, field_len, fields, gathered, lines,
    strip_cr, txt_entries, txt_entry, txt_of, CSV_HEADER,
};

verus! {

/// The character `c` does not occur in `s`.
pub open spec fn lacks(s: Seq<char>, c: char) -> bool {
    forall|i: int| 0 <= i < s.len() ==> #[trigger] s[i] != c
}

/// `s` does not end with the character `c`.
pub open spec fn open_ended(s: Seq<char>, c: char) -> bool {
    s.len() > 0 ==> s.last() != c
}

/// A clip that the comma-separated format can carry: no line feed in any of
/// its texts, no comma in its id and its kind, no backslash at the end of
/// its id, its content and its kind, and no carriage return at the end of
/// the path of its file.
pub open spec fn csv_safe(c: ClipView) -> bool {
    &&& lacks(c.id, '\n') && lacks(c.id, ',') && open_ended(c.id, '\\')
    &&& lacks(c.content, '\n') && open_ended(c.content, '\\')
    &&& lacks(c.clip_type, '\n') && lacks(c.clip_type, ',') && open_ended(c.clip_type, '\\')
    &&& c.file_path matches Some(p) ==> lacks(p, '\n') && open_ended(p, '\r')
}

/// A clip that the plain text format can carry: a text clip whose content
/// is one line that neither starts nor ends with white space.
pub open spec fn txt_safe(c: ClipView) -> bool {
    &&& c.clip_type == KIND_TEXT@
    &&& lacks(c.content, '\n')
    &&& c.content.len() > 0
    &&& !is_space(c.content.first())
    &&& !is_space(c.content.last())
}

/// The first line of a text ends at its first line feed.
pub proof fn lemma_first_line(a: Seq<char>, rest: Seq<char>)
    requires
        lacks(a, '\n'),
    ensures
        lines(a + seq!['\n'] + rest) == seq![strip_cr(a)] + lines(rest),
{
    let s = a + seq!['\n'] + rest;
    let p = |c: char| c != '\n';
    let k = a.len() as int;
    assert forall|i: int| 0 <= i < k implies p(#[trigger] s[i]) by {
        assert(s[i] == a[i]);
    }
    assert(s[k] == '\n');
    lemma_run_len(s, p, k);
    assert(s.take(k) =~= a);
    assert(s.skip(k + 1) =~= rest);
}

/// The lines of two texts put together are the lines of the first followed
/// by the lines of the second, where the first ends with a line feed.
pub proof fn lemma_lines_concat(a: Seq<char>, b: Seq<char>)
    requires
        a.len() > 0 ==> a.last() == '\n',
    ensures
        lines(a + b) == lines(a) + lines(b),
    decreases a.len(),
{
    if a.len() == 0 {
        assert(a + b =~= b);
        assert(lines(a) + lines(b) =~= lines(b));
    } else {
        let p = |c: char| c != '\n';
        let s = a + b;
        let k = run_len(a, p) as int;
        lemma_run_len_splits(a, p);
        if k == a.len() {
            assert(p(a[a.len() - 1]));
        }
        assert forall|i: int| 0 <= i < k implies p(#[trigger] s[i]) by {
            assert(s[i] == a[i]);
            assert(p(a[i]));
        }
        assert(s[k] == a[k]);
        lemma_run_len(s, p, k);
        let tail = a.skip(k + 1);
        if tail.len() > 0 {
            assert(tail.last() == a.last());
        }
        lemma_lines_concat(tail, b);
        assert(s.take(k) =~= a.take(k));
        assert(s.skip(k + 1) =~= tail + b);
        assert(seq![strip_cr(a.take(k))] + (lines(tail) + lines(b)) =~= (seq![strip_cr(a.take(k))]
            + lines(tail)) + lines(b));
    }
}

/// What two runs of lines give is what the first gives followed by what the
/// second gives.
pub proof fn lemma_gathered_concat(
    x: Seq<Seq<char>>,
    y: Seq<Seq<char>>,
    read: spec_fn(Seq<char>) -> Option<(Seq<char>, Seq<char>)>,
)
    ensures
        gathered(x + y, read) == gathered(x, read) + gathered(y, read),
    decreases y.len(),
{
    if y.len() == 0 {
        assert(x + y =~= x);
        assert(gathered(x, read) + gathered(y, read) =~= gathered(x, read));
    } else {
        lemma_gathered_concat(x, y.drop_last(), read);
        assert((x + y).drop_last() =~= x + y.drop_last());
        assert((x + y).last() == y.last());
        match read(y.last()) {
            Some(e) => {
                assert(gathered(x, read) + gathered(y.drop_last(), read).push(e) =~= (gathered(
                    x,
                    read,
                ) + gathered(y.drop_last(), read)).push(e));
            },
            None => {},
        }
    }
}

/// A field without commas ends at the comma that follows it, unless a
/// backslash escapes that comma.
pub proof fn lemma_plain_field(a: Seq<char>, rest: Seq<char>, escaped: bool)
    requires
        lacks(a, ','),
        open_ended(a, '\\'),
        a.len() == 0 ==> !escaped,
    ensures
        field_len(a + seq![','] + rest, escaped) == a.len(),
    decreases a.len(),
{
    let s = a + seq![','] + rest;
    if a.len() == 0 {
        assert(s[0] == ',');
    } else {
        let tail = a.drop_first();
        assert(s[0] == a[0]);
        assert(s.drop_first() =~= tail + seq![','] + rest);
        assert forall|i: int| 0 <= i < tail.len() implies #[trigger] tail[i] != ',' by {
            assert(tail[i] == a[i + 1]);
        }
        if tail.len() > 0 {
            assert(tail.last() == a.last());
        } else {
            assert(a[0] == a.last());
        }
        lemma_plain_field(tail, rest, a[0] == '\\');
    }
}

/// A field whose commas are escaped ends at the comma that follows it,
/// unless a backslash at its end escapes that comma.
pub proof fn lemma_escaped_field(c: Seq<char>, rest: Seq<char>, escaped: bool)
    requires
        open_ended(c, '\\'),
        c.len() == 0 ==> !escaped,
    ensures
        field_len(escape(c) + seq![','] + rest, escaped) == escape(c).len(),
    decreases c.len(),
{
    let s = escape(c) + seq![','] + rest;
    if c.len() == 0 {
        assert(escape(c) =~= Seq::<char>::empty());
        assert(s[0] == ',');
    } else {
        let tail = c.drop_first();
        assert(c =~= seq![c[0]] + tail);
        lemma_escape_concat(seq![c[0]], tail);
        assert(seq![c[0]].drop_last() =~= Seq::<char>::empty());
        assert(escape(Seq::<char>::empty()) =~= Seq::<char>::empty());
        if tail.len() > 0 {
            assert(tail.last() == c.last());
        } else {
            assert(c[0] == c.last());
        }
        let after = escape(tail) + seq![','] + rest;
        if c[0] == ',' {
            assert(escape(seq![c[0]]) =~= seq!['\\', ',']);
            assert(escape(c) =~= seq!['\\', ','] + escape(tail));
            assert(s =~= seq!['\\', ','] + after);
            assert(s[0] == '\\');
            let s1 = s.drop_first();
            assert(s1[0] == ',');
            assert(s1.drop_first() =~= after);
            lemma_escaped_field(tail, rest, false);
            assert(field_len(s1, true) == 1 + field_len(after, false));
            assert(field_len(s, escaped) == 1 + field_len(s1, true));
        } else {
            assert(escape(seq![c[0]]) =~= seq![c[0]]);
            assert(escape(c) =~= seq![c[0]] + escape(tail));
            assert(s =~= seq![c[0]] + after);
            assert(s[0] == c[0]);
            assert(s.drop_first() =~= after);
            lemma_escaped_field(tail, rest, c[0] == '\\');
            assert(field_len(s, escaped) == 1 + field_len(after, c[0] == '\\'));
        }
    }
}

/// Escaping brings no line feed into a text.
pub proof fn lemma_escape_keeps_lines(c: Seq<char>)
    requires
        lacks(c, '\n'),
    ensures
        lacks(escape(c), '\n'),
    decreases c.len(),
{
    if c.len() > 0 {
        let head = c.drop_last();
        assert forall|i: int| 0 <= i < head.len() implies #[trigger] head[i] != '\n' by {
            assert(head[i] == c[i]);
        }
        lemma_escape_keeps_lines(head);
        let e = escape(c);
        assert forall|i: int| 0 <= i < e.len() implies #[trigger] e[i] != '\n' by {
            if i < escape(head).len() {
                assert(e[i] == escape(head)[i]);
            } else {
                assert(c.last() != '\n');
            }
        }
    }
}

/// A number written in decimal holds no line feed.
pub proof fn lemma_number_is_one_line(n: int)
    ensures
        lacks(signed_decimal(n), '\n'),
{
    let size = if n < 0 {
        (-n) as nat
    } else {
        n as nat
    };
    lemma_decimal_digits(size);
    let d = decimal(size);
    let s = signed_decimal(n);
    assert forall|i: int| 0 <= i < s.len() implies #[trigger] s[i] != '\n' by {
        if n < 0 {
            if i > 0 {
                assert(s[i] == d[i - 1]);
                assert(is_digit(d[i - 1]));
            }
        } else {
            assert(is_digit(d[i]));
        }
    }
}

/// A character that two texts lack is lacking where they are put together.
pub proof fn lemma_lacks_concat(a: Seq<char>, b: Seq<char>, c: char)
    requires
        lacks(a, c),
        lacks(b, c),
    ensures
        lacks(a + b, c),
{
    assert forall|i: int| 0 <= i < (a + b).len() implies #[trigger] (a + b)[i] != c by {
        if i < a.len() {
            assert((a + b)[i] == a[i]);
        } else {
            assert((a + b)[i] == b[i - a.len()]);
        }
    }
}

/// The line written for a clip that the format can carry holds no line feed
/// before its end, and no carriage return just before its end.
pub proof fn lemma_csv_body_is_one_line(c: ClipView)
    requires
        csv_safe(c),
    ensures
        lacks(csv_body(c), '\n'),
        strip_cr(csv_body(c)) == csv_body(c),
{
    let comma = seq![','];
    let path = match c.file_path {
        Some(p) => p,
        None => Seq::<char>::empty(),
    };
    assert(lacks(comma, '\n'));
    lemma_number_is_one_line(c.created_at);
    lemma_lacks_concat(signed_decimal(c.created_at), comma, '\n');
    lemma_lacks_concat(signed_decimal(c.created_at) + comma, path, '\n');
    lemma_lacks_concat(c.clip_type, comma, '\n');
    lemma_lacks_concat(c.clip_type + comma, csv_from_time(c), '\n');
    lemma_escape_keeps_lines(c.content);
    lemma_lacks_concat(escape(c.content), comma, '\n');
    lemma_lacks_concat(escape(c.content) + comma, csv_from_kind(c), '\n');
    lemma_lacks_concat(c.id, comma, '\n');
    lemma_lacks_concat(c.id + comma, csv_from_content(c), '\n');
    let end = csv_from_time(c);
    assert(end.len() > 0 && end.last() != '\r') by {
        if path.len() > 0 {
            assert(end.last() == path.last());
        } else {
            assert(end.last() == ',');
        }
    }
    assert(csv_from_kind(c).last() == end.last());
    assert(csv_from_content(c).last() == end.last());
    assert(csv_body(c).last() == end.last());
}

/// The second field of the line written for a clip that the format can
/// carry is the clip's content, escaped, and the third is its kind.
pub proof fn lemma_csv_body_fields(c: ClipView)
    requires
        csv_safe(c),
    ensures
        fields(csv_body(c)).len() >= 3,
        fields(csv_body(c))[1] == escape(c.content),
        fields(csv_body(c))[2] == c.clip_type,
{
    let r3 = csv_from_time(c);
    let r2 = csv_from_kind(c);
    let r1 = csv_from_content(c);
    let body = csv_body(c);
    assert(fields(r3).len() >= 1);
    assert(fields(r2) == seq![c.clip_type] + fields(r3)) by {
        lemma_plain_field(c.clip_type, r3, false);
        assert(r2.take(c.clip_type.len() as int) =~= c.clip_type);
        assert(r2.skip(c.clip_type.len() as int + 1) =~= r3);
    }
    assert(fields(r1) == seq![escape(c.content)] + fields(r2)) by {
        lemma_escaped_field(c.content, r2, false);
        assert(r1.take(escape(c.content).len() as int) =~= escape(c.content));
        assert(r1.skip(escape(c.content).len() as int + 1) =~= r2);
    }
    assert(fields(body) == seq![c.id] + fields(r1)) by {
        lemma_plain_field(c.id, r1, false);
        assert(body.take(c.id.len() as int) =~= c.id);
        assert(body.skip(c.id.len() as int + 1) =~= r1);
    }
}

/// The line written for a clip that the format can carry reads back as the
/// clip's content and kind.
pub proof fn lemma_csv_line_reads_back(c: ClipView)
    requires
        csv_safe(c),
    ensures
        lines(csv_line(c)) == seq![csv_body(c)],
        csv_entry(csv_body(c)) == Some((c.content, c.clip_type)),
{
    let body = csv_body(c);
    lemma_csv_body_is_one_line(c);
    lemma_first_line(body, Seq::empty());
    assert(body + seq!['\n'] + Seq::<char>::empty() =~= body + seq!['\n']);
    assert(lines(Seq::<char>::empty()) =~= Seq::<Seq<char>>::empty());
    assert(seq![body] + Seq::<Seq<char>>::empty() =~= seq![body]);
    lemma_csv_body_fields(c);
    law_unescape_escape(c.content);
}

/// The lines written for some clips are empty or end with a line feed.
proof fn lemma_csv_lines_are_whole(clips: Seq<ClipView>)
    ensures
        csv_lines(clips).len() > 0 ==> csv_lines(clips).last() == '\n',
{
    if clips.len() > 0 {
        let l = csv_line(clips.last());
        assert(l.last() == '\n');
        assert(csv_lines(clips).last() == l.last());
    }
}

/// The lines written for clips that the format can carry read back as the
/// contents and kinds of the clips, in order.
pub proof fn lemma_csv_lines_read_back(clips: Seq<ClipView>)
    requires
        forall|i: int| 0 <= i < clips.len() ==> csv_safe(#[trigger] clips[i]),
    ensures
        gathered(lines(csv_lines(clips)), |l: Seq<char>| csv_entry(l)) == kinds(clips),
    decreases clips.len(),
{
    let read = |l: Seq<char>| csv_entry(l);
    if clips.len() == 0 {
        assert(lines(csv_lines(clips)) =~= Seq::<Seq<char>>::empty());
        assert(kinds(clips) =~= gathered(lines(csv_lines(clips)), read));
    } else {
        let head = clips.drop_last();
        let c = clips.last();
        assert forall|i: int| 0 <= i < head.len() implies csv_safe(#[trigger] head[i]) by {
            assert(head[i] == clips[i]);
        }
        lemma_csv_lines_read_back(head);
        lemma_csv_lines_are_whole(head);
        lemma_lines_concat(csv_lines(head), csv_line(c));
        lemma_csv_line_reads_back(c);
        let one = seq![csv_body(c)];
        lemma_gathered_concat(lines(csv_lines(head)), one, read);
        assert(one.drop_last() =~= Seq::<Seq<char>>::empty());
        assert(gathered(one.drop_last(), read) =~= Seq::<(Seq<char>, Seq<char>)>::empty());
        assert(gathered(one, read) =~= seq![(c.content, c.clip_type)]);
        assert(kinds(clips) =~= kinds(head) + seq![(c.content, c.clip_type)]);
    }
}

/// A history written in the comma-separated format reads back as the
/// contents and kinds of its clips, in order, where every clip is one that
/// the format can carry.
pub proof fn law_csv_reads_back(clips: Seq<ClipView>)
    requires
        forall|i: int| 0 <= i < clips.len() ==> csv_safe(#[trigger] clips[i]),
    ensures
        csv_entries(csv_of(clips)) == kinds(clips),
{
    reveal_strlit("id,content,type,created_at,file_path");
    let h = CSV_HEADER@;
    assert(lacks(h, '\n'));
    lemma_first_line(h, csv_lines(clips));
    let all = lines(csv_of(clips));
    assert(all == seq![strip_cr(h)] + lines(csv_lines(clips)));
    assert(after_header(all) =~= lines(csv_lines(clips)));
    lemma_csv_lines_read_back(clips);
}

/// The contents of `clips` as entries of text clips.
pub open spec fn as_text(clips: Seq<ClipView>) -> Seq<(Seq<char>, Seq<char>)> {
    clips.map_values(|c: ClipView| (c.content, KIND_TEXT@))
}

/// A text that neither starts nor ends with white space is not blank and
/// stays as it is when the white space around it is removed.
pub proof fn lemma_trim_of_tight(s: Seq<char>)
    requires
        s.len() > 0,
        !is_space(s.first()),
        !is_space(s.last()),
    ensures
        trim(s) == s,
        !is_blank(s),
{
    let p = |c: char| is_space(c);
    lemma_run_len(s, p, 0);
    assert(s.skip(0) =~= s);
    let back = s.reverse();
    assert(back[0] == s.last());
    lemma_run_len(back, p, 0);
    assert(s.take(s.len() as int) =~= s);
    assert(!is_space(s[0]));
}

/// A history of text clips written as plain text reads back as the contents
/// of its clips, in order, where every clip is one that the format can
/// carry.
pub proof fn law_txt_reads_back(clips: Seq<ClipView>)
    requires
        forall|i: int| 0 <= i < clips.len() ==> txt_safe(#[trigger] clips[i]),
    ensures
        txt_entries(txt_of(clips)) == as_text(clips),
        txt_entries(txt_of(clips)) == kinds(clips),
    decreases clips.len(),
{
    let read = |l: Seq<char>| txt_entry(l);
    if clips.len() == 0 {
        assert(lines(txt_of(clips)) =~= Seq::<Seq<char>>::empty());
        assert(as_text(clips) =~= gathered(lines(txt_of(clips)), read));
        assert(kinds(clips) =~= as_text(clips));
    } else {
        let head = clips.drop_last();
        let c = clips.last();
        assert forall|i: int| 0 <= i < head.len() implies txt_safe(#[trigger] head[i]) by {
            assert(head[i] == clips[i]);
        }
        law_txt_reads_back(head);
        let written = txt_of(head);
        if head.len() > 0 {
            assert(written.last() == '\n');
        }
        let line = c.content + seq!['\n'];
        assert(txt_of(clips) =~= written + line);
        lemma_lines_concat(written, line);
        lemma_first_line(c.content, Seq::empty());
        assert(c.content + seq!['\n'] + Seq::<char>::empty() =~= line);
        assert(lines(Seq::<char>::empty()) =~= Seq::<Seq<char>>::empty());
        lemma_trim_of_tight(c.content);
        assert(strip_cr(c.content) == c.content) by {
            assert(is_space('\r'));
        }
        let one = seq![c.content];
        assert(lines(line) =~= one);
        lemma_gathered_concat(lines(written), one, read);
        assert(one.drop_last() =~= Seq::<Seq<char>>::empty());
        assert(gathered(one.drop_last(), read) =~= Seq::<(Seq<char>, Seq<char>)>::empty());
        assert(gathered(one, read) =~= seq![(c.content, KIND_TEXT@)]);
        assert(as_text(clips) =~= as_text(head) + seq![(c.content, KIND_TEXT@)]);
        assert(kinds(clips) =~= as_text(clips));
    }
}

} // verus!
