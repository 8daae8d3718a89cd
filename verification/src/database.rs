//! The history store: a bounded, ordered collection of captured clips with
//! tags attached to them.
//!
//! The store keeps its clips newest first.  Clips captured in the same second
//! stay in the order of their arrival, the later one in front.

use vstd::prelude::*;
use crate::laws::{law_insert_keeps_order, law_kinds_are_apart};
use crate::text::{contains, is_substring, lemma_run_len, opt_view, run_len, str_views};
use crate::trusted::{formatted_time, format_seconds, fresh_id, now_seconds};

verus! {

/// What a [`Clip`] holds, as mathematical values.
pub struct ClipView {
    pub id: Seq<char>,
    pub content: Seq<char>,
    pub clip_type: Seq<char>,
    pub created_at: int,
    pub file_path: Option<Seq<char>>,
}

/// One captured clipboard item.  `created_at` counts seconds since the Unix
/// epoch.
#[derive(Debug)]
pub struct Clip {
    pub id: String,
    pub content: String,
    pub clip_type: String,
    pub created_at: i64,
    pub file_path: Option<String>,
}

impl View for Clip {
    type V = ClipView;

    open spec fn view(&self) -> ClipView {
        ClipView {
            id: self.id@,
            content: self.content@,
            clip_type: self.clip_type@,
            created_at: self.created_at as int,
            file_path: opt_view(self.file_path),
        }
    }
}

impl Clone for Clip {
    fn clone(&self) -> (c: Clip)
        ensures
            c == *self,
    {
        Clip {
            id: self.id.clone(),
            content: self.content.clone(),
            clip_type: self.clip_type.clone(),
            created_at: self.created_at,
            file_path: match &self.file_path {
                Some(p) => Some(p.clone()),
                None => None,
            },
        }
    }
}

/// Counts over the whole store.  The two moments are written as
/// `YYYY-MM-DD hh:mm:ss`, in UTC.
#[derive(Debug)]
pub struct Statistics {
    pub total_clips: usize,
    pub text_clips: usize,
    pub file_clips: usize,
    pub oldest_clip: String,
    pub newest_clip: String,
    pub db_size_kb: usize,
}

/// The format string for the moments in [`Statistics`].
pub const MOMENT_FORMAT: &'static str = "%Y-%m-%d %H:%M:%S";

/// The kind of a clip that holds copied text.
pub const KIND_TEXT: &'static str = "text";

/// The kind of a clip that names a file.
pub const KIND_FILE: &'static str = "file";

/// Why the store refused an operation.  Both are violations of the store's
/// own constraints; the store is left as it was.
#[derive(Debug, PartialEq, Eq, Clone, Copy)]
pub enum StoreError {
    /// A clip with this id is already stored.
    DuplicateId,
    /// No stored clip has this id.
    MissingClip,
}

/// One tag attached to one clip.
pub struct TagLink {
    pub clip_id: String,
    pub tag: String,
}

impl View for TagLink {
    type V = (Seq<char>, Seq<char>);

    open spec fn view(&self) -> (Seq<char>, Seq<char>) {
        (self.clip_id@, self.tag@)
    }
}

/// The views of a sequence of clips.
pub open spec fn clip_views(s: Seq<Clip>) -> Seq<ClipView> {
    s.map_values(|c: Clip| c@)
}

/// The views of a sequence of attachments.
pub open spec fn link_views(s: Seq<TagLink>) -> Seq<(Seq<char>, Seq<char>)> {
    s.map_values(|l: TagLink| l@)
}

/// Some clip among `clips` carries the id `id`.
pub open spec fn holds_id(clips: Seq<ClipView>, id: Seq<char>) -> bool {
    exists|i: int| 0 <= i < clips.len() && (#[trigger] clips[i]).id == id
}

/// How long the ids are that the store draws for new clips.
pub const DRAWN_ID_LENGTH: usize = 36;

/// Some clip among `clips` carries an id as long as the ids that the store
/// draws: only such an id can stand in the way of a newly drawn one.
pub open spec fn holds_drawn_id(clips: Seq<ClipView>) -> bool {
    exists|i: int| 0 <= i < clips.len() && (#[trigger] clips[i]).id.len() == DRAWN_ID_LENGTH
}

/// The clips captured after the moment `at`.
pub open spec fn newer_than(at: int) -> spec_fn(ClipView) -> bool {
    |c: ClipView| c.created_at > at
}

/// How many clips at the front of `clips` are strictly newer than `at`: the
/// place where a clip captured at `at` goes.
pub open spec fn slot(clips: Seq<ClipView>, at: int) -> nat {
    run_len(clips, newer_than(at))
}

/// The first `n` items of `s`, or all of `s` where it has fewer.
pub open spec fn first<A>(s: Seq<A>, n: nat) -> Seq<A> {
    if n < s.len() {
        s.take(n as int)
    } else {
        s
    }
}

/// The clips whose content holds `query`.
pub open spec fn content_has(query: Seq<char>) -> spec_fn(ClipView) -> bool {
    |c: ClipView| is_substring(query, c.content)
}

/// The clips of the kind `kind`.
pub open spec fn kind_is(kind: Seq<char>) -> spec_fn(ClipView) -> bool {
    |c: ClipView| c.clip_type == kind
}

/// The clips to which the tag `name` is attached by `links`.
pub open spec fn linked_to(links: Set<(Seq<char>, Seq<char>)>, name: Seq<char>) -> spec_fn(
    ClipView,
) -> bool {
    |c: ClipView| links.contains((c.id, name))
}

/// The store as a mathematical value: the clips, newest first, the names of
/// the known tags, and the pairs (clip id, tag name) that are attached.
pub struct StoreView {
    pub clips: Seq<ClipView>,
    pub tags: Set<Seq<char>>,
    pub links: Set<(Seq<char>, Seq<char>)>,
}

impl StoreView {
    /// The store that holds nothing and knows no tag.
    pub open spec fn empty() -> StoreView {
        StoreView { clips: Seq::empty(), tags: Set::empty(), links: Set::empty() }
    }

    /// Some stored clip carries the id `id`.
    pub open spec fn has_id(self, id: Seq<char>) -> bool {
        holds_id(self.clips, id)
    }

    /// No clip stands in front of a newer one.
    pub open spec fn newest_first(self) -> bool {
        forall|i: int, j: int|
            0 <= i < j < self.clips.len() ==> (#[trigger] self.clips[i]).created_at >= (
            #[trigger] self.clips[j]).created_at
    }

    /// No two clips share an id.
    pub open spec fn distinct_ids(self) -> bool {
        forall|i: int, j: int|
            0 <= i < j < self.clips.len() ==> (#[trigger] self.clips[i]).id != (
            #[trigger] self.clips[j]).id
    }

    /// Every attachment joins a stored clip and a known tag.
    pub open spec fn links_resolve(self) -> bool {
        forall|l: (Seq<char>, Seq<char>)| #[trigger]
            self.links.contains(l) ==> self.has_id(l.0) && self.tags.contains(l.1)
    }

    /// What holds of every store: its clips stand newest first, each under
    /// an id of its own, and nothing is attached to what is not there.
    pub open spec fn wf(self) -> bool {
        &&& self.newest_first()
        &&& self.distinct_ids()
        &&& self.links_resolve()
    }

    /// The `limit` newest clips, newest first.
    pub open spec fn recent(self, limit: nat) -> Seq<ClipView> {
        first(self.clips, limit)
    }

    /// The clips whose content holds `query`, newest first.
    pub open spec fn matching(self, query: Seq<char>) -> Seq<ClipView> {
        self.clips.filter(content_has(query))
    }

    /// The clips that carry the tag `name`, newest first.
    pub open spec fn tagged_with(self, name: Seq<char>) -> Seq<ClipView> {
        self.clips.filter(linked_to(self.links, name))
    }

    /// The names of the tags attached to the clip `id`.
    pub open spec fn tags_of(self, id: Seq<char>) -> Set<Seq<char>> {
        Set::new(|t: Seq<char>| self.links.contains((id, t)))
    }

    /// The store cut down to its `max` newest clips; what was attached to a
    /// clip that leaves is detached.
    pub open spec fn trimmed(self, max: nat) -> StoreView {
        let kept = first(self.clips, max);
        StoreView {
            clips: kept,
            tags: self.tags,
            links: Set::new(|l: (Seq<char>, Seq<char>)| self.links.contains(l) && holds_id(kept, l.0)),
        }
    }

    /// The store without any clip, and so without any attachment.
    pub open spec fn cleared(self) -> StoreView {
        StoreView { clips: Seq::empty(), tags: self.tags, links: Set::empty() }
    }

    /// How many clips are of the kind `kind`.
    pub open spec fn count_of(self, kind: Seq<char>) -> nat {
        self.clips.filter(kind_is(kind)).len()
    }

    /// When the oldest clip was captured; 0 for an empty store.
    pub open spec fn oldest_stamp(self) -> int {
        if self.clips.len() == 0 {
            0
        } else {
            self.clips.last().created_at
        }
    }

    /// When the newest clip was captured; 0 for an empty store.
    pub open spec fn newest_stamp(self) -> int {
        if self.clips.len() == 0 {
            0
        } else {
            self.clips.first().created_at
        }
    }

    /// The store once the tag `name` is known.
    pub open spec fn with_tag(self, name: Seq<char>) -> StoreView {
        StoreView { tags: self.tags.insert(name), ..self }
    }

    /// The store once the tag `name` is attached to the clip `id`; the tag is
    /// made known first.  Nothing changes where no clip has that id.
    pub open spec fn tagged(self, id: Seq<char>, name: Seq<char>) -> StoreView {
        if self.has_id(id) {
            StoreView {
                tags: self.tags.insert(name),
                links: self.links.insert((id, name)),
                ..self
            }
        } else {
            self
        }
    }

    /// The store once the tag `name` is detached from the clip `id`.
    pub open spec fn untagged(self, id: Seq<char>, name: Seq<char>) -> StoreView {
        StoreView { links: self.links.remove((id, name)), ..self }
    }

    /// The store with `c` added at its place in the order.
    pub open spec fn inserted(self, c: ClipView) -> StoreView {
        StoreView { clips: self.clips.insert(slot(self.clips, c.created_at) as int, c), ..self }
    }
}

/// The moment `seconds` after the Unix epoch, written as
/// `YYYY-MM-DD hh:mm:ss`; the present time where that moment cannot be written.
pub fn moment_text(seconds: i64) -> (text: String)
    ensures
        formatted_time(seconds as int, MOMENT_FORMAT@) matches Some(t) ==> text@ == t,
{
    match format_seconds(seconds, MOMENT_FORMAT) {
        Some(text) => text,
        None => match format_seconds(now_seconds(), MOMENT_FORMAT) {
            Some(text) => text,
            None => String::new(),
        },
    }
}

/// What the store holds, under an invariant that its users have to keep.
struct Records {
    clips: Vec<Clip>,
    tags: Vec<String>,
    links: Vec<TagLink>,
}

impl View for Records {
    type V = StoreView;

    closed spec fn view(&self) -> StoreView {
        StoreView {
            clips: clip_views(self.clips@),
            tags: str_views(self.tags@).to_set(),
            links: link_views(self.links@).to_set(),
        }
    }
}

impl Records {
    /// The store's invariant: its view is well formed, and no tag and no
    /// attachment is recorded twice.
    closed spec fn wf(&self) -> bool {
        &&& self@.wf()
        &&& str_views(self.tags@).no_duplicates()
        &&& link_views(self.links@).no_duplicates()
    }

    /// An empty store.
    fn new() -> (db: Records)
        ensures
            db.wf(),
            db@ == StoreView::empty(),
    {
        let db = Records { clips: Vec::new(), tags: Vec::new(), links: Vec::new() };
        assert(db@.tags =~= Set::empty());
        assert(db@.links =~= Set::empty());
        assert(db@.clips =~= Seq::empty());
        db
    }

    fn position_of(&self, id: &str) -> (r: Option<usize>)
        ensures
            match r {
                Some(i) => i < self.clips.len() && self.clips[i as int].id@ == id@,
                None => !self@.has_id(id@),
            },
    {
        let mut i: usize = 0;
        while i < self.clips.len()
            invariant
                i <= self.clips.len(),
                forall|j: int| 0 <= j < i ==> self.clips[j].id@ != id@,
            decreases self.clips.len() - i,
        {
            if *self.clips[i].id.as_str() == *id {
                return Some(i);
            }
            i += 1;
        }
        assert(!self@.has_id(id@)) by {
            if self@.has_id(id@) {
                let j = choose|j: int| 0 <= j < self@.clips.len() && (#[trigger] self@.clips[j]).id == id@;
                assert(self.clips[j].id@ != id@);
            }
        }
        None
    }

    /// Stores `clip` at its place in the order, unless a clip with the same id
    /// is stored already.
    fn insert_clip(&mut self, clip: Clip) -> (r: Result<(), StoreError>)
        requires
            old(self).wf(),
        ensures
            final(self).wf(),
            match r {
                Ok(()) => !old(self)@.has_id(clip@.id) && final(self)@ == old(self)@.inserted(clip@),
                Err(e) => e == StoreError::DuplicateId && old(self)@.has_id(clip@.id) && final(self)@
                    == old(self)@,
            },
    {
        if let Some(i) = self.position_of(clip.id.as_str()) {
            assert(self@.clips[i as int].id == clip@.id);
            return Err(StoreError::DuplicateId);
        }
        let mut k: usize = 0;
        while k < self.clips.len() && self.clips[k].created_at > clip.created_at
            invariant
                k <= self.clips.len(),
                forall|i: int| 0 <= i < k ==> (#[trigger] self.clips[i]).created_at > clip.created_at,
            decreases self.clips.len() - k,
        {
            k += 1;
        }
        proof {
            let before = old(self)@.clips;
            assert forall|i: int| 0 <= i < k implies newer_than(clip@.created_at)(
                #[trigger] before[i],
            ) by {
                assert(before[i] == self.clips[i]@);
            }
            if k < before.len() {
                assert(before[k as int] == self.clips[k as int]@);
            }
            lemma_run_len(before, newer_than(clip@.created_at), k as int);
        }
        self.clips.insert(k, clip);
        proof {
            let before = old(self)@;
            assert(self@.clips =~= before.clips.insert(k as int, clip@));
            assert(self@ == before.inserted(clip@));
            law_insert_keeps_order(before, clip@);
        }
        Ok(())
    }

    /// How many clips are stored.
    fn len(&self) -> (n: usize)
        ensures
            n == self@.clips.len(),
    {
        self.clips.len()
    }

    /// The `limit` newest clips, newest first.
    fn get_recent_clips(&self, limit: usize) -> (r: Vec<Clip>)
        ensures
            clip_views(r@) == self@.recent(limit as nat),
    {
        let mut out: Vec<Clip> = Vec::new();
        let mut i: usize = 0;
        while i < self.clips.len() && i < limit
            invariant
                i <= self.clips.len(),
                i <= limit,
                clip_views(out@) == self@.clips.take(i as int),
            decreases self.clips.len() - i,
        {
            let ghost taken = clip_views(out@);
            out.push(self.clips[i].clone());
            assert(clip_views(out@) =~= taken.push(self.clips[i as int]@));
            i += 1;
            assert(clip_views(out@) =~= self@.clips.take(i as int));
        }
        assert(self@.clips.take(self@.clips.len() as int) =~= self@.clips);
        out
    }

    /// Every stored clip, newest first.
    fn get_all_clips(&self) -> (r: Vec<Clip>)
        ensures
            clip_views(r@) == self@.clips,
    {
        self.get_recent_clips(self.clips.len())
    }

    /// The clip with the id `id`, if one is stored.
    fn get_clip_by_id(&self, id: &str) -> (r: Option<Clip>)
        ensures
            match r {
                Some(c) => self@.clips.contains(c@) && c@.id == id@,
                None => !self@.has_id(id@),
            },
    {
        match self.position_of(id) {
            Some(i) => {
                assert(self@.clips[i as int] == self.clips[i as int]@);
                Some(self.clips[i].clone())
            },
            None => None,
        }
    }

    /// The `limit` newest clips whose content holds `query`, newest first.
    /// The match is exact, character by character.
    fn search_clips(&self, query: &str, limit: usize) -> (r: Vec<Clip>)
        ensures
            clip_views(r@) == first(self@.matching(query@), limit as nat),
    {
        let mut out: Vec<Clip> = Vec::new();
        let mut i: usize = 0;
        while i < self.clips.len() && out.len() < limit
            invariant
                i <= self.clips.len(),
                out.len() <= limit,
                clip_views(out@) == self@.clips.take(i as int).filter(content_has(query@)),
            decreases self.clips.len() - i,
        {
            let ghost seen = self@.clips.take(i as int);
            let ghost found = clip_views(out@);
            if contains(self.clips[i].content.as_str(), query) {
                out.push(self.clips[i].clone());
            }
            proof {
                let c = self@.clips[i as int];
                assert(c == self.clips[i as int]@);
                assert(self@.clips.take(i + 1) =~= seen.push(c));
                seen.lemma_filter_push(c, content_has(query@));
                if content_has(query@)(c) {
                    assert(clip_views(out@) =~= found.push(c));
                }
            }
            i += 1;
        }
        proof {
            let all = self@.clips;
            let p = content_has(query@);
            assert(all =~= all.take(i as int) + all.skip(i as int));
            Seq::filter_distributes_over_add(all.take(i as int), all.skip(i as int), p);
            let head = all.take(i as int).filter(p);
            let rest = all.skip(i as int).filter(p);
            assert(all.filter(p) == head + rest);
            if i == self.clips.len() {
                assert(all.skip(i as int) =~= Seq::<ClipView>::empty());
                assert(rest.len() <= 0) by {
                    all.skip(i as int).lemma_filter_len(p);
                }
                assert(head + rest =~= head);
            } else {
                assert((head + rest).take(limit as int) =~= head);
                if !(limit < (head + rest).len()) {
                    assert(head + rest =~= head);
                }
            }
        }
        out
    }

    /// Cuts the store down to its `max_clips` newest clips.
    fn trim_history(&mut self, max_clips: usize)
        requires
            old(self).wf(),
        ensures
            final(self).wf(),
            final(self)@ == old(self)@.trimmed(max_clips as nat),
    {
        if max_clips >= self.clips.len() {
            proof {
                let v = self@;
                assert(v.trimmed(max_clips as nat).links =~= v.links);
            }
            return ;
        }
        let ghost kept = self@.clips.take(max_clips as int);
        let ghost orig = self.links@;
        let mut stay: Vec<TagLink> = Vec::new();
        while self.links.len() > 0
            invariant
                self.clips == old(self).clips,
                self.tags == old(self).tags,
                max_clips < self.clips.len(),
                kept == self@.clips.take(max_clips as int),
                self.links@.len() <= orig.len(),
                self.links@ == orig.take(self.links@.len() as int),
                link_views(orig).no_duplicates(),
                link_views(stay@).no_duplicates(),
                forall|l: (Seq<char>, Seq<char>)| #[trigger]
                    link_views(stay@).contains(l) <==> holds_id(kept, l.0) && exists|j: int|
                        self.links@.len() <= j < orig.len() && #[trigger] orig[j]@ == l,
            decreases self.links.len(),
        {
            let ghost n = self.links@.len() - 1;
            let ghost stay_before = link_views(stay@);
            let link = self.links.pop().unwrap();
            assert(link == orig[n]);
            let here = self.among_first(link.clip_id.as_str(), max_clips);
            if here {
                assert(!stay_before.contains(link@)) by {
                    if stay_before.contains(link@) {
                        let j = choose|j: int| n < j < orig.len() && #[trigger] orig[j]@ == link@;
                        assert(link_views(orig)[j] == link_views(orig)[n]);
                    }
                }
                stay.push(link);
                assert(link_views(stay@) =~= stay_before.push(link@));
                assert forall|l: (Seq<char>, Seq<char>)| #[trigger]
                    link_views(stay@).contains(l) <==> holds_id(kept, l.0) && exists|j: int|
                        n <= j < orig.len() && #[trigger] orig[j]@ == l by {
                    if link_views(stay@).contains(l) {
                        let i = choose|i: int| 0 <= i < link_views(stay@).len() && link_views(stay@)[i] == l;
                        if i < stay_before.len() {
                            assert(stay_before[i] == l);
                            assert(stay_before.contains(l));
                        } else {
                            assert(orig[n]@ == l);
                        }
                    }
                    if holds_id(kept, l.0) && exists|j: int| n <= j < orig.len() && #[trigger] orig[j]@ == l {
                        let j = choose|j: int| n <= j < orig.len() && #[trigger] orig[j]@ == l;
                        if j == n {
                            assert(link_views(stay@)[stay_before.len() as int] == l);
                        } else {
                            assert(stay_before.contains(l));
                            let i = choose|i: int| 0 <= i < stay_before.len() && stay_before[i] == l;
                            assert(link_views(stay@)[i] == l);
                        }
                    }
                }
            } else {
                assert forall|l: (Seq<char>, Seq<char>)| #[trigger]
                    link_views(stay@).contains(l) <==> holds_id(kept, l.0) && exists|j: int|
                        n <= j < orig.len() && #[trigger] orig[j]@ == l by {
                    if holds_id(kept, l.0) && exists|j: int| n <= j < orig.len() && #[trigger] orig[j]@ == l {
                        let j = choose|j: int| n <= j < orig.len() && #[trigger] orig[j]@ == l;
                        assert(j != n);
                    }
                }
            }
            assert(self.links@ =~= orig.take(n as int));
        }
        self.links = stay;
        self.clips.truncate(max_clips);
        proof {
            let before = old(self)@;
            let after = self@;
            assert(after.clips =~= kept);
            assert(after.tags == before.tags);
            assert(after.links =~= before.trimmed(max_clips as nat).links) by {
                assert forall|l: (Seq<char>, Seq<char>)| after.links.contains(l) <==> (
                before.links.contains(l) && holds_id(kept, l.0)) by {
                    if before.links.contains(l) {
                        let j = choose|j: int| 0 <= j < link_views(orig).len() && link_views(orig)[j] == l;
                        assert(orig[j]@ == l);
                    }
                    if after.links.contains(l) {
                        let j = choose|j: int| 0 <= j < orig.len() && #[trigger] orig[j]@ == l;
                        assert(link_views(orig)[j] == l);
                    }
                }
            }
            assert(after.links_resolve());
        }
    }

    /// Whether one of the `n` newest clips has the id `id`.
    fn among_first(&self, id: &str, n: usize) -> (b: bool)
        requires
            n <= self.clips.len(),
        ensures
            b == holds_id(self@.clips.take(n as int), id@),
    {
        let ghost kept = self@.clips.take(n as int);
        let mut i: usize = 0;
        while i < n
            invariant
                i <= n <= self.clips.len(),
                kept == self@.clips.take(n as int),
                forall|j: int| 0 <= j < i ==> (#[trigger] kept[j]).id != id@,
            decreases n - i,
        {
            if *self.clips[i].id.as_str() == *id {
                assert(kept[i as int].id == id@);
                return true;
            }
            i += 1;
        }
        false
    }

    /// Removes every clip, and with the clips what was attached to them.  The
    /// tags themselves stay known.
    fn clear_history(&mut self)
        requires
            old(self).wf(),
        ensures
            final(self).wf(),
            final(self)@ == old(self)@.cleared(),
    {
        self.links.clear();
        self.clips.clear();
        proof {
            assert(self@.clips =~= Seq::<ClipView>::empty());
            assert(self@.links =~= Set::empty());
        }
    }

    fn tag_position(&self, name: &str) -> (r: Option<usize>)
        ensures
            match r {
                Some(i) => i < self.tags.len() && self.tags[i as int]@ == name@,
                None => !self@.tags.contains(name@),
            },
    {
        let mut i: usize = 0;
        while i < self.tags.len()
            invariant
                i <= self.tags.len(),
                forall|j: int| 0 <= j < i ==> (#[trigger] str_views(self.tags@)[j]) != name@,
            decreases self.tags.len() - i,
        {
            if *self.tags[i].as_str() == *name {
                return Some(i);
            }
            assert(str_views(self.tags@)[i as int] == self.tags[i as int]@);
            i += 1;
        }
        None
    }

    fn link_position(&self, clip_id: &str, name: &str) -> (r: Option<usize>)
        ensures
            match r {
                Some(i) => i < self.links.len() && self.links[i as int]@ == (clip_id@, name@),
                None => !self@.links.contains((clip_id@, name@)),
            },
    {
        let mut i: usize = 0;
        while i < self.links.len()
            invariant
                i <= self.links.len(),
                forall|j: int|
                    0 <= j < i ==> (#[trigger] link_views(self.links@)[j]) != (clip_id@, name@),
            decreases self.links.len() - i,
        {
            if *self.links[i].clip_id.as_str() == *clip_id && *self.links[i].tag.as_str() == *name {
                return Some(i);
            }
            assert(link_views(self.links@)[i as int] == self.links[i as int]@);
            i += 1;
        }
        None
    }

    /// Makes the tag `name` known, attached to nothing yet.
    fn create_tag(&mut self, name: &str)
        requires
            old(self).wf(),
        ensures
            final(self).wf(),
            final(self)@ == old(self)@.with_tag(name@),
    {
        let known = self.tag_position(name);
        if known.is_none() {
            let ghost before = str_views(self.tags@);
            self.tags.push(name.to_owned());
            proof {
                assert(str_views(self.tags@) =~= before.push(name@));
                before.lemma_push_to_set_commute(name@);
                assert forall|l: (Seq<char>, Seq<char>)| #[trigger]
                    self@.links.contains(l) implies self@.has_id(l.0) && self@.tags.contains(
                    l.1,
                ) by {
                    assert(old(self)@.links.contains(l));
                }
            }
        } else {
            assert(self@.tags.insert(name@) =~= self@.tags) by {
                assert(str_views(self.tags@)[known->0 as int] == name@);
            }
        }
    }

    /// Attaches the tag `tag_name` to the clip `clip_id`, making the tag known
    /// first.  Doing so twice is the same as doing so once.
    fn add_tag_to_clip(&mut self, clip_id: &str, tag_name: &str) -> (r: Result<
        (),
        StoreError,
    >)
        requires
            old(self).wf(),
        ensures
            final(self).wf(),
            match r {
                Ok(()) => old(self)@.has_id(clip_id@) && final(self)@ == old(self)@.tagged(
                    clip_id@,
                    tag_name@,
                ),
                Err(e) => e == StoreError::MissingClip && !old(self)@.has_id(clip_id@)
                    && final(self)@ == old(self)@,
            },
    {
        match self.position_of(clip_id) {
            None => {
                return Err(StoreError::MissingClip);
            },
            Some(i) => {
                assert(self@.clips[i as int].id == clip_id@);
            },
        }
        self.create_tag(tag_name);
        match self.link_position(clip_id, tag_name) {
            Some(i) => {
                proof {
                    assert(link_views(self.links@)[i as int] == (clip_id@, tag_name@));
                    assert(self@.links.insert((clip_id@, tag_name@)) =~= self@.links);
                }
            },
            None => {
                let ghost before = link_views(self.links@);
                let ghost mid = self@;
                self.links.push(TagLink { clip_id: clip_id.to_owned(), tag: tag_name.to_owned() });
                proof {
                    assert(link_views(self.links@) =~= before.push((clip_id@, tag_name@)));
                    before.lemma_push_to_set_commute((clip_id@, tag_name@));
                    assert forall|l: (Seq<char>, Seq<char>)| #[trigger]
                        self@.links.contains(l) implies self@.has_id(l.0) && self@.tags.contains(
                        l.1,
                    ) by {
                        if l != (clip_id@, tag_name@) {
                            assert(mid.links.contains(l));
                        }
                    }
                }
            },
        }
        Ok(())
    }

    /// Detaches the tag `tag_name` from the clip `clip_id`.  Nothing changes
    /// where it was not attached.
    fn remove_tag_from_clip(&mut self, clip_id: &str, tag_name: &str)
        requires
            old(self).wf(),
        ensures
            final(self).wf(),
            final(self)@ == old(self)@.untagged(clip_id@, tag_name@),
    {
        match self.link_position(clip_id, tag_name) {
            None => {
                assert(self@.links.remove((clip_id@, tag_name@)) =~= self@.links);
            },
            Some(i) => {
                let ghost before = link_views(self.links@);
                let ghost gone = (clip_id@, tag_name@);
                self.links.swap_remove(i);
                proof {
                    let after = link_views(self.links@);
                    let n = before.len() - 1;
                    assert(before[i as int] == gone);
                    assert forall|j: int| 0 <= j < after.len() implies #[trigger] after[j] == (if j
                        == i {
                        before[n]
                    } else {
                        before[j]
                    }) by {}
                    assert(after.no_duplicates());
                    assert forall|l: (Seq<char>, Seq<char>)|
                        after.contains(l) <==> (before.contains(l) && l != gone) by {
                        if after.contains(l) {
                            let j = choose|j: int| 0 <= j < after.len() && after[j] == l;
                            if j == i {
                                assert(before[n] == l);
                            } else {
                                assert(before[j] == l);
                            }
                        }
                        if before.contains(l) && l != gone {
                            let j = choose|j: int| 0 <= j < before.len() && before[j] == l;
                            if j == n {
                                assert(after[i as int] == l);
                            } else {
                                assert(after[j] == l);
                            }
                        }
                    }
                    assert(self@.links =~= old(self)@.links.remove(gone));
                    assert(self@.links_resolve());
                }
            },
        }
    }

    /// The names of the tags attached to the clip `clip_id`, each once, in no
    /// particular order.  A clip that is not stored has none.
    fn get_clip_tags(&self, clip_id: &str) -> (r: Vec<String>)
        requires
            self.wf(),
        ensures
            str_views(r@).to_set() == self@.tags_of(clip_id@),
            str_views(r@).no_duplicates(),
    {
        let ghost links = link_views(self.links@);
        let mut out: Vec<String> = Vec::new();
        let mut i: usize = 0;
        while i < self.links.len()
            invariant
                i <= self.links.len(),
                links == link_views(self.links@),
                links.no_duplicates(),
                str_views(out@).no_duplicates(),
                forall|t: Seq<char>| #[trigger]
                    str_views(out@).contains(t) <==> exists|j: int|
                        0 <= j < i && #[trigger] links[j] == (clip_id@, t),
            decreases self.links.len() - i,
        {
            let ghost names = str_views(out@);
            if *self.links[i].clip_id.as_str() == *clip_id {
                let ghost t = self.links[i as int].tag@;
                assert(links[i as int] == (clip_id@, t));
                assert(!names.contains(t)) by {
                    if names.contains(t) {
                        let j = choose|j: int| 0 <= j < i && #[trigger] links[j] == (clip_id@, t);
                    }
                }
                out.push(self.links[i].tag.clone());
                assert(str_views(out@) =~= names.push(t));
                assert forall|u: Seq<char>| #[trigger]
                    str_views(out@).contains(u) <==> exists|j: int|
                        0 <= j < i + 1 && #[trigger] links[j] == (clip_id@, u) by {
                    if str_views(out@).contains(u) {
                        let k = choose|k: int| 0 <= k < str_views(out@).len() && str_views(out@)[k] == u;
                        if k < names.len() {
                            assert(names[k] == u);
                            assert(names.contains(u));
                        }
                    }
                    if exists|j: int| 0 <= j < i + 1 && #[trigger] links[j] == (clip_id@, u) {
                        let j = choose|j: int| 0 <= j < i + 1 && #[trigger] links[j] == (clip_id@, u);
                        if j == i {
                            assert(str_views(out@)[names.len() as int] == u);
                        } else {
                            assert(names.contains(u));
                            let k = choose|k: int| 0 <= k < names.len() && names[k] == u;
                            assert(str_views(out@)[k] == u);
                        }
                    }
                }
            } else {
                assert(links[i as int].0 != clip_id@);
            }
            i += 1;
        }
        proof {
            assert forall|t: Seq<char>|
                str_views(out@).to_set().contains(t) <==> self@.tags_of(clip_id@).contains(t) by {
                if self@.links.contains((clip_id@, t)) {
                    let j = choose|j: int| 0 <= j < links.len() && links[j] == (clip_id@, t);
                }
            }
            assert(str_views(out@).to_set() =~= self@.tags_of(clip_id@));
        }
        out
    }

    /// The clips that carry the tag `tag_name`, newest first.
    fn get_clips_by_tag(&self, tag_name: &str) -> (r: Vec<Clip>)
        ensures
            clip_views(r@) == self@.tagged_with(tag_name@),
    {
        let ghost p = linked_to(self@.links, tag_name@);
        let mut out: Vec<Clip> = Vec::new();
        let mut i: usize = 0;
        while i < self.clips.len()
            invariant
                i <= self.clips.len(),
                p == linked_to(self@.links, tag_name@),
                clip_views(out@) == self@.clips.take(i as int).filter(p),
            decreases self.clips.len() - i,
        {
            let ghost seen = self@.clips.take(i as int);
            let ghost found = clip_views(out@);
            let at = self.link_position(self.clips[i].id.as_str(), tag_name);
            let hit = at.is_some();
            if hit {
                out.push(self.clips[i].clone());
            }
            proof {
                let c = self@.clips[i as int];
                assert(c == self.clips[i as int]@);
                assert(self@.clips.take(i + 1) =~= seen.push(c));
                seen.lemma_filter_push(c, p);
                if hit {
                    assert(link_views(self.links@)[at->0 as int] == (c.id, tag_name@));
                    assert(clip_views(out@) =~= found.push(c));
                }
            }
            i += 1;
        }
        assert(self@.clips.take(self@.clips.len() as int) =~= self@.clips);
        out
    }

    /// The names of the known tags, each once, in no particular order.
    fn tag_names(&self) -> (r: Vec<String>)
        ensures
            str_views(r@).to_set() == self@.tags,
            self.wf() ==> str_views(r@).no_duplicates(),
    {
        let mut out: Vec<String> = Vec::new();
        let mut i: usize = 0;
        while i < self.tags.len()
            invariant
                i <= self.tags.len(),
                str_views(out@) == str_views(self.tags@).take(i as int),
            decreases self.tags.len() - i,
        {
            let ghost names = str_views(out@);
            out.push(self.tags[i].clone());
            assert(str_views(out@) =~= names.push(self.tags[i as int]@));
            i += 1;
            assert(str_views(out@) =~= str_views(self.tags@).take(i as int));
        }
        assert(str_views(self.tags@).take(self.tags@.len() as int) =~= str_views(self.tags@));
        out
    }

    /// Stores a new clip with the given content and kind, under a fresh id and
    /// the present time, and returns it.
    fn add_clip(&mut self, content: &str, clip_type: &str) -> (r: Result<Clip, StoreError>)
        requires
            old(self).wf(),
        ensures
            final(self).wf(),
            match r {
                Ok(c) => {
                    &&& c@.content == content@
                    &&& c@.clip_type == clip_type@
                    &&& c@.file_path is None
                    &&& c@.id.len() == DRAWN_ID_LENGTH
                    &&& !old(self)@.has_id(c@.id)
                    &&& final(self)@ == old(self)@.inserted(c@)
                },
                Err(e) => {
                    &&& e == StoreError::DuplicateId
                    &&& final(self)@ == old(self)@
                    &&& holds_drawn_id(old(self)@.clips)
                },
            },
    {
        let clip = Clip {
            id: fresh_id(),
            content: content.to_owned(),
            clip_type: clip_type.to_owned(),
            created_at: now_seconds(),
            file_path: None,
        };
        self.keep(clip)
    }

    /// Stores a new clip of the kind `file` for the file at `file_path`, under
    /// a fresh id and the present time, and returns it.  The path is the
    /// clip's content too.
    fn add_file_clip(&mut self, file_path: &str) -> (r: Result<Clip, StoreError>)
        requires
            old(self).wf(),
        ensures
            final(self).wf(),
            match r {
                Ok(c) => {
                    &&& c@.content == file_path@
                    &&& c@.clip_type == KIND_FILE@
                    &&& c@.file_path == Some(file_path@)
                    &&& c@.id.len() == DRAWN_ID_LENGTH
                    &&& !old(self)@.has_id(c@.id)
                    &&& final(self)@ == old(self)@.inserted(c@)
                },
                Err(e) => {
                    &&& e == StoreError::DuplicateId
                    &&& final(self)@ == old(self)@
                    &&& holds_drawn_id(old(self)@.clips)
                },
            },
    {
        let clip = Clip {
            id: fresh_id(),
            content: file_path.to_owned(),
            clip_type: KIND_FILE.to_owned(),
            created_at: now_seconds(),
            file_path: Some(file_path.to_owned()),
        };
        self.keep(clip)
    }

    /// Stores `clip` and hands it back.
    fn keep(&mut self, clip: Clip) -> (r: Result<Clip, StoreError>)
        requires
            old(self).wf(),
        ensures
            final(self).wf(),
            match r {
                Ok(c) => c == clip && !old(self)@.has_id(c@.id) && final(self)@ == old(self)@.inserted(
                    c@,
                ),
                Err(e) => e == StoreError::DuplicateId && old(self)@.has_id(clip@.id)
                    && final(self)@ == old(self)@,
            },
    {
        let copy = clip.clone();
        match self.insert_clip(clip) {
            Ok(()) => Ok(copy),
            Err(e) => Err(e),
        }
    }

    fn count_kind(&self, kind: &str) -> (n: usize)
        ensures
            n == self@.count_of(kind@),
    {
        let ghost p = kind_is(kind@);
        let mut n: usize = 0;
        let mut i: usize = 0;
        while i < self.clips.len()
            invariant
                i <= self.clips.len(),
                p == kind_is(kind@),
                n <= i,
                n == self@.clips.take(i as int).filter(p).len(),
            decreases self.clips.len() - i,
        {
            proof {
                let seen = self@.clips.take(i as int);
                let c = self@.clips[i as int];
                assert(c == self.clips[i as int]@);
                assert(self@.clips.take(i + 1) =~= seen.push(c));
                seen.lemma_filter_push(c, p);
            }
            if *self.clips[i].clip_type.as_str() == *kind {
                n += 1;
            }
            i += 1;
        }
        assert(self@.clips.take(self@.clips.len() as int) =~= self@.clips);
        n
    }

    /// The statistics of the store, given the two moments already written
    /// out and the size of the store on disk in bytes, which is reported in
    /// whole kilobytes of 1024 bytes.
    fn statistics_with(&self, oldest_clip: String, newest_clip: String, db_size_bytes: usize) -> (s:
        Statistics)
        ensures
            s.total_clips == self@.clips.len(),
            s.text_clips == self@.count_of(KIND_TEXT@),
            s.file_clips == self@.count_of(KIND_FILE@),
            s.text_clips + s.file_clips <= s.total_clips,
            s.oldest_clip == oldest_clip,
            s.newest_clip == newest_clip,
            s.db_size_kb == db_size_bytes / 1024,
    {
        proof {
            law_kinds_are_apart(self@);
        }
        Statistics {
            total_clips: self.clips.len(),
            text_clips: self.count_kind(KIND_TEXT),
            file_clips: self.count_kind(KIND_FILE),
            oldest_clip,
            newest_clip,
            db_size_kb: db_size_bytes / 1024,
        }
    }

    /// When the oldest and the newest clip were captured; 0 and 0 for an
    /// empty store.
    fn stamps(&self) -> (r: (i64, i64))
        ensures
            r.0 == self@.oldest_stamp(),
            r.1 == self@.newest_stamp(),
            self.wf() ==> r.0 <= r.1,
    {
        let n = self.clips.len();
        if n == 0 {
            (0, 0)
        } else {
            assert(self@.clips[n - 1] == self.clips[n - 1]@);
            assert(self@.clips[0] == self.clips[0]@);
            assert(self.wf() ==> self@.clips[0].created_at >= self@.clips[n - 1].created_at);
            (self.clips[n - 1].created_at, self.clips[0].created_at)
        }
    }

    /// The statistics of the store; `db_size_bytes` is the size of the store
    /// on disk in bytes, which is reported in whole kilobytes of 1024 bytes.  A moment that cannot be written out is replaced by the present
    /// time.
    fn get_statistics(&self, db_size_bytes: usize) -> (s: Statistics)
        ensures
            s.total_clips == self@.clips.len(),
            s.text_clips == self@.count_of(KIND_TEXT@),
            s.file_clips == self@.count_of(KIND_FILE@),
            s.text_clips + s.file_clips <= s.total_clips,
            s.db_size_kb == db_size_bytes / 1024,
            formatted_time(self@.oldest_stamp(), MOMENT_FORMAT@) matches Some(t)
                ==> s.oldest_clip@ == t,
            formatted_time(self@.newest_stamp(), MOMENT_FORMAT@) matches Some(t)
                ==> s.newest_clip@ == t,
    {
        let (oldest, newest) = self.stamps();
        self.statistics_with(moment_text(oldest), moment_text(newest), db_size_bytes)
    }
}

/// The history store.
pub struct Database {
    records: Records,
}

impl View for Database {
    type V = StoreView;

    closed spec fn view(&self) -> StoreView {
        self.records@
    }
}

impl Database {
    /// What holds of every store at all times.
    #[verifier::type_invariant]
    pub closed spec fn inv(self) -> bool {
        self.records.wf()
    }

    /// The view of a store is well formed.
    pub proof fn lemma_view_wf(self)
        requires
            self.inv(),
        ensures
            self@.wf(),
    {
    }

    /// Takes the records out, leaving none behind, to change them and put
    /// them back.
    fn take(&mut self) -> (records: Records)
        ensures
            records == old(self).records,
            records.wf(),
    {
        proof {
            use_type_invariant(&*self);
        }
        let mut records = Records::new();
        std::mem::swap(&mut self.records, &mut records);
        records
    }

    /// An empty store.
    pub fn new() -> (db: Database)
        ensures
            db@.wf(),
            db@ == StoreView::empty(),
    {
        Database { records: Records::new() }
    }

    /// Stores `clip` at its place in the order, unless a clip with the same id
    /// is stored already.
    pub fn insert_clip(&mut self, clip: Clip) -> (r: Result<(), StoreError>)
        ensures
            final(self)@.wf(),
            match r {
                Ok(()) => !old(self)@.has_id(clip@.id) && final(self)@ == old(self)@.inserted(clip@),
                Err(e) => e == StoreError::DuplicateId && old(self)@.has_id(clip@.id) && final(self)@
                    == old(self)@,
            },
    {
        let mut records = self.take();
        let r = records.insert_clip(clip);
        self.records = records;
        r
    }

    /// How many clips are stored.
    pub fn len(&self) -> (n: usize)
        ensures
            self@.wf(),
            n == self@.clips.len(),
    {
        proof {
            use_type_invariant(self);
        }
        self.records.len()
    }

    /// The `limit` newest clips, newest first.
    pub fn get_recent_clips(&self, limit: usize) -> (r: Vec<Clip>)
        ensures
            self@.wf(),
            clip_views(r@) == self@.recent(limit as nat),
    {
        proof {
            use_type_invariant(self);
        }
        self.records.get_recent_clips(limit)
    }

    /// Every stored clip, newest first.
    pub fn get_all_clips(&self) -> (r: Vec<Clip>)
        ensures
            self@.wf(),
            clip_views(r@) == self@.clips,
    {
        proof {
            use_type_invariant(self);
        }
        self.records.get_all_clips()
    }

    /// The clip with the id `id`, if one is stored.
    pub fn get_clip_by_id(&self, id: &str) -> (r: Option<Clip>)
        ensures
            match r {
                Some(c) => self@.clips.contains(c@) && c@.id == id@,
                None => !self@.has_id(id@),
            },
    {
        self.records.get_clip_by_id(id)
    }

    /// The `limit` newest clips whose content holds `query`, newest first.
    /// The match is exact, character by character.
    pub fn search_clips(&self, query: &str, limit: usize) -> (r: Vec<Clip>)
        ensures
            clip_views(r@) == first(self@.matching(query@), limit as nat),
    {
        self.records.search_clips(query, limit)
    }

    /// Cuts the store down to its `max_clips` newest clips.
    pub fn trim_history(&mut self, max_clips: usize)
        ensures
            final(self)@.wf(),
            final(self)@ == old(self)@.trimmed(max_clips as nat),
    {
        let mut records = self.take();
        records.trim_history(max_clips);
        self.records = records;
    }

    /// Removes every clip, and with the clips what was attached to them.  The
    /// tags themselves stay known.
    pub fn clear_history(&mut self)
        ensures
            final(self)@.wf(),
            final(self)@ == old(self)@.cleared(),
    {
        let mut records = self.take();
        records.clear_history();
        self.records = records;
    }

    /// Makes the tag `name` known, attached to nothing yet.
    pub fn create_tag(&mut self, name: &str)
        ensures
            final(self)@.wf(),
            final(self)@ == old(self)@.with_tag(name@),
    {
        let mut records = self.take();
        records.create_tag(name);
        self.records = records;
    }

    /// Attaches the tag `tag_name` to the clip `clip_id`, making the tag known
    /// first.  Doing so twice is the same as doing so once.
    pub fn add_tag_to_clip(&mut self, clip_id: &str, tag_name: &str) -> (r: Result<
        (),
        StoreError,
    >)
        ensures
            final(self)@.wf(),
            match r {
                Ok(()) => old(self)@.has_id(clip_id@) && final(self)@ == old(self)@.tagged(
                    clip_id@,
                    tag_name@,
                ),
                Err(e) => e == StoreError::MissingClip && !old(self)@.has_id(clip_id@)
                    && final(self)@ == old(self)@,
            },
    {
        let mut records = self.take();
        let r = records.add_tag_to_clip(clip_id, tag_name);
        self.records = records;
        r
    }

    /// Detaches the tag `tag_name` from the clip `clip_id`.  Nothing changes
    /// where it was not attached.
    pub fn remove_tag_from_clip(&mut self, clip_id: &str, tag_name: &str)
        ensures
            final(self)@.wf(),
            final(self)@ == old(self)@.untagged(clip_id@, tag_name@),
    {
        let mut records = self.take();
        records.remove_tag_from_clip(clip_id, tag_name);
        self.records = records;
    }

    /// The names of the tags attached to the clip `clip_id`, each once, in no
    /// particular order.  A clip that is not stored has none.
    pub fn get_clip_tags(&self, clip_id: &str) -> (r: Vec<String>)
        ensures
            str_views(r@).to_set() == self@.tags_of(clip_id@),
            str_views(r@).no_duplicates(),
    {
        proof {
            use_type_invariant(self);
        }
        self.records.get_clip_tags(clip_id)
    }

    /// The clips that carry the tag `tag_name`, newest first.
    pub fn get_clips_by_tag(&self, tag_name: &str) -> (r: Vec<Clip>)
        ensures
            clip_views(r@) == self@.tagged_with(tag_name@),
    {
        self.records.get_clips_by_tag(tag_name)
    }

    /// The names of the known tags, each once, in no particular order.
    pub fn tag_names(&self) -> (r: Vec<String>)
        ensures
            str_views(r@).to_set() == self@.tags,
            str_views(r@).no_duplicates(),
    {
        proof {
            use_type_invariant(self);
        }
        self.records.tag_names()
    }

    /// Stores a new clip with the given content and kind, under a fresh id and
    /// the present time, and returns it.
    pub fn add_clip(&mut self, content: &str, clip_type: &str) -> (r: Result<Clip, StoreError>)
        ensures
            final(self)@.wf(),
            match r {
                Ok(c) => {
                    &&& c@.content == content@
                    &&& c@.clip_type == clip_type@
                    &&& c@.file_path is None
                    &&& c@.id.len() == DRAWN_ID_LENGTH
                    &&& !old(self)@.has_id(c@.id)
                    &&& final(self)@ == old(self)@.inserted(c@)
                },
                Err(e) => {
                    &&& e == StoreError::DuplicateId
                    &&& final(self)@ == old(self)@
                    &&& holds_drawn_id(old(self)@.clips)
                },
            },
    {
        let mut records = self.take();
        let r = records.add_clip(content, clip_type);
        self.records = records;
        r
    }

    /// Stores a new clip of the kind `file` for the file at `file_path`, under
    /// a fresh id and the present time, and returns it.  The path is the
    /// clip's content too.
    pub fn add_file_clip(&mut self, file_path: &str) -> (r: Result<Clip, StoreError>)
        ensures
            final(self)@.wf(),
            match r {
                Ok(c) => {
                    &&& c@.content == file_path@
                    &&& c@.clip_type == KIND_FILE@
                    &&& c@.file_path == Some(file_path@)
                    &&& c@.id.len() == DRAWN_ID_LENGTH
                    &&& !old(self)@.has_id(c@.id)
                    &&& final(self)@ == old(self)@.inserted(c@)
                },
                Err(e) => {
                    &&& e == StoreError::DuplicateId
                    &&& final(self)@ == old(self)@
                    &&& holds_drawn_id(old(self)@.clips)
                },
            },
    {
        let mut records = self.take();
        let r = records.add_file_clip(file_path);
        self.records = records;
        r
    }

    /// The statistics of the store, given the two moments already written
    /// out and the size of the store on disk in bytes, which is reported in
    /// whole kilobytes of 1024 bytes.
    pub fn statistics_with(&self, oldest_clip: String, newest_clip: String, db_size_bytes: usize) -> (s:
        Statistics)
        ensures
            s.total_clips == self@.clips.len(),
            s.text_clips == self@.count_of(KIND_TEXT@),
            s.file_clips == self@.count_of(KIND_FILE@),
            s.text_clips + s.file_clips <= s.total_clips,
            s.oldest_clip == oldest_clip,
            s.newest_clip == newest_clip,
            s.db_size_kb == db_size_bytes / 1024,
    {
        self.records.statistics_with(oldest_clip, newest_clip, db_size_bytes)
    }

    /// When the oldest and the newest clip were captured; 0 and 0 for an
    /// empty store.
    pub fn stamps(&self) -> (r: (i64, i64))
        ensures
            r.0 == self@.oldest_stamp(),
            r.1 == self@.newest_stamp(),
            r.0 <= r.1,
    {
        proof {
            use_type_invariant(self);
        }
        self.records.stamps()
    }

    /// The statistics of the store; `db_size_bytes` is the size of the store
    /// on disk in bytes, which is reported in whole kilobytes of 1024 bytes.  A moment that cannot be written out is replaced by the present
    /// time.
    pub fn get_statistics(&self, db_size_bytes: usize) -> (s: Statistics)
        ensures
            s.total_clips == self@.clips.len(),
            s.text_clips == self@.count_of(KIND_TEXT@),
            s.file_clips == self@.count_of(KIND_FILE@),
            s.text_clips + s.file_clips <= s.total_clips,
            s.db_size_kb == db_size_bytes / 1024,
            formatted_time(self@.oldest_stamp(), MOMENT_FORMAT@) matches Some(t)
                ==> s.oldest_clip@ == t,
            formatted_time(self@.newest_stamp(), MOMENT_FORMAT@) matches Some(t)
                ==> s.newest_clip@ == t,
    {
        self.records.get_statistics(db_size_bytes)
    }
}

} // verus!
