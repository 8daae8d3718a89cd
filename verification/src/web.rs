//! Clips as the web front end shows them: with the time of capture written
//! out and the tags listed.  Serving them is left to the caller.

use vstd::prelude::*;
use crate::database::{clip_views, first, moment_text, Clip, ClipView, Database, MOMENT_FORMAT};
use crate::text::{opt_view, str_views};
use crate::trusted::formatted_time;

verus! {

/// How many clips the front end lists.
pub const PAGE_SIZE: usize = 50;

/// How many clips a search gives where no limit is asked for.
pub const DEFAULT_SEARCH_LIMIT: usize = 20;

/// A clip as the web front end shows it.
#[derive(Debug)]
pub struct WebClip {
    pub id: String,
    pub content: String,
    pub clip_type: String,
    pub created_at: String,
    pub file_path: Option<String>,
    pub tags: Vec<String>,
}

impl WebClip {
    /// `self` shows the clip `c`: the same id, content, kind and file, and
    /// the time of capture written as `YYYY-MM-DD hh:mm:ss` where it can be
    /// written so.
    pub open spec fn shows(self, c: ClipView) -> bool {
        &&& self.id@ == c.id
        &&& self.content@ == c.content
        &&& self.clip_type@ == c.clip_type
        &&& opt_view(self.file_path) == c.file_path
        &&& formatted_time(c.created_at, MOMENT_FORMAT@) matches Some(t) ==> self.created_at@ == t
    }

    /// The clip `clip` as the web front end shows it, without tags yet.
    pub fn from(clip: Clip) -> (w: WebClip)
        ensures
            w.shows(clip@),
            w.tags@.len() == 0,
    {
        WebClip {
            created_at: moment_text(clip.created_at),
            id: clip.id,
            content: clip.content,
            clip_type: clip.clip_type,
            file_path: clip.file_path,
            tags: Vec::new(),
        }
    }
}

/// `page` shows the clips `clips` of the store `db`, one for one and in
/// order, each with the tags that are attached to it.
pub open spec fn page_of(db: Database, clips: Seq<ClipView>, page: Seq<WebClip>) -> bool {
    &&& page.len() == clips.len()
    &&& forall|i: int|
        0 <= i < page.len() ==> {
            &&& (#[trigger] page[i]).shows(clips[i])
            &&& str_views(page[i].tags@).to_set() == db@.tags_of(clips[i].id)
            &&& str_views(page[i].tags@).no_duplicates()
        }
}

/// `clips` as the web front end shows them, each with its tags from `db`.
pub fn present(db: &Database, clips: Vec<Clip>) -> (page: Vec<WebClip>)
    ensures
        page_of(*db, clip_views(clips@), page@),
{
    let ghost all = clip_views(clips@);
    let mut page: Vec<WebClip> = Vec::new();
    let mut i: usize = 0;
    while i < clips.len()
        invariant
            i <= clips.len(),
            all == clip_views(clips@),
            page_of(*db, all.take(i as int), page@),
        decreases clips.len() - i,
    {
        let ghost before = page@;
        let tags = db.get_clip_tags(clips[i].id.as_str());
        let mut shown = WebClip::from(clips[i].clone());
        shown.tags = tags;
        page.push(shown);
        proof {
            assert(all[i as int] == clips[i as int]@);
            assert forall|j: int| 0 <= j < page@.len() implies {
                &&& (#[trigger] page@[j]).shows(all.take(i + 1)[j])
                &&& str_views(page@[j].tags@).to_set() == db@.tags_of(all.take(i + 1)[j].id)
                &&& str_views(page@[j].tags@).no_duplicates()
            } by {
                if j < i {
                    assert(page@[j] == before[j]);
                    assert(all.take(i as int)[j] == all.take(i + 1)[j]);
                }
            }
        }
        i += 1;
    }
    assert(all.take(clips@.len() as int) =~= all);
    page
}

/// The newest clips of `db` as the front end lists them.
pub fn get_clips(db: &Database) -> (page: Vec<WebClip>)
    ensures
        page_of(*db, db@.recent(PAGE_SIZE as nat), page@),
{
    present(db, db.get_recent_clips(PAGE_SIZE))
}

/// The newest clips of `db` whose content holds `query`, as the front end
/// lists them: `limit` of them at most, or 20 where no limit is given.
pub fn search_clips(db: &Database, query: &str, limit: Option<usize>) -> (page: Vec<WebClip>)
    ensures
        page_of(
            *db,
            first(
                db@.matching(query@),
                match limit {
                    Some(n) => n as nat,
                    None => DEFAULT_SEARCH_LIMIT as nat,
                },
            ),
            page@,
        ),
{
    let limit = match limit {
        Some(n) => n,
        None => DEFAULT_SEARCH_LIMIT,
    };
    present(db, db.search_clips(query, limit))
}

} // verus!
