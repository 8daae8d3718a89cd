//! The monitor loop: it is shown what the clipboard holds, once per poll, and
//! decides whether that is new content to keep in the history store.

use vstd::prelude::*;
use crate::config::Config;
use crate::database::{
    holds_drawn_id, Clip, ClipView, Database, StoreError, StoreView, KIND_TEXT,
};
use crate::plugins::{job_views, jobs_for, Job, JobView, PluginManager, PluginTrigger, PluginView};
use crate::text::{blank, is_blank, opt_view};
use crate::trusted::{fresh_id, now_seconds};

verus! {

/// The pause between two polls of the clipboard, in milliseconds.
pub const POLL_INTERVAL_MS: u64 = 500;

/// How one poll ended.
#[derive(Debug)]
pub enum Tick {
    /// Nothing to keep: the clipboard held no text, the text seen last, or
    /// only white space.
    Idle,
    /// New content was stored as this clip, and the store trimmed.
    Stored(Clip),
    /// New content was seen but the store refused it.
    Failed(StoreError),
}

/// A [`Tick`] as a mathematical value.
pub enum TickView {
    Idle,
    Stored(ClipView),
    Failed(StoreError),
}

impl View for Tick {
    type V = TickView;

    open spec fn view(&self) -> TickView {
        match self {
            Tick::Idle => TickView::Idle,
            Tick::Stored(c) => TickView::Stored(c@),
            Tick::Failed(e) => TickView::Failed(*e),
        }
    }
}

/// What the loop knows between two polls: the content it saw last and the
/// store it fills.
pub struct LoopView {
    pub last_seen: Option<Seq<char>>,
    pub store: StoreView,
}

/// A reading is new content when the clipboard holds text that differs from
/// the content seen last and is not blank.  The comparison is exact.
pub open spec fn is_news(last_seen: Option<Seq<char>>, reading: Option<Seq<char>>) -> bool {
    reading matches Some(content) && last_seen != Some(content) && !is_blank(content)
}

/// What the loop remembers after it was shown `reading`.
pub open spec fn seen_after(last_seen: Option<Seq<char>>, reading: Option<Seq<char>>) -> Option<
    Seq<char>,
> {
    if is_news(last_seen, reading) {
        reading
    } else {
        last_seen
    }
}

/// What a poll may answer when the loop in state `s` is shown `reading`: it
/// idles exactly when the reading is no news; otherwise it stores a text clip
/// with that content under an id the store does not hold yet, or reports
/// that the store refused.  The store refuses only an id that is taken, and
/// the ids drawn are all of one length: a store that holds no id of that
/// length refuses nothing.
pub open spec fn tick_allowed(s: LoopView, reading: Option<Seq<char>>, t: TickView) -> bool {
    match t {
        TickView::Idle => !is_news(s.last_seen, reading),
        TickView::Stored(c) => {
            &&& is_news(s.last_seen, reading)
            &&& c.content == reading->0
            &&& c.clip_type == KIND_TEXT@
            &&& c.file_path is None
            &&& !s.store.has_id(c.id)
        },
        TickView::Failed(e) => {
            &&& is_news(s.last_seen, reading)
            &&& e == StoreError::DuplicateId
            &&& holds_drawn_id(s.store.clips)
        },
    }
}

/// The state after a poll that was shown `reading` and answered `t`, under
/// the bound `max` on the number of clips.
pub open spec fn after_tick(s: LoopView, max: nat, reading: Option<Seq<char>>, t: TickView) -> LoopView {
    LoopView {
        last_seen: seen_after(s.last_seen, reading),
        store: match t {
            TickView::Stored(c) => s.store.inserted(c).trimmed(max),
            _ => s.store,
        },
    }
}

/// What the trigger hub `hub` is to run after a poll that answered `t`: for a
/// stored clip the jobs of the handlers that wait for a clip to be added,
/// each with the clip's content as its input, and else nothing.
pub open spec fn fired(hub: Seq<PluginView>, t: TickView) -> Seq<JobView> {
    match t {
        TickView::Stored(c) => jobs_for(hub, PluginTrigger::OnClipAdd, c.content),
        _ => Seq::empty(),
    }
}

/// Every poll of a run answered as [`tick_allowed`] says, each from the state
/// the polls before it left.
pub open spec fn run_allowed(
    s: LoopView,
    max: nat,
    readings: Seq<Option<Seq<char>>>,
    ticks: Seq<TickView>,
) -> bool
    decreases readings.len(),
{
    &&& readings.len() == ticks.len()
    &&& readings.len() > 0 ==> {
        &&& tick_allowed(s, readings[0], ticks[0])
        &&& run_allowed(
            after_tick(s, max, readings[0], ticks[0]),
            max,
            readings.drop_first(),
            ticks.drop_first(),
        )
    }
}

/// The state after a run of polls.
pub open spec fn after_run(
    s: LoopView,
    max: nat,
    readings: Seq<Option<Seq<char>>>,
    ticks: Seq<TickView>,
) -> LoopView
    decreases readings.len(),
{
    if readings.len() == 0 || ticks.len() == 0 {
        s
    } else {
        after_run(
            after_tick(s, max, readings[0], ticks[0]),
            max,
            readings.drop_first(),
            ticks.drop_first(),
        )
    }
}

/// The views of a sequence of readings.
pub open spec fn reading_views(s: Seq<Option<String>>) -> Seq<Option<Seq<char>>> {
    s.map_values(|r: Option<String>| opt_view(r))
}

/// The views of a sequence of polls.
pub open spec fn tick_views(s: Seq<Tick>) -> Seq<TickView> {
    s.map_values(|t: Tick| t@)
}

/// The monitor: its settings, the bound on the history, and the content it
/// saw last.
pub struct Daemon {
    config: Config,
    max_clips: usize,
    last_content: Option<String>,
}

impl Daemon {
    /// The content the monitor saw last.
    pub closed spec fn last_seen(&self) -> Option<Seq<char>> {
        opt_view(self.last_content)
    }

    /// How many clips the history may hold.
    pub closed spec fn bound(&self) -> nat {
        self.max_clips as nat
    }

    /// The settings the monitor was made with.
    pub closed spec fn settings(&self) -> Config {
        self.config
    }

    /// The state of the loop and of `db` together.
    pub open spec fn state(&self, db: &Database) -> LoopView {
        LoopView { last_seen: self.last_seen(), store: db@ }
    }

    /// A monitor that has seen nothing yet.
    pub fn new(config: Config, max_clips: usize) -> (d: Daemon)
        ensures
            d.last_seen() is None,
            d.bound() == max_clips,
            d.settings() == config,
    {
        Daemon { config, max_clips, last_content: None }
    }

    /// How many clips the history may hold.
    pub fn max_clips(&self) -> (n: usize)
        ensures
            n == self.bound(),
    {
        self.max_clips
    }

    /// The settings the monitor was made with.
    pub fn config(&self) -> (c: &Config)
        ensures
            *c == self.settings(),
    {
        &self.config
    }

    /// Shows the monitor what the clipboard holds.  Returns the content where
    /// it is news, and remembers it; otherwise nothing changes.
    pub fn notice(&mut self, reading: Option<String>) -> (news: Option<String>)
        ensures
            final(self).bound() == old(self).bound(),
            final(self).settings() == old(self).settings(),
            final(self).last_seen() == seen_after(old(self).last_seen(), opt_view(reading)),
            match news {
                Some(content) => is_news(old(self).last_seen(), opt_view(reading)) && Some(content)
                    == reading,
                None => !is_news(old(self).last_seen(), opt_view(reading)),
            },
    {
        match reading {
            None => None,
            Some(content) => {
                let same = match &self.last_content {
                    Some(last) => *last == content,
                    None => false,
                };
                if !same && !blank(content.as_str()) {
                    self.last_content = Some(content.clone());
                    Some(content)
                } else {
                    None
                }
            },
        }
    }

    /// Stores `clip` and trims the store to the bound.  Where the store
    /// refuses the clip, nothing is trimmed.
    pub fn store(&self, db: &mut Database, clip: Clip) -> (t: Tick)
        ensures
            final(db)@.wf(),
            match t {
                Tick::Stored(c) => c == clip && !old(db)@.has_id(clip@.id) && final(db)@ == old(
                    db,
                )@.inserted(clip@).trimmed(self.bound()),
                Tick::Failed(e) => e == StoreError::DuplicateId && old(db)@.has_id(clip@.id)
                    && final(db)@ == old(db)@,
                Tick::Idle => false,
            },
    {
        let copy = clip.clone();
        match db.insert_clip(clip) {
            Ok(()) => {
                db.trim_history(self.max_clips);
                Tick::Stored(copy)
            },
            Err(e) => Tick::Failed(e),
        }
    }

    /// What the trigger hub `hub` is to run now that `clip` was stored: the
    /// jobs of the handlers that wait for a clip to be added, each with the
    /// clip's content as its input.
    pub fn on_stored(&self, hub: &PluginManager, clip: &Clip) -> (jobs: Vec<Job>)
        ensures
            job_views(jobs@) == jobs_for(hub@, PluginTrigger::OnClipAdd, clip@.content),
    {
        hub.trigger_plugins(&PluginTrigger::OnClipAdd, clip)
    }

    /// One poll with the trigger hub at hand: shows the monitor what the
    /// clipboard holds.  News is stored as a text clip under a fresh id and
    /// the present time; the jobs of the hub for the new clip are made out;
    /// the store is then trimmed to the bound.  A poll that stores nothing
    /// makes out no job.  Running the jobs is left to the caller, and what
    /// becomes of them touches neither the store nor the monitor.
    pub fn poll(&mut self, db: &mut Database, hub: &PluginManager, reading: Option<String>) -> (r: (
        Tick,
        Vec<Job>,
    ))
        ensures
            final(db)@.wf(),
            final(self).bound() == old(self).bound(),
            final(self).settings() == old(self).settings(),
            tick_allowed(old(self).state(old(db)), opt_view(reading), r.0@),
            final(self).state(final(db)) == after_tick(
                old(self).state(old(db)),
                old(self).bound(),
                opt_view(reading),
                r.0@,
            ),
            job_views(r.1@) == fired(hub@, r.0@),
    {
        proof {
            use_type_invariant(&*db);
            db.lemma_view_wf();
        }
        match self.notice(reading) {
            None => {
                let none: Vec<Job> = Vec::new();
                assert(job_views(none@) =~= Seq::<JobView>::empty());
                (Tick::Idle, none)
            },
            Some(content) => {
                let clip = Clip {
                    id: fresh_id(),
                    content,
                    clip_type: KIND_TEXT.to_owned(),
                    created_at: now_seconds(),
                    file_path: None,
                };
                let copy = clip.clone();
                match db.insert_clip(clip) {
                    Ok(()) => {
                        let jobs = self.on_stored(hub, &copy);
                        db.trim_history(self.max_clips);
                        (Tick::Stored(copy), jobs)
                    },
                    Err(e) => {
                        let none: Vec<Job> = Vec::new();
                        assert(job_views(none@) =~= Seq::<JobView>::empty());
                        (Tick::Failed(e), none)
                    },
                }
            },
        }
    }

    /// One poll: shows the monitor what the clipboard holds.  News is stored
    /// as a text clip under a fresh id and the present time, and the store is
    /// then trimmed to the bound.
    pub fn tick(&mut self, db: &mut Database, reading: Option<String>) -> (t: Tick)
        ensures
            final(db)@.wf(),
            final(self).bound() == old(self).bound(),
            final(self).settings() == old(self).settings(),
            tick_allowed(old(self).state(old(db)), opt_view(reading), t@),
            final(self).state(final(db)) == after_tick(
                old(self).state(old(db)),
                old(self).bound(),
                opt_view(reading),
                t@,
            ),
    {
        let hub = PluginManager::new();
        let (t, _) = self.poll(db, &hub, reading);
        t
    }

    /// Runs the loop over a sequence of readings with the trigger hub at
    /// hand, one poll each, and returns how each poll ended and, poll by
    /// poll, the jobs that the hub is to run for it.
    pub fn run(&mut self, db: &mut Database, hub: &PluginManager, readings: &Vec<Option<String>>) -> (r:
        (Vec<Tick>, Vec<Vec<Job>>))
        ensures
            final(db)@.wf(),
            final(self).bound() == old(self).bound(),
            final(self).settings() == old(self).settings(),
            run_allowed(
                old(self).state(old(db)),
                old(self).bound(),
                reading_views(readings@),
                tick_views(r.0@),
            ),
            final(self).state(final(db)) == after_run(
                old(self).state(old(db)),
                old(self).bound(),
                reading_views(readings@),
                tick_views(r.0@),
            ),
            r.1@.len() == r.0@.len(),
            forall|i: int|
                0 <= i < r.1@.len() ==> job_views((#[trigger] r.1@[i])@) == fired(hub@, r.0@[i]@),
    {
        proof {
            use_type_invariant(&*db);
            db.lemma_view_wf();
        }
        let ghost start = self.state(db);
        let ghost max = self.bound();
        let ghost all = reading_views(readings@);
        let mut ticks: Vec<Tick> = Vec::new();
        let mut fires: Vec<Vec<Job>> = Vec::new();
        let mut i: usize = 0;
        let n = readings.len();
        while i < n
            invariant
                db@.wf(),
                i <= n,
                n == readings.len(),
                all == reading_views(readings@),
                ticks.len() == i,
                fires.len() == i,
                forall|k: int|
                    0 <= k < i ==> job_views((#[trigger] fires@[k])@) == fired(hub@, ticks@[k]@),
                self.bound() == max,
                self.settings() == old(self).settings(),
                run_allowed(start, max, all.take(i as int), tick_views(ticks@)),
                self.state(db) == after_run(start, max, all.take(i as int), tick_views(ticks@)),
            decreases n - i,
        {
            let ghost before = tick_views(ticks@);
            let reading = match &readings[i] {
                Some(content) => Some(content.clone()),
                None => None,
            };
            let (t, jobs) = self.poll(db, hub, reading);
            ticks.push(t);
            fires.push(jobs);
            proof {
                assert(tick_views(ticks@) =~= before.push(t@));
                assert(all.take(i + 1) =~= all.take(i as int).push(all[i as int]));
                lemma_run_push(start, max, all.take(i as int), before, all[i as int], t@);
            }
            i += 1;
        }
        assert(all.take(n as int) =~= all);
        (ticks, fires)
    }
}

/// A run with one more poll at its end is allowed exactly when the run is
/// and the last poll is allowed in the state the run leaves; the poll then
/// acts on that state.
pub proof fn lemma_run_push(
    s: LoopView,
    max: nat,
    readings: Seq<Option<Seq<char>>>,
    ticks: Seq<TickView>,
    reading: Option<Seq<char>>,
    t: TickView,
)
    requires
        readings.len() == ticks.len(),
    ensures
        run_allowed(s, max, readings.push(reading), ticks.push(t)) <==> (run_allowed(
            s,
            max,
            readings,
            ticks,
        ) && tick_allowed(after_run(s, max, readings, ticks), reading, t)),
        after_run(s, max, readings.push(reading), ticks.push(t)) == after_tick(
            after_run(s, max, readings, ticks),
            max,
            reading,
            t,
        ),
    decreases readings.len(),
{
    let rs = readings.push(reading);
    let ts = ticks.push(t);
    if readings.len() == 0 {
        assert(rs.drop_first() =~= Seq::<Option<Seq<char>>>::empty());
        assert(ts.drop_first() =~= Seq::<TickView>::empty());
        let s1 = after_tick(s, max, reading, t);
        assert(run_allowed(s1, max, rs.drop_first(), ts.drop_first()));
        assert(after_run(s1, max, rs.drop_first(), ts.drop_first()) == s1);
    } else {
        let s1 = after_tick(s, max, readings[0], ticks[0]);
        assert(rs.drop_first() =~= readings.drop_first().push(reading));
        assert(ts.drop_first() =~= ticks.drop_first().push(t));
        lemma_run_push(s1, max, readings.drop_first(), ticks.drop_first(), reading, t);
    }
}

} // verus!
