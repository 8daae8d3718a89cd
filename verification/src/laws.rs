//! What holds of the store and of the monitor loop whatever they are given,
//! stated over their mathematical views and proved.

use vstd::multiset::Multiset;
use vstd::prelude::*;
use crate::daemon::{
    after_run, after_tick, is_news, lemma_run_push, run_allowed, tick_allowed, LoopView, TickView,
};
use crate::database::{
    first, holds_id, kind_is, newer_than, slot, ClipView, StoreView, KIND_FILE, KIND_TEXT,
};
use crate::picker::{leading_number, listing_line, picked};
use crate::text::{
    all_digits, decimal, digit_char, digits_value, is_blank, is_digit, lemma_run_len,
    lemma_run_len_splits, parse_number, without_sign,
};
use crate::transfer::{escape, imported_as, insert_all, unescape};

verus! {

/// The contents of `clips`, in order.
pub open spec fn contents(clips: Seq<ClipView>) -> Seq<Seq<char>> {
    clips.map_values(|c: ClipView| c.content)
}

/// The clips that the polls `ticks` stored, one for each poll (arbitrary for
/// a poll that stored nothing).
pub open spec fn stored(ticks: Seq<TickView>) -> Seq<ClipView> {
    ticks.map_values(|t: TickView| t->Stored_0)
}

/// The texts of `readings`, one for each (arbitrary where the clipboard held
/// no text).
pub open spec fn texts(readings: Seq<Option<Seq<char>>>) -> Seq<Seq<char>> {
    readings.map_values(|r: Option<Seq<char>>| r->0)
}

/// The loop before its first poll, on an empty store.
pub open spec fn fresh_loop() -> LoopView {
    LoopView { last_seen: None, store: StoreView::empty() }
}

/// Adding a clip under an id that the store does not hold keeps the store
/// well formed whatever the clip's time of capture: the store holds one clip
/// more, the new one at its place in the order, the others as they stood.
pub proof fn law_insert_keeps_order(v: StoreView, c: ClipView)
    requires
        v.wf(),
        !v.has_id(c.id),
    ensures
        v.inserted(c).wf(),
        v.inserted(c).clips.len() == v.clips.len() + 1,
        v.inserted(c).clips[slot(v.clips, c.created_at) as int] == c,
        v.inserted(c).has_id(c.id),
        forall|id: Seq<char>| v.has_id(id) ==> v.inserted(c).has_id(id),
        v.inserted(c).tags == v.tags,
        v.inserted(c).links == v.links,
{
    let k = slot(v.clips, c.created_at) as int;
    lemma_run_len_splits(v.clips, newer_than(c.created_at));
    let w = v.inserted(c);
    assert forall|i: int, j: int| 0 <= i < j < w.clips.len() implies (#[trigger] w.clips[i]).created_at
        >= (#[trigger] w.clips[j]).created_at && w.clips[i].id != w.clips[j].id by {
        let bi = if i < k { i } else { i - 1 };
        let bj = if j < k { j } else { j - 1 };
        if i != k {
            assert(w.clips[i] == v.clips[bi]);
        }
        if j != k {
            assert(w.clips[j] == v.clips[bj]);
        }
        if i == k {
            assert(!newer_than(c.created_at)(v.clips[k]));
        }
        if j == k {
            assert(newer_than(c.created_at)(v.clips[i]));
        }
    }
    assert forall|id: Seq<char>| v.has_id(id) implies w.has_id(id) by {
        let i = choose|i: int| 0 <= i < v.clips.len() && (#[trigger] v.clips[i]).id == id;
        let wi = if i < k { i } else { i + 1 };
        assert(w.clips[wi] == v.clips[i]);
    }
    assert(w.clips[k] == c);
}

/// Trimming a store that holds more than `max` clips leaves exactly `max`:
/// the clips that stood first.  No clip that leaves was captured after one
/// that stays, whatever the order in which the clips were added.
pub proof fn law_trim_keeps_newest(v: StoreView, max: nat)
    requires
        v.wf(),
        v.clips.len() > max,
    ensures
        v.trimmed(max).wf(),
        v.trimmed(max).clips.len() == max,
        v.trimmed(max).clips == v.clips.take(max as int),
        forall|i: int, j: int|
            0 <= i < max <= j < v.clips.len() ==> (#[trigger] v.trimmed(max).clips[i]).created_at >= (
            #[trigger] v.clips[j]).created_at,
{
    let w = v.trimmed(max);
    assert forall|i: int, j: int| 0 <= i < max <= j < v.clips.len() implies (
    #[trigger] w.clips[i]).created_at >= (#[trigger] v.clips[j]).created_at by {
        assert(w.clips[i] == v.clips[i]);
    }
    lemma_trim_wf(v, max);
}

/// Trimming keeps a store well formed; a store within the bound keeps all
/// its clips and attachments.
pub proof fn lemma_trim_wf(v: StoreView, max: nat)
    requires
        v.wf(),
    ensures
        v.trimmed(max).wf(),
        v.trimmed(max).clips.len() <= max,
        v.clips.len() <= max ==> v.trimmed(max) == v,
{
    let w = v.trimmed(max);
    assert forall|i: int, j: int| 0 <= i < j < w.clips.len() implies (#[trigger] w.clips[i]).created_at
        >= (#[trigger] w.clips[j]).created_at && w.clips[i].id != w.clips[j].id by {
        assert(w.clips[i] == v.clips[i]);
        assert(w.clips[j] == v.clips[j]);
    }
    if v.clips.len() <= max {
        assert(w.links =~= v.links);
    }
}

/// A clip that a trim removes has no tag afterwards.
pub proof fn law_trim_detaches(v: StoreView, max: nat, id: Seq<char>)
    requires
        v.wf(),
        !holds_id(first(v.clips, max), id),
    ensures
        v.trimmed(max).tags_of(id) == Set::<Seq<char>>::empty(),
{
    assert(v.trimmed(max).tags_of(id) =~= Set::<Seq<char>>::empty());
}

/// Attaching a tag to a clip that does not carry it and detaching it again
/// leaves the clip with the tags it had.
pub proof fn law_tag_then_untag(v: StoreView, id: Seq<char>, name: Seq<char>)
    requires
        !v.tags_of(id).contains(name),
    ensures
        v.tagged(id, name).untagged(id, name).tags_of(id) == v.tags_of(id),
        v.tagged(id, name).untagged(id, name).links == v.links,
        v.tagged(id, name).untagged(id, name).clips == v.clips,
{
    let w = v.tagged(id, name).untagged(id, name);
    assert(w.links =~= v.links);
    assert(w.tags_of(id) =~= v.tags_of(id));
}

/// Attaching a tag twice is the same as attaching it once, and then the clip
/// carries it where the clip is stored.
pub proof fn law_tag_twice(v: StoreView, id: Seq<char>, name: Seq<char>)
    ensures
        v.tagged(id, name).tagged(id, name) == v.tagged(id, name),
        v.has_id(id) ==> v.tagged(id, name).tags_of(id) == v.tags_of(id).insert(name),
        v.wf() ==> v.tagged(id, name).wf(),
{
    let w = v.tagged(id, name);
    assert(w.has_id(id) == v.has_id(id));
    if v.has_id(id) {
        assert(w.tags.insert(name) =~= w.tags);
        assert(w.links.insert((id, name)) =~= w.links);
        assert(w.tags_of(id) =~= v.tags_of(id).insert(name));
    }
}

/// Detaching a tag keeps the store well formed and touches no other
/// attachment.
pub proof fn law_untag_is_local(v: StoreView, id: Seq<char>, name: Seq<char>)
    requires
        v.wf(),
    ensures
        v.untagged(id, name).wf(),
        v.untagged(id, name).tags_of(id) == v.tags_of(id).remove(name),
        forall|other: Seq<char>| other != id ==> v.untagged(id, name).tags_of(other) == v.tags_of(other),
{
    let w = v.untagged(id, name);
    assert(w.tags_of(id) =~= v.tags_of(id).remove(name));
    assert forall|other: Seq<char>| other != id implies w.tags_of(other) == v.tags_of(other) by {
        assert(w.tags_of(other) =~= v.tags_of(other));
    }
}

/// Clearing the store removes every clip and with it every attachment: no id
/// has a tag afterwards.  The known tags stay known.
pub proof fn law_clear_detaches(v: StoreView, id: Seq<char>)
    ensures
        v.cleared().wf(),
        v.cleared().clips.len() == 0,
        !v.cleared().has_id(id),
        v.cleared().tags_of(id) == Set::<Seq<char>>::empty(),
        v.cleared().tags == v.tags,
{
    assert(v.cleared().tags_of(id) =~= Set::<Seq<char>>::empty());
}

/// In a well-formed store no attachment names a clip that is not stored or a
/// tag that is not known.
pub proof fn law_no_dangling_tag(v: StoreView, id: Seq<char>)
    requires
        v.wf(),
        !v.has_id(id),
    ensures
        v.tags_of(id) == Set::<Seq<char>>::empty(),
        forall|other: Seq<char>, name: Seq<char>| #[trigger]
            v.tags_of(other).contains(name) ==> v.has_id(other) && v.tags.contains(name),
{
    assert forall|other: Seq<char>, name: Seq<char>| #[trigger]
        v.tags_of(other).contains(name) implies v.has_id(other) && v.tags.contains(name) by {
        assert(v.links.contains((other, name)));
    }
    assert(v.tags_of(id) =~= Set::<Seq<char>>::empty());
}

/// Of two kinds of items that no item is of both, a sequence holds no more
/// together than it holds items.
pub proof fn lemma_apart_filters<A>(s: Seq<A>, p: spec_fn(A) -> bool, q: spec_fn(A) -> bool)
    requires
        forall|a: A| #[trigger] p(a) ==> !q(a),
    ensures
        s.filter(p).len() + s.filter(q).len() <= s.len(),
    decreases s.len(),
{
    if s.len() == 0 {
        s.lemma_filter_len(p);
        s.lemma_filter_len(q);
    } else {
        let head = s.drop_last();
        lemma_apart_filters(head, p, q);
        head.lemma_filter_push(s.last(), p);
        head.lemma_filter_push(s.last(), q);
        assert(s =~= head.push(s.last()));
    }
}

/// A clip is a text or a file or neither, never both: the text clips and
/// the file clips of a store are together no more than its clips.
pub proof fn law_kinds_are_apart(v: StoreView)
    ensures
        v.count_of(KIND_TEXT@) + v.count_of(KIND_FILE@) <= v.clips.len(),
{
    reveal_strlit("text");
    reveal_strlit("file");
    assert(KIND_TEXT@ != KIND_FILE@) by {
        assert(KIND_TEXT@[0] == 't');
        assert(KIND_FILE@[0] == 'f');
    }
    lemma_apart_filters(v.clips, kind_is(KIND_TEXT@), kind_is(KIND_FILE@));
}

/// In a well-formed store no clip was captured before the oldest stamp or
/// after the newest.
pub proof fn law_stamps_bound(v: StoreView, i: int)
    requires
        v.wf(),
        0 <= i < v.clips.len(),
    ensures
        v.oldest_stamp() <= v.clips[i].created_at <= v.newest_stamp(),
{
    let n = v.clips.len() as int;
    if i > 0 {
        assert(v.clips[0].created_at >= v.clips[i].created_at);
    }
    if i < n - 1 {
        assert(v.clips[i].created_at >= v.clips[n - 1].created_at);
    }
}

/// A poll never leaves more clips in the store than the bound allows, once
/// it has stored one; and it keeps the store well formed.
pub proof fn law_tick_keeps_bound(s: LoopView, max: nat, reading: Option<Seq<char>>, t: TickView)
    requires
        s.store.wf(),
        tick_allowed(s, reading, t),
    ensures
        after_tick(s, max, reading, t).store.wf(),
        t is Stored ==> after_tick(s, max, reading, t).store.clips.len() <= max,
        !(t is Stored) ==> after_tick(s, max, reading, t).store == s.store,
{
    if t is Stored {
        law_insert_keeps_order(s.store, t->Stored_0);
        lemma_trim_wf(s.store.inserted(t->Stored_0), max);
    }
}

/// Through a whole run the store stays well formed and within the bound, if
/// it was so before.
pub proof fn law_run_keeps_bound(
    s: LoopView,
    max: nat,
    readings: Seq<Option<Seq<char>>>,
    ticks: Seq<TickView>,
)
    requires
        s.store.wf(),
        s.store.clips.len() <= max,
        run_allowed(s, max, readings, ticks),
    ensures
        after_run(s, max, readings, ticks).store.wf(),
        after_run(s, max, readings, ticks).store.clips.len() <= max,
    decreases readings.len(),
{
    if readings.len() > 0 {
        law_tick_keeps_bound(s, max, readings[0], ticks[0]);
        law_run_keeps_bound(
            after_tick(s, max, readings[0], ticks[0]),
            max,
            readings.drop_first(),
            ticks.drop_first(),
        );
    }
}

/// Shown a sequence of texts, none blank and none equal to the one shown
/// just before it, the loop that starts on an empty store ends with exactly
/// these texts in the store, each once, the one shown last in front.
///
/// This is so where the store refuses no clip, the clock never runs
/// backwards between two polls, and the bound is not smaller than the number
/// of texts.
pub proof fn law_run_records_newest_first(
    max: nat,
    readings: Seq<Option<Seq<char>>>,
    ticks: Seq<TickView>,
)
    requires
        run_allowed(fresh_loop(), max, readings, ticks),
        forall|i: int| 0 <= i < readings.len() ==> (#[trigger] readings[i]) is Some && !is_blank(
            readings[i]->0,
        ),
        forall|i: int| 0 < i < readings.len() ==> #[trigger] readings[i] != readings[i - 1],
        forall|i: int| 0 <= i < ticks.len() ==> !((#[trigger] ticks[i]) is Failed),
        forall|i: int, j: int|
            0 <= i < j < ticks.len() ==> (#[trigger] ticks[i])->Stored_0.created_at <= (
            #[trigger] ticks[j])->Stored_0.created_at,
        readings.len() <= max,
    ensures
        contents(after_run(fresh_loop(), max, readings, ticks).store.clips) == texts(
            readings,
        ).reverse(),
        after_run(fresh_loop(), max, readings, ticks).store.clips == stored(ticks).reverse(),
        after_run(fresh_loop(), max, readings, ticks).store.recent(readings.len()) == after_run(
            fresh_loop(),
            max,
            readings,
            ticks,
        ).store.clips,
        forall|i: int| 0 <= i < ticks.len() ==> (#[trigger] ticks[i]) is Stored,
    decreases readings.len(),
{
    let n = readings.len() as int;
    let end = after_run(fresh_loop(), max, readings, ticks);
    if n == 0 {
        assert(end.store.clips =~= stored(ticks).reverse());
        assert(contents(end.store.clips) =~= texts(readings).reverse());
    } else {
        let rs = readings.drop_last();
        let ts = ticks.drop_last();
        let r = readings.last();
        let t = ticks.last();
        assert(readings =~= rs.push(r));
        assert(ticks =~= ts.push(t));
        lemma_run_push(fresh_loop(), max, rs, ts, r, t);
        let mid = after_run(fresh_loop(), max, rs, ts);
        assert forall|i: int| 0 < i < rs.len() implies #[trigger] rs[i] != rs[i - 1] by {
            assert(readings[i] != readings[i - 1]);
        }
        assert forall|i: int, j: int| 0 <= i < j < ts.len() implies (#[trigger] ts[i])->Stored_0.created_at
            <= (#[trigger] ts[j])->Stored_0.created_at by {
            assert(ts[i] == ticks[i] && ts[j] == ticks[j]);
        }
        law_run_records_newest_first(max, rs, ts);
        lemma_last_seen(max, rs, ts);
        assert(mid.last_seen == if n == 1 {
            None
        } else {
            rs[n - 2]
        });
        assert(readings[n - 1] != readings[n - 2] || n == 1);
        assert(is_news(mid.last_seen, r));
        assert(t is Stored);
        let c = t->Stored_0;
        assert(slot(mid.store.clips, c.created_at) == 0) by {
            if mid.store.clips.len() > 0 {
                assert(mid.store.clips[0] == stored(ts)[n - 2]);
                assert(ts[n - 2] == ticks[n - 2]);
                assert(ticks[n - 2]->Stored_0.created_at <= ticks[n - 1]->Stored_0.created_at);
                assert(!newer_than(c.created_at)(mid.store.clips[0]));
            }
        }
        let grown = mid.store.inserted(c);
        assert(grown.clips =~= seq![c] + mid.store.clips);
        assert(grown.clips.len() == n);
        assert(end.store.clips == grown.clips);
        assert(end.store.clips =~= stored(ticks).reverse());
        assert(contents(end.store.clips) =~= texts(readings).reverse()) by {
            assert forall|k: int| 0 <= k < n implies contents(end.store.clips)[k] == texts(
                readings,
            ).reverse()[k] by {
                if k == 0 {
                } else {
                    assert(end.store.clips[k] == mid.store.clips[k - 1]);
                    assert(contents(mid.store.clips)[k - 1] == texts(rs).reverse()[k - 1]);
                    assert(texts(rs).reverse()[k - 1] == texts(rs)[n - 1 - k]);
                }
            }
        }
    }
}

/// After a run in which every reading is a text that is news, the loop
/// remembers the text it was shown last.
pub proof fn lemma_last_seen(max: nat, readings: Seq<Option<Seq<char>>>, ticks: Seq<TickView>)
    requires
        readings.len() == ticks.len(),
        forall|i: int| 0 <= i < readings.len() ==> (#[trigger] readings[i]) is Some && !is_blank(
            readings[i]->0,
        ),
        forall|i: int| 0 < i < readings.len() ==> #[trigger] readings[i] != readings[i - 1],
    ensures
        after_run(fresh_loop(), max, readings, ticks).last_seen == if readings.len() == 0 {
            None
        } else {
            readings.last()
        },
    decreases readings.len(),
{
    if readings.len() > 0 {
        let rs = readings.drop_last();
        let ts = ticks.drop_last();
        assert(readings =~= rs.push(readings.last()));
        assert(ticks =~= ts.push(ticks.last()));
        lemma_run_push(fresh_loop(), max, rs, ts, readings.last(), ticks.last());
        assert forall|i: int| 0 < i < rs.len() implies #[trigger] rs[i] != rs[i - 1] by {
            assert(readings[i] != readings[i - 1]);
        }
        lemma_last_seen(max, rs, ts);
        if rs.len() > 0 {
            let n = readings.len() as int;
            assert(rs.last() == readings[n - 2]);
            assert(readings[n - 1] != readings[n - 2]);
        }
    }
}

/// While the loop is shown nothing but the text it saw last, blank texts and
/// an empty clipboard, every poll idles and nothing changes.
pub proof fn law_repeats_are_ignored(
    s: LoopView,
    max: nat,
    readings: Seq<Option<Seq<char>>>,
    ticks: Seq<TickView>,
)
    requires
        run_allowed(s, max, readings, ticks),
        forall|i: int|
            0 <= i < readings.len() ==> (#[trigger] readings[i]) is None || readings[i]
                == s.last_seen || is_blank(readings[i]->0),
    ensures
        after_run(s, max, readings, ticks) == s,
        forall|i: int| 0 <= i < ticks.len() ==> (#[trigger] ticks[i]) is Idle,
    decreases readings.len(),
{
    if readings.len() > 0 {
        assert(!is_news(s.last_seen, readings[0]));
        assert(ticks[0] is Idle);
        assert(after_tick(s, max, readings[0], ticks[0]) == s);
        let rs = readings.drop_first();
        let ts = ticks.drop_first();
        assert forall|i: int| 0 <= i < rs.len() implies (#[trigger] rs[i]) is None || rs[i]
            == s.last_seen || is_blank(rs[i]->0) by {
            assert(rs[i] == readings[i + 1]);
        }
        law_repeats_are_ignored(s, max, rs, ts);
        assert forall|i: int| 0 <= i < ticks.len() implies (#[trigger] ticks[i]) is Idle by {
            if i > 0 {
                assert(ticks[i] == ts[i - 1]);
            }
        }
    }
}

/// Shown a text that is news and then again the same text, with nothing in
/// between but blank texts and an empty clipboard, the loop stores the text
/// at most once: every poll after the first idles, and the store is as the
/// first poll left it.
pub proof fn law_same_text_is_stored_once(
    s: LoopView,
    max: nat,
    readings: Seq<Option<Seq<char>>>,
    ticks: Seq<TickView>,
)
    requires
        run_allowed(s, max, readings, ticks),
        readings.len() > 0,
        is_news(s.last_seen, readings[0]),
        forall|i: int|
            0 < i < readings.len() ==> (#[trigger] readings[i]) is None || readings[i]
                == readings[0] || is_blank(readings[i]->0),
    ensures
        after_run(s, max, readings, ticks) == after_tick(s, max, readings[0], ticks[0]),
        !(ticks[0] is Idle),
        forall|i: int| 0 < i < ticks.len() ==> (#[trigger] ticks[i]) is Idle,
{
    let s1 = after_tick(s, max, readings[0], ticks[0]);
    let rs = readings.drop_first();
    let ts = ticks.drop_first();
    assert(s1.last_seen == readings[0]);
    assert forall|i: int| 0 <= i < rs.len() implies (#[trigger] rs[i]) is None || rs[i]
        == s1.last_seen || is_blank(rs[i]->0) by {
        assert(rs[i] == readings[i + 1]);
    }
    law_repeats_are_ignored(s1, max, rs, ts);
    assert forall|i: int| 0 < i < ticks.len() implies (#[trigger] ticks[i]) is Idle by {
        assert(ticks[i] == ts[i - 1]);
    }
}

/// The content and the kind of each of `clips`, in order.
pub open spec fn kinds(clips: Seq<ClipView>) -> Seq<(Seq<char>, Seq<char>)> {
    clips.map_values(|c: ClipView| (c.content, c.clip_type))
}

/// Adding clips to a store adds their contents and kinds to those the store
/// holds, each as often as it is added, and keeps what the store held.
pub proof fn law_import_adds_entries(v: StoreView, cs: Seq<ClipView>)
    ensures
        kinds(insert_all(v, cs).clips).to_multiset() == kinds(v.clips).to_multiset().add(
            kinds(cs).to_multiset(),
        ),
        insert_all(v, cs).clips.len() == v.clips.len() + cs.len(),
        insert_all(v, cs).tags == v.tags,
        insert_all(v, cs).links == v.links,
    decreases cs.len(),
{
    broadcast use vstd::multiset::group_multiset_axioms;

    if cs.len() == 0 {
        assert(kinds(cs).to_multiset() =~= Multiset::<(Seq<char>, Seq<char>)>::empty()) by {
            assert(kinds(cs) =~= Seq::<(Seq<char>, Seq<char>)>::empty());
            kinds(cs).to_multiset_ensures();
            vstd::seq_lib::to_multiset_len(kinds(cs));
        }
        assert(kinds(v.clips).to_multiset().add(kinds(cs).to_multiset()) =~= kinds(
            v.clips,
        ).to_multiset());
    } else {
        let head = cs.drop_last();
        let c = cs.last();
        let pair = (c.content, c.clip_type);
        law_import_adds_entries(v, head);
        let mid = insert_all(v, head);
        let k = slot(mid.clips, c.created_at) as int;
        lemma_run_len_splits(mid.clips, newer_than(c.created_at));
        assert(kinds(mid.clips.insert(k, c)) =~= kinds(mid.clips).insert(k, pair));
        vstd::seq_lib::to_multiset_insert(kinds(mid.clips), k, pair);
        assert(kinds(cs) =~= kinds(head).push(pair));
        vstd::seq_lib::to_multiset_build(kinds(head), pair);
        assert(kinds(v.clips).to_multiset().add(kinds(head).to_multiset()).insert(pair)
            =~= kinds(v.clips).to_multiset().add(kinds(head).to_multiset().insert(pair)));
    }
}

/// Taking every clip out of a store and importing what was taken into an
/// empty store gives a store that holds the same contents with the same
/// kinds, each as often as the first store did.  The ids and the times of
/// capture may differ.
pub proof fn law_export_import_round_trip(v: StoreView, cs: Seq<ClipView>)
    requires
        imported_as(kinds(v.clips), cs),
    ensures
        kinds(insert_all(StoreView::empty(), cs).clips).to_multiset() == kinds(
            v.clips,
        ).to_multiset(),
{
    broadcast use vstd::multiset::group_multiset_axioms;

    law_import_adds_entries(StoreView::empty(), cs);
    assert(kinds(cs) =~= kinds(v.clips));
    let none = kinds(StoreView::empty().clips);
    assert(none =~= Seq::<(Seq<char>, Seq<char>)>::empty());
    vstd::seq_lib::to_multiset_len(none);
    assert(none.to_multiset() =~= Multiset::<(Seq<char>, Seq<char>)>::empty());
    assert(none.to_multiset().add(kinds(cs).to_multiset()) =~= kinds(cs).to_multiset());
}

/// Escaping goes character by character.
pub proof fn lemma_escape_concat(a: Seq<char>, b: Seq<char>)
    ensures
        escape(a + b) == escape(a) + escape(b),
    decreases b.len(),
{
    if b.len() == 0 {
        assert(a + b =~= a);
        assert(escape(a) + escape(b) =~= escape(a));
    } else {
        lemma_escape_concat(a, b.drop_last());
        assert((a + b).drop_last() =~= a + b.drop_last());
        assert((a + b).last() == b.last());
        if b.last() == ',' {
            assert(escape(a) + (escape(b.drop_last()) + seq!['\\', ',']) =~= (escape(a) + escape(
                b.drop_last(),
            )) + seq!['\\', ',']);
        } else {
            assert(escape(a) + escape(b.drop_last()).push(b.last()) =~= (escape(a) + escape(
                b.drop_last(),
            )).push(b.last()));
        }
    }
}

/// Escaping the commas of a text and removing the escapes again gives the
/// text back.
pub proof fn law_unescape_escape(b: Seq<char>)
    ensures
        unescape(escape(b)) == b,
    decreases b.len(),
{
    if b.len() == 0 {
        assert(unescape(escape(b)) =~= b);
    } else {
        let rest = b.drop_first();
        law_unescape_escape(rest);
        assert(b =~= seq![b[0]] + rest);
        lemma_escape_concat(seq![b[0]], rest);
        let head = escape(seq![b[0]]);
        assert(seq![b[0]].drop_last() =~= Seq::<char>::empty());
        assert(escape(Seq::<char>::empty()) =~= Seq::<char>::empty());
        let e = escape(b);
        if b[0] == ',' {
            assert(head =~= seq!['\\', ',']);
            assert(e =~= seq!['\\', ','] + escape(rest));
            assert(e.skip(2) =~= escape(rest));
            assert(seq![','] + rest =~= b);
        } else {
            assert(head =~= seq![b[0]]);
            assert(e =~= seq![b[0]] + escape(rest));
            assert(e.drop_first() =~= escape(rest));
            if e.len() >= 2 && e[0] == '\\' {
                lemma_escape_starts(rest);
                assert(e[1] == escape(rest)[0]);
            }
            assert(seq![b[0]] + rest =~= b);
        }
    }
}

/// An escaped text does not start with a comma.
proof fn lemma_escape_starts(s: Seq<char>)
    ensures
        escape(s).len() >= s.len(),
        s.len() > 0 ==> escape(s)[0] != ',',
    decreases s.len(),
{
    if s.len() > 0 {
        lemma_escape_starts(s.drop_last());
        if s.len() == 1 {
            assert(s.drop_last() =~= Seq::<char>::empty());
            assert(escape(Seq::<char>::empty()) =~= Seq::<char>::empty());
        } else {
            assert(s.drop_last()[0] == s[0]);
        }
    }
}

/// A number written in decimal is made of digits only, and these write the
/// number.
pub proof fn lemma_decimal_digits(n: nat)
    ensures
        decimal(n).len() > 0,
        all_digits(decimal(n)),
        digits_value(decimal(n)) == n,
    decreases n,
{
    if n < 10 {
        let d = seq![digit_char(n as int)];
        assert(d.drop_last() =~= Seq::<char>::empty());
        assert(digits_value(d.drop_last()) == 0);
    } else {
        lemma_decimal_digits(n / 10);
        let head = decimal(n / 10);
        let d = head.push(digit_char(n as int % 10));
        assert(d.drop_last() =~= head);
        assert forall|i: int| 0 <= i < d.len() implies is_digit(#[trigger] d[i]) by {
            if i < head.len() {
                assert(d[i] == head[i]);
                assert(is_digit(head[i]));
            }
        }
    }
}

/// A number written in decimal reads back as the same number.
pub proof fn law_decimal_reads_back(n: nat)
    ensures
        parse_number(decimal(n)) == Some(n),
{
    lemma_decimal_digits(n);
    assert(is_digit(decimal(n)[0]));
    assert(without_sign(decimal(n)) == decimal(n));
}

/// Every line of a listing names the clip it was written for: handed the
/// line of the clip at place `i`, the reading of the answer gives that clip's
/// content.
pub proof fn law_listing_line_picks_its_clip(clips: Seq<ClipView>, i: int, width: nat)
    requires
        0 <= i < clips.len(),
    ensures
        leading_number(listing_line((i + 1) as nat, clips[i].content, width)) == Some(
            (i + 1) as nat,
        ),
        picked(clips, listing_line((i + 1) as nat, clips[i].content, width)) == Some(
            clips[i].content,
        ),
{
    let n = (i + 1) as nat;
    let number = decimal(n);
    let line = listing_line(n, clips[i].content, width);
    let p = |c: char| c != ':';
    lemma_decimal_digits(n);
    law_decimal_reads_back(n);
    let k = number.len() as int;
    assert forall|j: int| 0 <= j < k implies p(#[trigger] line[j]) by {
        assert(line[j] == number[j]);
        assert(is_digit(number[j]));
    }
    assert(line[k] == ':');
    lemma_run_len(line, p, k);
    assert(line.take(k) =~= number);
}

} // verus!
