//! The reconciliation rules: which fetch a collection gets, and how each
//! fetch's result is merged into the store.

use vstd::prelude::*;
use crate::models::{events_view, CalendarEvent, EventView, SyncState, Timestamp, Todo};
use crate::recurrence::{expand_recurring_event_at, expansion_at, RecurrenceConfig};
use crate::strings::{ends_with, str_ends_with};
use crate::store::{
    events_dedup, has_uid, may_share_uid, outside_fetch, is_series, lemma_filter_congruent, lemma_filter_filter,
    replace_events, replace_todos, set_state, state_of, todos_dedup,
    CalendarData, StoreView,
};
use crate::models::{lemma_filter_members, SyncToken};
use crate::recurrence::lemma_expansion_members;
use crate::store::{event_overlaps, lemma_stale_cleanup, url_listed};

verus! {

/// How many objects one content request asks for.
pub const BATCH_SIZE: usize = 500;

/// How a collection is fetched in this pass.
#[derive(Debug, Clone, PartialEq, Eq)]
pub enum SyncStrategy {
    /// Fetch everything and replace the collection's content.
    Full,
    /// Ask for the changes since the cursor (none: from the start).
    Incremental(Option<String>),
}

/// One entry of an incremental diff.
#[derive(Debug, Clone, PartialEq, Eq)]
pub struct DiffItem {
    pub href: String,
    pub is_deleted: bool,
}

/// The strategy for a collection: a full fetch for one never seen, else an
/// incremental one where the server offers it and the collection has not
/// been found to give no cursors, else a full fetch.
pub open spec fn strategy_for(store: StoreView, url: Seq<char>, supports_sync: bool) -> SyncStrategy {
    let state = store.token_state(url);
    if state == SyncState::NeverSynced && !store.holds_items_of(url) {
        SyncStrategy::Full
    } else if supports_sync && state != SyncState::IncrementalUnsupported {
        SyncStrategy::Incremental(
            match state {
                SyncState::HasToken(t) => if t@.len() > 0 {
                    Some(t)
                } else {
                    None
                },
                _ => None,
            },
        )
    } else {
        SyncStrategy::Full
    }
}

/// What follows a fetch of a collection: a full fetch after a failed
/// incremental one, nothing after a full fetch or a success (a failed full
/// fetch skips the collection for this pass).
pub fn next_after_fetch(done: &SyncStrategy, succeeded: bool) -> (r: Option<SyncStrategy>)
    ensures
        r == (if !succeeded && done is Incremental {
            Some(SyncStrategy::Full)
        } else {
            None
        }),
{
    match done {
        SyncStrategy::Incremental(_) => if succeeded {
            None
        } else {
            Some(SyncStrategy::Full)
        },
        SyncStrategy::Full => None,
    }
}

/// Choose how to fetch the collection at `url`.
pub fn choose_strategy(store: &CalendarData, url: &String, supports_sync: bool) -> (r: SyncStrategy)
    ensures
        r == strategy_for(store@, url@, supports_sync),
{
    let state = store.token_state(url);
    let never = match state {
        SyncState::NeverSynced => true,
        _ => false,
    };
    if never && !store.holds_items_of(url) {
        return SyncStrategy::Full;
    }
    match state {
        SyncState::IncrementalUnsupported => SyncStrategy::Full,
        SyncState::HasToken(t) => if supports_sync {
            if t.as_str().unicode_len() > 0 {
                SyncStrategy::Incremental(Some(t))
            } else {
                SyncStrategy::Incremental(None)
            }
        } else {
            SyncStrategy::Full
        },
        _ => if supports_sync {
            SyncStrategy::Incremental(None)
        } else {
            SyncStrategy::Full
        },
    }
}

/// The expansions of `events`, each put in place of earlier events with its
/// uid. A later component with the uid of an earlier one replaces it whole:
/// an override of one occurrence (RECURRENCE-ID) that follows its series
/// therefore stands alone, which keeps the store's uids unique.
pub open spec fn merged_expansions(events: Seq<EventView>, config: RecurrenceConfig, now: Timestamp) -> Seq<
    EventView,
>
    decreases events.len(),
{
    if events.len() == 0 {
        Seq::empty()
    } else {
        replace_events(
            merged_expansions(events.drop_last(), config, now),
            expansion_at(events.last(), config, now),
        )
    }
}

/// `todos`, each put in place of earlier todos with its uid.
pub open spec fn merged_todos(todos: Seq<Todo>) -> Seq<Todo>
    decreases todos.len(),
{
    if todos.len() == 0 {
        Seq::empty()
    } else {
        replace_todos(merged_todos(todos.drop_last()), todos.last())
    }
}

/// The occurrences of one expansion form a series.
pub proof fn lemma_expansion_series(ev: EventView, config: RecurrenceConfig, now: Timestamp, g: Seq<EventView>)
    requires
        forall|i: int| 0 <= i < g.len() ==> #[trigger] g[i] == ev.with_times(g[i].start, g[i].end),
        ev.rrule is None ==> g == seq![ev],
    ensures
        is_series(g),
{
    assert forall|i: int, j: int| 0 <= i < g.len() && 0 <= j < g.len() implies may_share_uid(
        #[trigger] g[i],
        #[trigger] g[j],
    ) by {
        assert(g[i].with_times(g[j].start, g[j].end) =~= g[j]);
        if ev.rrule is None {
            assert(i == 0 && j == 0);
        }
    }
    if g.len() > 1 {
        assert forall|i: int| 0 <= i < g.len() implies (#[trigger] g[i]).rrule is Some by {
            assert(g[i].rrule == ev.rrule);
        }
    }
}

/// Put the series `group` in place of the events of `events` with its uid.
fn replace_in(events: &mut Vec<CalendarEvent>, group: Vec<CalendarEvent>)
    requires
        events_dedup(events_view(old(events)@)),
        is_series(events_view(group@)),
    ensures
        events_view(final(events)@) == replace_events(events_view(old(events)@), events_view(group@)),
        events_dedup(events_view(final(events)@)),
{
    let mut store = CalendarData { events: Vec::new(), todos: Vec::new(), last_sync: 0, sync_tokens: Vec::new() };
    std::mem::swap(&mut store.events, events);
    assert(store@.wf()) by {
        assert(store@.todos =~= Seq::<Todo>::empty());
    }
    store.replace_by_uid(group);
    std::mem::swap(&mut store.events, events);
}

/// Every event of `events` expanded at `now`, each expansion put in place of
/// earlier ones with its uid.
pub fn expand_all(events: &Vec<CalendarEvent>, config: &RecurrenceConfig, now: Timestamp) -> (r: Vec<
    CalendarEvent,
>)
    ensures
        events_view(r@) == merged_expansions(events_view(events@), *config, now),
        events_dedup(events_view(r@)),
{
    let mut out: Vec<CalendarEvent> = Vec::new();
    let mut i: usize = 0;
    assert(events_view(events@).subrange(0, 0) =~= Seq::<EventView>::empty());
    assert(events_view(out@) =~= Seq::<EventView>::empty());
    while i < events.len()
        invariant
            i <= events.len(),
            events_view(out@) == merged_expansions(events_view(events@).subrange(0, i as int), *config, now),
            events_dedup(events_view(out@)),
        decreases events.len() - i,
    {
        let group = expand_recurring_event_at(&events[i], config, now);
        proof {
            let ev = events@[i as int]@;
            let g = events_view(group@);
            assert forall|k: int| 0 <= k < g.len() implies #[trigger] g[k] == ev.with_times(g[k].start, g[k].end) by {
                assert(g[k] == group@[k]@);
            }
            lemma_expansion_series(ev, *config, now, g);
            let sub = events_view(events@).subrange(0, i + 1);
            assert(sub.drop_last() =~= events_view(events@).subrange(0, i as int));
            assert(sub.last() == ev);
        }
        replace_in(&mut out, group);
        i = i + 1;
    }
    assert(events_view(events@).subrange(0, events.len() as int) =~= events_view(events@));
    out
}

/// `todos`, each put in place of earlier ones with its uid.
pub fn dedup_todos(todos: &Vec<Todo>) -> (r: Vec<Todo>)
    ensures
        r@ == merged_todos(todos@),
        todos_dedup(r@),
{
    let mut store = CalendarData { events: Vec::new(), todos: Vec::new(), last_sync: 0, sync_tokens: Vec::new() };
    let mut i: usize = 0;
    assert(todos@.subrange(0, 0) =~= Seq::<Todo>::empty());
    assert(store@.wf()) by {
        assert(store@.events =~= Seq::<EventView>::empty());
    }
    while i < todos.len()
        invariant
            i <= todos.len(),
            store.todos@ == merged_todos(todos@.subrange(0, i as int)),
            store@.wf(),
        decreases todos.len() - i,
    {
        proof {
            let sub = todos@.subrange(0, i + 1);
            assert(sub.drop_last() =~= todos@.subrange(0, i as int));
        }
        store.replace_todo(todos[i].duplicate());
        i = i + 1;
    }
    assert(todos@.subrange(0, todos.len() as int) =~= todos@);
    store.todos
}

/// The store after a full fetch of the collection `url` returned `events`
/// and `todos`: the collection's content replaced by the expanded events
/// and the todos, and, where the server offers incremental sync and the
/// collection was not found to give no cursors, an incremental sync
/// allowed next time.
pub open spec fn full_fetch_result(
    store: StoreView,
    url: String,
    events: Seq<EventView>,
    todos: Seq<Todo>,
    supports_sync: bool,
    config: RecurrenceConfig,
    now: Timestamp,
) -> StoreView {
    full_replace(store, url, merged_expansions(events, config, now), merged_todos(todos), supports_sync)
}

/// The collection's content replaced by `events` and `todos`, and, where the
/// server offers incremental sync and the collection was not found to give
/// no cursors, an incremental sync allowed next time.
pub open spec fn full_replace(
    store: StoreView,
    url: String,
    events: Seq<EventView>,
    todos: Seq<Todo>,
    supports_sync: bool,
) -> StoreView {
    let replaced = store.replace_collection(url@, events, todos);
    if supports_sync && store.token_state(url@) != SyncState::IncrementalUnsupported {
        replaced.set_token_state(url, SyncState::SyncedNoToken)
    } else {
        replaced
    }
}

/// Merge the result of a full fetch of the collection `url`.
pub fn apply_full_fetch(
    store: &mut CalendarData,
    url: &String,
    events: &Vec<CalendarEvent>,
    todos: &Vec<Todo>,
    supports_sync: bool,
    config: &RecurrenceConfig,
    now: Timestamp,
)
    requires
        old(store)@.wf(),
    ensures
        final(store)@ == full_fetch_result(old(store)@, *url, events_view(events@), todos@, supports_sync, *config, now),
        final(store)@.wf(),
{
    let state = store.token_state(url);
    let fresh = expand_all(events, config, now);
    let fresh_todos = dedup_todos(todos);
    store.replace_collection(url, fresh, fresh_todos);
    let unsupported = match state {
        SyncState::IncrementalUnsupported => true,
        _ => false,
    };
    if supports_sync && !unsupported {
        store.set_token_state(url, SyncState::SyncedNoToken);
    }
}

/// The events of a fetched object expanded and put in place of the events
/// with their uids; its todos put in place of the todos with theirs.
pub open spec fn item_merge_result(
    store: StoreView,
    events: Seq<EventView>,
    todos: Seq<Todo>,
    config: RecurrenceConfig,
    now: Timestamp,
) -> StoreView
    decreases events.len() + todos.len(),
{
    if todos.len() > 0 {
        item_merge_result(store, events, todos.drop_last(), config, now).replace_todo(todos.last())
    } else if events.len() > 0 {
        item_merge_result(store, events.drop_last(), todos, config, now).replace_by_uid(
            expansion_at(events.last(), config, now),
        )
    } else {
        store
    }
}

/// How many event instances the expansions of `events` hold.
pub open spec fn instance_count(events: Seq<EventView>, config: RecurrenceConfig, now: Timestamp) -> nat
    decreases events.len(),
{
    if events.len() == 0 {
        0
    } else {
        instance_count(events.drop_last(), config, now) + expansion_at(events.last(), config, now).len()
    }
}

/// `n` capped at the largest `usize`.
pub open spec fn capped(n: nat) -> usize {
    if n <= usize::MAX {
        n as usize
    } else {
        usize::MAX
    }
}

/// Merge what one fetched object parsed into: each event, expanded, and
/// each todo replaces what the store holds under its uid. Returns how many
/// event instances and how many todos were put in.
pub fn apply_fetched_item(
    store: &mut CalendarData,
    events: &Vec<CalendarEvent>,
    todos: &Vec<Todo>,
    config: &RecurrenceConfig,
    now: Timestamp,
) -> (r: (usize, usize))
    requires
        old(store)@.wf(),
    ensures
        final(store)@ == item_merge_result(old(store)@, events_view(events@), todos@, *config, now),
        final(store)@.wf(),
        r == (capped(instance_count(events_view(events@), *config, now)), todos@.len() as usize),
{
    let ghost start = store@;
    let mut added: usize = 0;
    let mut i: usize = 0;
    assert(events_view(events@).subrange(0, 0) =~= Seq::<EventView>::empty());
    assert(todos@.subrange(0, 0) =~= Seq::<Todo>::empty());
    while i < events.len()
        invariant
            i <= events.len(),
            store@ == item_merge_result(start, events_view(events@).subrange(0, i as int), Seq::<Todo>::empty(), *config, now),
            store@.wf(),
            added == capped(instance_count(events_view(events@).subrange(0, i as int), *config, now)),
        decreases events.len() - i,
    {
        let group = expand_recurring_event_at(&events[i], config, now);
        let n = group.len();
        added = if added > usize::MAX - n {
            usize::MAX
        } else {
            added + n
        };
        assert(events_view(group@).len() == n);
        proof {
            let ev = events@[i as int]@;
            let g = events_view(group@);
            assert forall|k: int| 0 <= k < g.len() implies #[trigger] g[k] == ev.with_times(g[k].start, g[k].end) by {
                assert(g[k] == group@[k]@);
            }
            lemma_expansion_series(ev, *config, now, g);
            let sub = events_view(events@).subrange(0, i + 1);
            assert(sub.drop_last() =~= events_view(events@).subrange(0, i as int));
            assert(sub.last() == ev);
        }
        store.replace_by_uid(group);
        i = i + 1;
    }
    assert(events_view(events@).subrange(0, events.len() as int) =~= events_view(events@));
    let mut k: usize = 0;
    while k < todos.len()
        invariant
            k <= todos.len(),
            store@ == item_merge_result(start, events_view(events@), todos@.subrange(0, k as int), *config, now),
            store@.wf(),
        decreases todos.len() - k,
    {
        proof {
            let sub = todos@.subrange(0, k + 1);
            assert(sub.drop_last() =~= todos@.subrange(0, k as int));
        }
        store.replace_todo(todos[k].duplicate());
        k = k + 1;
    }
    assert(todos@.subrange(0, todos.len() as int) =~= todos@);
    (added, todos.len())
}


/// A diff entry whose content is to be fetched: not deleted, and not a
/// collection (a path ending in `/`).
pub open spec fn wants_content(item: DiffItem) -> bool {
    !item.is_deleted && !ends_with(item.href@, seq!['/'])
}

/// The paths whose content an incremental diff asks to fetch, in order.
pub open spec fn changed_paths(items: Seq<DiffItem>) -> Seq<String>
    decreases items.len(),
{
    if items.len() == 0 {
        Seq::empty()
    } else if wants_content(items.last()) {
        changed_paths(items.drop_last()).push(items.last().href)
    } else {
        changed_paths(items.drop_last())
    }
}

/// The paths of the diff whose content must be fetched.
pub fn hrefs_to_fetch(items: &Vec<DiffItem>) -> (r: Vec<String>)
    ensures
        r@ == changed_paths(items@),
{
    proof {
        reveal_strlit("/");
    }
    let mut r: Vec<String> = Vec::new();
    let mut i: usize = 0;
    assert(items@.subrange(0, 0) =~= Seq::<DiffItem>::empty());
    while i < items.len()
        invariant
            i <= items.len(),
            r@ == changed_paths(items@.subrange(0, i as int)),
        decreases items.len() - i,
    {
        proof {
            reveal_strlit("/");
            let sub = items@.subrange(0, i + 1);
            assert(sub.drop_last() =~= items@.subrange(0, i as int));
            assert("/"@ =~= seq!['/']);
        }
        let item = &items[i];
        if !item.is_deleted && !str_ends_with(item.href.as_str(), "/") {
            r.push(item.href.clone());
        }
        i = i + 1;
    }
    assert(items@.subrange(0, items.len() as int) =~= items@);
    r
}

/// The store after each deleted entry of a diff removed what it stood for.
pub open spec fn deletions_result(store: StoreView, items: Seq<DiffItem>) -> StoreView
    decreases items.len(),
{
    if items.len() == 0 {
        store
    } else if items.last().is_deleted {
        deletions_result(store, items.drop_last()).remove_deleted(items.last().href@)
    } else {
        deletions_result(store, items.drop_last())
    }
}

/// Remove what each deleted entry of the diff stood for.
pub fn apply_deletions(store: &mut CalendarData, items: &Vec<DiffItem>)
    requires
        old(store)@.wf(),
    ensures
        final(store)@ == deletions_result(old(store)@, items@),
        final(store)@.wf(),
{
    let ghost start = store@;
    let mut i: usize = 0;
    assert(items@.subrange(0, 0) =~= Seq::<DiffItem>::empty());
    while i < items.len()
        invariant
            i <= items.len(),
            store@ == deletions_result(start, items@.subrange(0, i as int)),
            store@.wf(),
        decreases items.len() - i,
    {
        proof {
            let sub = items@.subrange(0, i + 1);
            assert(sub.drop_last() =~= items@.subrange(0, i as int));
        }
        if items[i].is_deleted {
            let _ = store.remove_deleted(&items[i].href);
        }
        i = i + 1;
    }
    assert(items@.subrange(0, items.len() as int) =~= items@);
}

/// The batches in order, joined.
pub open spec fn joined(batches: Seq<Vec<String>>) -> Seq<String>
    decreases batches.len(),
{
    if batches.len() == 0 {
        Seq::empty()
    } else {
        joined(batches.drop_last()) + batches.last()@
    }
}

/// `hrefs` cut, in order, into batches of `BATCH_SIZE`, the last one
/// possibly shorter.
pub fn fetch_batches(hrefs: &Vec<String>) -> (r: Vec<Vec<String>>)
    ensures
        joined(r@) == hrefs@,
        forall|i: int| 0 <= i < r@.len() ==> 0 < (#[trigger] r@[i])@.len() <= BATCH_SIZE,
        forall|i: int| 0 <= i < r@.len() - 1 ==> (#[trigger] r@[i])@.len() == BATCH_SIZE,
        r@.len() == (hrefs@.len() + BATCH_SIZE - 1) / BATCH_SIZE as int,
{
    let n = hrefs.len();
    let mut r: Vec<Vec<String>> = Vec::new();
    let mut i: usize = 0;
    assert(hrefs@.subrange(0, 0) =~= Seq::<String>::empty());
    while i < n
        invariant
            n == hrefs@.len(),
            i <= n,
            i == r@.len() * BATCH_SIZE || i == n,
            joined(r@) == hrefs@.subrange(0, i as int),
            forall|k: int| 0 <= k < r@.len() ==> 0 < (#[trigger] r@[k])@.len() <= BATCH_SIZE,
            forall|k: int| 0 <= k < r@.len() - 1 ==> (#[trigger] r@[k])@.len() == BATCH_SIZE,
            i < n ==> forall|k: int| 0 <= k < r@.len() ==> (#[trigger] r@[k])@.len() == BATCH_SIZE,
            r@.len() == (i + BATCH_SIZE - 1) / BATCH_SIZE as int,
        decreases n - i,
    {
        let end = if n - i > BATCH_SIZE {
            i + BATCH_SIZE
        } else {
            n
        };
        let mut batch: Vec<String> = Vec::new();
        let mut j: usize = i;
        while j < end
            invariant
                i <= j <= end <= n,
                n == hrefs@.len(),
                batch@ == hrefs@.subrange(i as int, j as int),
            decreases end - j,
        {
            batch.push(hrefs[j].clone());
            assert(batch@ =~= hrefs@.subrange(i as int, j + 1));
            j = j + 1;
        }
        let ghost before = r@;
        r.push(batch);
        assert(r@.drop_last() =~= before);
        assert(hrefs@.subrange(0, end as int) =~= hrefs@.subrange(0, i as int) + hrefs@.subrange(i as int, end as int));
        i = end;
    }
    assert(hrefs@.subrange(0, n as int) =~= hrefs@);
    r
}

/// The state recorded after an incremental sync: the new cursor; an empty
/// cursor counts as none yet, so the next incremental sync starts without
/// one; when the server gave none, incremental sync is not to be tried
/// again.
pub open spec fn state_after_diff(new_token: Option<String>) -> SyncState {
    match new_token {
        Some(t) => if t@.len() == 0 {
            SyncState::SyncedNoToken
        } else {
            SyncState::HasToken(t)
        },
        None => SyncState::IncrementalUnsupported,
    }
}

/// Record the cursor an incremental sync returned.
pub fn record_cursor(store: &mut CalendarData, url: &String, new_token: Option<String>)
    requires
        old(store)@.wf(),
    ensures
        final(store)@ == old(store)@.set_token_state(*url, state_after_diff(new_token)),
        final(store)@.wf(),
{
    let state = match new_token {
        Some(t) => if t.as_str().unicode_len() == 0 {
            SyncState::SyncedNoToken
        } else {
            SyncState::HasToken(t)
        },
        None => SyncState::IncrementalUnsupported,
    };
    store.set_token_state(url, state);
}

/// The store at the end of a pass: everything of the collections not in
/// `live` gone, and the pass recorded at `now` (the last-sync time never
/// moves back).
pub open spec fn pass_end_result(store: StoreView, live: Seq<String>, now: Timestamp) -> StoreView {
    let kept = store.retain_collections(live);
    StoreView {
        last_sync: if now > store.last_sync {
            now
        } else {
            store.last_sync
        },
        ..kept
    }
}

/// End a pass: drop the collections that discovery no longer reports and
/// record the pass.
pub fn finish_pass(store: &mut CalendarData, live: &Vec<String>, now: Timestamp)
    requires
        old(store)@.wf(),
    ensures
        final(store)@ == pass_end_result(old(store)@, live@, now),
        final(store)@.wf(),
        final(store)@.last_sync >= old(store)@.last_sync,
{
    store.retain_collections(live);
    store.mark_synced(now);
}


/// Every expanded and merged event belongs to the collection of the events
/// it came from.
pub proof fn lemma_merged_in_collection(events: Seq<EventView>, config: RecurrenceConfig, now: Timestamp, url: Seq<char>)
    requires
        forall|i: int| 0 <= i < events.len() ==> (#[trigger] events[i]).calendar_url == url,
    ensures
        forall|i: int|
            0 <= i < merged_expansions(events, config, now).len() ==> (#[trigger] merged_expansions(
                events,
                config,
                now,
            )[i]).calendar_url == url,
    decreases events.len(),
{
    if events.len() > 0 {
        let d = events.drop_last();
        assert forall|i: int| 0 <= i < d.len() implies (#[trigger] d[i]).calendar_url == url by {
            assert(d[i] == events[i]);
        }
        lemma_merged_in_collection(d, config, now, url);
        let prev = merged_expansions(d, config, now);
        let ev = events.last();
        let g = expansion_at(ev, config, now);
        let p = |e: EventView| !has_uid(g, e.uid);
        lemma_filter_members(prev, p);
        lemma_expansion_members(ev, config, now);
        let m = merged_expansions(events, config, now);
        assert(m == prev.filter(p) + g);
        assert forall|i: int| 0 <= i < m.len() implies (#[trigger] m[i]).calendar_url == url by {
            if i < prev.filter(p).len() {
                assert(prev.contains(prev.filter(p)[i]));
            } else {
                assert(m[i] == g[i - prev.filter(p).len()]);
            }
        }
    }
}

/// Every todo of the merge is one of the fetched todos.
pub proof fn lemma_merged_todos_members(todos: Seq<Todo>)
    ensures
        forall|i: int| 0 <= i < merged_todos(todos).len() ==> todos.contains(#[trigger] merged_todos(todos)[i]),
    decreases todos.len(),
{
    if todos.len() > 0 {
        let d = todos.drop_last();
        lemma_merged_todos_members(d);
        let prev = merged_todos(d);
        let t = todos.last();
        let p = |x: Todo| x.uid@ != t.uid@;
        lemma_filter_members(prev, p);
        let m = merged_todos(todos);
        assert forall|i: int| 0 <= i < m.len() implies todos.contains(#[trigger] m[i]) by {
            if i < prev.filter(p).len() {
                assert(prev.contains(prev.filter(p)[i]));
                let j = choose|j: int| 0 <= j < prev.len() && prev[j] == m[i];
                assert(d.contains(prev[j]));
                let k = choose|k: int| 0 <= k < d.len() && d[k] == prev[j];
                assert(todos[k] == d[k]);
            } else {
                assert(m[i] == t);
                assert(todos[todos.len() - 1] == t);
            }
        }
    }
}

/// Idempotence of a full fetch: merging the same fetched events and todos
/// of a collection twice in a row leaves the store as merging them once.
pub proof fn lemma_full_fetch_idempotent(
    store: StoreView,
    url: String,
    events: Seq<EventView>,
    todos: Seq<Todo>,
    supports_sync: bool,
    config: RecurrenceConfig,
    now: Timestamp,
)
    requires
        forall|i: int| 0 <= i < events.len() ==> (#[trigger] events[i]).calendar_url == url@,
        forall|i: int| 0 <= i < todos.len() ==> (#[trigger] todos[i]).calendar_url@ == url@,
    ensures
        full_fetch_result(
            full_fetch_result(store, url, events, todos, supports_sync, config, now),
            url,
            events,
            todos,
            supports_sync,
            config,
            now,
        ) == full_fetch_result(store, url, events, todos, supports_sync, config, now),
{
    let fe = merged_expansions(events, config, now);
    let ft = merged_todos(todos);
    let u = url@;
    lemma_merged_in_collection(events, config, now, u);
    lemma_merged_todos_in_collection(todos, u);
    lemma_full_replace_twice(store, url, fe, ft, supports_sync);
}

/// Replacing a collection's content twice by the same items of that
/// collection is replacing it once.
#[verifier::rlimit(40)]
proof fn lemma_full_replace_twice(
    store: StoreView,
    url: String,
    fe: Seq<EventView>,
    ft: Seq<Todo>,
    supports_sync: bool,
)
    requires
        forall|i: int| 0 <= i < fe.len() ==> (#[trigger] fe[i]).calendar_url == url@,
        forall|i: int| 0 <= i < ft.len() ==> (#[trigger] ft[i]).calendar_url@ == url@,
    ensures
        full_replace(full_replace(store, url, fe, ft, supports_sync), url, fe, ft, supports_sync)
            == full_replace(store, url, fe, ft, supports_sync),
{
    let u = url@;
    let r1 = store.replace_collection(u, fe, ft);
    lemma_replace_events_twice(store.events, u, fe);
    lemma_replace_todos_twice(store.todos, u, ft);
    let r2 = r1.replace_collection(u, fe, ft);
    assert(r2.events == r1.events);
    assert(r2.todos == r1.todos);
    assert(r2 == r1);
    let once = full_replace(store, url, fe, ft, supports_sync);
    if supports_sync && store.token_state(u) != SyncState::IncrementalUnsupported {
        let t1 = set_state(r1.sync_tokens, url, SyncState::SyncedNoToken);
        lemma_set_state_twice(r1.sync_tokens, url, SyncState::SyncedNoToken);
        assert(t1.last().calendar_url@ == u);
        assert(state_of(t1, u) == SyncState::SyncedNoToken);
        assert(once == StoreView { sync_tokens: t1, ..r1 });
        assert(once.token_state(u) == SyncState::SyncedNoToken);
        let o2 = once.replace_collection(u, fe, ft);
        assert(o2.events == r1.events);
        assert(o2.todos == r1.todos);
        assert(o2.sync_tokens == t1);
        let o3 = o2.set_token_state(url, SyncState::SyncedNoToken);
        assert(o3.sync_tokens == t1);
        assert(o3.last_sync == once.last_sync);
        assert(o3 == once);
    } else {
        assert(once == r1);
    }
}

/// Every merged todo belongs to the collection of the fetched todos.
proof fn lemma_merged_todos_in_collection(todos: Seq<Todo>, u: Seq<char>)
    requires
        forall|i: int| 0 <= i < todos.len() ==> (#[trigger] todos[i]).calendar_url@ == u,
    ensures
        forall|i: int| 0 <= i < merged_todos(todos).len() ==> (#[trigger] merged_todos(todos)[i]).calendar_url@ == u,
{
    lemma_merged_todos_members(todos);
    let ft = merged_todos(todos);
    assert forall|i: int| 0 <= i < ft.len() implies (#[trigger] ft[i]).calendar_url@ == u by {
        assert(todos.contains(ft[i]));
        let k = choose|k: int| 0 <= k < todos.len() && todos[k] == ft[i];
    }
}

/// Setting a collection's sync state twice to the same state is setting it
/// once.
proof fn lemma_set_state_twice(tokens: Seq<SyncToken>, url: String, state: SyncState)
    ensures
        set_state(set_state(tokens, url, state), url, state) == set_state(tokens, url, state),
{
    let keep = |t: SyncToken| t.calendar_url@ != url@;
    lemma_filter_filter(tokens, keep, keep);
    lemma_filter_congruent(tokens, |x: SyncToken| keep(x) && keep(x), keep);
    if state != SyncState::NeverSynced {
        let entry = SyncToken { calendar_url: url, state };
        let once = tokens.filter(keep).push(entry);
        reveal(Seq::filter);
        assert(once.drop_last() == tokens.filter(keep));
        assert(once.filter(keep) == tokens.filter(keep).filter(keep));
    }
}

/// Replacing a collection's events twice by the same events of that
/// collection is replacing them once.
proof fn lemma_replace_events_twice(s: Seq<EventView>, u: Seq<char>, fe: Seq<EventView>)
    requires
        forall|i: int| 0 <= i < fe.len() ==> (#[trigger] fe[i]).calendar_url == u,
    ensures
        ({
            let p = |e: EventView| e.calendar_url != u && !has_uid(fe, e.uid);
            (s.filter(p) + fe).filter(p) + fe == s.filter(p) + fe
        }),
{
    let p = |e: EventView| e.calendar_url != u && !has_uid(fe, e.uid);
    filter_add(s.filter(p), fe, p);
    lemma_filter_filter(s, p, p);
    lemma_filter_congruent(s, |x: EventView| p(x) && p(x), p);
    lemma_filter_none(fe, p);
    assert(s.filter(p) + Seq::<EventView>::empty() =~= s.filter(p));
}

/// Replacing a collection's todos twice by the same todos of that
/// collection is replacing them once.
proof fn lemma_replace_todos_twice(s: Seq<Todo>, u: Seq<char>, ft: Seq<Todo>)
    requires
        forall|i: int| 0 <= i < ft.len() ==> (#[trigger] ft[i]).calendar_url@ == u,
    ensures
        ({
            let p = |t: Todo| outside_fetch(t, u, ft);
            (s.filter(p) + ft).filter(p) + ft == s.filter(p) + ft
        }),
{
    let p = |t: Todo| outside_fetch(t, u, ft);
    filter_add_todos(s.filter(p), ft, p);
    lemma_filter_filter(s, p, p);
    lemma_filter_congruent(s, |x: Todo| p(x) && p(x), p);
    lemma_filter_none(ft, p);
    assert(s.filter(p) + Seq::<Todo>::empty() =~= s.filter(p));
}

/// `(a + b).filter(p)` is `a.filter(p) + b.filter(p)`.
proof fn filter_add(a: Seq<EventView>, b: Seq<EventView>, p: spec_fn(EventView) -> bool)
    ensures
        (a + b).filter(p) == a.filter(p) + b.filter(p),
{
    Seq::filter_distributes_over_add(a, b, p);
}

/// `(a + b).filter(p)` is `a.filter(p) + b.filter(p)`.
proof fn filter_add_todos(a: Seq<Todo>, b: Seq<Todo>, p: spec_fn(Todo) -> bool)
    ensures
        (a + b).filter(p) == a.filter(p) + b.filter(p),
{
    Seq::filter_distributes_over_add(a, b, p);
}

/// A filter that keeps no element of the sequence gives the empty sequence.
proof fn lemma_filter_none<A>(s: Seq<A>, p: spec_fn(A) -> bool)
    requires
        forall|i: int| 0 <= i < s.len() ==> !p(#[trigger] s[i]),
    ensures
        s.filter(p) == Seq::<A>::empty(),
    decreases s.len(),
{
    reveal(Seq::filter);
    if s.len() > 0 {
        let d = s.drop_last();
        assert forall|i: int| 0 <= i < d.len() implies !p(#[trigger] d[i]) by {
            assert(d[i] == s[i]);
        }
        lemma_filter_none(d, p);
        assert(!p(s[s.len() - 1]));
    }
    assert(s.filter(p) =~= Seq::<A>::empty());
}


/// End-to-end scenario with one event: on a store with no events, a full
/// fetch of a collection that returns one event without a rule, followed by
/// the end of a pass that still lists the collection, leaves exactly that
/// event, records the pass, and a query of any range it overlaps returns it.
pub proof fn lemma_single_event_pass(
    store: StoreView,
    url: String,
    e: EventView,
    supports_sync: bool,
    config: RecurrenceConfig,
    now: Timestamp,
    live: Seq<String>,
    pass_time: Timestamp,
    a: int,
    b: int,
)
    requires
        store.events.len() == 0,
        e.rrule is None,
        e.calendar_url == url@,
        url_listed(live, url@),
    ensures
        ({
            let s = pass_end_result(full_fetch_result(store, url, seq![e], Seq::empty(), supports_sync, config, now), live, pass_time);
            &&& s.events == seq![e]
            &&& s.last_sync >= pass_time
            &&& e.start < b && e.end > a ==> s.events_in_range(a, b) == seq![e]
        }),
{
    reveal_with_fuel(Seq::filter, 2);
    let one = seq![e];
    assert(one.drop_last() =~= Seq::<EventView>::empty());
    assert(merged_expansions(Seq::<EventView>::empty(), config, now) == Seq::<EventView>::empty());
    assert(expansion_at(e, config, now) == seq![e]);
    assert(Seq::<EventView>::empty().filter(|x: EventView| !has_uid(seq![e], x.uid)) =~= Seq::<EventView>::empty());
    assert(merged_expansions(one, config, now) =~= seq![e]);
    assert(store.events =~= Seq::<EventView>::empty());
    let fe = merged_expansions(one, config, now);
    assert(store.events.filter(|x: EventView| x.calendar_url != url@ && !has_uid(fe, x.uid)) =~= Seq::<EventView>::empty());
    let f = full_fetch_result(store, url, one, Seq::empty(), supports_sync, config, now);
    assert(f.events =~= seq![e]);
    assert(seq![e].drop_last() =~= Seq::<EventView>::empty());
    assert(f.events.filter(|x: EventView| url_listed(live, x.calendar_url)) =~= seq![e]);
    if e.start < b && e.end > a {
        assert(seq![e].filter(|x: EventView| event_overlaps(x, a, b)) =~= seq![e]);
    }
}


/// Stale cleanup over a whole pass: with the collection `a` last fetched in
/// full, a pass in which discovery reports only `a` and `a`'s unchanged
/// content is fetched again (same expansion time) leaves `a`'s events, todos
/// and sync state as they were, and keeps nothing of another collection `b`.
pub proof fn lemma_stale_cleanup_pass(
    store: StoreView,
    a: String,
    b: String,
    events: Seq<EventView>,
    todos: Seq<Todo>,
    supports_sync: bool,
    config: RecurrenceConfig,
    now: Timestamp,
    pass_time: Timestamp,
)
    requires
        a@ != b@,
        forall|i: int| 0 <= i < events.len() ==> (#[trigger] events[i]).calendar_url == a@,
        forall|i: int| 0 <= i < todos.len() ==> (#[trigger] todos[i]).calendar_url@ == a@,
    ensures
        ({
            let before = full_fetch_result(store, a, events, todos, supports_sync, config, now);
            let after = pass_end_result(
                full_fetch_result(before, a, events, todos, supports_sync, config, now),
                seq![a],
                pass_time,
            );
            &&& after.events.filter(|e: EventView| e.calendar_url == a@) == before.events.filter(
                |e: EventView| e.calendar_url == a@,
            )
            &&& after.todos.filter(|t: Todo| t.calendar_url@ == a@) == before.todos.filter(
                |t: Todo| t.calendar_url@ == a@,
            )
            &&& after.token_state(a@) == before.token_state(a@)
            &&& forall|i: int| 0 <= i < after.events.len() ==> (#[trigger] after.events[i]).calendar_url != b@
            &&& forall|i: int| 0 <= i < after.todos.len() ==> (#[trigger] after.todos[i]).calendar_url@ != b@
            &&& after.token_state(b@) == SyncState::NeverSynced
        }),
{
    lemma_full_fetch_idempotent(store, a, events, todos, supports_sync, config, now);
    let before = full_fetch_result(store, a, events, todos, supports_sync, config, now);
    lemma_stale_cleanup(before, a, b);
}

} // verus!
