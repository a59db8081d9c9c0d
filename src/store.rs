//! The calendar store: events, todos, per-collection sync state and the
//! time of the last completed reconciliation pass.

use vstd::prelude::*;
use crate::models::{events_view, opt_view, CalendarEvent, EventView, SyncState, SyncToken, Timestamp, Todo};
use crate::clock::now_timestamp;
use crate::strings::{ends_with, ics_suffix, names_object};
use crate::models::{lemma_filter_members, lemma_filter_step};

verus! {

/// The mathematical value of a `CalendarData`.
pub struct StoreView {
    pub events: Seq<EventView>,
    pub todos: Seq<Todo>,
    pub last_sync: Timestamp,
    pub sync_tokens: Seq<SyncToken>,
}

/// The store itself.
#[derive(Debug, Clone)]
pub struct CalendarData {
    pub events: Vec<CalendarEvent>,
    pub todos: Vec<Todo>,
    pub last_sync: Timestamp,
    pub sync_tokens: Vec<SyncToken>,
}

impl View for CalendarData {
    type V = StoreView;

    open spec fn view(&self) -> StoreView {
        StoreView {
            events: events_view(self.events@),
            todos: self.todos@,
            last_sync: self.last_sync,
            sync_tokens: self.sync_tokens@,
        }
    }
}

/// Two events that may share a uid: occurrences of one recurring series
/// (they differ at most in start and end), or one event without a rule.
pub open spec fn may_share_uid(a: EventView, b: EventView) -> bool {
    a.same_series(b) && (a.rrule is None ==> a == b)
}

/// Two events of the sequence with one uid are occurrences of one recurring
/// series; an event without a rule shares its uid with no other event.
pub open spec fn events_dedup(s: Seq<EventView>) -> bool {
    &&& forall|a: EventView, b: EventView|
        #![trigger s.contains(a), s.contains(b)]
        s.contains(a) && s.contains(b) && a.uid == b.uid ==> may_share_uid(a, b)
    &&& norule_unique(s)
}

/// Two positions of the sequence that hold the same uid hold occurrences of
/// a recurring event: an event without a rule has its uid to itself.
pub open spec fn norule_unique(s: Seq<EventView>) -> bool {
    forall|i: int, j: int|
        0 <= i < s.len() && 0 <= j < s.len() && i != j && (#[trigger] s[i]).uid == (#[trigger] s[j]).uid
            ==> s[i].rrule is Some
}

/// No two elements of the sequence have the same key.
pub open spec fn unique_keys<A>(s: Seq<A>, key: spec_fn(A) -> Seq<char>) -> bool {
    forall|i: int, j: int|
        0 <= i < s.len() && 0 <= j < s.len() && i != j ==> key(#[trigger] s[i]) != key(
            #[trigger] s[j],
        )
}

/// The uid of a todo.
pub open spec fn todo_uid(t: Todo) -> Seq<char> {
    t.uid@
}

/// The collection of a sync-state entry.
pub open spec fn token_url(t: SyncToken) -> Seq<char> {
    t.calendar_url@
}

/// No two todos of the sequence share a uid.
pub open spec fn todos_dedup(s: Seq<Todo>) -> bool {
    unique_keys(s, |t: Todo| todo_uid(t))
}

/// At most one entry per collection, and none that says "never synced".
pub open spec fn tokens_wf(s: Seq<SyncToken>) -> bool {
    &&& unique_keys(s, |t: SyncToken| token_url(t))
    &&& forall|i: int| 0 <= i < s.len() ==> (#[trigger] s[i]).state != SyncState::NeverSynced
}

/// Some event of `s` has this uid.
pub open spec fn has_uid(s: Seq<EventView>, uid: Seq<char>) -> bool {
    exists|i: int| 0 <= i < s.len() && (#[trigger] s[i]).uid == uid
}

/// Every two events of `g` are occurrences of one recurring series, or `g`
/// holds one event without a rule.
pub open spec fn is_series(g: Seq<EventView>) -> bool {
    &&& forall|i: int, j: int| 0 <= i < g.len() && 0 <= j < g.len() ==> may_share_uid(#[trigger] g[i], #[trigger] g[j])
    &&& g.len() > 1 ==> forall|i: int| 0 <= i < g.len() ==> (#[trigger] g[i]).rrule is Some
}

/// The sync state recorded for a collection (the last entry for it wins).
pub open spec fn state_of(tokens: Seq<SyncToken>, url: Seq<char>) -> SyncState
    decreases tokens.len(),
{
    if tokens.len() == 0 {
        SyncState::NeverSynced
    } else if tokens.last().calendar_url@ == url {
        tokens.last().state
    } else {
        state_of(tokens.drop_last(), url)
    }
}

/// The interval `[start, end)` of the event meets `[a, b)`.
pub open spec fn event_overlaps(e: EventView, a: int, b: int) -> bool {
    e.start < b && e.end > a
}

/// A todo is shown for `[a, b)`: by its due date, else by its start date,
/// else always.
pub open spec fn todo_relevant(t: Todo, a: int, b: int) -> bool {
    match t.due {
        Some(d) => a <= d < b,
        None => match t.start {
            Some(s) => a <= s < b,
            None => true,
        },
    }
}

/// The status words of a finished todo.
pub open spec fn completed_status() -> Seq<char> {
    seq!['C', 'O', 'M', 'P', 'L', 'E', 'T', 'E', 'D']
}

pub open spec fn cancelled_status() -> Seq<char> {
    seq!['C', 'A', 'N', 'C', 'E', 'L', 'L', 'E', 'D']
}

/// A todo that is neither completed nor cancelled.
pub open spec fn todo_open(t: Todo) -> bool {
    t.status@ != completed_status() && t.status@ != cancelled_status()
}

/// `url` is one of `live`.
pub open spec fn url_listed(live: Seq<String>, url: Seq<char>) -> bool {
    exists|i: int| 0 <= i < live.len() && (#[trigger] live[i])@ == url
}

/// A deleted remote object at `href` is the item with this uid.
pub open spec fn deleted_by(href: Seq<char>, uid: Seq<char>) -> bool {
    ends_with(href, uid + ics_suffix())
}

impl StoreView {
    /// The store's invariant: uids are unique up to occurrences of one series,
    /// and there is at most one sync-state entry per collection.
    pub open spec fn wf(self) -> bool {
        &&& events_dedup(self.events)
        &&& todos_dedup(self.todos)
        &&& tokens_wf(self.sync_tokens)
    }

    /// The sync state recorded for a collection.
    pub open spec fn token_state(self, url: Seq<char>) -> SyncState {
        state_of(self.sync_tokens, url)
    }

    /// The store holds an event or a todo of this collection.
    pub open spec fn holds_items_of(self, url: Seq<char>) -> bool {
        (exists|i: int| 0 <= i < self.events.len() && (#[trigger] self.events[i]).calendar_url == url)
            || (exists|i: int|
            0 <= i < self.todos.len() && (#[trigger] self.todos[i]).calendar_url@ == url)
    }

    /// Events overlapping `[a, b)`.
    pub open spec fn events_in_range(self, a: int, b: int) -> Seq<EventView> {
        self.events.filter(|e: EventView| event_overlaps(e, a, b))
    }

    /// Todos shown for `[a, b)`.
    pub open spec fn todos_in_range(self, a: int, b: int) -> Seq<Todo> {
        self.todos.filter(|t: Todo| todo_relevant(t, a, b))
    }

    /// Every item and sync state of a collection that is not in `live` removed.
    pub open spec fn retain_collections(self, live: Seq<String>) -> StoreView {
        StoreView {
            events: self.events.filter(|e: EventView| url_listed(live, e.calendar_url)),
            todos: self.todos.filter(|t: Todo| url_listed(live, t.calendar_url@)),
            sync_tokens: self.sync_tokens.filter(|t: SyncToken| url_listed(live, t.calendar_url@)),
            ..self
        }
    }

    /// The items that a deleted remote object at `href` stood for removed.
    pub open spec fn remove_deleted(self, href: Seq<char>) -> StoreView {
        StoreView {
            events: self.events.filter(|e: EventView| !deleted_by(href, e.uid)),
            todos: self.todos.filter(|t: Todo| !deleted_by(href, t.uid@)),
            ..self
        }
    }

    /// The occurrences `group` of one series put in place of every event that
    /// has its uid.
    pub open spec fn replace_by_uid(self, group: Seq<EventView>) -> StoreView {
        StoreView { events: replace_events(self.events, group), ..self }
    }

    /// `todo` put in place of every todo that has its uid.
    pub open spec fn replace_todo(self, todo: Todo) -> StoreView {
        StoreView { todos: replace_todos(self.todos, todo), ..self }
    }

    /// The collection's sync state set to `state`.
    pub open spec fn set_token_state(self, url: String, state: SyncState) -> StoreView {
        StoreView { sync_tokens: set_state(self.sync_tokens, url, state), ..self }
    }

    /// A collection's content replaced by what a full fetch returned: every
    /// item of the collection and every item that shares a uid with a fetched
    /// one goes, and the fetched items follow the rest.
    pub open spec fn replace_collection(
        self,
        url: Seq<char>,
        events: Seq<EventView>,
        todos: Seq<Todo>,
    ) -> StoreView {
        StoreView {
            events: self.events.filter(
                |e: EventView| e.calendar_url != url && !has_uid(events, e.uid),
            ) + events,
            todos: self.todos.filter(|t: Todo| outside_fetch(t, url, todos)) + todos,
            ..self
        }
    }
}

/// A todo that a full fetch of `url` returning `fetched` leaves in place.
pub open spec fn outside_fetch(t: Todo, url: Seq<char>, fetched: Seq<Todo>) -> bool {
    t.calendar_url@ != url && !has_todo_uid(fetched, t.uid@)
}

/// Some todo of `s` has this uid.
pub open spec fn has_todo_uid(s: Seq<Todo>, uid: Seq<char>) -> bool {
    exists|i: int| 0 <= i < s.len() && (#[trigger] s[i]).uid@ == uid
}

/// `group` in place of every event of `s` that has one of its uids.
pub open spec fn replace_events(s: Seq<EventView>, group: Seq<EventView>) -> Seq<EventView> {
    s.filter(|e: EventView| !has_uid(group, e.uid)) + group
}

/// `todo` in place of every todo of `s` with its uid.
pub open spec fn replace_todos(s: Seq<Todo>, todo: Todo) -> Seq<Todo> {
    s.filter(|t: Todo| t.uid@ != todo.uid@).push(todo)
}

/// The entry of `url` replaced; `NeverSynced` is recorded as no entry.
pub open spec fn set_state(tokens: Seq<SyncToken>, url: String, state: SyncState) -> Seq<
    SyncToken,
> {
    let rest = tokens.filter(|t: SyncToken| t.calendar_url@ != url@);
    if state == SyncState::NeverSynced {
        rest
    } else {
        rest.push(SyncToken { calendar_url: url, state })
    }
}


/// The elements of `v` that `keep` accepts, in order.
fn filter_events<F: Fn(&CalendarEvent) -> bool>(
    v: &Vec<CalendarEvent>,
    keep: F,
    Ghost(p): Ghost<spec_fn(EventView) -> bool>,
) -> (r: Vec<CalendarEvent>)
    requires
        forall|e: &CalendarEvent| #[trigger] keep.requires((e,)),
        forall|e: &CalendarEvent, b: bool| keep.ensures((e,), b) ==> b == p(e@),
    ensures
        events_view(r@) == events_view(v@).filter(p),
{
    let mut r: Vec<CalendarEvent> = Vec::new();
    let mut i: usize = 0;
    while i < v.len()
        invariant
            i <= v.len(),
            forall|e: &CalendarEvent| #[trigger] keep.requires((e,)),
            forall|e: &CalendarEvent, b: bool| keep.ensures((e,), b) ==> b == p(e@),
            events_view(r@) == events_view(v@).subrange(0, i as int).filter(p),
        decreases v.len() - i,
    {
        let ghost before = r@;
        let b = keep(&v[i]);
        if b {
            r.push(v[i].duplicate());
            assert(events_view(r@) =~= events_view(before).push(v@[i as int]@));
        }
        proof {
            lemma_filter_step(events_view(v@), i as int, p);
            assert(events_view(v@)[i as int] == v@[i as int]@);
        }
        i = i + 1;
    }
    assert(events_view(v@).subrange(0, v.len() as int) =~= events_view(v@));
    r
}

/// The elements of `v` that `keep` accepts, in order.
fn filter_todos<F: Fn(&Todo) -> bool>(v: &Vec<Todo>, keep: F, Ghost(p): Ghost<spec_fn(Todo) -> bool>) -> (r: Vec<Todo>)
    requires
        forall|t: &Todo| #[trigger] keep.requires((t,)),
        forall|t: &Todo, b: bool| keep.ensures((t,), b) ==> b == p(*t),
    ensures
        r@ == v@.filter(p),
{
    let mut r: Vec<Todo> = Vec::new();
    let mut i: usize = 0;
    while i < v.len()
        invariant
            i <= v.len(),
            forall|t: &Todo| #[trigger] keep.requires((t,)),
            forall|t: &Todo, b: bool| keep.ensures((t,), b) ==> b == p(*t),
            r@ == v@.subrange(0, i as int).filter(p),
        decreases v.len() - i,
    {
        let b = keep(&v[i]);
        if b {
            r.push(v[i].duplicate());
        }
        proof {
            lemma_filter_step(v@, i as int, p);
        }
        i = i + 1;
    }
    assert(v@.subrange(0, v.len() as int) =~= v@);
    r
}

/// The entries of `v` that `keep` accepts, in order.
fn filter_tokens<F: Fn(&SyncToken) -> bool>(
    v: &Vec<SyncToken>,
    keep: F,
    Ghost(p): Ghost<spec_fn(SyncToken) -> bool>,
) -> (r: Vec<SyncToken>)
    requires
        forall|t: &SyncToken| #[trigger] keep.requires((t,)),
        forall|t: &SyncToken, b: bool| keep.ensures((t,), b) ==> b == p(*t),
    ensures
        r@ == v@.filter(p),
{
    let mut r: Vec<SyncToken> = Vec::new();
    let mut i: usize = 0;
    while i < v.len()
        invariant
            i <= v.len(),
            forall|t: &SyncToken| #[trigger] keep.requires((t,)),
            forall|t: &SyncToken, b: bool| keep.ensures((t,), b) ==> b == p(*t),
            r@ == v@.subrange(0, i as int).filter(p),
        decreases v.len() - i,
    {
        let b = keep(&v[i]);
        if b {
            r.push(SyncToken { calendar_url: v[i].calendar_url.clone(), state: v[i].state.duplicate() });
        }
        proof {
            lemma_filter_step(v@, i as int, p);
        }
        i = i + 1;
    }
    assert(v@.subrange(0, v.len() as int) =~= v@);
    r
}


/// Filtering keeps keys unique.
pub proof fn lemma_filter_unique<A>(s: Seq<A>, p: spec_fn(A) -> bool, key: spec_fn(A) -> Seq<char>)
    requires
        unique_keys(s, key),
    ensures
        unique_keys(s.filter(p), key),
    decreases s.len(),
{
    reveal(Seq::filter);
    if s.len() > 0 {
        let d = s.drop_last();
        assert(unique_keys(d, key)) by {
            assert forall|i: int, j: int|
                0 <= i < d.len() && 0 <= j < d.len() && i != j implies key(#[trigger] d[i]) != key(
                #[trigger] d[j]) by {
                assert(d[i] == s[i] && d[j] == s[j]);
            }
        }
        lemma_filter_unique(d, p, key);
        lemma_filter_members(d, p);
        let f = s.filter(p);
        let g = d.filter(p);
        if p(s.last()) {
            assert(f == g.push(s.last()));
            assert forall|i: int, j: int|
                0 <= i < f.len() && 0 <= j < f.len() && i != j implies key(#[trigger] f[i]) != key(
                #[trigger] f[j]) by {
                if i < g.len() && j < g.len() {
                    assert(f[i] == g[i] && f[j] == g[j]);
                } else if i < g.len() {
                    assert(f[i] == g[i]);
                    assert(d.contains(g[i]));
                    let m = choose|m: int| 0 <= m < d.len() && d[m] == g[i];
                    assert(s[m] == g[i]);
                    assert(key(s[m]) != key(s[s.len() - 1]));
                } else {
                    assert(f[j] == g[j]);
                    assert(d.contains(g[j]));
                    let m = choose|m: int| 0 <= m < d.len() && d[m] == g[j];
                    assert(s[m] == g[j]);
                    assert(key(s[m]) != key(s[s.len() - 1]));
                }
            }
        }
    }
}

/// Appending an element with a fresh key keeps keys unique.
pub proof fn lemma_push_unique<A>(s: Seq<A>, x: A, key: spec_fn(A) -> Seq<char>)
    requires
        unique_keys(s, key),
        forall|i: int| 0 <= i < s.len() ==> key(#[trigger] s[i]) != key(x),
    ensures
        unique_keys(s.push(x), key),
{
    let t = s.push(x);
    assert forall|i: int, j: int|
        0 <= i < t.len() && 0 <= j < t.len() && i != j implies key(#[trigger] t[i]) != key(
        #[trigger] t[j]) by {
        if i < s.len() && j < s.len() {
            assert(t[i] == s[i] && t[j] == s[j]);
        } else if i < s.len() {
            assert(t[i] == s[i]);
        } else {
            assert(t[j] == s[j]);
        }
    }
}

/// A filtered sequence holds only elements of the original.
pub proof fn lemma_filter_contains_from<A>(s: Seq<A>, p: spec_fn(A) -> bool, a: A)
    requires
        s.filter(p).contains(a),
    ensures
        s.contains(a),
        p(a),
{
    lemma_filter_members(s, p);
    let i = choose|i: int| 0 <= i < s.filter(p).len() && s.filter(p)[i] == a;
    assert(p(s.filter(p)[i]) && s.contains(s.filter(p)[i]));
}

/// Filtering keeps the events' dedup invariant.
pub proof fn lemma_filter_events_dedup(s: Seq<EventView>, p: spec_fn(EventView) -> bool)
    requires
        events_dedup(s),
    ensures
        events_dedup(s.filter(p)),
{
    let f = s.filter(p);
    assert forall|a: EventView, b: EventView|
        f.contains(a) && f.contains(b) && a.uid == b.uid implies may_share_uid(a, b) by {
        lemma_filter_contains_from(s, p, a);
        lemma_filter_contains_from(s, p, b);
    }
    lemma_filter_norule(s, p);
}

/// Filtering keeps uids of events without a rule to themselves.
pub proof fn lemma_filter_norule(s: Seq<EventView>, p: spec_fn(EventView) -> bool)
    requires
        norule_unique(s),
    ensures
        norule_unique(s.filter(p)),
    decreases s.len(),
{
    reveal(Seq::filter);
    if s.len() > 0 {
        let d = s.drop_last();
        assert(norule_unique(d)) by {
            assert forall|i: int, j: int|
                0 <= i < d.len() && 0 <= j < d.len() && i != j && (#[trigger] d[i]).uid == (
                #[trigger] d[j]).uid implies d[i].rrule is Some by {
                assert(d[i] == s[i] && d[j] == s[j]);
            }
        }
        lemma_filter_norule(d, p);
        lemma_filter_members(d, p);
        let f = s.filter(p);
        let g = d.filter(p);
        let n = s.len() - 1;
        if p(s.last()) {
            assert(f == g.push(s.last()));
            assert forall|i: int, j: int|
                0 <= i < f.len() && 0 <= j < f.len() && i != j && (#[trigger] f[i]).uid == (
                #[trigger] f[j]).uid implies f[i].rrule is Some by {
                if i < g.len() && j < g.len() {
                    assert(f[i] == g[i] && f[j] == g[j]);
                } else if i < g.len() {
                    assert(f[i] == g[i]);
                    assert(d.contains(g[i]));
                    let m = choose|m: int| 0 <= m < d.len() && d[m] == g[i];
                    assert(s[m] == g[i] && f[j] == s[n]);
                    assert(s[m].uid == s[n].uid && m != n);
                } else {
                    assert(f[j] == g[j]);
                    assert(d.contains(g[j]));
                    let m = choose|m: int| 0 <= m < d.len() && d[m] == g[j];
                    assert(s[m] == g[j] && f[i] == s[n]);
                    assert(s[n].uid == s[m].uid && m != n);
                }
            }
        }
    }
}

/// Filtering keeps the sync-state entries well formed.
pub proof fn lemma_filter_tokens_wf(s: Seq<SyncToken>, p: spec_fn(SyncToken) -> bool)
    requires
        tokens_wf(s),
    ensures
        tokens_wf(s.filter(p)),
{
    lemma_filter_unique(s, p, |t: SyncToken| token_url(t));
    lemma_filter_members(s, p);
    let f = s.filter(p);
    assert forall|i: int| 0 <= i < f.len() implies (#[trigger] f[i]).state != SyncState::NeverSynced by {
        assert(s.contains(f[i]));
    }
}


/// Two sequences with unique keys, no key in both: their concatenation has
/// unique keys.
pub proof fn lemma_concat_unique<A>(x: Seq<A>, g: Seq<A>, key: spec_fn(A) -> Seq<char>)
    requires
        unique_keys(x, key),
        unique_keys(g, key),
        forall|i: int, j: int|
            0 <= i < x.len() && 0 <= j < g.len() ==> key(#[trigger] x[i]) != key(#[trigger] g[j]),
    ensures
        unique_keys(x + g, key),
{
    let t = x + g;
    assert forall|i: int, j: int|
        0 <= i < t.len() && 0 <= j < t.len() && i != j implies key(#[trigger] t[i]) != key(
        #[trigger] t[j]) by {
        if i < x.len() && j < x.len() {
            assert(t[i] == x[i] && t[j] == x[j]);
        } else if i < x.len() {
            assert(t[i] == x[i] && t[j] == g[j - x.len()]);
        } else if j < x.len() {
            assert(t[j] == x[j] && t[i] == g[i - x.len()]);
        } else {
            assert(t[i] == g[i - x.len()] && t[j] == g[j - x.len()]);
        }
    }
}

/// A series is deduplicated.
pub proof fn lemma_series_dedup(g: Seq<EventView>)
    requires
        is_series(g),
    ensures
        events_dedup(g),
{
    assert forall|a: EventView, b: EventView|
        g.contains(a) && g.contains(b) && a.uid == b.uid implies may_share_uid(a, b) by {
        let i = choose|i: int| 0 <= i < g.len() && g[i] == a;
        let j = choose|j: int| 0 <= j < g.len() && g[j] == b;
        assert(may_share_uid(g[i], g[j]));
    }
    assert forall|i: int, j: int|
        0 <= i < g.len() && 0 <= j < g.len() && i != j && (#[trigger] g[i]).uid == (#[trigger] g[j]).uid
            implies g[i].rrule is Some by {
        assert(g.len() > 1);
    }
}

/// Two deduplicated sequences that share no uid concatenate to a
/// deduplicated sequence.
pub proof fn lemma_concat_dedup(x: Seq<EventView>, g: Seq<EventView>)
    requires
        events_dedup(x),
        events_dedup(g),
        forall|i: int| 0 <= i < x.len() ==> !has_uid(g, (#[trigger] x[i]).uid),
    ensures
        events_dedup(x + g),
{
    let t = x + g;
    assert forall|a: EventView, b: EventView|
        t.contains(a) && t.contains(b) && a.uid == b.uid implies may_share_uid(a, b) by {
        let i = choose|i: int| 0 <= i < t.len() && t[i] == a;
        let j = choose|j: int| 0 <= j < t.len() && t[j] == b;
        if i < x.len() {
            assert(x[i] == a);
            assert(x.contains(a));
        } else {
            assert(g[i - x.len()] == a);
            assert(g.contains(a));
        }
        if j < x.len() {
            assert(x[j] == b);
            assert(x.contains(b));
        } else {
            assert(g[j - x.len()] == b);
            assert(g.contains(b));
        }
        if i < x.len() && j >= x.len() {
            assert(!has_uid(g, x[i].uid));
            assert(g[j - x.len()].uid == a.uid);
        }
        if j < x.len() && i >= x.len() {
            assert(!has_uid(g, x[j].uid));
            assert(g[i - x.len()].uid == b.uid);
        }
    }
    assert forall|i: int, j: int|
        0 <= i < t.len() && 0 <= j < t.len() && i != j && (#[trigger] t[i]).uid == (#[trigger] t[j]).uid
            implies t[i].rrule is Some by {
        if i < x.len() && j < x.len() {
            assert(t[i] == x[i] && t[j] == x[j]);
        } else if i < x.len() {
            assert(t[i] == x[i] && t[j] == g[j - x.len()]);
            assert(!has_uid(g, x[i].uid));
        } else if j < x.len() {
            assert(t[j] == x[j] && t[i] == g[i - x.len()]);
            assert(!has_uid(g, x[j].uid));
        } else {
            assert(t[i] == g[i - x.len()] && t[j] == g[j - x.len()]);
        }
    }
}

/// Whether `url` is one of `live`.
fn url_in(live: &Vec<String>, url: &String) -> (r: bool)
    ensures
        r == url_listed(live@, url@),
{
    let mut i: usize = 0;
    while i < live.len()
        invariant
            i <= live.len(),
            forall|j: int| 0 <= j < i ==> (#[trigger] live@[j])@ != url@,
        decreases live.len() - i,
    {
        if live[i] == *url {
            return true;
        }
        i = i + 1;
    }
    false
}

/// Whether some event of `group` has this uid.
fn group_has_uid(group: &Vec<CalendarEvent>, uid: &String) -> (r: bool)
    ensures
        r == has_uid(events_view(group@), uid@),
{
    let mut i: usize = 0;
    while i < group.len()
        invariant
            i <= group.len(),
            forall|j: int| 0 <= j < i ==> (#[trigger] group@[j]).uid@ != uid@,
        decreases group.len() - i,
    {
        if group[i].uid == *uid {
            assert(events_view(group@)[i as int].uid == uid@);
            return true;
        }
        i = i + 1;
    }
    assert forall|j: int| 0 <= j < group@.len() implies (#[trigger] events_view(group@)[j]).uid != uid@ by {
        assert(events_view(group@)[j] == group@[j]@);
    }
    false
}

/// Whether some todo of `todos` has this uid.
fn todos_have_uid(todos: &Vec<Todo>, uid: &String) -> (r: bool)
    ensures
        r == has_todo_uid(todos@, uid@),
{
    let mut i: usize = 0;
    while i < todos.len()
        invariant
            i <= todos.len(),
            forall|j: int| 0 <= j < i ==> (#[trigger] todos@[j]).uid@ != uid@,
        decreases todos.len() - i,
    {
        if todos[i].uid == *uid {
            return true;
        }
        i = i + 1;
    }
    false
}

/// Whether two optional strings are equal.
fn same_opt(a: &Option<String>, b: &Option<String>) -> (r: bool)
    ensures
        r == (opt_view(*a) == opt_view(*b)),
{
    match (a, b) {
        (Some(x), Some(y)) => *x == *y,
        (None, None) => true,
        _ => false,
    }
}

/// Whether two instant lists are equal.
fn same_instants(a: &Vec<Timestamp>, b: &Vec<Timestamp>) -> (r: bool)
    ensures
        r == (a@ == b@),
{
    if a.len() != b.len() {
        return false;
    }
    let mut i: usize = 0;
    while i < a.len()
        invariant
            a.len() == b.len(),
            i <= a.len(),
            forall|j: int| 0 <= j < i ==> a@[j] == b@[j],
        decreases a.len() - i,
    {
        if a[i] != b[i] {
            return false;
        }
        i = i + 1;
    }
    assert(a@ =~= b@);
    true
}

/// Whether two events differ at most in their start and end.
fn same_series_exec(a: &CalendarEvent, b: &CalendarEvent) -> (r: bool)
    ensures
        r == a@.same_series(b@),
{
    let r = a.uid == b.uid && a.summary == b.summary && same_opt(&a.description, &b.description)
        && same_opt(&a.location, &b.location) && a.calendar_name == b.calendar_name
        && a.calendar_url == b.calendar_url && same_opt(&a.calendar_color, &b.calendar_color)
        && a.all_day == b.all_day && same_opt(&a.rrule, &b.rrule) && same_instants(&a.exdates, &b.exdates)
        && same_opt(&a.status, &b.status) && same_opt(&a.etag, &b.etag);
    assert(r == (a@.with_times(b@.start, b@.end) == b@));
    r
}

/// Whether the events satisfy the store's dedup invariant.
fn events_deduplicated(events: &Vec<CalendarEvent>) -> (r: bool)
    ensures
        r == events_dedup(events_view(events@)),
{
    let ghost s = events_view(events@);
    let mut i: usize = 0;
    while i < events.len()
        invariant
            i <= events.len(),
            s == events_view(events@),
            forall|x: int, y: int|
                0 <= x < i && 0 <= y < events.len() && s[x].uid == s[y].uid ==> may_share_uid(
                    #[trigger] s[x],
                    #[trigger] s[y],
                ),
            forall|x: int, y: int|
                0 <= x < i && 0 <= y < events.len() && x != y && (#[trigger] s[x]).uid == (#[trigger] s[y]).uid
                    ==> s[x].rrule is Some,
        decreases events.len() - i,
    {
        let mut j: usize = 0;
        while j < events.len()
            invariant
                i < events.len(),
                j <= events.len(),
                s == events_view(events@),
                forall|x: int, y: int|
                    0 <= x < i && 0 <= y < events.len() && s[x].uid == s[y].uid ==> may_share_uid(
                        #[trigger] s[x],
                        #[trigger] s[y],
                    ),
                forall|x: int, y: int|
                    0 <= x < i && 0 <= y < events.len() && x != y && (#[trigger] s[x]).uid == (#[trigger] s[y]).uid
                        ==> s[x].rrule is Some,
                forall|y: int| 0 <= y < j && s[i as int].uid == s[y].uid ==> may_share_uid(s[i as int], #[trigger] s[y]),
                forall|y: int| 0 <= y < j && y != i && s[i as int].uid == (#[trigger] s[y]).uid ==> s[i as int].rrule is Some,
            decreases events.len() - j,
        {
            let clash = !same_series_exec(&events[i], &events[j]) || (i != j && events[i].rrule.is_none());
            if events[i].uid == events[j].uid && clash {
                proof {
                    assert(s.contains(s[i as int]) && s.contains(s[j as int]));
                    assert(s[i as int] == events@[i as int]@ && s[j as int] == events@[j as int]@);
                }
                return false;
            }
            proof {
                assert(s[i as int] == events@[i as int]@ && s[j as int] == events@[j as int]@);
            }
            j = j + 1;
        }
        i = i + 1;
    }
    proof {
        assert forall|a: EventView, b: EventView|
            s.contains(a) && s.contains(b) && a.uid == b.uid implies may_share_uid(a, b) by {
            let x = choose|x: int| 0 <= x < s.len() && s[x] == a;
            let y = choose|y: int| 0 <= y < s.len() && s[y] == b;
            assert(may_share_uid(s[x], s[y]));
        }
    }
    true
}

/// Whether no two todos share a uid.
fn todos_deduplicated(todos: &Vec<Todo>) -> (r: bool)
    ensures
        r == todos_dedup(todos@),
{
    let mut i: usize = 0;
    while i < todos.len()
        invariant
            i <= todos.len(),
            forall|x: int, y: int|
                0 <= x < i && 0 <= y < todos.len() && x != y ==> todo_uid(#[trigger] todos@[x]) != todo_uid(
                    #[trigger] todos@[y],
                ),
        decreases todos.len() - i,
    {
        let mut j: usize = 0;
        while j < todos.len()
            invariant
                i < todos.len(),
                j <= todos.len(),
                forall|x: int, y: int|
                    0 <= x < i && 0 <= y < todos.len() && x != y ==> todo_uid(#[trigger] todos@[x]) != todo_uid(
                        #[trigger] todos@[y],
                    ),
                forall|y: int| 0 <= y < j && y != i ==> todo_uid(todos@[i as int]) != todo_uid(#[trigger] todos@[y]),
            decreases todos.len() - j,
        {
            if i != j && todos[i].uid == todos[j].uid {
                return false;
            }
            j = j + 1;
        }
        i = i + 1;
    }
    true
}

/// Whether the sync-state entries are well formed.
fn tokens_valid(tokens: &Vec<SyncToken>) -> (r: bool)
    ensures
        r == tokens_wf(tokens@),
{
    let mut i: usize = 0;
    while i < tokens.len()
        invariant
            i <= tokens.len(),
            forall|x: int, y: int|
                0 <= x < i && 0 <= y < tokens.len() && x != y ==> token_url(#[trigger] tokens@[x]) != token_url(
                    #[trigger] tokens@[y],
                ),
            forall|x: int| 0 <= x < i ==> (#[trigger] tokens@[x]).state != SyncState::NeverSynced,
        decreases tokens.len() - i,
    {
        if let SyncState::NeverSynced = tokens[i].state {
            return false;
        }
        let mut j: usize = 0;
        while j < tokens.len()
            invariant
                i < tokens.len(),
                j <= tokens.len(),
                forall|x: int, y: int|
                    0 <= x < i && 0 <= y < tokens.len() && x != y ==> token_url(#[trigger] tokens@[x]) != token_url(
                        #[trigger] tokens@[y],
                    ),
                forall|y: int| 0 <= y < j && y != i ==> token_url(tokens@[i as int]) != token_url(#[trigger] tokens@[y]),
            decreases tokens.len() - j,
        {
            if i != j && tokens[i].calendar_url == tokens[j].calendar_url {
                return false;
            }
            j = j + 1;
        }
        i = i + 1;
    }
    true
}

impl Default for CalendarData {
    fn default() -> (r: CalendarData)
        ensures
            r@.wf(),
            r@.events.len() == 0,
            r@.todos.len() == 0,
            r@.sync_tokens.len() == 0,
    {
        CalendarData::new()
    }
}

impl CalendarData {
    /// An empty store whose last sync is now.
    pub fn new() -> (r: CalendarData)
        ensures
            r@.wf(),
            r@.events.len() == 0,
            r@.todos.len() == 0,
            r@.sync_tokens.len() == 0,
    {
        CalendarData::empty_at(now_timestamp())
    }

    /// A store with the given content (a snapshot read back), or `None` when
    /// the content breaks the store's invariant.
    pub fn restore(
        events: Vec<CalendarEvent>,
        todos: Vec<Todo>,
        last_sync: Timestamp,
        sync_tokens: Vec<SyncToken>,
    ) -> (r: Option<CalendarData>)
        ensures
            match r {
                Some(d) => d@ == (StoreView {
                    events: events_view(events@),
                    todos: todos@,
                    last_sync,
                    sync_tokens: sync_tokens@,
                }) && d@.wf(),
                None => !(StoreView {
                    events: events_view(events@),
                    todos: todos@,
                    last_sync,
                    sync_tokens: sync_tokens@,
                }).wf(),
            },
    {
        if events_deduplicated(&events) && todos_deduplicated(&todos) && tokens_valid(&sync_tokens) {
            Some(CalendarData { events, todos, last_sync, sync_tokens })
        } else {
            None
        }
    }

    /// An empty store whose last sync is `now`.
    pub fn empty_at(now: Timestamp) -> (r: CalendarData)
        ensures
            r@.wf(),
            r@.events.len() == 0,
            r@.todos.len() == 0,
            r@.sync_tokens.len() == 0,
            r@.last_sync == now,
    {
        let r = CalendarData { events: Vec::new(), todos: Vec::new(), last_sync: now, sync_tokens: Vec::new() };
        assert(r@.events =~= Seq::<EventView>::empty());
        r
    }

    /// Events overlapping `[start, end)`.
    pub fn events_in_range(&self, start: Timestamp, end: Timestamp) -> (r: Vec<CalendarEvent>)
        ensures
            events_view(r@) == self@.events_in_range(start as int, end as int),
    {
        filter_events(
            &self.events,
            (|e: &CalendarEvent| -> (b: bool)
                ensures
                    b == event_overlaps(e@, start as int, end as int),
                { e.start < end && e.end > start }),
            Ghost(|e: EventView| event_overlaps(e, start as int, end as int)),
        )
    }

    /// Todos shown for `[start, end)`.
    pub fn todos_in_range(&self, start: Timestamp, end: Timestamp) -> (r: Vec<Todo>)
        ensures
            r@ == self@.todos_in_range(start as int, end as int),
    {
        filter_todos(
            &self.todos,
            (|t: &Todo| -> (b: bool)
                ensures
                    b == todo_relevant(*t, start as int, end as int),
                {
                    match t.due {
                        Some(d) => start <= d && d < end,
                        None => match t.start {
                            Some(s) => start <= s && s < end,
                            None => true,
                        },
                    }
                }),
            Ghost(|t: Todo| todo_relevant(t, start as int, end as int)),
        )
    }

    /// Todos that are neither completed nor cancelled.
    pub fn incomplete_todos(&self) -> (r: Vec<Todo>)
        ensures
            r@ == self@.todos.filter(|t: Todo| todo_open(t)),
    {
        proof {
            reveal_strlit("COMPLETED");
            reveal_strlit("CANCELLED");
        }
        let completed = String::from_str("COMPLETED");
        let cancelled = String::from_str("CANCELLED");
        assert(completed@ =~= completed_status());
        assert(cancelled@ =~= cancelled_status());
        filter_todos(
            &self.todos,
            (|t: &Todo| -> (b: bool)
                ensures
                    b == todo_open(*t),
                { !(t.status == completed) && !(t.status == cancelled) }),
            Ghost(|t: Todo| todo_open(t)),
        )
    }

    /// The sync state recorded for a collection.
    pub fn token_state(&self, url: &String) -> (r: SyncState)
        ensures
            r == self@.token_state(url@),
    {
        let mut i: usize = self.sync_tokens.len();
        assert(self.sync_tokens@.subrange(0, i as int) =~= self.sync_tokens@);
        while i > 0
            invariant
                i <= self.sync_tokens.len(),
                state_of(self.sync_tokens@, url@) == state_of(
                    self.sync_tokens@.subrange(0, i as int),
                    url@,
                ),
            decreases i,
        {
            let ghost sub = self.sync_tokens@.subrange(0, i as int);
            assert(sub.drop_last() =~= self.sync_tokens@.subrange(0, i - 1));
            if self.sync_tokens[i - 1].calendar_url == *url {
                return self.sync_tokens[i - 1].state.duplicate();
            }
            i = i - 1;
        }
        assert(self.sync_tokens@.subrange(0, 0) =~= Seq::<SyncToken>::empty());
        SyncState::NeverSynced
    }

    /// Whether the store holds an event or a todo of the collection.
    pub fn holds_items_of(&self, url: &String) -> (r: bool)
        ensures
            r == self@.holds_items_of(url@),
    {
        let mut i: usize = 0;
        while i < self.events.len()
            invariant
                i <= self.events.len(),
                forall|j: int| 0 <= j < i ==> (#[trigger] self.events@[j]).calendar_url@ != url@,
            decreases self.events.len() - i,
        {
            if self.events[i].calendar_url == *url {
                assert(self@.events[i as int].calendar_url == url@);
                return true;
            }
            i = i + 1;
        }
        let mut k: usize = 0;
        while k < self.todos.len()
            invariant
                k <= self.todos.len(),
                forall|j: int| 0 <= j < k ==> (#[trigger] self.todos@[j]).calendar_url@ != url@,
            decreases self.todos.len() - k,
        {
            if self.todos[k].calendar_url == *url {
                return true;
            }
            k = k + 1;
        }
        assert forall|j: int| 0 <= j < self@.events.len() implies (#[trigger] self@.events[j]).calendar_url != url@ by {
            assert(self@.events[j] == self.events@[j]@);
        }
        false
    }

    /// Record `state` as the collection's sync state.
    pub fn set_token_state(&mut self, url: &String, state: SyncState)
        requires
            old(self)@.wf(),
        ensures
            final(self)@ == old(self)@.set_token_state(*url, state),
            final(self)@.wf(),
    {
        let ghost p = |t: SyncToken| t.calendar_url@ != url@;
        let mut rest = filter_tokens(
            &self.sync_tokens,
            (|t: &SyncToken| -> (b: bool)
                ensures
                    b == (t.calendar_url@ != url@),
                { !(t.calendar_url == *url) }),
            Ghost(p),
        );
        proof {
            lemma_filter_tokens_wf(self.sync_tokens@, p);
            lemma_filter_members(self.sync_tokens@, p);
        }
        let ghost filtered = rest@;
        let is_never = match state {
            SyncState::NeverSynced => true,
            _ => false,
        };
        if !is_never {
            rest.push(SyncToken { calendar_url: url.clone(), state });
            proof {
                let entry = SyncToken { calendar_url: *url, state };
                lemma_push_unique(filtered, entry, |t: SyncToken| token_url(t));
                assert(forall|i: int| 0 <= i < filtered.len() ==> p(#[trigger] filtered[i]));
            }
        }
        self.sync_tokens = rest;
    }

    /// Remove every item and sync state of a collection that is not in `live`.
    pub fn retain_collections(&mut self, live: &Vec<String>)
        requires
            old(self)@.wf(),
        ensures
            final(self)@ == old(self)@.retain_collections(live@),
            final(self)@.wf(),
    {
        let ghost pe = |e: EventView| url_listed(live@, e.calendar_url);
        let ghost pt = |t: Todo| url_listed(live@, t.calendar_url@);
        let ghost pk = |t: SyncToken| url_listed(live@, t.calendar_url@);
        let events = filter_events(
            &self.events,
            (|e: &CalendarEvent| -> (b: bool)
                ensures
                    b == url_listed(live@, e.calendar_url@),
                { url_in(live, &e.calendar_url) }),
            Ghost(pe),
        );
        let todos = filter_todos(
            &self.todos,
            (|t: &Todo| -> (b: bool)
                ensures
                    b == url_listed(live@, t.calendar_url@),
                { url_in(live, &t.calendar_url) }),
            Ghost(pt),
        );
        let tokens = filter_tokens(
            &self.sync_tokens,
            (|t: &SyncToken| -> (b: bool)
                ensures
                    b == url_listed(live@, t.calendar_url@),
                { url_in(live, &t.calendar_url) }),
            Ghost(pk),
        );
        proof {
            lemma_filter_events_dedup(old(self)@.events, pe);
            lemma_filter_unique(self.todos@, pt, |t: Todo| todo_uid(t));
            lemma_filter_tokens_wf(self.sync_tokens@, pk);
        }
        self.events = events;
        self.todos = todos;
        self.sync_tokens = tokens;
    }

    /// Remove the items that a deleted remote object at `href` stood for;
    /// returns how many events and how many todos went.
    pub fn remove_deleted(&mut self, href: &String) -> (r: (usize, usize))
        requires
            old(self)@.wf(),
        ensures
            final(self)@ == old(self)@.remove_deleted(href@),
            final(self)@.wf(),
            r.0 == old(self)@.events.len() - final(self)@.events.len(),
            r.1 == old(self)@.todos.len() - final(self)@.todos.len(),
    {
        let ghost pe = |e: EventView| !deleted_by(href@, e.uid);
        let ghost pt = |t: Todo| !deleted_by(href@, t.uid@);
        let events = filter_events(
            &self.events,
            (|e: &CalendarEvent| -> (b: bool)
                ensures
                    b == !deleted_by(href@, e.uid@),
                { !names_object(href.as_str(), e.uid.as_str()) }),
            Ghost(pe),
        );
        let todos = filter_todos(
            &self.todos,
            (|t: &Todo| -> (b: bool)
                ensures
                    b == !deleted_by(href@, t.uid@),
                { !names_object(href.as_str(), t.uid.as_str()) }),
            Ghost(pt),
        );
        proof {
            lemma_filter_events_dedup(old(self)@.events, pe);
            lemma_filter_unique(self.todos@, pt, |t: Todo| todo_uid(t));
            old(self)@.events.lemma_filter_len(pe);
            self.todos@.lemma_filter_len(pt);
            assert(events_view(events@).len() == events@.len());
            assert(events_view(self.events@).len() == self.events@.len());
        }
        let r = (self.events.len() - events.len(), self.todos.len() - todos.len());
        self.events = events;
        self.todos = todos;
        r
    }

    /// Put the occurrences `group` of one series in place of every event that
    /// has their uid.
    pub fn replace_by_uid(&mut self, group: Vec<CalendarEvent>)
        requires
            old(self)@.wf(),
            is_series(events_view(group@)),
        ensures
            final(self)@ == old(self)@.replace_by_uid(events_view(group@)),
            final(self)@.wf(),
    {
        let ghost g = events_view(group@);
        let ghost p = |e: EventView| !has_uid(g, e.uid);
        let mut group = group;
        let mut events = filter_events(
            &self.events,
            (|e: &CalendarEvent| -> (b: bool)
                ensures
                    b == !has_uid(g, e.uid@),
                { !group_has_uid(&group, &e.uid) }),
            Ghost(p),
        );
        proof {
            let x = old(self)@.events.filter(p);
            lemma_filter_events_dedup(old(self)@.events, p);
            lemma_series_dedup(g);
            lemma_filter_members(old(self)@.events, p);
            assert forall|i: int| 0 <= i < x.len() implies !has_uid(g, (#[trigger] x[i]).uid) by {
                assert(p(x[i]));
            }
            lemma_concat_dedup(x, g);
        }
        let ghost kept = events@;
        events.append(&mut group);
        assert(events_view(events@) =~= events_view(kept) + g);
        self.events = events;
    }

    /// Put `todo` in place of every todo with its uid.
    pub fn replace_todo(&mut self, todo: Todo)
        requires
            old(self)@.wf(),
        ensures
            final(self)@ == old(self)@.replace_todo(todo),
            final(self)@.wf(),
    {
        let ghost p = |t: Todo| t.uid@ != todo.uid@;
        let mut todos = filter_todos(
            &self.todos,
            (|t: &Todo| -> (b: bool)
                ensures
                    b == (t.uid@ != todo.uid@),
                { !(t.uid == todo.uid) }),
            Ghost(p),
        );
        proof {
            let x = self.todos@.filter(p);
            lemma_filter_unique(self.todos@, p, |t: Todo| todo_uid(t));
            lemma_filter_members(self.todos@, p);
            assert forall|i: int| 0 <= i < x.len() implies todo_uid(#[trigger] x[i]) != todo_uid(todo) by {
                assert(p(x[i]));
            }
            lemma_push_unique(x, todo, |t: Todo| todo_uid(t));
        }
        todos.push(todo);
        self.todos = todos;
    }

    /// Replace a collection's content by what a full fetch returned.
    pub fn replace_collection(&mut self, url: &String, events: Vec<CalendarEvent>, todos: Vec<Todo>)
        requires
            old(self)@.wf(),
            events_dedup(events_view(events@)),
            todos_dedup(todos@),
        ensures
            final(self)@ == old(self)@.replace_collection(url@, events_view(events@), todos@),
            final(self)@.wf(),
    {
        let ghost g = events_view(events@);
        let ghost tg = todos@;
        let ghost pe = |e: EventView| e.calendar_url != url@ && !has_uid(g, e.uid);
        let ghost pt = |t: Todo| outside_fetch(t, url@, tg);
        let mut events = events;
        let mut todos = todos;
        let mut kept_events = filter_events(
            &self.events,
            (|e: &CalendarEvent| -> (b: bool)
                ensures
                    b == (e.calendar_url@ != url@ && !has_uid(g, e.uid@)),
                { !(e.calendar_url == *url) && !group_has_uid(&events, &e.uid) }),
            Ghost(pe),
        );
        let mut kept_todos = filter_todos(
            &self.todos,
            (|t: &Todo| -> (b: bool)
                ensures
                    b == (t.calendar_url@ != url@ && !has_todo_uid(tg, t.uid@)),
                { !(t.calendar_url == *url) && !todos_have_uid(&todos, &t.uid) }),
            Ghost(pt),
        );
        proof {
            let x = old(self)@.events.filter(pe);
            lemma_filter_events_dedup(old(self)@.events, pe);
            lemma_filter_members(old(self)@.events, pe);
            assert forall|i: int| 0 <= i < x.len() implies !has_uid(g, (#[trigger] x[i]).uid) by {
                assert(pe(x[i]));
            }
            lemma_concat_dedup(x, g);
            let y = self.todos@.filter(pt);
            lemma_filter_unique(self.todos@, pt, |t: Todo| todo_uid(t));
            lemma_filter_members(self.todos@, pt);
            assert forall|i: int, j: int| 0 <= i < y.len() && 0 <= j < tg.len() implies todo_uid(
                #[trigger] y[i]) != todo_uid(#[trigger] tg[j]) by {
                assert(pt(y[i]));
            }
            lemma_concat_unique(y, tg, |t: Todo| todo_uid(t));
        }
        let ghost ke = kept_events@;
        kept_events.append(&mut events);
        assert(events_view(kept_events@) =~= events_view(ke) + g);
        kept_todos.append(&mut todos);
        self.events = kept_events;
        self.todos = kept_todos;
    }

    /// Record a completed pass at `now`; the last-sync time never moves back.
    pub fn mark_synced(&mut self, now: Timestamp)
        requires
            old(self)@.wf(),
        ensures
            final(self)@ == (StoreView {
                last_sync: if now > old(self).last_sync {
                    now
                } else {
                    old(self).last_sync
                },
                ..old(self)@
            }),
            final(self)@.wf(),
    {
        if now > self.last_sync {
            self.last_sync = now;
        }
    }
}


/// Filters by predicates that agree on the sequence are equal.
pub proof fn lemma_filter_congruent<A>(s: Seq<A>, p: spec_fn(A) -> bool, q: spec_fn(A) -> bool)
    requires
        forall|i: int| 0 <= i < s.len() ==> p(#[trigger] s[i]) == q(s[i]),
    ensures
        s.filter(p) == s.filter(q),
    decreases s.len(),
{
    reveal(Seq::filter);
    if s.len() > 0 {
        let d = s.drop_last();
        assert forall|i: int| 0 <= i < d.len() implies p(#[trigger] d[i]) == q(d[i]) by {
            assert(d[i] == s[i]);
        }
        lemma_filter_congruent(d, p, q);
        assert(p(s[s.len() - 1]) == q(s[s.len() - 1]));
    }
}

/// Filtering twice is filtering by both predicates.
pub proof fn lemma_filter_filter<A>(s: Seq<A>, p: spec_fn(A) -> bool, q: spec_fn(A) -> bool)
    ensures
        s.filter(p).filter(q) == s.filter(|x: A| p(x) && q(x)),
    decreases s.len(),
{
    reveal(Seq::filter);
    if s.len() > 0 {
        lemma_filter_filter(s.drop_last(), p, q);
        let x = s.last();
        if p(x) {
            assert(s.filter(p).drop_last() == s.drop_last().filter(p));
        }
    }
}

/// The sync state of a collection that a filter keeps entries of is
/// unchanged by the filter.
pub proof fn lemma_state_of_filter(tokens: Seq<SyncToken>, p: spec_fn(SyncToken) -> bool, url: Seq<char>)
    requires
        forall|i: int| 0 <= i < tokens.len() && (#[trigger] tokens[i]).calendar_url@ == url ==> p(tokens[i]),
    ensures
        state_of(tokens.filter(p), url) == state_of(tokens, url),
    decreases tokens.len(),
{
    reveal(Seq::filter);
    if tokens.len() > 0 {
        let d = tokens.drop_last();
        assert forall|i: int| 0 <= i < d.len() && (#[trigger] d[i]).calendar_url@ == url implies p(d[i]) by {
            assert(d[i] == tokens[i]);
        }
        lemma_state_of_filter(d, p, url);
        let f = tokens.filter(p);
        if p(tokens.last()) {
            assert(f.drop_last() == d.filter(p));
        } else {
            assert(tokens.last().calendar_url@ != url);
        }
    }
}

/// A collection none of whose entries a filter keeps is never synced after it.
pub proof fn lemma_state_of_filtered_out(tokens: Seq<SyncToken>, p: spec_fn(SyncToken) -> bool, url: Seq<char>)
    requires
        forall|i: int| 0 <= i < tokens.len() && (#[trigger] tokens[i]).calendar_url@ == url ==> !p(tokens[i]),
    ensures
        state_of(tokens.filter(p), url) == SyncState::NeverSynced,
    decreases tokens.len(),
{
    reveal(Seq::filter);
    if tokens.len() > 0 {
        let d = tokens.drop_last();
        assert forall|i: int| 0 <= i < d.len() && (#[trigger] d[i]).calendar_url@ == url implies !p(d[i]) by {
            assert(d[i] == tokens[i]);
        }
        lemma_state_of_filtered_out(d, p, url);
        let f = tokens.filter(p);
        if p(tokens.last()) {
            assert(f.drop_last() == d.filter(p));
            assert(tokens.last().calendar_url@ != url);
        }
    }
}

/// Dedup invariant: in a well-formed store no two todos share a uid, and two
/// events share a uid only as occurrences of one recurring series (they
/// differ at most in start and end); an event without a rule shares its uid
/// with no other event.
pub proof fn lemma_dedup_invariant(store: StoreView)
    requires
        store.wf(),
    ensures
        forall|i: int, j: int|
            0 <= i < store.todos.len() && 0 <= j < store.todos.len() && i != j ==> (#[trigger] store.todos[i]).uid@
                != (#[trigger] store.todos[j]).uid@,
        forall|i: int, j: int|
            0 <= i < store.events.len() && 0 <= j < store.events.len() && (#[trigger] store.events[i]).uid
                == (#[trigger] store.events[j]).uid ==> store.events[i].same_series(store.events[j]) && (i
                != j ==> store.events[i].rrule is Some),
{
    assert forall|i: int, j: int|
        0 <= i < store.todos.len() && 0 <= j < store.todos.len() && i != j implies (#[trigger] store.todos[i]).uid@
        != (#[trigger] store.todos[j]).uid@ by {
        assert(todo_uid(store.todos[i]) != todo_uid(store.todos[j]));
    }
    assert forall|i: int, j: int|
        0 <= i < store.events.len() && 0 <= j < store.events.len() && (#[trigger] store.events[i]).uid
            == (#[trigger] store.events[j]).uid implies store.events[i].same_series(store.events[j]) && (i
            != j ==> store.events[i].rrule is Some) by {
        assert(store.events.contains(store.events[i]) && store.events.contains(store.events[j]));
    }
}

/// Stale cleanup: when discovery reports only the collection `a`, a cleanup
/// removes every event, todo and sync state of any other collection `b`, and
/// leaves the items and sync state of `a` as they were.
pub proof fn lemma_stale_cleanup(store: StoreView, a: String, b: String)
    requires
        a@ != b@,
    ensures
        ({
            let after = store.retain_collections(seq![a]);
            &&& forall|i: int| 0 <= i < after.events.len() ==> (#[trigger] after.events[i]).calendar_url != b@
            &&& forall|i: int| 0 <= i < after.todos.len() ==> (#[trigger] after.todos[i]).calendar_url@ != b@
            &&& after.token_state(b@) == SyncState::NeverSynced
            &&& after.events.filter(|e: EventView| e.calendar_url == a@) == store.events.filter(
                |e: EventView| e.calendar_url == a@,
            )
            &&& after.todos.filter(|t: Todo| t.calendar_url@ == a@) == store.todos.filter(
                |t: Todo| t.calendar_url@ == a@,
            )
            &&& after.token_state(a@) == store.token_state(a@)
        }),
{
    let live = seq![a];
    let after = store.retain_collections(live);
    let pe = |e: EventView| url_listed(live, e.calendar_url);
    let pt = |t: Todo| url_listed(live, t.calendar_url@);
    let pk = |t: SyncToken| url_listed(live, t.calendar_url@);
    assert forall|u: Seq<char>| url_listed(live, u) <==> u == a@ by {
        if u == a@ {
            assert(live[0]@ == u);
        }
    }
    lemma_filter_members(store.events, pe);
    lemma_filter_members(store.todos, pt);
    assert forall|i: int| 0 <= i < after.events.len() implies (#[trigger] after.events[i]).calendar_url != b@ by {
        assert(pe(after.events[i]));
    }
    assert forall|i: int| 0 <= i < after.todos.len() implies (#[trigger] after.todos[i]).calendar_url@ != b@ by {
        assert(pt(after.todos[i]));
    }
    lemma_state_of_filtered_out(store.sync_tokens, pk, b@);
    lemma_state_of_filter(store.sync_tokens, pk, a@);
    let qe = |e: EventView| e.calendar_url == a@;
    lemma_filter_filter(store.events, pe, qe);
    lemma_filter_congruent(store.events, |x: EventView| pe(x) && qe(x), qe);
    let qt = |t: Todo| t.calendar_url@ == a@;
    lemma_filter_filter(store.todos, pt, qt);
    lemma_filter_congruent(store.todos, |x: Todo| pt(x) && qt(x), qt);
}

/// Delete correlation: a deleted object at `href`, the path of the object
/// `<x>.ics`, removes exactly the events and todos with uid `x`, when no
/// other uid of the store is also a suffix of the object's name.
pub proof fn lemma_delete_correlation(store: StoreView, href: Seq<char>, x: Seq<char>)
    requires
        ends_with(href, x + ics_suffix()),
        forall|i: int|
            0 <= i < store.events.len() && (#[trigger] store.events[i]).uid != x ==> !deleted_by(
                href,
                store.events[i].uid,
            ),
        forall|i: int|
            0 <= i < store.todos.len() && (#[trigger] store.todos[i]).uid@ != x ==> !deleted_by(
                href,
                store.todos[i].uid@,
            ),
    ensures
        store.remove_deleted(href).events == store.events.filter(|e: EventView| e.uid != x),
        store.remove_deleted(href).todos == store.todos.filter(|t: Todo| t.uid@ != x),
        store.remove_deleted(href).sync_tokens == store.sync_tokens,
        store.remove_deleted(href).last_sync == store.last_sync,
{
    lemma_filter_congruent(
        store.events,
        |e: EventView| !deleted_by(href, e.uid),
        |e: EventView| e.uid != x,
    );
    lemma_filter_congruent(store.todos, |t: Todo| !deleted_by(href, t.uid@), |t: Todo| t.uid@ != x);
}

} // verus!
