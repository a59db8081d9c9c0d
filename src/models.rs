//! Calendar records and the in-memory store that holds them.

use vstd::prelude::*;

verus! {

/// An instant, as whole seconds since the Unix epoch (UTC).
pub type Timestamp = i64;

/// A calendar event; occurrences of a recurring series share its `uid`.
#[derive(Debug, Clone, PartialEq, Eq)]
pub struct CalendarEvent {
    pub uid: String,
    pub summary: String,
    pub description: Option<String>,
    pub location: Option<String>,
    pub start: Timestamp,
    pub end: Timestamp,
    pub calendar_name: String,
    pub calendar_url: String,
    pub calendar_color: Option<String>,
    pub all_day: bool,
    pub rrule: Option<String>,
    pub exdates: Vec<Timestamp>,
    pub status: Option<String>,
    pub etag: Option<String>,
}

/// A task.
#[derive(Debug, Clone, PartialEq, Eq)]
pub struct Todo {
    pub uid: String,
    pub summary: String,
    pub description: Option<String>,
    pub due: Option<Timestamp>,
    pub start: Option<Timestamp>,
    pub completed: Option<Timestamp>,
    pub priority: Option<u8>,
    pub percent_complete: Option<u8>,
    pub status: String,
    pub calendar_name: String,
    pub calendar_url: String,
    pub etag: Option<String>,
}

/// What is known of a collection's incremental-sync cursor.
#[derive(Debug, Clone, PartialEq, Eq)]
pub enum SyncState {
    /// The collection was never synced.
    NeverSynced,
    /// Synced by a full fetch; an incremental sync may start without a cursor.
    SyncedNoToken,
    /// A valid cursor for the next incremental sync.
    HasToken(String),
    /// The server gives no cursors for this collection: always fetch in full.
    IncrementalUnsupported,
}

/// The recorded sync state of one collection.
#[derive(Debug, Clone, PartialEq, Eq)]
pub struct SyncToken {
    pub calendar_url: String,
    pub state: SyncState,
}

/// The mathematical value of a `CalendarEvent`.
pub struct EventView {
    pub uid: Seq<char>,
    pub summary: Seq<char>,
    pub description: Option<Seq<char>>,
    pub location: Option<Seq<char>>,
    pub start: int,
    pub end: int,
    pub calendar_name: Seq<char>,
    pub calendar_url: Seq<char>,
    pub calendar_color: Option<Seq<char>>,
    pub all_day: bool,
    pub rrule: Option<Seq<char>>,
    pub exdates: Seq<Timestamp>,
    pub status: Option<Seq<char>>,
    pub etag: Option<Seq<char>>,
}

/// The view of an optional string.
pub open spec fn opt_view(s: Option<String>) -> Option<Seq<char>> {
    match s {
        Some(t) => Some(t@),
        None => None,
    }
}

impl EventView {
    /// The same event moved to `[start, end)`.
    pub open spec fn with_times(self, start: int, end: int) -> EventView {
        EventView { start, end, ..self }
    }

    /// The two records differ at most in their start and end.
    pub open spec fn same_series(self, other: EventView) -> bool {
        self.with_times(other.start, other.end) == other
    }
}

impl View for CalendarEvent {
    type V = EventView;

    open spec fn view(&self) -> EventView {
        EventView {
            uid: self.uid@,
            summary: self.summary@,
            description: opt_view(self.description),
            location: opt_view(self.location),
            start: self.start as int,
            end: self.end as int,
            calendar_name: self.calendar_name@,
            calendar_url: self.calendar_url@,
            calendar_color: opt_view(self.calendar_color),
            all_day: self.all_day,
            rrule: opt_view(self.rrule),
            exdates: self.exdates@,
            status: opt_view(self.status),
            etag: opt_view(self.etag),
        }
    }
}

/// The views of a sequence of events.
pub open spec fn events_view(s: Seq<CalendarEvent>) -> Seq<EventView> {
    s.map_values(|e: CalendarEvent| e@)
}

impl CalendarEvent {
    /// A field-by-field copy.
    pub fn duplicate(&self) -> (r: CalendarEvent)
        ensures
            r@ == self@,
    {
        CalendarEvent {
            uid: self.uid.clone(),
            summary: self.summary.clone(),
            description: self.description.clone(),
            location: self.location.clone(),
            start: self.start,
            end: self.end,
            calendar_name: self.calendar_name.clone(),
            calendar_url: self.calendar_url.clone(),
            calendar_color: self.calendar_color.clone(),
            all_day: self.all_day,
            rrule: self.rrule.clone(),
            exdates: copy_instants(&self.exdates),
            status: self.status.clone(),
            etag: self.etag.clone(),
        }
    }
}

fn copy_instants(v: &Vec<Timestamp>) -> (r: Vec<Timestamp>)
    ensures
        r@ == v@,
{
    let mut r: Vec<Timestamp> = Vec::new();
    let mut i: usize = 0;
    while i < v.len()
        invariant
            i <= v.len(),
            r@ == v@.subrange(0, i as int),
        decreases v.len() - i,
    {
        r.push(v[i]);
        i = i + 1;
        assert(r@ =~= v@.subrange(0, i as int));
    }
    assert(r@ =~= v@);
    r
}


impl Todo {
    /// A field-by-field copy.
    pub fn duplicate(&self) -> (r: Todo)
        ensures
            r == *self,
    {
        Todo {
            uid: self.uid.clone(),
            summary: self.summary.clone(),
            description: self.description.clone(),
            due: self.due,
            start: self.start,
            completed: self.completed,
            priority: self.priority,
            percent_complete: self.percent_complete,
            status: self.status.clone(),
            calendar_name: self.calendar_name.clone(),
            calendar_url: self.calendar_url.clone(),
            etag: self.etag.clone(),
        }
    }
}

/// The text that marks a collection whose server gives no cursors, as the
/// snapshot stores it.
pub open spec fn no_sync_marker() -> Seq<char> {
    seq!['N', 'O', '_', 'S', 'Y', 'N', 'C']
}

impl SyncState {
    /// The state that a stored token text stands for: the empty text for a
    /// full fetch done, the marker for a server without cursors, any other
    /// text for a cursor.
    pub fn from_stored(text: &String) -> (r: SyncState)
        ensures
            text@.len() == 0 ==> r == SyncState::SyncedNoToken,
            text@ == no_sync_marker() ==> r == SyncState::IncrementalUnsupported,
            text@.len() != 0 && text@ != no_sync_marker() ==> r == SyncState::HasToken(*text),
    {
        proof {
            reveal_strlit("NO_SYNC");
        }
        assert("NO_SYNC"@ =~= no_sync_marker());
        if text.as_str().unicode_len() == 0 {
            SyncState::SyncedNoToken
        } else if *text == String::from_str("NO_SYNC") {
            SyncState::IncrementalUnsupported
        } else {
            SyncState::HasToken(text.clone())
        }
    }

    /// The token text the snapshot stores for the state; none for a
    /// collection never synced.
    pub fn to_stored(&self) -> (r: Option<String>)
        ensures
            self is NeverSynced <==> r is None,
            self is SyncedNoToken ==> (r matches Some(t) && t@.len() == 0),
            self is IncrementalUnsupported ==> (r matches Some(t) && t@ == no_sync_marker()),
            self is HasToken ==> r == Some(self->HasToken_0),
    {
        proof {
            reveal_strlit("NO_SYNC");
        }
        assert("NO_SYNC"@ =~= no_sync_marker());
        match self {
            SyncState::NeverSynced => None,
            SyncState::SyncedNoToken => Some(String::new()),
            SyncState::HasToken(t) => Some(t.clone()),
            SyncState::IncrementalUnsupported => Some(String::from_str("NO_SYNC")),
        }
    }

    /// A copy of the state.
    pub fn duplicate(&self) -> (r: SyncState)
        ensures
            r == *self,
    {
        match self {
            SyncState::NeverSynced => SyncState::NeverSynced,
            SyncState::SyncedNoToken => SyncState::SyncedNoToken,
            SyncState::HasToken(t) => SyncState::HasToken(t.clone()),
            SyncState::IncrementalUnsupported => SyncState::IncrementalUnsupported,
        }
    }
}

/// Every element of a filtered sequence satisfies the predicate and comes
/// from the original sequence.
pub proof fn lemma_filter_members<A>(s: Seq<A>, p: spec_fn(A) -> bool)
    ensures
        forall|i: int|
            0 <= i < s.filter(p).len() ==> p(#[trigger] s.filter(p)[i]) && s.contains(
                s.filter(p)[i],
            ),
    decreases s.len(),
{
    reveal(Seq::filter);
    if s.len() > 0 {
        lemma_filter_members(s.drop_last(), p);
        let f = s.filter(p);
        let g = s.drop_last().filter(p);
        assert forall|i: int| 0 <= i < f.len() implies p(#[trigger] f[i]) && s.contains(f[i]) by {
            if i < g.len() {
                assert(f[i] == g[i]);
                let j = choose|j: int| 0 <= j < s.drop_last().len() && s.drop_last()[j] == g[i];
                assert(s[j] == f[i]);
            } else {
                assert(f[i] == s.last());
                assert(s[s.len() - 1] == f[i]);
            }
        }
    }
}

/// Filtering the first `i + 1` elements is filtering the first `i` and then
/// looking at element `i`.
pub proof fn lemma_filter_step<A>(s: Seq<A>, i: int, p: spec_fn(A) -> bool)
    requires
        0 <= i < s.len(),
    ensures
        s.subrange(0, i + 1).filter(p) == (if p(s[i]) {
            s.subrange(0, i).filter(p).push(s[i])
        } else {
            s.subrange(0, i).filter(p)
        }),
{
    reveal(Seq::filter);
    assert(s.subrange(0, i + 1).drop_last() =~= s.subrange(0, i));
}

} // verus!
