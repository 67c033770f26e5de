//! One lookup as a machine: which query it waits for, and what each answer
//! makes of it. The machine sends nothing itself. Its driver sends the query
//! that is pending and hands back what came of it.

use crate::domain::{Domain, DomainView};
use crate::status::{BlockStatus, Verdict};
use crate::txt::{blank, lemma_blank_answer, message, message_of, message_text};
use vstd::prelude::*;

verus! {

/// Where a lookup stands while it is not finished.
#[derive(Debug, Clone, Copy, PartialEq, Eq, Structural)]
pub enum Phase {
    /// Nothing is known yet: the address query is to be made.
    Start,
    /// The address query succeeded, so the candidate is listed: the text
    /// query is to be made for the reason.
    ListedPendingReason,
}

/// A query that the driver makes for the name of the lookup.
#[derive(Debug, Clone, Copy, PartialEq, Eq, Structural)]
pub enum Query {
    /// For the address records of the name.
    Address,
    /// For the text records of the name.
    Text,
}

/// What came of a query.
#[derive(Debug)]
pub enum Event {
    /// The address query ended. `found` says that it succeeded; a failure of
    /// any kind, a missing name as much as a timeout, is `false`.
    Address { found: bool },
    /// The text query ended. `records` holds, record by record, the chunks of
    /// octets that came back, and is `None` where the query failed.
    Text { records: Option<Vec<Vec<Vec<u8>>>> },
}

/// The mathematical value of an [`Event`].
pub enum EventView {
    Address { found: bool },
    Text { records: Option<Seq<Seq<Seq<u8>>>> },
}

impl View for Event {
    type V = EventView;

    open spec fn view(&self) -> EventView {
        match self {
            Event::Address { found } => EventView::Address { found: *found },
            Event::Text { records: Some(records) } => EventView::Text {
                records: Some(records.deep_view()),
            },
            Event::Text { records: None } => EventView::Text { records: None },
        }
    }
}

/// A lookup that is under way.
#[derive(Debug)]
pub struct Lookup {
    name: Domain,
    phase: Phase,
}

/// The mathematical value of a [`Lookup`].
pub struct LookupView {
    /// The name that both queries are made for.
    pub name: DomainView,
    /// Where the lookup stands.
    pub phase: Phase,
}

impl View for Lookup {
    type V = LookupView;

    closed spec fn view(&self) -> LookupView {
        LookupView { name: self.name@, phase: self.phase }
    }
}

/// What a step leaves: a lookup that waits for its next answer, or the verdict.
#[derive(Debug)]
pub enum Progress {
    /// The lookup goes on; its pending query is to be made next.
    Pending(Lookup),
    /// The lookup is over.
    Finished(BlockStatus),
}

/// The mathematical value of a [`Progress`].
pub enum ProgressView {
    Pending(LookupView),
    Finished(Verdict),
}

impl View for Progress {
    type V = ProgressView;

    open spec fn view(&self) -> ProgressView {
        match self {
            Progress::Pending(lookup) => ProgressView::Pending(lookup@),
            Progress::Finished(status) => ProgressView::Finished(status@),
        }
    }
}

/// The query that a lookup in `phase` waits for.
pub open spec fn pending(phase: Phase) -> Query {
    match phase {
        Phase::Start => Query::Address,
        Phase::ListedPendingReason => Query::Text,
    }
}

/// The reason that the outcome of a text query gives: the message of its
/// records, and none where the query failed.
pub open spec fn reason(records: Option<Seq<Seq<Seq<u8>>>>) -> Option<Seq<char>> {
    match records {
        Some(records) => message_of(records),
        None => None,
    }
}

/// A fresh lookup for `name`.
pub open spec fn begun(name: DomainView) -> LookupView {
    LookupView { name, phase: Phase::Start }
}

/// The lookup for `name` once the address query has succeeded.
pub open spec fn listed(name: DomainView) -> LookupView {
    LookupView { name, phase: Phase::ListedPendingReason }
}

/// What an event makes of a lookup. The answer to the pending query moves
/// the lookup on; any other event leaves it as it is.
pub open spec fn step_spec(lookup: LookupView, event: EventView) -> ProgressView {
    match (lookup.phase, event) {
        (Phase::Start, EventView::Address { found }) => if found {
            ProgressView::Pending(listed(lookup.name))
        } else {
            ProgressView::Finished(Verdict::NotBlocked)
        },
        (Phase::ListedPendingReason, EventView::Text { records }) => ProgressView::Finished(
            Verdict::Blocked { message: reason(records) },
        ),
        _ => ProgressView::Pending(lookup),
    }
}

/// The verdict of a whole lookup, given what its queries bring: `found` for
/// the address query and, where that succeeded, `text` for the text query.
pub open spec fn outcome(found: bool, text: Option<Seq<Seq<Seq<u8>>>>) -> Verdict {
    if found {
        Verdict::Blocked { message: reason(text) }
    } else {
        Verdict::NotBlocked
    }
}

impl Lookup {
    /// Begins a lookup for `name`.
    pub fn start(name: Domain) -> (lookup: Lookup)
        ensures
            lookup@ == begun(name@),
    {
        Lookup { name, phase: Phase::Start }
    }

    /// The name that the queries are made for.
    pub fn name(&self) -> (name: &Domain)
        ensures
            name@ == self@.name,
    {
        &self.name
    }

    /// Where the lookup stands.
    pub fn phase(&self) -> (phase: Phase)
        ensures
            phase == self@.phase,
    {
        self.phase
    }

    /// The query to make next.
    pub fn query(&self) -> (query: Query)
        ensures
            query == pending(self@.phase),
    {
        match self.phase {
            Phase::Start => Query::Address,
            Phase::ListedPendingReason => Query::Text,
        }
    }

    /// Takes in what came of a query.
    pub fn step(self, event: Event) -> (progress: Progress)
        ensures
            progress@ == step_spec(self@, event@),
    {
        let Lookup { name, phase } = self;
        match phase {
            Phase::Start => match event {
                Event::Address { found } => if found {
                    Progress::Pending(Lookup { name, phase: Phase::ListedPendingReason })
                } else {
                    Progress::Finished(BlockStatus::NotBlocked)
                },
                Event::Text { .. } => Progress::Pending(Lookup { name, phase }),
            },
            Phase::ListedPendingReason => match event {
                Event::Text { records } => {
                    let message = match records {
                        Some(records) => message(&records),
                        None => None,
                    };
                    Progress::Finished(BlockStatus::Blocked { message })
                },
                Event::Address { .. } => Progress::Pending(Lookup { name, phase }),
            },
        }
    }
}

/// A lookup ends after its address query or after its text query, and its
/// verdict depends on nothing but what the two queries brought.
pub proof fn lemma_two_answers_decide(
    name: DomainView,
    found: bool,
    text: Option<Seq<Seq<Seq<u8>>>>,
)
    ensures
        !found ==> step_spec(begun(name), EventView::Address { found })
            == ProgressView::Finished(outcome(found, text)),
        found ==> step_spec(begun(name), EventView::Address { found }) == ProgressView::Pending(
            listed(name),
        ),
        found ==> step_spec(listed(name), EventView::Text { records: text })
            == ProgressView::Finished(outcome(found, text)),
{
}

/// A lookup that goes on goes on for the same name: the text query is made
/// for the name that the address query was made for.
pub proof fn lemma_step_keeps_name(lookup: LookupView, event: EventView)
    ensures
        step_spec(lookup, event) matches ProgressView::Pending(next) ==> next.name == lookup.name,
{
}

/// Whatever makes the address query fail, the verdict is that the candidate
/// is not blocked.
pub proof fn lemma_address_failure_is_not_blocked(name: DomainView)
    ensures
        step_spec(begun(name), EventView::Address { found: false }) == ProgressView::Finished(
            Verdict::NotBlocked,
        ),
{
}

/// Where the address query succeeds and the text query fails, the candidate
/// is blocked and no message is given.
pub proof fn lemma_text_failure_leaves_no_message(name: DomainView)
    ensures
        step_spec(begun(name), EventView::Address { found: true }) == ProgressView::Pending(
            listed(name),
        ),
        step_spec(listed(name), EventView::Text { records: None }) == ProgressView::Finished(
            Verdict::Blocked { message: None },
        ),
{
}

/// Where both queries succeed and the records hold any text, the candidate is
/// blocked and the message is that text: the chunks of each record joined by
/// single spaces, and the records joined by single spaces.
pub proof fn lemma_text_becomes_message(name: DomainView, records: Seq<Seq<Seq<u8>>>)
    requires
        message_text(records).len() > 0,
    ensures
        step_spec(begun(name), EventView::Address { found: true }) == ProgressView::Pending(
            listed(name),
        ),
        step_spec(listed(name), EventView::Text { records: Some(records) })
            == ProgressView::Finished(
            Verdict::Blocked { message: Some(message_text(records)) },
        ),
{
}

/// Where both queries succeed and every chunk of the records is empty or
/// malformed, the candidate is blocked and no message is given, so long as
/// the records hold one chunk at most. (More chunks leave the spaces between
/// them as the message.)
pub proof fn lemma_blank_text_leaves_no_message(name: DomainView, records: Seq<Seq<Seq<u8>>>)
    requires
        blank(records),
        records.len() == 0 || (records.len() == 1 && records[0].len() <= 1),
    ensures
        step_spec(listed(name), EventView::Text { records: Some(records) })
            == ProgressView::Finished(Verdict::Blocked { message: None }),
{
    lemma_blank_answer(records);
}

/// A message that is handed out is never empty.
pub proof fn lemma_message_is_never_empty(found: bool, text: Option<Seq<Seq<Seq<u8>>>>)
    ensures
        outcome(found, text) matches Verdict::Blocked { message: Some(message) } ==> message.len()
            > 0,
{
}

/// What an event makes of a lookup that may be over already: nothing, if it is.
pub open spec fn advance(progress: ProgressView, event: EventView) -> ProgressView {
    match progress {
        ProgressView::Pending(lookup) => step_spec(lookup, event),
        ProgressView::Finished(_) => progress,
    }
}

/// Where a lookup stands after a run of events.
pub open spec fn run(progress: ProgressView, events: Seq<EventView>) -> ProgressView
    decreases events.len(),
{
    if events.len() == 0 {
        progress
    } else {
        advance(run(progress, events.drop_last()), events.last())
    }
}

/// Where two lookups stand after a run of events that come to the one or to
/// the other in any order. Each event is marked `true` where it is for the
/// first lookup.
pub open spec fn run_both(
    first: ProgressView,
    second: ProgressView,
    events: Seq<(bool, EventView)>,
) -> (ProgressView, ProgressView)
    decreases events.len(),
{
    if events.len() == 0 {
        (first, second)
    } else {
        let (one, other) = run_both(first, second, events.drop_last());
        let (for_first, event) = events.last();
        if for_first {
            (advance(one, event), other)
        } else {
            (one, advance(other, event))
        }
    }
}

/// The events of a mixed run that are for one of its two lookups.
pub open spec fn events_for(events: Seq<(bool, EventView)>, first: bool) -> Seq<EventView>
    decreases events.len(),
{
    if events.len() == 0 {
        Seq::empty()
    } else {
        let (for_first, event) = events.last();
        let before = events_for(events.drop_last(), first);
        if for_first == first {
            before.push(event)
        } else {
            before
        }
    }
}

/// Two lookups do not touch each other: however their answers are
/// interleaved, each ends where it would have ended alone.
pub proof fn lemma_lookups_are_independent(
    first: ProgressView,
    second: ProgressView,
    events: Seq<(bool, EventView)>,
)
    ensures
        run_both(first, second, events) == (
            run(first, events_for(events, true)),
            run(second, events_for(events, false)),
        ),
    decreases events.len(),
{
    if events.len() > 0 {
        lemma_lookups_are_independent(first, second, events.drop_last());
        let (for_first, event) = events.last();
        let mine = events_for(events.drop_last(), for_first);
        assert(mine.push(event).drop_last() =~= mine);
    }
}

} // verus!
