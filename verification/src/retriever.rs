//! The two ways to retrieve the events of a query, as state machines.
//!
//! The library decides; the caller talks to the node. A caller asks the
//! retriever what to do, does it, and hands back what the node answered.

use crate::error::QueryError;
use crate::event::{event_views, Event, EventView};
use crate::util::{canonical_event, canonical_events, parse_event};
use vstd::prelude::*;

verus! {

/// The number of events asked for with each page.
pub const PAGE_SIZE: u64 = 1024;

/// The seconds allowed for setting up a subscription.
pub const CONNECT_TIMEOUT_SECS: u64 = 5;

/// Where a retrieval stands.
#[derive(Debug, Clone, Copy, PartialEq, Eq, Structural)]
pub enum Phase {
    /// More is to be asked of the node.
    Active,
    /// Every event of the query has been taken.
    Complete,
    /// The retrieval failed; it holds no events.
    Failed,
}

/// One request for a page of events.
#[derive(Debug, Clone, PartialEq, Eq)]
pub struct PageRequest {
    /// The first block of the query.
    pub from_block: u64,
    /// The last block of the query.
    pub to_block: u64,
    /// The token of the previous page; none for the first page.
    pub continuation_token: Option<String>,
    /// The number of events asked for.
    pub chunk_size: u64,
}

/// Retrieval by pages: one request after the other, until a page comes
/// without a continuation token.
#[derive(Debug)]
pub struct PagedRetriever {
    from_block: u64,
    to_block: u64,
    phase: Phase,
    token: Option<String>,
    events: Vec<Event>,
}

/// What a `PagedRetriever` holds, as mathematical values.
pub struct PagedRetrieverView {
    pub from_block: u64,
    pub to_block: u64,
    pub phase: Phase,
    pub token: Option<Seq<char>>,
    pub events: Seq<EventView>,
}

impl View for PagedRetriever {
    type V = PagedRetrieverView;

    closed spec fn view(&self) -> PagedRetrieverView {
        PagedRetrieverView {
            from_block: self.from_block,
            to_block: self.to_block,
            phase: self.phase,
            token: self.token.deep_view(),
            events: event_views(self.events@),
        }
    }
}

/// The state of a paged retrieval of the blocks from `from_block` to
/// `to_block` that has asked for nothing yet.
pub open spec fn paged_start(from_block: u64, to_block: u64) -> PagedRetrieverView {
    PagedRetrieverView {
        from_block,
        to_block,
        phase: Phase::Active,
        token: None,
        events: Seq::empty(),
    }
}

/// The state in which a paged retrieval fails: it holds nothing.
pub open spec fn paged_failed(before: PagedRetrieverView) -> PagedRetrieverView {
    PagedRetrieverView {
        from_block: before.from_block,
        to_block: before.to_block,
        phase: Phase::Failed,
        token: None,
        events: Seq::empty(),
    }
}

/// The state after a page: the page's events follow those already held, and
/// the retrieval is complete when the page came without a token. A page with
/// an event that is no JSON object fails the retrieval. A retrieval that is
/// complete or has failed takes no page.
pub open spec fn after_page(
    before: PagedRetrieverView,
    raw_events: Seq<Seq<char>>,
    continuation_token: Option<Seq<char>>,
) -> PagedRetrieverView {
    if before.phase != Phase::Active {
        before
    } else {
        match canonical_events(raw_events) {
            Some(page) => PagedRetrieverView {
                from_block: before.from_block,
                to_block: before.to_block,
                phase: if continuation_token is Some {
                    Phase::Active
                } else {
                    Phase::Complete
                },
                token: continuation_token,
                events: before.events + page,
            },
            None => paged_failed(before),
        }
    }
}

/// What taking a page answers: a page that no request asked for is a fault of
/// the transport, and a page with an event that is no JSON object is
/// malformed.
pub open spec fn page_result(before: PagedRetrieverView, raw_events: Seq<Seq<char>>) -> Result<
    (),
    QueryError,
> {
    if before.phase != Phase::Active {
        Err(QueryError::TransportError)
    } else if canonical_events(raw_events) is None {
        Err(QueryError::MalformedEvent)
    } else {
        Ok(())
    }
}

/// The canonical events of one page, or `None` at the first that is no JSON
/// object.
fn canonical_page(raw_events: &Vec<String>) -> (r: Option<Vec<Event>>)
    ensures
        match r {
            Some(page) => canonical_events(raw_events.deep_view()) == Some(event_views(page@)),
            None => canonical_events(raw_events.deep_view()) is None,
        },
{
    let mut page: Vec<Event> = Vec::new();
    let mut i: usize = 0;
    while i < raw_events.len()
        invariant
            i <= raw_events.len(),
            page.len() == i,
            forall|j: int|
                0 <= j < i ==> (#[trigger] canonical_event(raw_events.deep_view()[j])) == Some(
                    page[j]@,
                ),
        decreases raw_events.len() - i,
    {
        assert(raw_events.deep_view()[i as int] == raw_events[i as int]@);
        match parse_event(raw_events[i].as_str()) {
            Err(_) => {
                return None;
            },
            Ok(event) => {
                page.push(event);
            },
        }
        i = i + 1;
    }
    Some(page)
}

impl PagedRetriever {
    /// A retrieval of the events of the blocks from `from_block` to
    /// `to_block`, which has asked for nothing yet.
    pub fn new(from_block: u64, to_block: u64) -> (r: Self)
        ensures
            r@ == paged_start(from_block, to_block),
    {
        let r = PagedRetriever {
            from_block,
            to_block,
            phase: Phase::Active,
            token: None,
            events: Vec::new(),
        };
        assert(r@.events =~= Seq::empty());
        r
    }

    /// Where the retrieval stands.
    pub fn phase(&self) -> (r: Phase)
        ensures
            r == self@.phase,
    {
        self.phase
    }

    /// The number of events held.
    pub fn len(&self) -> (r: usize)
        ensures
            r == self@.events.len(),
    {
        self.events.len()
    }

    /// The request to make next: `PAGE_SIZE` events of the block range, after
    /// the token of the page before. `None` once the retrieval is complete or
    /// has failed.
    pub fn next_request(&self) -> (r: Option<PageRequest>)
        ensures
            r is Some <==> self@.phase == Phase::Active,
            r matches Some(request) ==> request.from_block == self@.from_block && request.to_block
                == self@.to_block && request.chunk_size == PAGE_SIZE
                && request.continuation_token.deep_view() == self@.token,
    {
        match self.phase {
            Phase::Active => {
                let continuation_token = match &self.token {
                    Some(token) => Some(token.clone()),
                    None => None,
                };
                Some(
                    PageRequest {
                        from_block: self.from_block,
                        to_block: self.to_block,
                        continuation_token,
                        chunk_size: PAGE_SIZE,
                    },
                )
            },
            _ => None,
        }
    }

    /// Takes the page that answered the last request: its events, as the
    /// transport wrote them, and its continuation token.
    pub fn accept_page(&mut self, raw_events: &Vec<String>, continuation_token: Option<String>) -> (r:
        Result<(), QueryError>)
        ensures
            final(self)@ == after_page(
                old(self)@,
                raw_events.deep_view(),
                continuation_token.deep_view(),
            ),
            r == page_result(old(self)@, raw_events.deep_view()),
    {
        match self.phase {
            Phase::Active => {},
            _ => {
                return Err(QueryError::TransportError);
            },
        }
        match canonical_page(raw_events) {
            None => {
                self.phase = Phase::Failed;
                self.token = None;
                self.events = Vec::new();
                assert(self@.events =~= Seq::empty());
                Err(QueryError::MalformedEvent)
            },
            Some(page) => {
                let ghost before = event_views(self.events@);
                let ghost added = event_views(page@);
                let mut page = page;
                self.events.append(&mut page);
                self.phase = if continuation_token.is_some() {
                    Phase::Active
                } else {
                    Phase::Complete
                };
                self.token = continuation_token;
                assert(self@.events =~= before + added);
                Ok(())
            },
        }
    }

    /// Takes the news that a request failed. The retrieval fails and holds
    /// nothing.
    pub fn fail(&mut self) -> (r: QueryError)
        ensures
            r == QueryError::TransportError,
            final(self)@ == paged_failed(old(self)@),
    {
        self.phase = Phase::Failed;
        self.token = None;
        self.events = Vec::new();
        assert(self@.events =~= Seq::empty());
        QueryError::TransportError
    }

    /// The events retrieved, in the order of the pages and within each page:
    /// `Some` for a complete retrieval only.
    pub fn into_events(self) -> (r: Option<Vec<Event>>)
        ensures
            r is Some <==> self@.phase == Phase::Complete,
            r matches Some(events) ==> event_views(events@) == self@.events && events.len()
                == self@.events.len(),
    {
        match self.phase {
            Phase::Complete => Some(self.events),
            _ => None,
        }
    }
}

/// What a subscription pushed.
#[derive(Debug, Clone, PartialEq, Eq)]
pub enum Notification {
    /// An event: its block number, if it has one, and the event as JSON.
    Event { block_number: Option<u64>, raw: String },
    /// The node reorganised its chain between these blocks.
    Reorg { starting_block_number: u64, ending_block_number: u64 },
    /// The subscription failed.
    Failure,
}

/// What a `Notification` holds, as mathematical values.
pub enum NotificationView {
    Event { block_number: Option<u64>, raw: Seq<char> },
    Reorg { starting_block_number: u64, ending_block_number: u64 },
    Failure,
}

impl View for Notification {
    type V = NotificationView;

    open spec fn view(&self) -> NotificationView {
        match *self {
            Notification::Event { block_number, raw } => NotificationView::Event {
                block_number,
                raw: raw@,
            },
            Notification::Reorg {
                starting_block_number,
                ending_block_number,
            } => NotificationView::Reorg { starting_block_number, ending_block_number },
            Notification::Failure => NotificationView::Failure,
        }
    }
}

/// What the caller of a `StreamRetriever` does next. On `Stop` and on `Fail`
/// it first closes the subscription.
#[derive(Debug, Clone, PartialEq, Eq)]
pub enum StreamAction {
    /// Wait for the next notification.
    Continue,
    /// Nothing more is taken.
    Stop,
    /// The retrieval failed for the given reason.
    Fail(QueryError),
}

/// Retrieval by subscription: events are taken as the node pushes them, until
/// one lies beyond the last block of the query.
#[derive(Debug)]
pub struct StreamRetriever {
    from_block: u64,
    to_block: u64,
    phase: Phase,
    events: Vec<Event>,
}

/// What a `StreamRetriever` holds, as mathematical values.
pub struct StreamRetrieverView {
    pub from_block: u64,
    pub to_block: u64,
    pub phase: Phase,
    pub events: Seq<EventView>,
}

impl View for StreamRetriever {
    type V = StreamRetrieverView;

    closed spec fn view(&self) -> StreamRetrieverView {
        StreamRetrieverView {
            from_block: self.from_block,
            to_block: self.to_block,
            phase: self.phase,
            events: event_views(self.events@),
        }
    }
}

/// The state of a streamed retrieval of the blocks from `from_block` to
/// `to_block` that has taken nothing yet.
pub open spec fn stream_start(from_block: u64, to_block: u64) -> StreamRetrieverView {
    StreamRetrieverView { from_block, to_block, phase: Phase::Active, events: Seq::empty() }
}

/// The state in which a streamed retrieval fails: it holds nothing.
pub open spec fn stream_failed(before: StreamRetrieverView) -> StreamRetrieverView {
    StreamRetrieverView {
        from_block: before.from_block,
        to_block: before.to_block,
        phase: Phase::Failed,
        events: Seq::empty(),
    }
}

/// The state in which a streamed retrieval has taken `events` and goes on, or
/// is complete.
pub open spec fn stream_holding(
    before: StreamRetrieverView,
    phase: Phase,
    events: Seq<EventView>,
) -> StreamRetrieverView {
    StreamRetrieverView { from_block: before.from_block, to_block: before.to_block, phase, events }
}

/// The state after a notification, and what the caller does next.
///
/// An event up to the last block is taken. The first event beyond it
/// completes the retrieval and is not taken. An event without a block
/// number, an event that is no JSON object, a reorganisation and a failure
/// of the subscription each fail the retrieval. A retrieval that is complete
/// or has failed takes nothing.
pub open spec fn after_notification(before: StreamRetrieverView, notification: NotificationView) -> (
    StreamRetrieverView,
    StreamAction,
) {
    if before.phase != Phase::Active {
        (before, StreamAction::Stop)
    } else {
        after_live_notification(before, notification)
    }
}

/// `after_notification` for a retrieval that is active.
pub open spec fn after_live_notification(
    before: StreamRetrieverView,
    notification: NotificationView,
) -> (StreamRetrieverView, StreamAction) {
    match notification {
        NotificationView::Event { block_number: None, raw } => (
            stream_failed(before),
            StreamAction::Fail(QueryError::MissingBlockNumber),
        ),
        NotificationView::Event { block_number: Some(number), raw } => if number
            > before.to_block {
            (stream_holding(before, Phase::Complete, before.events), StreamAction::Stop)
        } else {
            match canonical_event(raw) {
                Some(event) => (
                    stream_holding(before, Phase::Active, before.events.push(event)),
                    StreamAction::Continue,
                ),
                None => (stream_failed(before), StreamAction::Fail(QueryError::MalformedEvent)),
            }
        },
        NotificationView::Reorg { starting_block_number, ending_block_number } => (
            stream_failed(before),
            StreamAction::Fail(
                QueryError::ReorgEncountered { starting_block_number, ending_block_number },
            ),
        ),
        NotificationView::Failure => (
            stream_failed(before),
            StreamAction::Fail(QueryError::TransportError),
        ),
    }
}

impl StreamRetriever {
    /// A retrieval of the events of the blocks from `from_block` to
    /// `to_block`, which has taken nothing yet.
    pub fn new(from_block: u64, to_block: u64) -> (r: Self)
        ensures
            r@ == stream_start(from_block, to_block),
    {
        let r = StreamRetriever { from_block, to_block, phase: Phase::Active, events: Vec::new() };
        assert(r@.events =~= Seq::empty());
        r
    }

    /// The block at which the subscription is to start.
    pub fn start_block(&self) -> (r: u64)
        ensures
            r == self@.from_block,
    {
        self.from_block
    }

    /// Where the retrieval stands.
    pub fn phase(&self) -> (r: Phase)
        ensures
            r == self@.phase,
    {
        self.phase
    }

    /// The number of events held.
    pub fn len(&self) -> (r: usize)
        ensures
            r == self@.events.len(),
    {
        self.events.len()
    }

    fn give_up(&mut self)
        ensures
            final(self)@ == stream_failed(old(self)@),
    {
        self.phase = Phase::Failed;
        self.events = Vec::new();
        assert(self@.events =~= Seq::empty());
    }

    /// Takes the next notification of the subscription and says what to do.
    pub fn accept(&mut self, notification: Notification) -> (r: StreamAction)
        ensures
            (final(self)@, r) == after_notification(old(self)@, notification@),
    {
        match self.phase {
            Phase::Active => {},
            _ => {
                return StreamAction::Stop;
            },
        }
        match notification {
            Notification::Event { block_number: None, raw: _ } => {
                self.give_up();
                StreamAction::Fail(QueryError::MissingBlockNumber)
            },
            Notification::Event { block_number: Some(number), raw } => {
                if number > self.to_block {
                    self.phase = Phase::Complete;
                    StreamAction::Stop
                } else {
                    match parse_event(raw.as_str()) {
                        Ok(event) => {
                            let ghost before = event_views(self.events@);
                            self.events.push(event);
                            assert(self@.events =~= before.push(event@));
                            StreamAction::Continue
                        },
                        Err(_) => {
                            self.give_up();
                            StreamAction::Fail(QueryError::MalformedEvent)
                        },
                    }
                }
            },
            Notification::Reorg { starting_block_number, ending_block_number } => {
                self.give_up();
                StreamAction::Fail(
                    QueryError::ReorgEncountered { starting_block_number, ending_block_number },
                )
            },
            Notification::Failure => {
                self.give_up();
                StreamAction::Fail(QueryError::TransportError)
            },
        }
    }

    /// The events retrieved, in the order in which they came: `Some` for a
    /// complete retrieval only.
    pub fn into_events(self) -> (r: Option<Vec<Event>>)
        ensures
            r is Some <==> self@.phase == Phase::Complete,
            r matches Some(events) ==> event_views(events@) == self@.events && events.len()
                == self@.events.len(),
    {
        match self.phase {
            Phase::Complete => Some(self.events),
            _ => None,
        }
    }
}

/// One page as the node answered it.
pub struct PageView {
    pub raw_events: Seq<Seq<char>>,
    pub continuation_token: Option<Seq<char>>,
}

/// The state after the pages `pages`, taken one after the other for as long
/// as the retrieval is active.
pub open spec fn after_pages(before: PagedRetrieverView, pages: Seq<PageView>) -> PagedRetrieverView
    decreases pages.len(),
{
    if pages.len() == 0 || before.phase != Phase::Active {
        before
    } else {
        after_pages(
            after_page(before, pages[0].raw_events, pages[0].continuation_token),
            pages.drop_first(),
        )
    }
}

/// The canonical events of the first `count` pages, one page after the other.
pub open spec fn joined_pages(pages: Seq<PageView>, count: int) -> Seq<EventView>
    decreases count,
{
    if count <= 0 {
        Seq::empty()
    } else {
        joined_pages(pages, count - 1) + canonical_events(pages[count - 1].raw_events)->0
    }
}

proof fn lemma_pages_from(before: PagedRetrieverView, pages: Seq<PageView>, last: int)
    requires
        before.phase == Phase::Active,
        0 <= last < pages.len(),
        forall|i: int| 0 <= i <= last ==> canonical_events((#[trigger] pages[i]).raw_events) is Some,
        forall|i: int| 0 <= i < last ==> (#[trigger] pages[i]).continuation_token is Some,
        pages[last].continuation_token is None,
    ensures
        after_pages(before, pages) == (PagedRetrieverView {
            from_block: before.from_block,
            to_block: before.to_block,
            phase: Phase::Complete,
            token: None,
            events: before.events + joined_pages(pages, last + 1),
        }),
    decreases pages.len(),
{
    let next = after_page(before, pages[0].raw_events, pages[0].continuation_token);
    let rest = pages.drop_first();
    if last == 0 {
        assert(joined_pages(pages, 0) =~= Seq::<EventView>::empty());
        assert(after_pages(next, rest) == next);
    } else {
        lemma_pages_from(next, rest, last - 1);
        lemma_joined_shift(pages, last);
        assert(next.events + joined_pages(rest, last) =~= before.events + joined_pages(
            pages,
            last + 1,
        ));
    }
}

proof fn lemma_joined_shift(pages: Seq<PageView>, count: int)
    requires
        0 <= count < pages.len(),
    ensures
        canonical_events(pages[0].raw_events)->0 + joined_pages(pages.drop_first(), count)
            == joined_pages(pages, count + 1),
    decreases count,
{
    if count == 0 {
        assert(joined_pages(pages, 0) =~= Seq::<EventView>::empty());
        assert(canonical_events(pages[0].raw_events)->0 + Seq::<EventView>::empty()
            =~= joined_pages(pages, 1));
    } else {
        lemma_joined_shift(pages, count - 1);
        assert(canonical_events(pages[0].raw_events)->0 + joined_pages(pages.drop_first(), count)
            =~= joined_pages(pages, count + 1));
    }
}

/// A paged retrieval yields the events of its pages, in the order of the
/// pages: where every page but the last comes with a token, the last without
/// one, and every event is a JSON object, the retrieval ends complete with the
/// events of the first page, then those of the second, and so on.
pub proof fn lemma_pages_concatenate(
    from_block: u64,
    to_block: u64,
    pages: Seq<PageView>,
    last: int,
)
    requires
        0 <= last < pages.len(),
        forall|i: int| 0 <= i <= last ==> canonical_events((#[trigger] pages[i]).raw_events) is Some,
        forall|i: int| 0 <= i < last ==> (#[trigger] pages[i]).continuation_token is Some,
        pages[last].continuation_token is None,
    ensures
        after_pages(paged_start(from_block, to_block), pages) == (PagedRetrieverView {
            from_block,
            to_block,
            phase: Phase::Complete,
            token: None,
            events: joined_pages(pages, last + 1),
        }),
{
    let start = paged_start(from_block, to_block);
    lemma_pages_from(start, pages, last);
}

/// The state after the notifications `notifications`, taken one after the
/// other for as long as the retrieval is active.
pub open spec fn after_notifications(
    before: StreamRetrieverView,
    notifications: Seq<NotificationView>,
) -> StreamRetrieverView
    decreases notifications.len(),
{
    if notifications.len() == 0 || before.phase != Phase::Active {
        before
    } else {
        after_notifications(
            after_notification(before, notifications[0]).0,
            notifications.drop_first(),
        )
    }
}

/// The notification is an event of a block up to `to_block`, and a JSON
/// object.
pub open spec fn within(notification: NotificationView, to_block: u64) -> bool {
    match notification {
        NotificationView::Event { block_number: Some(number), raw } => number <= to_block
            && canonical_event(raw) is Some,
        _ => false,
    }
}

/// The notification is an event of a block after `to_block`.
pub open spec fn beyond(notification: NotificationView, to_block: u64) -> bool {
    match notification {
        NotificationView::Event { block_number: Some(number), raw } => number > to_block,
        _ => false,
    }
}

/// The canonical events of the first `count` notifications.
pub open spec fn taken(notifications: Seq<NotificationView>, count: int) -> Seq<EventView> {
    Seq::new(count as nat, |i: int| canonical_event(notifications[i]->Event_raw)->0)
}

proof fn lemma_stream_from(
    before: StreamRetrieverView,
    notifications: Seq<NotificationView>,
    count: int,
)
    requires
        before.phase == Phase::Active,
        0 <= count < notifications.len(),
        forall|i: int| 0 <= i < count ==> within(#[trigger] notifications[i], before.to_block),
        !within(notifications[count], before.to_block),
    ensures
        after_notifications(before, notifications) == after_notification(
            stream_holding(before, Phase::Active, before.events + taken(notifications, count)),
            notifications[count],
        ).0,
    decreases notifications.len(),
{
    let next = after_notification(before, notifications[0]).0;
    let rest = notifications.drop_first();
    if count > 0 {
        lemma_stream_from(next, rest, count - 1);
        assert(next.events + taken(rest, count - 1) =~= before.events + taken(
            notifications,
            count,
        ));
    }
}

/// A streamed retrieval stops at the first event beyond the last block and
/// leaves it out: where the notifications before it are events up to the last
/// block, the retrieval ends complete with exactly those events, in the order
/// in which they came, whatever follows.
pub proof fn lemma_stream_stops(
    from_block: u64,
    to_block: u64,
    notifications: Seq<NotificationView>,
    count: int,
)
    requires
        0 <= count < notifications.len(),
        forall|i: int| 0 <= i < count ==> within(#[trigger] notifications[i], to_block),
        beyond(notifications[count], to_block),
    ensures
        after_notifications(stream_start(from_block, to_block), notifications) == stream_holding(
            stream_start(from_block, to_block),
            Phase::Complete,
            taken(notifications, count),
        ),
{
    let start = stream_start(from_block, to_block);
    lemma_stream_from(start, notifications, count);
}

/// A streamed retrieval fails at a reorganisation and keeps nothing: where the
/// notifications before it are events up to the last block, the retrieval
/// ends failed and empty, whatever follows.
pub proof fn lemma_stream_fails_on_reorg(
    from_block: u64,
    to_block: u64,
    notifications: Seq<NotificationView>,
    count: int,
)
    requires
        0 <= count < notifications.len(),
        forall|i: int| 0 <= i < count ==> within(#[trigger] notifications[i], to_block),
        notifications[count] is Reorg,
    ensures
        after_notifications(stream_start(from_block, to_block), notifications) == stream_failed(
            stream_start(from_block, to_block),
        ),
{
    let start = stream_start(from_block, to_block);
    lemma_stream_from(start, notifications, count);
}

} // verus!
