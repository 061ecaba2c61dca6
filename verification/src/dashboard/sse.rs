//! Events that are sent to the browsers.
use super::state::{
    copy_opportunities, opportunity_views, DashboardEvent, DashboardState, DisplayPosition,
    OpenPosition, PositionsSummary,
};
use crate::text::Line;
use vstd::prelude::*;

verus! {

/// How often the stats are broadcast, in seconds.
pub const STATS_INTERVAL_SECS: u64 = 5;

/// How often the status is broadcast, in seconds.
pub const HEARTBEAT_INTERVAL_SECS: u64 = 30;

/// How often a silent connection is kept alive, in seconds.
pub const KEEP_ALIVE_SECS: u64 = 15;

impl DashboardEvent {
    /// The name under which an event is sent.
    pub open spec fn name(self) -> Seq<char> {
        match self {
            DashboardEvent::Stats(_) => "stats"@,
            DashboardEvent::Positions(_) => "positions"@,
            DashboardEvent::Opportunities(_) => "opportunities"@,
            DashboardEvent::Status { .. } => "status"@,
            DashboardEvent::PriceUpdate { .. } => "price_update"@,
            DashboardEvent::Alert { .. } => "alert"@,
        }
    }

    /// The name under which an event is sent.
    pub fn event_type(&self) -> (r: &'static str)
        ensures
            r@ == self.name(),
    {
        match self {
            DashboardEvent::Stats(_) => "stats",
            DashboardEvent::Positions(_) => "positions",
            DashboardEvent::Opportunities(_) => "opportunities",
            DashboardEvent::Status { .. } => "status",
            DashboardEvent::PriceUpdate { .. } => "price_update",
            DashboardEvent::Alert { .. } => "alert",
        }
    }

    /// Whether an event is sent with its tag. Stats, positions and opportunities are sent bare.
    pub fn is_sent_with_tag(&self) -> (r: bool)
        ensures
            r <==> self is Status || self is PriceUpdate || self is Alert,
    {
        match self {
            DashboardEvent::Stats(_) => false,
            DashboardEvent::Positions(_) => false,
            DashboardEvent::Opportunities(_) => false,
            DashboardEvent::Status { .. } => true,
            DashboardEvent::PriceUpdate { .. } => true,
            DashboardEvent::Alert { .. } => true,
        }
    }

    /// Whether the event holds the positions as they are displayed.
    pub open spec fn shows_positions(self, open: Seq<OpenPosition>) -> bool {
        self matches DashboardEvent::Positions(list) && list.len() == open.len() && forall|i: int|
            0 <= i < open.len() ==> (#[trigger] list[i])@ == open[i].displayed()
    }

    /// Whether the event holds the stats of a state.
    pub open spec fn shows_stats(self, state: DashboardState, summary: PositionsSummary) -> bool {
        self matches DashboardEvent::Stats(stats) && stats.sums_up(state, summary)
    }
}

impl DashboardState {
    /// What a client is sent on connection: the stats, the positions, the opportunities and the
    /// status, in order.
    pub fn initial_events(
        &self,
        summary: &PositionsSummary,
        open: &Vec<OpenPosition>,
    ) -> (events: Vec<DashboardEvent>)
        requires
            summary.open_positions + summary.resolved_positions <= usize::MAX,
        ensures
            events.len() == 4,
            events[0].shows_stats(*self, *summary),
            events[1].shows_positions(open@),
            events[2] matches DashboardEvent::Opportunities(list) && opportunity_views(list@)
                == opportunity_views(self.opportunities@),
            self.is_told_by(events[3]),
    {
        let mut events = self.stats_events(summary, open);
        events.push(DashboardEvent::Opportunities(copy_opportunities(&self.opportunities)));
        events.push(self.status_event());
        events
    }

    /// What is broadcast with each tick of the stats: the stats and the positions, in order.
    pub fn stats_events(
        &self,
        summary: &PositionsSummary,
        open: &Vec<OpenPosition>,
    ) -> (events: Vec<DashboardEvent>)
        requires
            summary.open_positions + summary.resolved_positions <= usize::MAX,
        ensures
            events.len() == 2,
            events[0].shows_stats(*self, *summary),
            events[1].shows_positions(open@),
    {
        let mut events: Vec<DashboardEvent> = Vec::new();
        events.push(DashboardEvent::Stats(self.get_stats(summary)));
        let positions: Vec<DisplayPosition> = Self::get_display_positions(open);
        events.push(DashboardEvent::Positions(positions));
        events
    }
}

/// What came out of the broadcast channel.
#[derive(Debug)]
pub enum Reception {
    /// An event.
    Event(DashboardEvent),
    /// So many messages were missed.
    Lagged(u64),
    /// The channel was closed.
    Closed,
}

/// What a client's stream does next.
#[derive(Debug)]
pub enum StreamStep {
    /// Serialize the event and send it under its name, if it can be serialized.
    Send(DashboardEvent),
    /// Wait for the next event.
    Receive,
    /// End the stream.
    End,
}

/// What a client's stream does with what came out of the broadcast channel: it sends an event,
/// goes on where it missed some, and ends where the channel was closed.
pub fn after_reception(reception: Reception) -> (step: StreamStep)
    ensures
        step == (match reception {
            Reception::Event(event) => StreamStep::Send(event),
            Reception::Lagged(_) => StreamStep::Receive,
            Reception::Closed => StreamStep::End,
        }),
{
    match reception {
        Reception::Event(event) => StreamStep::Send(event),
        Reception::Lagged(_) => StreamStep::Receive,
        Reception::Closed => StreamStep::End,
    }
}

/// An event as it is sent.
#[derive(Debug)]
pub struct Frame {
    pub event_type: &'static str,
    pub data: String,
}

/// The event as it is sent; nothing is sent where it could not be serialized.
pub fn frame(event_type: &'static str, json: Option<String>) -> (r: Option<Frame>)
    ensures
        r == (match json {
            Some(data) => Some(Frame { event_type, data }),
            None => None,
        }),
{
    match json {
        Some(data) => Some(Frame { event_type, data }),
        None => None,
    }
}

/// Helper to format SSE event data
pub fn format_sse_event(event_type: &str, data: &str) -> (r: String)
    ensures
        r@ == "event: "@ + event_type@ + "\ndata: "@ + data@ + "\n\n"@,
{
    Line::of("event: ").add(event_type).add("\ndata: ").add(data).add("\n\n").done()
}

} // verus!
