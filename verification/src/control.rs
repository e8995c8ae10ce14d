//! The decisions of the proxy's threads: what each does on what it hears.
use vstd::prelude::*;

use crate::datapoint::{DataPoint, FieldValue, FieldView, Level, PointView};
use crate::metrics::ShredMetrics;

verus! {

/// The most forwarding threads that are started unless more are asked for.
pub const MAX_DEFAULT_THREADS: usize = 4;

/// Seconds between two looks at the list of destinations, and between two questions to the
/// discovery service.
pub const REFRESH_PERIOD_SECS: u64 = 30;

/// Seconds between two looks at whether the duplicate filter is due for a reset.
pub const DEDUPER_CHECK_PERIOD_SECS: u64 = 2;

/// Milliseconds that the reconstruction thread waits for a batch before it looks whether to stop.
pub const RECONSTRUCT_WAIT_MILLIS: u64 = 100;

/// Batches that can wait for reconstruction.
pub const RECONSTRUCT_QUEUE_LEN: usize = 1_024;

/// How many sockets are bound and listened on.
pub open spec fn thread_count(requested: Option<usize>, available: usize) -> usize {
    match requested {
        Some(number) => number,
        None => if available < MAX_DEFAULT_THREADS {
            available
        } else {
            MAX_DEFAULT_THREADS
        },
    }
}

/// What is asked for is what there is, whatever is available. Unless something is asked for, there
/// are at most four and at most as many as available, and no fewer than both allow.
pub proof fn threads_are_as_asked_for(number: usize, available: usize)
    ensures
        thread_count(Some(number), available) == number,
        thread_count(None, available) <= 4,
        thread_count(None, available) <= available,
        thread_count(None, available) == 4 || thread_count(None, available) == available,
{
}

/// What the threads wait for: destinations are looked at every half minute, the filter every two
/// seconds, and the reconstruction thread looks up ten times a second, with room for 1024 batches.
pub proof fn threads_keep_their_periods()
    ensures
        2 * REFRESH_PERIOD_SECS == 60,
        DEDUPER_CHECK_PERIOD_SECS == 2,
        10 * RECONSTRUCT_WAIT_MILLIS == 1000,
        RECONSTRUCT_QUEUE_LEN == 1024,
{
}

/// How many sockets are bound and listened on: as many as asked for, or one for each of the
/// `available` processors up to a limit.
pub fn forwarder_threads(requested: Option<usize>, available: usize) -> (threads: usize)
    ensures
        threads == match requested {
            Some(number) => number,
            None => if available < MAX_DEFAULT_THREADS {
                available
            } else {
                MAX_DEFAULT_THREADS
            },
        },
        threads == thread_count(requested, available),
{
    match requested {
        Some(number) => number,
        None => if available < MAX_DEFAULT_THREADS {
            available
        } else {
            MAX_DEFAULT_THREADS
        },
    }
}

/// The range of ports, first to last exclusive, that holds `src_port` alone.
pub fn listen_port_range(src_port: u16) -> (range: (u16, u16))
    requires
        src_port < u16::MAX,
    ensures
        range.0 == src_port,
        range.1 == src_port + 1,
{
    (src_port, src_port + 1)
}

/// Seconds after which a forwarding thread looks again at the list of destinations; `None` if the
/// list never changes because no endpoints are discovered.
pub fn subscriber_refresh_secs(use_discovery_service: bool) -> (secs: Option<u64>)
    ensures
        secs == if use_discovery_service {
            Some(REFRESH_PERIOD_SECS)
        } else {
            None
        },
{
    if use_discovery_service {
        Some(REFRESH_PERIOD_SECS)
    } else {
        None
    }
}

/// What the reconstruction thread hears.
#[derive(Clone, Copy, Debug, PartialEq, Eq, Structural)]
pub enum ReconstructEvent {
    /// A batch of packets.
    Batch,
    /// Nothing for a while.
    Timeout,
    /// No batch will come any more.
    Disconnected,
}

#[derive(Clone, Copy, Debug, PartialEq, Eq, Structural)]
pub enum ReconstructAction {
    /// Reconstruct entries from the batch and publish them.
    Reconstruct,
    /// Go on listening.
    Wait,
    Stop,
}

pub fn reconstruct_action(event: ReconstructEvent) -> (action: ReconstructAction)
    ensures
        action == match event {
            ReconstructEvent::Batch => ReconstructAction::Reconstruct,
            ReconstructEvent::Timeout => ReconstructAction::Wait,
            ReconstructEvent::Disconnected => ReconstructAction::Stop,
        },
{
    match event {
        ReconstructEvent::Batch => ReconstructAction::Reconstruct,
        ReconstructEvent::Timeout => ReconstructAction::Wait,
        ReconstructEvent::Disconnected => ReconstructAction::Stop,
    }
}

/// What a forwarding thread hears.
#[derive(Clone, Copy, Debug, PartialEq, Eq, Structural)]
pub enum SenderEvent {
    /// A batch of packets.
    Packets,
    /// No packets will come any more.
    PacketsClosed,
    /// It is time to look at the list of destinations.
    RefreshTick,
    Shutdown,
}

#[derive(Clone, Copy, Debug, PartialEq, Eq, Structural)]
pub enum SenderAction {
    /// Send the batch to every destination.
    Forward,
    /// Take over the current list of destinations.
    ReloadDestinations,
    Stop,
}

pub fn sender_action(event: SenderEvent) -> (action: SenderAction)
    ensures
        action == match event {
            SenderEvent::Packets => SenderAction::Forward,
            SenderEvent::RefreshTick => SenderAction::ReloadDestinations,
            SenderEvent::PacketsClosed | SenderEvent::Shutdown => SenderAction::Stop,
        },
{
    match event {
        SenderEvent::Packets => SenderAction::Forward,
        SenderEvent::RefreshTick => SenderAction::ReloadDestinations,
        SenderEvent::PacketsClosed | SenderEvent::Shutdown => SenderAction::Stop,
    }
}

/// What the accessory thread hears.
#[derive(Clone, Copy, Debug, PartialEq, Eq, Structural)]
pub enum AccessoryEvent {
    DeduperResetTick,
    MetricsTick,
    Shutdown,
}

#[derive(Clone, Copy, Debug, PartialEq, Eq, Structural)]
pub enum AccessoryAction {
    /// Reset the duplicate filter if it is due, to avoid false positives.
    MaybeResetDeduper,
    /// Submit the samples and start the counts over.
    ReportAndReset,
    Stop,
}

pub fn accessory_action(event: AccessoryEvent) -> (action: AccessoryAction)
    ensures
        action == match event {
            AccessoryEvent::DeduperResetTick => AccessoryAction::MaybeResetDeduper,
            AccessoryEvent::MetricsTick => AccessoryAction::ReportAndReset,
            AccessoryEvent::Shutdown => AccessoryAction::Stop,
        },
{
    match event {
        AccessoryEvent::DeduperResetTick => AccessoryAction::MaybeResetDeduper,
        AccessoryEvent::MetricsTick => AccessoryAction::ReportAndReset,
        AccessoryEvent::Shutdown => AccessoryAction::Stop,
    }
}

impl ShredMetrics {
    /// The samples of everything that was counted; then the counts start over.
    pub fn report_and_reset(&mut self, info_enabled: bool) -> (points: Vec<DataPoint>)
        requires
            old(self).wf(),
        ensures
            final(self).wf(),
            final(self)@ == old(self)@.reported(info_enabled).reset(),
            !info_enabled ==> points@.len() == 0,
            info_enabled ==> old(self)@.reports(crate::datapoint::point_views(points@)),
    {
        let points = self.report(info_enabled);
        self.reset();
        points
    }
}

/// Destinations are replaced only by an answer, and then there are as many as it brought. Without
/// one they stay: a failed fetch is told of, with what went wrong, and nothing is stored.
pub proof fn answers_alone_replace_destinations(refresh: DestinationRefresh, event: RefreshEvent)
    ensures
        event matches RefreshEvent::Fetched { count } ==> refresh.count_after(event) == count,
        !(event is Fetched) ==> refresh.count_after(event) == refresh.socket_count,
        refresh.action_on(event) is Store <==> event is Fetched,
        refresh.action_on(event) is Fetch <==> event is FetchTick,
        refresh.action_on(event) is Stop <==> event is Shutdown,
        event matches RefreshEvent::FetchFailed { error } ==> refresh.action_on(event)
            == RefreshActionView::Submit(refresh.error_point(error@)),
        event is MetricsTick ==> refresh.action_on(event) == RefreshActionView::Submit(
            refresh.stats_point(),
        ),
{
}

/// The sample about the number of destinations shows that number.
pub proof fn stats_sample_shows_the_count(refresh: DestinationRefresh)
    ensures
        refresh.stats_point().level == Level::Info,
        refresh.stats_point().name == "shredstream_proxy-destination_refresh_stats"@,
        refresh.stats_point().tags.len() == 0,
        refresh.stats_point().fields == seq![
            ("destination_count"@, FieldView::Int(refresh.socket_count as u64 as i64)),
        ],
{
}

/// The sample about a failed fetch is a warning that shows how many destinations are kept, one error,
/// and what went wrong.
pub proof fn error_sample_shows_the_error(refresh: DestinationRefresh, error: Seq<char>)
    ensures
        refresh.error_point(error).level == Level::Warn,
        refresh.error_point(error).name == "shredstream_proxy-destination_refresh_error"@,
        refresh.error_point(error).tags.len() == 0,
        refresh.error_point(error).fields == seq![
            ("prev_unioned_dest_count"@, FieldView::Int(refresh.socket_count as u64 as i64)),
            ("errors"@, FieldView::Int(1)),
            ("error_str"@, FieldView::Text(error)),
        ],
{
    assert(1u64 as i64 == 1i64) by (bit_vector);
}

/// What the thread that keeps the list of destinations hears.
#[derive(Debug)]
pub enum RefreshEvent {
    /// It is time to ask the discovery service.
    FetchTick,
    /// The discovery service answered: there are so many destinations.
    Fetched { count: usize },
    /// There was no usable answer.
    FetchFailed { error: String },
    /// It is time to say how many destinations there are.
    MetricsTick,
    Shutdown,
}

#[derive(Debug)]
pub enum RefreshAction {
    /// Ask the discovery service.
    Fetch,
    /// Put the fetched destinations in place of the ones before.
    Store,
    /// Keep the destinations, and submit a sample.
    Submit(DataPoint),
    Stop,
}

/// An action, with its sample as a mathematical value.
pub enum RefreshActionView {
    Fetch,
    Store,
    Submit(PointView),
    Stop,
}

impl View for RefreshAction {
    type V = RefreshActionView;

    open spec fn view(&self) -> RefreshActionView {
        match *self {
            RefreshAction::Fetch => RefreshActionView::Fetch,
            RefreshAction::Store => RefreshActionView::Store,
            RefreshAction::Submit(point) => RefreshActionView::Submit(point@),
            RefreshAction::Stop => RefreshActionView::Stop,
        }
    }
}

/// The view of an action shows which one it is, with its sample.
pub proof fn view_shows_the_action(action: RefreshAction)
    ensures
        match (action, action@) {
            (RefreshAction::Fetch, RefreshActionView::Fetch) => true,
            (RefreshAction::Store, RefreshActionView::Store) => true,
            (RefreshAction::Submit(point), RefreshActionView::Submit(shown)) => shown == point@,
            (RefreshAction::Stop, RefreshActionView::Stop) => true,
            _ => false,
        },
{
}

/// How many destinations there are.
#[derive(Debug)]
pub struct DestinationRefresh {
    pub socket_count: usize,
}

impl DestinationRefresh {
    /// The sample about the number of destinations.
    pub open spec fn stats_point(self) -> PointView {
        PointView::named(Level::Info, "shredstream_proxy-destination_refresh_stats"@).with_count(
            "destination_count"@,
            self.socket_count as u64,
        )
    }

    /// The sample about an answer that could not be used.
    pub open spec fn error_point(self, error: Seq<char>) -> PointView {
        PointView::named(Level::Warn, "shredstream_proxy-destination_refresh_error"@).with_count(
            "prev_unioned_dest_count"@,
            self.socket_count as u64,
        ).with_count("errors"@, 1).with_field("error_str"@, FieldView::Text(error))
    }

    /// What is done on an event.
    pub open spec fn action_on(self, event: RefreshEvent) -> RefreshActionView {
        match event {
            RefreshEvent::FetchTick => RefreshActionView::Fetch,
            RefreshEvent::Fetched { .. } => RefreshActionView::Store,
            RefreshEvent::FetchFailed { error } => RefreshActionView::Submit(
                self.error_point(error@),
            ),
            RefreshEvent::MetricsTick => RefreshActionView::Submit(self.stats_point()),
            RefreshEvent::Shutdown => RefreshActionView::Stop,
        }
    }

    /// How many destinations there are after an event.
    pub open spec fn count_after(self, event: RefreshEvent) -> usize {
        match event {
            RefreshEvent::Fetched { count } => count,
            _ => self.socket_count,
        }
    }

    /// Starts with the configured destinations.
    pub fn new(static_count: usize) -> (refresh: DestinationRefresh)
        ensures
            refresh.socket_count == static_count,
    {
        DestinationRefresh { socket_count: static_count }
    }

    /// What to do on an event. The number of destinations changes only with an answer.
    pub fn handle(&mut self, event: RefreshEvent) -> (action: RefreshAction)
        ensures
            action@ == match event {
                RefreshEvent::FetchTick => RefreshActionView::Fetch,
                RefreshEvent::Fetched { .. } => RefreshActionView::Store,
                RefreshEvent::FetchFailed { error } => RefreshActionView::Submit(
                    old(self).error_point(error@),
                ),
                RefreshEvent::MetricsTick => RefreshActionView::Submit(old(self).stats_point()),
                RefreshEvent::Shutdown => RefreshActionView::Stop,
            },
            final(self).socket_count == match event {
                RefreshEvent::Fetched { count } => count,
                _ => old(self).socket_count,
            },
            action@ == old(self).action_on(event),
            final(self).socket_count == old(self).count_after(event),
    {
        match event {
            RefreshEvent::FetchTick => RefreshAction::Fetch,
            RefreshEvent::Fetched { count } => {
                self.socket_count = count;
                RefreshAction::Store
            },
            RefreshEvent::FetchFailed { error } => RefreshAction::Submit(
                DataPoint::new(
                    Level::Warn,
                    "shredstream_proxy-destination_refresh_error",
                ).with_count("prev_unioned_dest_count", self.socket_count as u64).with_count(
                    "errors",
                    1,
                ).with_field("error_str", FieldValue::Text(error)),
            ),
            RefreshEvent::MetricsTick => RefreshAction::Submit(
                DataPoint::new(
                    Level::Info,
                    "shredstream_proxy-destination_refresh_stats",
                ).with_count("destination_count", self.socket_count as u64),
            ),
            RefreshEvent::Shutdown => RefreshAction::Stop,
        }
    }
}

} // verus!
