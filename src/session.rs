//! Device-session lifecycle: decides when a read session starts and stops.
use vstd::prelude::*;

use crate::config::DeviceIdentity;

verus! {

/// A hotplug notification from the USB host stack.
#[derive(Debug, Clone, Copy, PartialEq, Eq, Structural)]
pub enum CustomHotplugEvent {
    DeviceArrived,
    DeviceLeft,
}

/// What the caller must do after a lifecycle event.
#[derive(Debug, Clone, Copy, PartialEq, Eq, Structural)]
pub enum SessionAction {
    /// Nothing.
    Ignore,
    /// Open the device and start reading, as session `session`.
    Start { session: u64 },
    /// Signal session `session`'s reader to stop; do not wait for it.
    Cancel { session: u64 },
}

/// Bounded wait of one poll of the host stack's hotplug events.
pub const HOTPLUG_POLL_WAIT_MS: u64 = 200;

/// Pause after a failed poll before polling again.
pub const HOTPLUG_RETRY_PAUSE_MS: u64 = 1000;

/// What happened at the hotplug monitor's last step.
#[derive(Debug, Clone, Copy, PartialEq, Eq, Structural)]
pub enum MonitorEvent {
    /// The host stack has no hotplug capability.
    Unsupported,
    /// Creating the context or registering for events failed.
    SetupFailed,
    /// The monitor is set up, or a poll ended normally.
    Polled,
    /// A poll reported an error.
    PollFailed,
}

/// What the hotplug monitor does next.
#[derive(Debug, Clone, Copy, PartialEq, Eq, Structural)]
pub enum MonitorStep {
    /// Poll for events, waiting at most `wait_ms` milliseconds.
    Poll { wait_ms: u64 },
    /// Sleep `pause_ms` milliseconds, then poll.
    PauseThenPoll { pause_ms: u64 },
    /// Report once and stop monitoring.
    Stop,
}

/// The hotplug monitor's policy: stop on a missing capability or a setup
/// failure, poll with a bounded wait, and retry after a pause when a poll
/// fails.
pub fn monitor_step(e: MonitorEvent) -> (r: MonitorStep)
    ensures
        r == match e {
            MonitorEvent::Unsupported | MonitorEvent::SetupFailed => MonitorStep::Stop,
            MonitorEvent::Polled => MonitorStep::Poll { wait_ms: HOTPLUG_POLL_WAIT_MS },
            MonitorEvent::PollFailed => MonitorStep::PauseThenPoll { pause_ms: HOTPLUG_RETRY_PAUSE_MS },
        },
{
    match e {
        MonitorEvent::Unsupported | MonitorEvent::SetupFailed => MonitorStep::Stop,
        MonitorEvent::Polled => MonitorStep::Poll { wait_ms: HOTPLUG_POLL_WAIT_MS },
        MonitorEvent::PollFailed => MonitorStep::PauseThenPoll { pause_ms: HOTPLUG_RETRY_PAUSE_MS },
    }
}

/// The lifecycle state: the identity served, the live session if any, and
/// the id the next session will get.
pub struct SessionView {
    pub identity: DeviceIdentity,
    pub active: Option<u64>,
    pub next_session: u64,
}

/// The state after a hotplug event from a device with the given ids, and the
/// action it calls for. A matching arrival while idle starts a session (while
/// ids remain); a departure while active cancels it; all else is ignored.
pub open spec fn on_hotplug_spec(
    s: SessionView,
    event: CustomHotplugEvent,
    vendor_id: u16,
    product_id: u16,
) -> (SessionView, SessionAction) {
    match event {
        CustomHotplugEvent::DeviceArrived => {
            if s.active is None && vendor_id == s.identity.vendor_id && product_id
                == s.identity.product_id && s.next_session < u64::MAX {
                (
                    SessionView {
                        identity: s.identity,
                        active: Some(s.next_session),
                        next_session: (s.next_session + 1) as u64,
                    },
                    SessionAction::Start { session: s.next_session },
                )
            } else {
                (s, SessionAction::Ignore)
            }
        },
        CustomHotplugEvent::DeviceLeft => match s.active {
            Some(id) => (
                SessionView { identity: s.identity, active: None, next_session: s.next_session },
                SessionAction::Cancel { session: id },
            ),
            None => (s, SessionAction::Ignore),
        },
    }
}

/// The state after session `session` ended by itself (it failed to start, or
/// its reader stopped): idle if it was the live one, else unchanged.
pub open spec fn on_ended_spec(s: SessionView, session: u64) -> SessionView {
    if s.active == Some(session) {
        SessionView { identity: s.identity, active: None, next_session: s.next_session }
    } else {
        s
    }
}

/// The lifecycle coordinator; owns the single slot for the live session.
pub struct DeviceSession {
    identity: DeviceIdentity,
    active: Option<u64>,
    next_session: u64,
}

impl View for DeviceSession {
    type V = SessionView;

    closed spec fn view(&self) -> SessionView {
        SessionView { identity: self.identity, active: self.active, next_session: self.next_session }
    }
}

impl DeviceSession {
    /// An idle coordinator for the device `identity`.
    pub fn new(identity: DeviceIdentity) -> (r: Self)
        ensures
            r@ == (SessionView { identity, active: None, next_session: 0 }),
    {
        DeviceSession { identity, active: None, next_session: 0 }
    }

    /// Reacts to a hotplug event from the device with the given ids.
    pub fn on_hotplug(&mut self, event: CustomHotplugEvent, vendor_id: u16, product_id: u16) -> (r:
        SessionAction)
        ensures
            (final(self)@, r) == on_hotplug_spec(old(self)@, event, vendor_id, product_id),
    {
        match event {
            CustomHotplugEvent::DeviceArrived => {
                if self.active.is_none() && vendor_id == self.identity.vendor_id && product_id
                    == self.identity.product_id && self.next_session < u64::MAX {
                    let id = self.next_session;
                    self.active = Some(id);
                    self.next_session = id + 1;
                    SessionAction::Start { session: id }
                } else {
                    SessionAction::Ignore
                }
            },
            CustomHotplugEvent::DeviceLeft => match self.active {
                Some(id) => {
                    self.active = None;
                    SessionAction::Cancel { session: id }
                },
                None => SessionAction::Ignore,
            },
        }
    }

    /// Records that session `session` ended by itself.
    pub fn on_session_ended(&mut self, session: u64)
        ensures
            final(self)@ == on_ended_spec(old(self)@, session),
    {
        if self.active == Some(session) {
            self.active = None;
        }
    }

    /// The live session, if any.
    pub fn active_session(&self) -> (r: Option<u64>)
        ensures
            r == self@.active,
    {
        self.active
    }

    /// The device this coordinator serves.
    pub fn identity(&self) -> (r: DeviceIdentity)
        ensures
            r == self@.identity,
    {
        self.identity
    }
}

/// A departure while idle changes nothing and calls for nothing.
pub proof fn lemma_departure_while_idle_is_noop(s: SessionView, vendor_id: u16, product_id: u16)
    requires
        s.active is None,
    ensures
        on_hotplug_spec(s, CustomHotplugEvent::DeviceLeft, vendor_id, product_id) == (
            s,
            SessionAction::Ignore,
        ),
{
}

/// An arrival of a device whose vendor or product id differs from the
/// configured one changes nothing and calls for nothing.
pub proof fn lemma_foreign_arrival_is_noop(s: SessionView, vendor_id: u16, product_id: u16)
    requires
        vendor_id != s.identity.vendor_id || product_id != s.identity.product_id,
    ensures
        on_hotplug_spec(s, CustomHotplugEvent::DeviceArrived, vendor_id, product_id) == (
            s,
            SessionAction::Ignore,
        ),
{
}

/// Two arrivals of the configured device with no departure between them
/// start at most one session, and the second leaves the state as it was.
pub proof fn lemma_repeated_arrival_starts_one_session(s: SessionView)
    ensures
        ({
            let (s1, a1) = on_hotplug_spec(
                s,
                CustomHotplugEvent::DeviceArrived,
                s.identity.vendor_id,
                s.identity.product_id,
            );
            let (s2, a2) = on_hotplug_spec(
                s1,
                CustomHotplugEvent::DeviceArrived,
                s.identity.vendor_id,
                s.identity.product_id,
            );
            &&& a2 == SessionAction::Ignore
            &&& s2 == s1
            &&& (s.active is None && s.next_session < u64::MAX) ==> a1 == SessionAction::Start { session: s.next_session }
        }),
{
}

} // verus!
