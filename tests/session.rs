use tablet_driver::config::{DeviceIdentity, Config, PenConfig, ActionsConfig, SettingsConfig};
use tablet_driver::session::{
    monitor_step, CustomHotplugEvent, DeviceSession, MonitorEvent, MonitorStep, SessionAction,
    HOTPLUG_POLL_WAIT_MS, HOTPLUG_RETRY_PAUSE_MS,
};

const VENDOR: u16 = 0x08f2;
const PRODUCT: u16 = 0x6811;

fn session() -> DeviceSession {
    DeviceSession::new(DeviceIdentity { vendor_id: VENDOR, product_id: PRODUCT, interface_endpoint: 0x85 })
}

#[test]
fn departure_while_idle_is_noop() {
    let mut s = session();
    assert_eq!(s.on_hotplug(CustomHotplugEvent::DeviceLeft, VENDOR, PRODUCT), SessionAction::Ignore);
    assert_eq!(s.active_session(), None);
}

#[test]
fn foreign_arrival_is_noop() {
    let mut s = session();
    assert_eq!(s.on_hotplug(CustomHotplugEvent::DeviceArrived, 0x046d, PRODUCT), SessionAction::Ignore);
    assert_eq!(s.on_hotplug(CustomHotplugEvent::DeviceArrived, VENDOR, 0x0001), SessionAction::Ignore);
    assert_eq!(s.active_session(), None);
}

#[test]
fn duplicate_arrival_starts_one_session() {
    let mut s = session();
    assert_eq!(
        s.on_hotplug(CustomHotplugEvent::DeviceArrived, VENDOR, PRODUCT),
        SessionAction::Start { session: 0 }
    );
    assert_eq!(s.on_hotplug(CustomHotplugEvent::DeviceArrived, VENDOR, PRODUCT), SessionAction::Ignore);
    assert_eq!(s.active_session(), Some(0));
}

#[test]
fn departure_cancels_and_next_arrival_gets_fresh_session() {
    let mut s = session();
    s.on_hotplug(CustomHotplugEvent::DeviceArrived, VENDOR, PRODUCT);
    assert_eq!(
        s.on_hotplug(CustomHotplugEvent::DeviceLeft, VENDOR, PRODUCT),
        SessionAction::Cancel { session: 0 }
    );
    assert_eq!(s.active_session(), None);
    assert_eq!(s.on_hotplug(CustomHotplugEvent::DeviceLeft, VENDOR, PRODUCT), SessionAction::Ignore);
    assert_eq!(
        s.on_hotplug(CustomHotplugEvent::DeviceArrived, VENDOR, PRODUCT),
        SessionAction::Start { session: 1 }
    );
}

#[test]
fn ended_session_returns_to_idle() {
    let mut s = session();
    s.on_hotplug(CustomHotplugEvent::DeviceArrived, VENDOR, PRODUCT);
    s.on_session_ended(0);
    assert_eq!(s.active_session(), None);
    assert_eq!(
        s.on_hotplug(CustomHotplugEvent::DeviceArrived, VENDOR, PRODUCT),
        SessionAction::Start { session: 1 }
    );
}

#[test]
fn stale_session_end_is_ignored() {
    let mut s = session();
    s.on_hotplug(CustomHotplugEvent::DeviceArrived, VENDOR, PRODUCT);
    s.on_hotplug(CustomHotplugEvent::DeviceLeft, VENDOR, PRODUCT);
    s.on_hotplug(CustomHotplugEvent::DeviceArrived, VENDOR, PRODUCT);
    s.on_session_ended(0);
    assert_eq!(s.active_session(), Some(1));
}

#[test]
fn identity_from_config() {
    let cfg = Config {
        xinput_name: "pad".to_string(),
        vendor_id: VENDOR,
        product_id: PRODUCT,
        interface: 0x85,
        pen: PenConfig { max_x: 1, max_y: 1, max_pressure: 1, resolution_x: 1, resolution_y: 1 },
        actions: ActionsConfig {
            pen: "BTN_LEFT".to_string(),
            stylus: "BTN_RIGHT".to_string(),
            pen_touch: "BTN_TOUCH".to_string(),
            tablet_buttons: vec![],
        },
        settings: SettingsConfig { swap_axis: false, swap_direction_x: false, swap_direction_y: false },
    };
    let id = cfg.identity();
    assert_eq!(id, DeviceIdentity { vendor_id: VENDOR, product_id: PRODUCT, interface_endpoint: 0x85 });
    assert_eq!(DeviceSession::new(id).identity(), id);
}

#[test]
fn hotplug_monitor_policy() {
    assert_eq!(monitor_step(MonitorEvent::Unsupported), MonitorStep::Stop);
    assert_eq!(monitor_step(MonitorEvent::SetupFailed), MonitorStep::Stop);
    assert_eq!(monitor_step(MonitorEvent::Polled), MonitorStep::Poll { wait_ms: 200 });
    assert_eq!(monitor_step(MonitorEvent::PollFailed), MonitorStep::PauseThenPoll { pause_ms: 1000 });
    assert_eq!((HOTPLUG_POLL_WAIT_MS, HOTPLUG_RETRY_PAUSE_MS), (200, 1000));
}
