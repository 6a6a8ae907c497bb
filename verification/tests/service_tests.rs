use landscape_core::configs::FirewallServiceConfig;
use landscape_core::service::{
    PlainServiceStarter, ProcessStep, ServiceManager, ServiceState, UpdateError, WatchService,
};

fn cfg(name: &str) -> FirewallServiceConfig {
    FirewallServiceConfig { iface_name: String::from(name), enable: true, update_at: 0 }
}

fn manager() -> ServiceManager<PlainServiceStarter<FirewallServiceConfig>> {
    ServiceManager::init(Vec::new(), PlainServiceStarter::new())
}

#[test]
fn busy_update_is_refused_until_slot_drains() {
    // With the slot full for key "eth0", a second update answers Busy;
    // once the slot drains, the next configuration is taken in order.
    let mut m = manager();
    assert!(m.update_service(cfg("eth0")).is_ok());
    assert_eq!(m.update_service(cfg("eth0")), Err(UpdateError::Busy));
    assert_eq!(m.process_pending(&String::from("eth0")), ProcessStep::Started);
    assert_eq!(m.services[0].handle.snapshot(), ServiceState::Running);
    assert!(m.update_service(cfg("eth0")).is_ok());
    // the earlier instance still runs until it reaches Stopped
    assert_eq!(m.services[0].handle.snapshot(), ServiceState::Running);
    assert_eq!(m.process_pending(&String::from("eth0")), ProcessStep::MustStop);
    assert_eq!(m.services[0].handle.snapshot(), ServiceState::Stopping);
    // only after the instance reports Stopped does the next start happen
    m.services[0].handle.set_state(ServiceState::Stopped);
    assert_eq!(m.process_pending(&String::from("eth0")), ProcessStep::Started);
    assert_eq!(m.services[0].handle.snapshot(), ServiceState::Running);
}

#[test]
fn update_on_closed_supervisor_is_refused() {
    let mut m = manager();
    assert!(m.update_service(cfg("eth1")).is_ok());
    m.services[0].closed = true;
    assert_eq!(m.update_service(cfg("eth1")), Err(UpdateError::Closed));
}

#[test]
fn update_on_unknown_key_spawns() {
    let mut m = manager();
    assert!(m.update_service(cfg("eth2")).is_ok());
    assert_eq!(m.services.len(), 1);
    assert_eq!(m.services[0].key, String::from("eth2"));
    assert_eq!(m.services[0].handle.snapshot(), ServiceState::Stopped);
    assert!(m.services[0].pending.is_some());
}

#[test]
fn stop_service_removes_and_requests_stop() {
    let mut m = manager();
    assert!(m.update_service(cfg("eth3")).is_ok());
    assert_eq!(m.process_pending(&String::from("eth3")), ProcessStep::Started);
    let handle = m.stop_service(&String::from("eth3")).expect("the key was kept");
    assert_eq!(handle.snapshot(), ServiceState::Stopping);
    assert_eq!(m.services.len(), 0);
    assert!(m.stop_service(&String::from("eth3")).is_none());
}

#[test]
fn get_all_status_lists_every_key() {
    let mut m = manager();
    assert!(m.update_service(cfg("wan0")).is_ok());
    assert!(m.update_service(cfg("lan0")).is_ok());
    let status = m.get_all_status();
    assert_eq!(status.len(), 2);
    let names: Vec<String> = status.iter().map(|s| s.0.clone()).collect();
    assert!(names.contains(&String::from("wan0")));
    assert!(names.contains(&String::from("lan0")));
}

#[test]
fn init_spawns_each_initial_config() {
    let m: ServiceManager<PlainServiceStarter<FirewallServiceConfig>> =
        ServiceManager::init(vec![cfg("a0"), cfg("a1")], PlainServiceStarter::new());
    assert_eq!(m.services.len(), 2);
}

#[test]
fn watch_handle_transitions() {
    let mut h: WatchService<u32> = WatchService::new(0);
    assert_eq!(h.snapshot(), ServiceState::Stopped);
    assert!(h.is_stopped());
    h.set_state(ServiceState::Running);
    assert!(!h.is_stopped());
    h.request_stop();
    assert_eq!(h.snapshot(), ServiceState::Stopping);
    h.set_state(ServiceState::Stopped);
    h.request_stop();
    assert_eq!(h.snapshot(), ServiceState::Stopped);
}
