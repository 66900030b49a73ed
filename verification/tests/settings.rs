use pombo_correio::discovery::{service_host_name, SERVICE_TYPE};
use pombo_correio::settings::{default_inbox, device_name_or_default, new_settings, settings_file, DeviceSet};
use pombo_correio::storage::PathStyle;
use pombo_correio::tray::{hides_on_close, menu_action, TrayAction};

#[test]
fn new_installation_settings() {
    let s = new_settings("/data", Some("/home/u/Downloads".into()), Some("desk".into()), PathStyle::Unix);
    assert_eq!(s.device_id.len(), 36);
    assert_eq!(&s.device_id[14..15], "4");
    assert_eq!(s.device_name, "desk");
    assert_eq!(s.inbox, "/home/u/Downloads/Pombo Correio");
    assert!(s.trusted_devices.to_ids().is_empty());
    assert!(!s.auto_open_links);
    let t = new_settings("/data", None, None, PathStyle::Unix);
    assert_eq!(t.inbox, "/data/Inbox");
    assert_eq!(t.device_name, "My device");
    assert_ne!(s.device_id, t.device_id);
}

#[test]
fn paths_and_names() {
    assert_eq!(settings_file("/data/app", PathStyle::Unix), "/data/app/settings.json");
    assert_eq!(default_inbox("/data", None, PathStyle::Unix), "/data/Inbox");
    assert_eq!(device_name_or_default(None), "My device");
    assert_eq!(service_host_name("abc"), "abc.local.");
    assert_eq!(SERVICE_TYPE, "_pombocorreio._tcp.local.");
}

#[test]
fn device_set_keeps_each_id_once() {
    let mut set = DeviceSet::from_ids(vec!["a".into(), "b".into(), "a".into()]);
    assert_eq!(set.to_ids().len(), 2);
    assert!(set.contains("a") && set.contains("b") && !set.contains("c"));
    set.insert("b".into());
    set.insert("c".into());
    let mut ids = set.to_ids();
    ids.sort();
    assert_eq!(ids, vec!["a".to_string(), "b".to_string(), "c".to_string()]);
}

#[test]
fn tray_menu() {
    assert_eq!(menu_action("open"), TrayAction::ShowWindow);
    assert_eq!(menu_action("quit"), TrayAction::Quit);
    assert_eq!(menu_action("other"), TrayAction::Nothing);
    assert!(hides_on_close("main"));
    assert!(!hides_on_close("about"));
}

#[test]
fn windows_settings_paths() {
    assert_eq!(settings_file(r"C:\Users\u\AppData", PathStyle::Windows), r"C:\Users\u\AppData\settings.json");
    let s = new_settings(r"C:\data", Some(r"C:\Users\u\Downloads".into()), None, PathStyle::Windows);
    assert_eq!(s.inbox, r"C:\Users\u\Downloads\Pombo Correio");
}

#[test]
fn trusted_devices_round_trip() {
    let saved = DeviceSet::from_ids(vec!["x".into(), "y".into(), "x".into()]);
    let ids = saved.to_ids();
    assert_eq!(ids.len(), 2);
    let loaded = DeviceSet::from_ids(ids);
    assert!(loaded.contains("x") && loaded.contains("y") && !loaded.contains("z"));
    assert_eq!(loaded.to_ids().len(), 2);
}
