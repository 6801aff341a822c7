use rustlock::system::{
    classify_art_url, is_charging_state, summarize_bluetooth, ArtSource, BluetoothDevice,
    SystemCommand,
};

#[test]
fn commands_name_their_login_manager_methods() {
    assert_eq!(SystemCommand::PowerOff.method_name(), "PowerOff");
    assert_eq!(SystemCommand::Reboot.method_name(), "Reboot");
    assert_eq!(SystemCommand::Suspend.method_name(), "Suspend");
}

#[test]
fn art_urls_are_classified() {
    assert_eq!(
        classify_art_url("file:///home/u/cover.png"),
        ArtSource::LocalFile("/home/u/cover.png".to_string())
    );
    assert_eq!(
        classify_art_url("file://file:///tmp/a.jpg"),
        ArtSource::LocalFile("/tmp/a.jpg".to_string())
    );
    assert_eq!(classify_art_url("https://example.org/a.jpg"), ArtSource::Remote);
    assert_eq!(classify_art_url("http://example.org/a.jpg"), ArtSource::Remote);
    assert_eq!(classify_art_url("data:image/png;base64,AAAA"), ArtSource::Unsupported);
    assert_eq!(classify_art_url(""), ArtSource::Unsupported);
}

#[test]
fn charging_states_contain_charging() {
    assert!(is_charging_state("Charging"));
    assert!(is_charging_state("PendingCharging"));
    assert!(!is_charging_state("Discharging"));
    assert!(!is_charging_state("FullyCharged"));
    assert!(!is_charging_state(""));
}

#[test]
fn bluetooth_summary_lists_connected_named_devices() {
    let devices = vec![
        BluetoothDevice { connected: true, name: Some("Headphones".to_string()) },
        BluetoothDevice { connected: false, name: Some("Mouse".to_string()) },
        BluetoothDevice { connected: true, name: None },
        BluetoothDevice { connected: true, name: Some("Keyboard".to_string()) },
    ];
    let (connected, names) = summarize_bluetooth(&devices);
    assert!(connected);
    assert_eq!(names, vec!["Headphones".to_string(), "Keyboard".to_string()]);

    let idle = vec![BluetoothDevice { connected: false, name: Some("Speaker".to_string()) }];
    let (connected, names) = summarize_bluetooth(&idle);
    assert!(!connected);
    assert!(names.is_empty());

    let (connected, names) = summarize_bluetooth(&Vec::new());
    assert!(!connected);
    assert!(names.is_empty());
}
