use logux::adb::{AdbClient, CommandOutput, ConnectionType, DeviceState, parse_devices};

const LISTING: &str = "List of devices attached\nemulator-5554          device product:sdk_phone model:Pixel_6 transport_id:1\n192.168.1.5:5555       offline\nABC123                 unauthorized usb:1-1\n\n";

#[test]
fn device_listing_is_parsed() {
    let ds = parse_devices(LISTING);
    assert_eq!(ds.len(), 3);
    assert_eq!(ds[0].serial, "emulator-5554");
    assert_eq!(ds[0].model, "Pixel_6");
    assert_eq!(ds[0].product, "sdk_phone");
    assert!(ds[0].is_online());
    assert!(!ds[1].is_online());
    assert!(matches!(ds[2].state, DeviceState::Unauthorized));
}

#[test]
fn display_name_shows_model_connection_and_serial() {
    let ds = parse_devices(LISTING);
    assert_eq!(ds[0].display_name(), "Pixel_6 [USB] (emulator-5554)");
    assert_eq!(ds[1].display_name(), "192.168.1.5:5555 [TCP] (192.168.1.5:5555)");
    assert!(matches!(ds[1].connection_type(), ConnectionType::Tcp));
}

#[test]
fn state_text_round_trips() {
    for s in ["device", "offline", "unauthorized", "recovery"] {
        assert_eq!(DeviceState::from_str(s).as_str(), s);
    }
}

#[test]
fn auto_select_picks_the_only_online_device() {
    let mut c = AdbClient::new("adb".to_string());
    let picked = c.auto_select(Some(LISTING)).map(|d| d.serial.clone());
    assert_eq!(picked, Some("emulator-5554".to_string()));
    assert_eq!(c.device_serial(), Some("emulator-5554"));
}

#[test]
fn connect_address_gets_default_port() {
    assert_eq!(AdbClient::connect_address("10.0.0.2"), "10.0.0.2:5555");
    assert_eq!(AdbClient::connect_address("10.0.0.2:7000"), "10.0.0.2:7000");
    assert!(AdbClient::connect_succeeded("connected to 10.0.0.2:5555\n"));
    assert!(!AdbClient::connect_succeeded("failed to connect"));
}

#[test]
fn pid_comes_from_pidof_then_ps() {
    assert_eq!(AdbClient::pid_from_pidof(" 4242\n"), Some(4242));
    assert_eq!(AdbClient::pid_from_pidof("4242 4243"), None);
    let ps = "u0_a1  999 1 0 0 S other.app\nu0_a2  1234 1 0 0 S com.example\n";
    assert_eq!(AdbClient::pid_from_ps(ps, "com.example"), Some(1234));
    assert_eq!(AdbClient::get_pid("com.example", Some("bad"), Some(ps)), Some(1234));
    assert_eq!(AdbClient::get_pid("com.example", None, None), None);
}

#[test]
fn foreground_package_is_read_from_dumpsys() {
    let out = "  Stacks:\n    mResumedActivity: ActivityRecord{12ab u0 com.example.app/.MainActivity t12}\n";
    assert_eq!(AdbClient::get_foreground_package(Some(out)), Some("com.example.app".to_string()));
    assert_eq!(AdbClient::get_foreground_package(Some("nothing")), None);
    assert_eq!(AdbClient::get_foreground_package(None), None);
}

#[test]
fn server_replies_fall_back_to_a_default_text() {
    let ok = CommandOutput { stdout: "  ".to_string(), stderr: String::new(), success: true };
    assert_eq!(AdbClient::kill_server(Ok(ok)), (true, "adb server killed".to_string()));
    assert_eq!(AdbClient::start_server(Err("no adb".to_string())), (false, "adb start-server failed: no adb".to_string()));
    assert_eq!(AdbClient::check_adb(Ok(" Android Debug Bridge \n".to_string())), (true, "Android Debug Bridge".to_string()));
    assert_eq!(AdbClient::check_adb(Err("missing".to_string())), (false, "adb not found: missing".to_string()));
}

#[test]
fn connect_selects_the_connected_device() {
    let mut c = AdbClient::new("adb".to_string());
    let listing = "List of devices attached\nemu-1 device model:Pixel\n10.0.0.2:5555 device model:Tab\n";
    let (ok, msg) = c.connect_tcp("10.0.0.2", Ok("connected to 10.0.0.2:5555\n".to_string()), Some(listing));
    assert!(ok);
    assert_eq!(msg, "connected to 10.0.0.2:5555");
    assert_eq!(c.device_serial(), Some("10.0.0.2:5555"));
    let mut d = AdbClient::new("adb".to_string());
    let (ok, _) = d.connect_tcp("10.0.0.9:7000", Ok("connected to 10.0.0.9:7000".to_string()), Some(listing));
    assert!(ok);
    assert_eq!(d.device_serial(), None);
    let (ok, msg) = d.connect_tcp("10.0.0.2", Err("no adb".to_string()), Some(listing));
    assert!(!ok);
    assert_eq!(msg, "Error: no adb");
    assert_eq!(d.device_serial(), None);
}
