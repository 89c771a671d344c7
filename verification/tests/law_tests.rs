use fancontroller::gpu_nvml::gpu_fan;
use fancontroller::hardware::controller::FanController;
use fancontroller::hardware::linux::{AmdGpuBackend, HwmonBackend, HwmonFanReading, NvidiaBackend};
use fancontroller::hardware::windows;
use fancontroller::hardware::{CurvePoint, FanInfo, FanMode, FanType};

fn fan(id: &str, temp_milli_c: Option<i64>) -> FanInfo {
    FanInfo {
        id: id.to_string(),
        label: "Fan".to_string(),
        fan_type: FanType::System,
        mode: FanMode::Auto,
        rpm: None,
        speed_pct: None,
        temp_milli_c,
        curve: Vec::new(),
        rpm_min: None,
        rpm_max: None,
        controllable: true,
        is_pump: false,
    }
}

#[test]
fn reset_of_every_fan_stops_every_curve() {
    let mut c = FanController::new(None, Vec::new());
    c.scan_all(vec![fan("a", Some(40_000)), fan("b", Some(60_000))]);
    let curve = vec![CurvePoint { temp_c: 30, speed_pct: 30 }, CurvePoint { temp_c: 80, speed_pct: 90 }];
    c.set_curve("a", curve.clone()).unwrap();
    c.set_curve("b", curve).unwrap();
    c.set_fixed_speed("b", 70, &vec![Ok(())]).unwrap();
    assert_eq!(c.tick().len(), 2);
    let ids: Vec<String> = c.get_all_fans().iter().map(|f| f.id.clone()).collect();
    for id in &ids {
        c.reset_to_default(id);
    }
    assert_eq!(c.tick().len(), 0);
    assert!(c.get_all_fans().iter().all(|f| f.mode == FanMode::Auto));
}

#[test]
fn scanned_nvidia_ids_parse_back() {
    let gpus = vec![
        gpu_fan(0, 0, None, 2, None, None, None),
        gpu_fan(0, 1, None, 2, None, None, None),
        gpu_fan(3, 7, None, 8, None, None, None),
    ];
    let b = NvidiaBackend::new(&gpus);
    for (f, g) in b.scan(&gpus).iter().zip(gpus.iter()) {
        assert_eq!(NvidiaBackend::parse_id(&f.id), Ok((g.gpu_idx, g.fan_idx)));
    }
}

#[test]
fn scanned_amd_ids_parse_back() {
    for i in [0usize, 1, 12] {
        let f = AmdGpuBackend::fan_info(i, None, None, None, false);
        assert_eq!(AmdGpuBackend::parse_index(&f.id), Ok(i));
    }
}

#[test]
fn scanned_hwmon_ids_address_their_header() {
    let mut b = HwmonBackend::new();
    let reading = |enable: u32| HwmonFanReading {
        index: 1,
        rpm: Some(900),
        pwm_exists: true,
        pwm: Some(100),
        enable: Some(enable),
        label: None,
        temp_raw: None,
        rpm_min: None,
        rpm_max: None,
    };
    b.scan_chip("hwmon1", Some("nct6798".to_string()), &vec![reading(5)]);
    let w = HwmonBackend::speed_write("hwmon:hwmon1/nct6798/fan1", 60).unwrap();
    assert_eq!(w.enable_text, "1\n");
    b.scan_chip("hwmon1", Some("nct6798".to_string()), &vec![reading(1)]);
    assert_eq!(b.reset_write("hwmon:hwmon1/nct6798/fan1").unwrap().enable_value, 5);
}

#[test]
fn backend_names() {
    assert_eq!(HwmonBackend::new().name(), "hwmon");
    assert_eq!(NvidiaBackend::new(&Vec::new()).name(), "nvidia");
    assert_eq!(AmdGpuBackend::new().name(), "amdgpu");
    assert_eq!(windows::WmiBackend::new().name(), "wmi");
    assert_eq!(windows::NvidiaBackend::new(true).name(), "nvidia_win");
    assert_eq!(windows::AmdBackend::new().name(), "amd_win");
}

#[test]
fn labels_file_holds_every_label() {
    let mut c = FanController::new(None, Vec::new());
    c.rename_fan("b", "Rear".to_string());
    c.rename_fan("a", "Front".to_string());
    c.rename_fan("b", "Top".to_string());
    let text = c.labels_json();
    let d = FanController::new(Some(&text), Vec::new());
    assert_eq!(d.labels_json(), text);
    assert!(text.contains("\"a\": \"Front\""));
    assert!(text.contains("\"b\": \"Top\""));
    assert!(!text.contains("Rear"));
}
