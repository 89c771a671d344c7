use fancontroller::gpu_nvml::{cli_request, fan_count, gpu_command, gpu_fan, nvml_pct, CliRequest, GpuCommand, GpuFan};
use fancontroller::hardware::error::FanError;
use fancontroller::hardware::linux::{
    pct_to_pwm, pwm_to_pct, sysfs_text, temp_sensor, AmdGpuBackend, HwmonBackend, HwmonFanReading,
    NvidiaBackend,
};
use fancontroller::hardware::windows;
use fancontroller::hardware::{FanMode, FanType};
use fancontroller::text::ParseFailure;

fn reading(index: u32, rpm: Option<u32>, pwm: Option<u32>, enable: Option<u32>, label: Option<&str>) -> HwmonFanReading {
    HwmonFanReading {
        index,
        rpm,
        pwm_exists: pwm.is_some(),
        pwm,
        enable,
        label: label.map(|l| l.to_string()),
        temp_raw: None,
        rpm_min: None,
        rpm_max: None,
    }
}

fn strings(v: &[&str]) -> Vec<String> {
    v.iter().map(|s| s.to_string()).collect()
}

#[test]
fn read_helpers_trim_and_parse() {
    assert_eq!(HwmonBackend::read_u32(Some(" 1200\n")), Some(1200));
    assert_eq!(HwmonBackend::read_u32(Some("abc")), None);
    assert_eq!(HwmonBackend::read_u32(Some("-5")), None);
    assert_eq!(HwmonBackend::read_u32(None), None);
    assert_eq!(HwmonBackend::read_str(Some("  nct6798\n")), Some("nct6798".to_string()));
    assert_eq!(HwmonBackend::read_str(None), None);
}

#[test]
fn pwm_percent_conversions() {
    assert_eq!(pwm_to_pct(255), 100);
    assert_eq!(pwm_to_pct(128), 50);
    assert_eq!(pwm_to_pct(0), 0);
    assert_eq!(pwm_to_pct(1000), 255);
    assert_eq!(pct_to_pwm(100), 255);
    assert_eq!(pct_to_pwm(50), 127);
    assert_eq!(pct_to_pwm(200), 255);
    assert_eq!(sysfs_text(127), "127\n");
}

#[test]
fn temp_sensor_needs_positive_selector() {
    assert_eq!(temp_sensor(Some(0)), None);
    assert_eq!(temp_sensor(Some(2)), Some(2));
    assert_eq!(temp_sensor(None), None);
}

#[test]
fn hwmon_speed_write_has_a_20_percent_floor() {
    let w = HwmonBackend::speed_write("hwmon:hwmon2/it8689/fan1", 10).unwrap();
    assert_eq!(w.enable_path, "/sys/class/hwmon/hwmon2/pwm1_enable");
    assert_eq!(w.enable_text, "1\n");
    assert_eq!(w.pwm_path, "/sys/class/hwmon/hwmon2/pwm1");
    assert_eq!(w.pwm_value, 51);
    assert_eq!(w.pwm_text, "51\n");
    let w = HwmonBackend::speed_write("hwmon:hwmon2/it8689/fan3", 100).unwrap();
    assert_eq!(w.pwm_value, 255);
    assert_eq!(w.pwm_path, "/sys/class/hwmon/hwmon2/pwm3");
}

#[test]
fn hwmon_invalid_id_is_refused() {
    assert!(matches!(HwmonBackend::speed_write("hwmon:hwmon2/fan1", 50), Err(FanError::InvalidHwmonId)));
    let b = HwmonBackend::new();
    assert!(matches!(b.reset_write("nvidia:0:0"), Err(FanError::InvalidHwmonId)));
    assert_eq!(FanError::InvalidHwmonId.message(), "invalid hwmon fan_id");
}

#[test]
fn hwmon_reset_restores_first_seen_mode() {
    let mut b = HwmonBackend::new();
    let w = b.reset_write("hwmon:hwmon1/nct6798/fan2").unwrap();
    assert_eq!(w.enable_value, 5);
    assert_eq!(w.enable_text, "5\n");
    assert_eq!(w.enable_path, "/sys/class/hwmon/hwmon1/pwm2_enable");
    b.scan_chip("hwmon1", Some("nct6798".to_string()), &vec![reading(2, Some(900), Some(100), Some(2), None)]);
    // a later scan in manual mode does not replace the BIOS value
    b.scan_chip("hwmon1", Some("nct6798".to_string()), &vec![reading(2, Some(900), Some(100), Some(1), None)]);
    assert_eq!(b.reset_write("hwmon:hwmon1/nct6798/fan2").unwrap().enable_value, 2);
}

#[test]
fn hwmon_reset_never_restores_manual_mode() {
    let mut b = HwmonBackend::new();
    b.scan_chip("hwmon1", Some("nct6798".to_string()), &vec![reading(1, Some(900), Some(100), Some(1), None)]);
    assert_eq!(b.reset_write("hwmon:hwmon1/nct6798/fan1").unwrap().enable_value, 5);
}

#[test]
fn hwmon_scan_builds_fans() {
    let mut b = HwmonBackend::new();
    let mut r1 = reading(1, Some(1200), Some(128), Some(5), Some("CPU_FAN"));
    r1.temp_raw = Some(45_500);
    r1.rpm_min = Some(300);
    let r2 = reading(2, Some(0), None, None, None);
    let mut r3 = reading(3, Some(0), Some(200), None, Some("W_PUMP+"));
    r3.temp_raw = Some(130_000);
    let r4 = reading(4, None, Some(0), None, Some(""));
    let fans = b.scan_chip("hwmon2", Some("nct6798".to_string()), &vec![r1, r2, r3, r4]);
    assert_eq!(fans.len(), 3);
    assert_eq!(fans[0].id, "hwmon:hwmon2/nct6798/fan1");
    assert_eq!(fans[0].label, "CPU_FAN");
    assert_eq!(fans[0].speed_pct, Some(50));
    assert_eq!(fans[0].temp_milli_c, Some(45_500));
    assert_eq!(fans[0].rpm_min, Some(300));
    assert_eq!(fans[0].fan_type, FanType::System);
    assert_eq!(fans[0].mode, FanMode::Auto);
    assert!(fans[0].controllable);
    assert!(!fans[0].is_pump);
    assert_eq!(fans[1].id, "hwmon:hwmon2/nct6798/fan3");
    assert!(fans[1].is_pump);
    assert_eq!(fans[1].label, "W_PUMP+");
    assert_eq!(fans[1].temp_milli_c, None);
    assert_eq!(fans[2].label, "Fan 4");
    assert_eq!(fans[2].speed_pct, Some(0));
}

#[test]
fn hwmon_pump_label_default_and_unknown_chip() {
    let mut b = HwmonBackend::new();
    let fans = b.scan_chip("hwmon0", None, &vec![reading(7, Some(800), None, None, Some(""))]);
    assert_eq!(fans[0].id, "hwmon:hwmon0/unknown/fan7");
    assert_eq!(fans[0].label, "Fan 7");
    assert!(!fans[0].controllable);
    assert_eq!(fans[0].speed_pct, None);
}

#[test]
fn hwmon_fast_fan_is_taken_for_a_pump() {
    let mut b = HwmonBackend::new();
    let rs = vec![
        reading(1, Some(900), Some(100), None, None),
        reading(2, Some(1000), Some(100), None, None),
        reading(3, Some(4500), Some(100), None, None),
        reading(4, Some(3000), Some(100), None, None),
    ];
    // sorted RPMs 900 1000 3000 4500: median 3000, nothing above 9000
    let fans = b.scan_chip("hwmon3", Some("it8689".to_string()), &rs);
    assert!(fans.iter().all(|f| !f.is_pump));
    let rs = vec![
        reading(1, Some(900), Some(100), None, None),
        reading(2, Some(1000), Some(100), None, None),
        reading(3, Some(3100), Some(100), None, None),
    ];
    // median 1000: 3100 > 3000
    let fans = b.scan_chip("hwmon3", Some("it8689".to_string()), &rs);
    assert!(!fans[0].is_pump && !fans[1].is_pump);
    assert!(fans[2].is_pump);
    assert_eq!(fans[2].label, "Pump");
}

#[test]
fn nvidia_ids_parse() {
    assert_eq!(NvidiaBackend::parse_id("nvidia:1:2"), Ok((1, 2)));
    assert_eq!(NvidiaBackend::parse_id("nvidia:3"), Ok((3, 0)));
    assert_eq!(NvidiaBackend::parse_id("nvidia:x:y"), Ok((0, 0)));
    assert_eq!(NvidiaBackend::parse_id("amd:0"), Err(FanError::NotNvidia));
}

#[test]
fn nvidia_commands_have_a_30_percent_floor() {
    assert_eq!(NvidiaBackend::speed_args("nvidia:0:1", 10), Ok(strings(&["--gpu-set", "0", "1", "30"])));
    assert_eq!(NvidiaBackend::speed_args("nvidia:2:0", 75), Ok(strings(&["--gpu-set", "2", "0", "75"])));
    assert_eq!(NvidiaBackend::reset_args("nvidia:2:1"), Ok(strings(&["--gpu-reset", "2"])));
    assert_eq!(NvidiaBackend::reset_args("hwmon:x/y/fan1"), Err(FanError::NotNvidia));
}

#[test]
fn nvidia_scan_labels_and_ids() {
    let one = gpu_fan(0, 0, Some("RTX 3080".to_string()), 1, Some(45), Some(1500), Some(60));
    let two = gpu_fan(1, 1, None, 2, Some(150), None, None);
    let gpus = vec![one, two];
    let b = NvidiaBackend::new(&gpus);
    assert!(b.is_available());
    let fans = b.scan(&gpus);
    assert_eq!(fans.len(), 2);
    assert_eq!(fans[0].id, "nvidia:0:0");
    assert_eq!(fans[0].label, "RTX 3080 Fan");
    assert_eq!(fans[0].rpm_max, Some(3500));
    assert_eq!(fans[0].rpm_min, Some(0));
    assert_eq!(fans[0].temp_milli_c, Some(60_000));
    assert_eq!(fans[1].id, "nvidia:1:1");
    assert_eq!(fans[1].label, "NVIDIA GPU Fan 2");
    assert_eq!(fans[1].speed_pct, Some(100));
    assert_eq!(fans[1].rpm_max, Some(3500));
    let none: Vec<GpuFan> = Vec::new();
    let b = NvidiaBackend::new(&none);
    assert!(!b.is_available());
    assert_eq!(b.scan(&gpus).len(), 0);
}

#[test]
fn nvidia_rpm_max_follows_fast_fans() {
    let g = gpu_fan(0, 0, Some("GPU".to_string()), 1, None, Some(4000), None);
    let gpus = vec![g];
    let fans = NvidiaBackend::new(&gpus).scan(&gpus);
    assert_eq!(fans[0].rpm_max, Some(4000));
}

#[test]
fn nvml_limits() {
    assert_eq!(fan_count(None), 1);
    assert_eq!(fan_count(Some(0)), 1);
    assert_eq!(fan_count(Some(3)), 3);
    assert_eq!(nvml_pct(0), 30);
    assert_eq!(nvml_pct(55), 55);
    assert_eq!(nvml_pct(120), 100);
}

#[test]
fn cli_requests() {
    let prog = "fancontroller";
    assert_eq!(
        cli_request(&strings(&[prog, "--gpu-set", "1", "2", "60"])),
        CliRequest::Run(GpuCommand::SetFan { gpu: 1, fan: 2, pct: 60 })
    );
    assert_eq!(
        cli_request(&strings(&[prog, "--gpu-set"])),
        CliRequest::Run(GpuCommand::SetFan { gpu: 0, fan: 0, pct: 50 })
    );
    assert_eq!(cli_request(&strings(&[prog, "--gpu-set", "8", "0", "60"])), CliRequest::BadSetIndex);
    assert_eq!(cli_request(&strings(&[prog, "--gpu-set", "0", "9", "60"])), CliRequest::BadSetIndex);
    assert_eq!(cli_request(&strings(&[prog, "--gpu-reset", "3"])), CliRequest::Run(GpuCommand::Reset { gpu: 3 }));
    assert_eq!(cli_request(&strings(&[prog, "--gpu-reset", "12"])), CliRequest::BadResetIndex);
    assert_eq!(cli_request(&strings(&[prog, "--daemon"])), CliRequest::NotCli);
    assert_eq!(cli_request(&strings(&[prog])), CliRequest::NotCli);
    assert_eq!(gpu_command(&strings(&["--gpu-set", "9", "9", "999"]), 0), Some(GpuCommand::SetFan { gpu: 9, fan: 9, pct: 50 }));
}

#[test]
fn amd_vendor_and_fans() {
    assert!(AmdGpuBackend::is_amd_vendor(Some("0x1002\n")));
    assert!(!AmdGpuBackend::is_amd_vendor(Some("0x10de\n")));
    assert!(!AmdGpuBackend::is_amd_vendor(None));
    let f = AmdGpuBackend::fan_info(1, Some("1500\n"), Some("52000\n"), Some("255\n"), true);
    assert_eq!(f.id, "amd:1");
    assert_eq!(f.label, "AMD GPU 1 Fan");
    assert_eq!(f.rpm, Some(1500));
    assert_eq!(f.temp_milli_c, Some(52_000));
    assert_eq!(f.speed_pct, Some(100));
    assert_eq!(f.fan_type, FanType::Amd);
    assert!(f.controllable);
    let f = AmdGpuBackend::fan_info(0, None, Some("x"), None, false);
    assert_eq!(f.rpm, None);
    assert_eq!(f.temp_milli_c, None);
    assert!(!f.controllable);
}

#[test]
fn amd_writes() {
    let w = AmdGpuBackend::speed_write("amd:2", 50).unwrap();
    assert_eq!(w.index, 2);
    assert_eq!(w.enable_text, "1\n");
    assert_eq!(w.pwm_value, 127);
    assert_eq!(w.pwm_text, "127\n");
    assert!(matches!(AmdGpuBackend::speed_write("nvidia:0:0", 50), Err(FanError::NotAmd)));
    assert!(matches!(
        AmdGpuBackend::speed_write("amd:x", 50),
        Err(FanError::InvalidNumber(ParseFailure::InvalidDigit))
    ));
    assert_eq!(AmdGpuBackend::reset_write("amd:0"), Ok((0, "2\n".to_string())));
    assert_eq!(AmdGpuBackend::parse_index("amd:"), Err(FanError::InvalidNumber(ParseFailure::Empty)));
    assert_eq!(
        AmdGpuBackend::parse_index("amd:99999999999999999999999"),
        Err(FanError::InvalidNumber(ParseFailure::TooLarge))
    );
    assert_eq!(
        FanError::InvalidNumber(ParseFailure::Empty).message(),
        "amd:".trim_start_matches("amd:").parse::<usize>().unwrap_err().to_string()
    );
    let _ = AmdGpuBackend::new();
}

#[test]
fn windows_placeholders_refuse_control() {
    let mut w = windows::WmiBackend::new();
    assert_eq!(w.scan().len(), 0);
    assert_eq!(w.set_speed_pct("x", 50), Err(FanError::WmiUnsupported));
    assert_eq!(w.reset_to_auto("x"), Err(FanError::WmiUnsupported));
    let mut a = windows::AmdBackend::new();
    assert_eq!(a.scan().len(), 0);
    assert_eq!(a.set_speed_pct("x", 50), Err(FanError::AmdWindowsUnsupported));
    assert_eq!(a.reset_to_auto("x"), Err(FanError::AmdWindowsUnsupported));
    assert_eq!(FanError::WmiUnsupported.message(), "WMI fan control not yet implemented");
}

#[test]
fn windows_nvidia_reads_smi_output() {
    let b = windows::NvidiaBackend::new(true);
    let out = "NVIDIA GeForce RTX 3080, 45, 61\r\nbad line\nTesla T4, [N/A], 38\n";
    let fans = b.scan(out);
    assert_eq!(fans.len(), 2);
    assert_eq!(fans[0].id, "nvidia:0");
    assert_eq!(fans[0].label, "NVIDIA GeForce RTX 3080 Fan");
    assert_eq!(fans[0].speed_pct, Some(45));
    assert_eq!(fans[0].temp_milli_c, Some(61_000));
    assert_eq!(fans[1].id, "nvidia:2");
    assert_eq!(fans[1].speed_pct, None);
    assert_eq!(fans[1].temp_milli_c, Some(38_000));
    assert_eq!(windows::NvidiaBackend::new(false).scan(out).len(), 0);
}

#[test]
fn windows_nvidia_temperature_is_decimal() {
    let b = windows::NvidiaBackend::new(true);
    let fans = b.scan("GPU, 40, 65.5\nGPU, 40, -3\nGPU, 40, 4.5e1\nGPU, 40, inf\n");
    assert_eq!(fans[0].temp_milli_c, Some(65_500));
    assert_eq!(fans[1].temp_milli_c, Some(-3_000));
    assert_eq!(fans[2].temp_milli_c, Some(45_000));
    assert_eq!(fans[3].temp_milli_c, None);
}

#[test]
fn milli_degrees_parses_decimals() {
    assert_eq!(windows::milli_degrees("65.5"), Some(65_500));
    assert_eq!(windows::milli_degrees("-3"), Some(-3_000));
    assert_eq!(windows::milli_degrees("+7"), Some(7_000));
    assert_eq!(windows::milli_degrees("5."), Some(5_000));
    assert_eq!(windows::milli_degrees(".25"), Some(250));
    assert_eq!(windows::milli_degrees("-0.05"), Some(-50));
    assert_eq!(windows::milli_degrees("12.3456"), Some(12_345));
    assert_eq!(windows::milli_degrees("."), None);
    assert_eq!(windows::milli_degrees("-"), None);
    assert_eq!(windows::milli_degrees(""), None);
    assert_eq!(windows::milli_degrees("1.2.3"), None);
    assert_eq!(windows::milli_degrees("[N/A]"), None);
    assert_eq!(windows::milli_degrees("4294967296"), Some(4_294_967_296_000));
}

#[test]
fn milli_degrees_reads_exponents() {
    assert_eq!(windows::milli_degrees("4.5e1"), Some(45_000));
    assert_eq!(windows::milli_degrees("4.5E1"), Some(45_000));
    assert_eq!(windows::milli_degrees("1e+2"), Some(100_000));
    assert_eq!(windows::milli_degrees("65e-1"), Some(6_500));
    assert_eq!(windows::milli_degrees("-2.5e-3"), Some(-2));
    assert_eq!(windows::milli_degrees("1e-4"), Some(0));
    assert_eq!(windows::milli_degrees("1.e2"), Some(100_000));
    assert_eq!(windows::milli_degrees(".5e1"), Some(5_000));
    assert_eq!(windows::milli_degrees("9e15"), Some(9_000_000_000_000_000_000));
    assert_eq!(windows::milli_degrees("1e16"), None);
    assert_eq!(windows::milli_degrees("0e99999999999999999999999"), Some(0));
    assert_eq!(windows::milli_degrees("1e99999999999999999999999"), None);
    assert_eq!(windows::milli_degrees("-7e-99999999999999999999999"), Some(0));
    assert_eq!(windows::milli_degrees("1e"), None);
    assert_eq!(windows::milli_degrees("e5"), None);
    assert_eq!(windows::milli_degrees("1e5e2"), None);
    assert_eq!(windows::milli_degrees("1e2.5"), None);
    assert_eq!(windows::milli_degrees("inf"), None);
    assert_eq!(windows::milli_degrees("NaN"), None);
}

#[test]
fn speed_above_100_percent_writes_full_duty() {
    assert_eq!(HwmonBackend::speed_write("hwmon:hwmon2/it8689/fan1", 200).unwrap().pwm_value, 255);
    assert_eq!(AmdGpuBackend::speed_write("amd:0", 200).unwrap().pwm_value, 255);
}

#[test]
fn windows_nvidia_commands() {
    let c = windows::NvidiaBackend::speed_commands("nvidia:1", 70).unwrap();
    assert_eq!(c.enable_args, strings(&["-i", "1", "--fan-speed-control=1"]));
    assert_eq!(c.speed_args, strings(&["-i", "1", "--fan-speed=70"]));
    assert_eq!(windows::NvidiaBackend::reset_args("nvidia:1"), Ok(strings(&["-i", "1", "--fan-speed-control=0"])));
    assert!(matches!(windows::NvidiaBackend::speed_commands("amd:1", 70), Err(FanError::NotNvidia)));
    assert_eq!(
        windows::NvidiaBackend::parse_index("nvidia:0:1"),
        Err(FanError::InvalidNumber(ParseFailure::InvalidDigit))
    );
}

#[test]
fn pwm_percent_matches_float_formula() {
    for v in 0..=5000u32 {
        let float = ((v as f32 / 255.0) * 100.0) as u8;
        assert_eq!(pwm_to_pct(v), float, "{v}");
    }
}
