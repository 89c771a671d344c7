use fancontroller::hardware::controller::FanController;
use fancontroller::hardware::curve::CurveError;
use fancontroller::hardware::{CurvePoint, FanInfo, FanMode, FanType};

fn pt(temp_c: u8, speed_pct: u8) -> CurvePoint {
    CurvePoint { temp_c, speed_pct }
}

fn fan(id: &str, label: &str, temp_milli_c: Option<i64>) -> FanInfo {
    FanInfo {
        id: id.to_string(),
        label: label.to_string(),
        fan_type: FanType::System,
        mode: FanMode::Auto,
        rpm: Some(1200),
        speed_pct: Some(40),
        temp_milli_c,
        curve: Vec::new(),
        rpm_min: None,
        rpm_max: None,
        controllable: true,
        is_pump: false,
    }
}

fn controller() -> FanController {
    let mut c = FanController::new(None, Vec::new());
    c.scan_all(vec![fan("a", "Fan 1", Some(50_000)), fan("b", "Fan 2", None)]);
    c
}

fn find<'a>(fans: &'a [FanInfo], id: &str) -> &'a FanInfo {
    fans.iter().find(|f| f.id == id).unwrap()
}

#[test]
fn scan_lists_every_fan_once_later_wins() {
    let mut c = FanController::new(None, Vec::new());
    c.scan_all(vec![fan("a", "first", None), fan("b", "Fan 2", None), fan("a", "second", None)]);
    let fans = c.get_all_fans();
    assert_eq!(fans.len(), 2);
    assert_eq!(find(&fans, "a").label, "second");
}

#[test]
fn rescan_replaces_known_fans() {
    let mut c = controller();
    c.scan_all(vec![fan("c", "Fan 3", None)]);
    let fans = c.get_all_fans();
    assert_eq!(fans.len(), 1);
    assert_eq!(fans[0].id, "c");
}

#[test]
fn custom_labels_override_hardware_names() {
    let c0 = FanController::new(Some("{\"a\": \"CPU\"}"), Vec::new());
    let mut c = c0;
    c.scan_all(vec![fan("a", "Fan 1", None), fan("b", "Fan 2", None)]);
    let fans = c.get_all_fans();
    assert_eq!(find(&fans, "a").label, "CPU");
    assert_eq!(find(&fans, "b").label, "Fan 2");
}

#[test]
fn rename_shows_new_label() {
    let mut c = controller();
    c.rename_fan("b", "Rear".to_string());
    let fans = c.get_all_fans();
    assert_eq!(find(&fans, "b").label, "Rear");
    c.rename_fan("b", "Top".to_string());
    assert_eq!(find(&c.get_all_fans(), "b").label, "Top");
}

#[test]
fn later_saved_labels_win() {
    let c0 = FanController::new(Some("{\"a\": \"X\", \"a\": \"Y\"}"), Vec::new());
    let mut c = c0;
    c.scan_all(vec![fan("a", "Fan 1", None)]);
    assert_eq!(c.get_all_fans()[0].label, "Y");
}

#[test]
fn set_curve_refuses_bad_curves_and_changes_nothing() {
    let mut c = controller();
    assert_eq!(c.set_curve("a", vec![pt(40, 50)]), Err(CurveError::TooFewPoints));
    assert_eq!(c.set_curve("a", vec![pt(60, 50), pt(40, 60)]), Err(CurveError::NotSorted));
    assert_eq!(find(&c.get_all_fans(), "a").mode, FanMode::Auto);
    assert_eq!(c.tick().len(), 0);
}

#[test]
fn set_curve_drives_the_fan_at_the_next_tick() {
    let mut c = controller();
    assert_eq!(c.set_curve("a", vec![pt(30, 20), pt(70, 100)]), Ok(()));
    assert_eq!(find(&c.get_all_fans(), "a").mode, FanMode::Curve);
    let plan = c.tick();
    assert_eq!(plan.len(), 1);
    assert_eq!(plan.key(0), "a");
    assert_eq!(*plan.value(0), 60);
    assert_eq!(plan.get("a"), Some(&60));
}

#[test]
fn fans_without_temperature_are_not_driven() {
    let mut c = controller();
    assert_eq!(c.set_curve("b", vec![pt(30, 20), pt(70, 100)]), Ok(()));
    assert_eq!(find(&c.get_all_fans(), "b").mode, FanMode::Curve);
    assert_eq!(c.tick().len(), 0);
}

#[test]
fn curve_for_unknown_fan_is_kept_until_it_appears() {
    let mut c = controller();
    assert_eq!(c.set_curve("z", vec![pt(30, 20), pt(70, 100)]), Ok(()));
    assert_eq!(c.tick().len(), 0);
    c.scan_all(vec![fan("z", "Fan 9", Some(70_000))]);
    assert_eq!(c.tick().get("z"), Some(&100));
}

#[test]
fn record_curve_speed_updates_fan() {
    let mut c = controller();
    c.set_curve("a", vec![pt(30, 20), pt(70, 100)]).unwrap();
    c.record_curve_speed("b", 60, &vec![Err("refused".to_string())]);
    assert_eq!(find(&c.get_all_fans(), "b").speed_pct, Some(40));
    c.record_curve_speed("a", 60, &vec![Err("not nvidia".to_string()), Ok(())]);
    let f = find(&c.get_all_fans(), "a").clone();
    assert_eq!(f.mode, FanMode::Curve);
    assert_eq!(f.speed_pct, Some(60));
}

#[test]
fn next_backend_stops_at_first_acceptance() {
    let mut answers: Vec<Result<(), String>> = Vec::new();
    assert_eq!(FanController::next_backend(&answers, 3), Some(0));
    answers.push(Err("invalid hwmon fan_id".to_string()));
    assert_eq!(FanController::next_backend(&answers, 3), Some(1));
    answers.push(Ok(()));
    assert_eq!(FanController::next_backend(&answers, 3), None);
    let refused = vec![Err("a".to_string()), Err("b".to_string()), Err("c".to_string())];
    assert_eq!(FanController::next_backend(&refused, 3), None);
    assert_eq!(FanController::next_backend(&Vec::new(), 0), None);
}

#[test]
fn next_reset_backend_asks_every_backend() {
    assert_eq!(FanController::next_reset_backend(0, 3), Some(0));
    assert_eq!(FanController::next_reset_backend(2, 3), Some(2));
    assert_eq!(FanController::next_reset_backend(3, 3), None);
}

#[test]
fn reset_all_resets_every_listed_fan() {
    let mut c = controller();
    c.set_curve("a", vec![pt(30, 20), pt(70, 100)]).unwrap();
    c.set_curve("b", vec![pt(30, 20), pt(70, 100)]).unwrap();
    let ids = c.fan_ids();
    assert_eq!(ids, vec!["a".to_string(), "b".to_string()]);
    c.reset_all(&ids);
    assert_eq!(c.tick().len(), 0);
    assert!(c.get_all_fans().iter().all(|f| f.mode == FanMode::Auto));
}

#[test]
fn from_entries_builds_labels_and_profile() {
    let labels = vec![("a".to_string(), "Front".to_string()), ("a".to_string(), "Top".to_string())];
    let profile = vec![("b".to_string(), vec![pt(30, 20), pt(70, 100)])];
    let mut c = FanController::from_entries(labels, profile);
    c.scan_all(vec![fan("a", "Fan 1", None)]);
    assert_eq!(c.get_all_fans()[0].label, "Top");
    assert_eq!(c.get_custom_profile().get("b"), Some(&vec![pt(30, 20), pt(70, 100)]));
}

#[test]
fn reset_stops_curve_and_sets_auto() {
    let mut c = controller();
    c.set_curve("a", vec![pt(30, 20), pt(70, 100)]).unwrap();
    c.reset_to_default("a");
    assert_eq!(c.tick().len(), 0);
    assert_eq!(find(&c.get_all_fans(), "a").mode, FanMode::Auto);
}

#[test]
fn fixed_speed_is_capped_at_100() {
    assert_eq!(FanController::fixed_speed_pct(150), 100);
    assert_eq!(FanController::fixed_speed_pct(100), 100);
    assert_eq!(FanController::fixed_speed_pct(35), 35);
}

#[test]
fn fixed_speed_accepted_by_a_backend() {
    let mut c = controller();
    let attempts = vec![Err("not nvidia".to_string()), Ok(())];
    assert_eq!(c.set_fixed_speed("a", 180, &attempts), Ok(()));
    let f = find(&c.get_all_fans(), "a").clone();
    assert_eq!(f.mode, FanMode::Fixed);
    assert_eq!(f.speed_pct, Some(100));
}

#[test]
fn fixed_speed_refused_by_all_backends_reports_last_error() {
    let mut c = controller();
    let attempts = vec![Err("invalid hwmon fan_id".to_string()), Err("not amd".to_string())];
    assert_eq!(c.set_fixed_speed("a", 50, &attempts), Err("not amd".to_string()));
    let f = find(&c.get_all_fans(), "a").clone();
    assert_eq!(f.mode, FanMode::Auto);
    assert_eq!(f.speed_pct, Some(40));
    assert_eq!(c.set_fixed_speed("a", 50, &Vec::new()), Err(String::new()));
}

#[test]
fn custom_profile_is_saved_and_applied() {
    let profile = vec![
        ("a".to_string(), vec![pt(30, 20), pt(70, 100)]),
        ("b".to_string(), vec![pt(40, 30)]),
        ("c".to_string(), vec![pt(70, 30), pt(40, 60)]),
    ];
    let mut c = FanController::new(None, profile);
    c.scan_all(vec![fan("a", "Fan 1", Some(50_000)), fan("b", "Fan 2", Some(50_000)), fan("c", "Fan 3", Some(50_000))]);
    assert_eq!(c.get_custom_profile().len(), 3);
    c.apply_custom_profile();
    let fans = c.get_all_fans();
    assert_eq!(find(&fans, "a").mode, FanMode::Curve);
    assert_eq!(find(&fans, "b").mode, FanMode::Auto);
    assert_eq!(find(&fans, "c").mode, FanMode::Auto);
    let plan = c.tick();
    assert_eq!(plan.len(), 1);
    assert_eq!(plan.get("a"), Some(&60));
}

#[test]
fn save_custom_curve_replaces_entry() {
    let mut c = controller();
    c.save_custom_curve("a", vec![pt(30, 20), pt(70, 100)]);
    c.save_custom_curve("a", vec![pt(20, 30), pt(80, 90)]);
    let p = c.get_custom_profile();
    assert_eq!(p.len(), 1);
    assert_eq!(p.get("a").unwrap().clone(), vec![pt(20, 30), pt(80, 90)]);
}

#[test]
fn labels_file_that_is_not_an_object_of_strings_is_ignored() {
    let mut c = FanController::new(Some("[1, 2]"), Vec::new());
    c.scan_all(vec![fan("a", "Fan 1", None)]);
    assert_eq!(c.get_all_fans()[0].label, "Fan 1");
    let mut c = FanController::new(Some("{\"a\": 5}"), Vec::new());
    c.scan_all(vec![fan("a", "Fan 1", None)]);
    assert_eq!(c.get_all_fans()[0].label, "Fan 1");
}

#[test]
fn labels_are_written_as_a_json_object() {
    let mut c = FanController::new(None, Vec::new());
    c.rename_fan("b", "Rear".to_string());
    c.rename_fan("a", "CPU".to_string());
    let text = c.labels_json();
    assert_eq!(text, "{\n  \"a\": \"CPU\",\n  \"b\": \"Rear\"\n}");
    let mut d = FanController::new(Some(&text), Vec::new());
    d.scan_all(vec![fan("a", "Fan 1", None), fan("b", "Fan 2", None)]);
    let fans = d.get_all_fans();
    assert_eq!(find(&fans, "a").label, "CPU");
    assert_eq!(find(&fans, "b").label, "Rear");
}
