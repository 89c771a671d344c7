use fancontroller::order::{median, sort_u32};
use fancontroller::setup::{
    config_dir, config_path, custom_profile_path, is_root, parse_pid, setup_marker, should_rescan,
    sudoers_rules, udev_rule,
};
use fancontroller::table::Table;
use fancontroller::text::{
    parse_failure, ParseFailure,
    contains, decimal, join_path, parse_unsigned, starts_with, str_eq, to_ascii_lowercase, trim,
    trim_start_matches,
};

#[test]
fn decimal_digits() {
    assert_eq!(decimal(0), "0");
    assert_eq!(decimal(7), "7");
    assert_eq!(decimal(1234567890), "1234567890");
    assert_eq!(decimal(u64::MAX), u64::MAX.to_string());
}

#[test]
fn unsigned_parsing_follows_std() {
    for s in ["0", "42", "+42", "007", "4294967295", "4294967296", "", "+", "-1", "1 2", "12a", "++1"] {
        assert_eq!(parse_unsigned(s, u32::MAX as u64), s.parse::<u32>().ok().map(|v| v as u64), "{s}");
    }
    for s in ["255", "256", "+7", "0"] {
        assert_eq!(parse_unsigned(s, u8::MAX as u64), s.parse::<u8>().ok().map(|v| v as u64), "{s}");
    }
}

#[test]
fn trimming_follows_std() {
    for s in ["  a b \n", "\t\u{a0}x\u{3000}", "", "   ", "abc", "\u{2028}y\u{85}"] {
        assert_eq!(trim(s), s.trim(), "{s:?}");
    }
}

#[test]
fn prefixes_and_search() {
    assert!(starts_with("nvidia:0", "nvidia:"));
    assert!(!starts_with("nvid", "nvidia:"));
    assert_eq!(trim_start_matches("hwmon:hwmon:hwmon3", "hwmon:"), "hwmon3");
    assert_eq!(trim_start_matches("fanfan1", "fan"), "1");
    assert_eq!(trim_start_matches("x", "fan"), "x");
    assert!(contains("w_pump", "pump"));
    assert!(!contains("fan", "pump"));
    assert!(contains("abc", ""));
    assert_eq!(to_ascii_lowercase("CPU_Pump Ä"), "cpu_pump Ä");
    assert!(str_eq("abc", "abc"));
    assert!(!str_eq("abc", "abd"));
}

#[test]
fn path_joining() {
    assert_eq!(join_path("/home/u", ".config"), "/home/u/.config");
    assert_eq!(join_path("/home/u/", ".config"), "/home/u/.config");
    assert_eq!(join_path("", ".config"), ".config");
}

#[test]
fn config_locations() {
    let d = config_dir(Some("/home/user"));
    assert_eq!(d, "/home/user/.config/fancontroller");
    assert_eq!(config_dir(None), "/tmp/fancontroller");
    assert_eq!(config_path(&d), "/home/user/.config/fancontroller/config.json");
    assert_eq!(custom_profile_path(&d), "/home/user/.config/fancontroller/custom_profile.json");
    assert_eq!(setup_marker(Some("/root/")), "/root/.config/fancontroller/.setup_version");
    assert_eq!(setup_marker(None), "/tmp/fancontroller-setup");
}

#[test]
fn root_detection() {
    let status = "Name:\tcat\nUmask:\t0022\nUid:\t0\t0\t0\t0\nGid:\t0\t0\t0\t0\n";
    assert!(is_root(Some(status)));
    let status = "Name:\tcat\nUid:\t1000\t1000\t1000\t1000\n";
    assert!(!is_root(Some(status)));
    assert!(!is_root(Some("Name:\tcat\n")));
    assert!(!is_root(Some("Uid:")));
    assert!(is_root(Some("Uid: 0\r\n")));
    assert!(!is_root(None));
}

#[test]
fn pid_file_and_rules() {
    assert_eq!(parse_pid("1234\n"), Some(1234));
    assert_eq!(parse_pid("x"), None);
    assert_eq!(
        sudoers_rules(Some("alice"), Some("/usr/bin/fc")),
        "alice ALL=(ALL) NOPASSWD: /usr/bin/fc --gpu-set *\nalice ALL=(ALL) NOPASSWD: /usr/bin/fc --gpu-reset *\n"
    );
    assert!(sudoers_rules(None, None).starts_with("ALL ALL=(ALL) NOPASSWD: /usr/local/bin/fancontroller --gpu-set *"));
    assert_eq!(
        udev_rule(),
        "SUBSYSTEM==\"hwmon\", KERNEL==\"hwmon[0-9]*\", ACTION==\"add\", GROUP=\"hwmon\", MODE=\"0660\"\n"
    );
    assert!(should_rescan(0));
    assert!(!should_rescan(1));
    assert!(should_rescan(3));
}

#[test]
fn sorting_and_median() {
    assert_eq!(sort_u32(&vec![5, 1, 4, 1, 3]), vec![1, 1, 3, 4, 5]);
    assert_eq!(median(&vec![5, 1, 4, 1, 3]), 3);
    assert_eq!(median(&vec![900, 1000, 4500, 3000]), 3000);
    assert_eq!(median(&vec![7]), 7);
}

#[test]
fn table_keeps_order_and_replaces_in_place() {
    let mut t: Table<u32> = Table::new();
    t.insert("b".to_string(), 1);
    t.insert("a".to_string(), 2);
    t.insert("b".to_string(), 3);
    assert_eq!(t.len(), 2);
    assert_eq!(t.key(0), "b");
    assert_eq!(*t.value(0), 3);
    assert_eq!(t.get("a"), Some(&2));
    assert!(t.contains_key("a"));
    t.remove("b");
    assert_eq!(t.len(), 1);
    assert_eq!(t.get("b"), None);
    t.clear();
    assert_eq!(t.len(), 0);
}

#[test]
fn parse_failures_follow_std() {
    for s in ["", "+", "-1", "12a", "99999999999", "4294967296", "4294967296x", "x4294967296", "++1", " 1"] {
        let err = s.parse::<u32>().unwrap_err();
        let f = parse_failure(s, u32::MAX as u64);
        assert_eq!(f.message(), err.to_string(), "{s:?}");
        let expected = match err.kind() {
            std::num::IntErrorKind::Empty => ParseFailure::Empty,
            std::num::IntErrorKind::InvalidDigit => ParseFailure::InvalidDigit,
            _ => ParseFailure::TooLarge,
        };
        assert_eq!(f, expected, "{s:?}");
    }
}
