use sysmon_core::text::{contains, ends_with, equals, find, first_word_from, is_whitespace, starts_with, trim};
use sysmon_core::{
    core_index, decimal, is_temp_input, item_sort_key, label_file_name, parse_int, parse_reading, sensor_label,
    sort_freq_sensors, temp_from_text, FreqSensor,
};

#[test]
fn substring_tests() {
    assert!(contains("coretemp-isa", "isa"));
    assert!(!contains("core", "coretemp"));
    assert!(contains("abc", ""));
    assert!(starts_with("temp1_input", "temp"));
    assert!(ends_with("temp1_input", "_input"));
    assert!(!ends_with("temp1_label", "_input"));
    assert!(equals("cpu", "cpu"));
    assert!(!equals("cpu", "cpu0"));
    assert_eq!(find("cpu core 3", "core "), Some(4));
    assert_eq!(find("cpu", "core "), None);
}

#[test]
fn trim_uses_unicode_whitespace() {
    assert_eq!(trim("  x y\t\n"), "x y");
    assert_eq!(trim("\u{00a0}a\u{2003}"), "a");
    assert_eq!(trim("   "), "");
}

#[test]
fn words() {
    assert_eq!(first_word_from("core   12 x", 4), "12");
    assert_eq!(first_word_from("core ", 5), "");
}

#[test]
fn integers() {
    assert_eq!(parse_int("42"), Some(42));
    assert_eq!(parse_int("-7"), Some(-7));
    assert_eq!(parse_int("+7"), Some(7));
    assert_eq!(parse_int("9223372036854775807"), Some(i64::MAX));
    assert_eq!(parse_int("-9223372036854775808"), Some(i64::MIN));
    assert_eq!(parse_int("9223372036854775808"), None);
    assert_eq!(parse_int(""), None);
    assert_eq!(parse_int("-"), None);
    assert_eq!(parse_int("4x"), None);
    assert_eq!(parse_reading(" 45500\n"), Some(45500));
    assert_eq!(decimal(0), "0");
    assert_eq!(decimal(1204), "1204");
}

#[test]
fn temperature_files() {
    assert_eq!(temp_from_text("45500\n"), Some(45500));
    assert_eq!(temp_from_text("45\n"), Some(45000));
    assert_eq!(temp_from_text("n/a"), None);
}

#[test]
fn topology_names() {
    assert_eq!(core_index("cpu0"), Some(0));
    assert_eq!(core_index("cpu17"), Some(17));
    assert_eq!(core_index("cpufreq"), None);
    assert_eq!(core_index("cpuidle"), None);
    assert_eq!(core_index("node0"), None);
    assert_eq!(core_index("cpu-1"), None);
    assert_eq!(core_index("cpucpu3"), Some(3));
}

#[test]
fn hwmon_file_names() {
    assert!(is_temp_input("temp1_input"));
    assert!(!is_temp_input("temp1_label"));
    assert!(!is_temp_input("fan1_input"));
    assert_eq!(label_file_name("temp3_input"), "temp3_label");
    assert_eq!(sensor_label(" coretemp\n", Some("Core 0\n")), "Core 0");
    assert_eq!(sensor_label(" coretemp\n", Some("  \n")), "coretemp");
    assert_eq!(sensor_label("acpitz", None), "acpitz");
}

#[test]
fn freq_sensors_sorted_by_core() {
    let v = vec![
        FreqSensor { core: 3, path: "c".into() },
        FreqSensor { core: 0, path: "a".into() },
        FreqSensor { core: 2, path: "b".into() },
    ];
    let sorted = sort_freq_sensors(v);
    let cores: Vec<usize> = sorted.iter().map(|f| f.core).collect();
    assert_eq!(cores, vec![0, 2, 3]);
    assert_eq!(sorted[0].path, "a");
}

#[test]
fn sort_keys() {
    let k = item_sort_key("cpu", "Core 7");
    assert_eq!(&k[..2], &[1, 7]);
    let k = item_sort_key("cpu", "Package id 0");
    assert_eq!(&k[..2], &[0, i32::MAX as i128]);
    let k = item_sort_key("gpu", "GPU Edge");
    assert_eq!(k[0], 0);
    assert_eq!(item_sort_key("ssd", "Ab"), vec![65, 98]);
}

#[test]
fn whitespace_matches_std() {
    for u in 0u32..0x3100 {
        if let Some(c) = char::from_u32(u) {
            assert_eq!(is_whitespace(c), c.is_whitespace(), "U+{:04X}", u);
        }
    }
    assert!(!is_whitespace('\u{feff}'));
}
