use sysmon_core::{
    add_gpu_header, build_groups, gpu_sensor_index, group_palette, group_rank, humanize_item_label, nvme_hint_from_path, sort_group_items,
    theme_color, tint, Rgba, SensorItem, TempSensor,
};

fn sensor(name: &str, label: &str, path: &str) -> TempSensor {
    TempSensor { raw_name: name.to_string(), raw_label: label.to_string(), path: path.to_string() }
}

fn item(name: &str, idx: usize) -> SensorItem {
    SensorItem { name: name.to_string(), idx, visible: false, color: Rgba { r: 0, g: 0, b: 0, a: 255 } }
}

fn names(items: &[SensorItem]) -> Vec<String> {
    items.iter().map(|i| i.name.clone()).collect()
}

#[test]
fn groups_follow_rank_order() {
    let sensors = vec![
        sensor("r8169_0_500", "r8169", "/sys/class/hwmon/hwmon0/temp1_input"),
        sensor("coretemp", "Core 0", "/sys/class/hwmon/hwmon1/temp2_input"),
        sensor("iwlwifi_1", "iwlwifi_1", "/sys/class/hwmon/hwmon2/temp1_input"),
        sensor("amdgpu", "edge", "/sys/class/hwmon/hwmon3/temp1_input"),
        sensor("nvme", "Composite", "/sys/devices/pci0000:00/nvme/nvme0/hwmon4/temp1_input"),
        sensor("spd5118", "spd5118", "/sys/class/hwmon/hwmon5/temp1_input"),
    ];
    let groups = build_groups(&sensors);
    let keys: Vec<String> = groups.iter().map(|g| g.key.clone()).collect();
    assert_eq!(keys, vec!["cpu", "gpu", "ssd", "ram", "wifi", "eth"]);
}

#[test]
fn other_groups_keep_discovery_order() {
    let sensors = vec![
        sensor("zzz", "a", "/x"),
        sensor("acpitz", "acpitz", "/y"),
        sensor("coretemp", "Package id 0", "/z"),
        sensor("aaa", "b", "/w"),
    ];
    let groups = build_groups(&sensors);
    let keys: Vec<String> = groups.iter().map(|g| g.key.clone()).collect();
    assert_eq!(keys, vec!["cpu", "zzz", "acpi", "aaa"]);
}

#[test]
fn cpu_items_sort_by_tier_then_number() {
    let items = vec![item("Core 3", 0), item("Package", 1), item("Core 1", 2)];
    let sorted = sort_group_items("cpu", items);
    assert_eq!(names(&sorted), vec!["Package", "Core 1", "Core 3"]);
}

#[test]
fn cpu_items_sort_numerically_not_textually() {
    let items = vec![item("Core 10", 0), item("Core 2", 1), item("Tctl", 2), item("Package id 0", 3)];
    let sorted = sort_group_items("cpu", items);
    assert_eq!(names(&sorted), vec!["Package id 0", "Core 2", "Core 10", "Tctl"]);
}

#[test]
fn gpu_items_sort_edge_hotspot_other() {
    let items = vec![item("GPU", 0), item("GPU Hotspot", 1), item("GPU Edge", 2)];
    let sorted = sort_group_items("gpu", items);
    assert_eq!(names(&sorted), vec!["GPU Edge", "GPU Hotspot", "GPU"]);
}

#[test]
fn other_items_sort_by_label() {
    let items = vec![item("b", 0), item("a", 1), item("B", 2)];
    let sorted = sort_group_items("acpi", items);
    assert_eq!(names(&sorted), vec!["B", "a", "b"]);
}

#[test]
fn equal_keys_keep_order() {
    let items = vec![item("x", 0), item("x", 1), item("x", 2)];
    let sorted = sort_group_items("acpi", items);
    let idxs: Vec<usize> = sorted.iter().map(|i| i.idx).collect();
    assert_eq!(idxs, vec![0, 1, 2]);
}

#[test]
fn cpu_group_shows_package_only() {
    let sensors = vec![
        sensor("coretemp", "Core 0", "/a"),
        sensor("coretemp", "Package id 0", "/b"),
        sensor("coretemp", "Core 1", "/c"),
    ];
    let groups = build_groups(&sensors);
    assert_eq!(groups.len(), 1);
    let g = &groups[0];
    assert_eq!(g.display, "CPU");
    assert_eq!((g.warn, g.hot), (90, 100));
    assert_eq!(names(&g.items), vec!["Package id 0", "Core 0", "Core 1"]);
    let shown: Vec<bool> = g.items.iter().map(|i| i.visible).collect();
    assert_eq!(shown, vec![true, false, false]);
    let idxs: Vec<usize> = g.items.iter().map(|i| i.idx).collect();
    assert_eq!(idxs, vec![1, 0, 2]);
}

#[test]
fn group_without_representative_shows_first() {
    let sensors = vec![sensor("coretemp", "Core 1", "/a"), sensor("coretemp", "Core 0", "/b")];
    let groups = build_groups(&sensors);
    let g = &groups[0];
    assert_eq!(names(&g.items), vec!["Core 0", "Core 1"]);
    // The first reading discovered ("Core 1") is the one shown.
    let shown: Vec<(String, bool)> = g.items.iter().map(|i| (i.name.clone(), i.visible)).collect();
    assert_eq!(shown, vec![("Core 0".to_string(), false), ("Core 1".to_string(), true)]);
}

#[test]
fn item_colors_tint_the_group_hue() {
    let sensors = vec![sensor("acpitz", "a", "/a"), sensor("acpitz", "b", "/b")];
    let groups = build_groups(&sensors);
    let g = &groups[0];
    let base = theme_color("acpi");
    assert_eq!(g.items[0].color, tint(base, 0));
    assert_eq!(g.items[1].color, tint(base, 1));
}

#[test]
fn tint_blends_toward_white() {
    let base = theme_color("cpu");
    assert_eq!(base, Rgba { r: 220, g: 30, b: 30, a: 255 });
    // 15% of the way to white: 220 + 35*15/100 = 225, 30 + 225*15/100 = 63.
    assert_eq!(tint(base, 0), Rgba { r: 225, g: 63, b: 63, a: 255 });
    // Index 6 cycles back to the first step.
    assert_eq!(tint(base, 6), tint(base, 0));
    // 75%: 220 + 35*75/100 = 246, 30 + 225*75/100 = 198.
    assert_eq!(tint(base, 5), Rgba { r: 246, g: 198, b: 198, a: 255 });
}

#[test]
fn palette_has_one_color_per_item() {
    let p = group_palette("gpu", 3);
    assert_eq!(p.len(), 3);
    assert_eq!(p[1], tint(theme_color("gpu"), 1));
    assert_eq!(group_palette("gpu", 0), vec![theme_color("gpu")]);
    assert_eq!(theme_color("unknown"), Rgba { r: 220, g: 220, b: 220, a: 255 });
}

#[test]
fn labels_per_group() {
    assert_eq!(humanize_item_label("wifi", "iwlwifi_1", 0, "/x"), "Wi\u{2011}Fi");
    assert_eq!(humanize_item_label("eth", " R8169_0 ", 0, "/x"), "Ethernet (r8169)");
    assert_eq!(humanize_item_label("eth", "igc", 0, "/x"), "Ethernet (igc)");
    assert_eq!(humanize_item_label("eth", "other", 0, "/x"), "Ethernet");
    assert_eq!(humanize_item_label("ram", "SPD5118", 0, "/x"), "SPD Hub");
    assert_eq!(humanize_item_label("ram", "dimm", 0, "/x"), "Memory");
    assert_eq!(humanize_item_label("gpu", "edge", 0, "/x"), "GPU Edge");
    assert_eq!(humanize_item_label("gpu", "Junction hotspot", 0, "/x"), "GPU Hotspot");
    assert_eq!(humanize_item_label("gpu", "mem", 0, "/x"), "GPU");
    assert_eq!(humanize_item_label("cpu", "  Core 0\n", 0, "/x"), "Core 0");
}

#[test]
fn ssd_label_from_path_or_position() {
    let p = "/sys/block/nvme0n1/device/hwmon3/temp1_input";
    assert_eq!(humanize_item_label("ssd", "Composite", 0, p), "SSD (NVMe nvme0n1)");
    assert_eq!(humanize_item_label("ssd", "Composite", 1, "/sys/class/hwmon/hwmon3/temp1_input"), "SSD (NVMe #2)");
}

#[test]
fn nvme_hint_takes_first_matching_component() {
    assert_eq!(nvme_hint_from_path("/sys/block/nvme0n1/device/nvme1/x"), Some("nvme0n1".to_string()));
    assert_eq!(nvme_hint_from_path("nvme2/hwmon"), Some("nvme2".to_string()));
    assert_eq!(nvme_hint_from_path("/sys/class/hwmon/hwmon3"), None);
    assert_eq!(nvme_hint_from_path(""), None);
}

#[test]
fn rank_table() {
    assert_eq!(group_rank("cpu"), 0);
    assert_eq!(group_rank("gpu"), 1);
    assert_eq!(group_rank("ssd"), 2);
    assert_eq!(group_rank("ram"), 3);
    assert_eq!(group_rank("wifi"), 4);
    assert_eq!(group_rank("eth"), 5);
    assert_eq!(group_rank("acpi"), 6);
}

#[test]
fn shorter_label_sorts_before_its_extension() {
    let items = vec![item("abc", 0), item("ab", 200)];
    let sorted = sort_group_items("acpi", items);
    assert_eq!(names(&sorted), vec!["ab", "abc"]);
}

#[test]
fn equal_labels_follow_series_index() {
    let items = vec![item("GPU", 7), item("GPU", 2), item("GPU Edge", 9)];
    let sorted = sort_group_items("gpu", items);
    let order: Vec<(String, usize)> = sorted.iter().map(|i| (i.name.clone(), i.idx)).collect();
    assert_eq!(order, vec![("GPU Edge".to_string(), 9), ("GPU".to_string(), 2), ("GPU".to_string(), 7)]);
}

#[test]
fn gpu_sensor_is_first_nvidia_or_gpu_name() {
    let sensors = vec![sensor("coretemp", "Core 0", "/a"), sensor("NVIDIA", "gpu", "/b"), sensor("amdgpu", "edge", "/c")];
    assert_eq!(gpu_sensor_index(&sensors), Some(1));
    let sensors = vec![sensor("coretemp", "Core 0", "/a"), sensor("acpitz", "acpitz", "/b")];
    assert_eq!(gpu_sensor_index(&sensors), None);
}

#[test]
fn gpu_header_goes_after_cpu() {
    let sensors = vec![sensor("nvme", "Composite", "/a"), sensor("coretemp", "Core 0", "/b")];
    let groups = add_gpu_header(build_groups(&sensors), true);
    let keys: Vec<String> = groups.iter().map(|g| g.key.clone()).collect();
    assert_eq!(keys, vec!["cpu", "gpu", "ssd"]);
    let g = &groups[1];
    assert_eq!(g.display, "GPU");
    assert!(g.items.is_empty());
    assert_eq!((g.warn, g.hot), (85, 95));
}

#[test]
fn gpu_header_first_without_cpu_and_never_twice() {
    let sensors = vec![sensor("nvme", "Composite", "/a")];
    let keys: Vec<String> = add_gpu_header(build_groups(&sensors), true).iter().map(|g| g.key.clone()).collect();
    assert_eq!(keys, vec!["gpu", "ssd"]);
    let keys: Vec<String> = add_gpu_header(Vec::new(), true).iter().map(|g| g.key.clone()).collect();
    assert_eq!(keys, vec!["gpu"]);
    let sensors = vec![sensor("amdgpu", "edge", "/a")];
    let groups = add_gpu_header(build_groups(&sensors), true);
    assert_eq!(groups.len(), 1);
    assert_eq!(groups[0].items.len(), 1);
    assert_eq!(add_gpu_header(build_groups(&Vec::new()), false).len(), 0);
}
