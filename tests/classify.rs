use sysmon_core::{classify, classify_folded};

fn row(raw: &str) -> (String, String, u32, u32) {
    let c = classify(raw);
    (c.key, c.display, c.warn, c.hot)
}

#[test]
fn coretemp_is_cpu() {
    let c = classify("coretemp-isa-0000");
    assert_eq!(c.key, "cpu");
    assert_eq!((c.warn, c.hot), (90, 100));
}

#[test]
fn nvme_is_ssd() {
    let c = classify("nvme0-pci-0100");
    assert_eq!(c.key, "ssd");
    assert_eq!((c.warn, c.hot), (70, 80));
}

#[test]
fn unmatched_name_is_its_own_group() {
    let c = classify("xyz123");
    assert_eq!(c.key, "xyz123");
    assert_eq!(c.display, "xyz123");
    assert_eq!((c.warn, c.hot), (90, 100));
}

#[test]
fn table_rows() {
    assert_eq!(row("k10temp"), ("cpu".into(), "CPU".into(), 90, 100));
    assert_eq!(row("amdgpu"), ("gpu".into(), "GPU".into(), 85, 95));
    assert_eq!(row("nvidia"), ("gpu".into(), "GPU".into(), 85, 95));
    assert_eq!(row("spd5118"), ("ram".into(), "Memory (SPD Hub)".into(), 70, 85));
    assert_eq!(row("iwlwifi_1"), ("wifi".into(), "Wi\u{2011}Fi".into(), 80, 90));
    assert_eq!(row("r8169_0_500:00"), ("eth".into(), "Ethernet".into(), 80, 90));
    assert_eq!(row("acpitz"), ("acpi".into(), "System (ACPI)".into(), 80, 95));
    assert_eq!(row("pch_cannonlake"), ("chipset".into(), "Chipset".into(), 85, 95));
}

#[test]
fn matching_ignores_case() {
    assert_eq!(classify("CoreTemp").key, "cpu");
    assert_eq!(classify("NVME").key, "ssd");
}

#[test]
fn first_row_wins() {
    // "isa" alone would be chipset; "coretemp" comes first in the table.
    assert_eq!(classify("coretemp-isa").key, "cpu");
    // "zen" names a cpu even beside "gpu".
    assert_eq!(classify("zen-gpu").key, "cpu");
}

#[test]
fn folded_form_decides() {
    let c = classify_folded("nvme", "Whatever");
    assert_eq!(c.key, "ssd");
    let c = classify_folded("foo", "Foo");
    assert_eq!(c.key, "Foo");
    assert_eq!(c.display, "Foo");
}
