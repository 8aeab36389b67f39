use crate::text::{contains, has_infix, lower_of, lowercase};
use vstd::prelude::*;
use vstd::string::*;

verus! {

/// The semantic group of a raw sensor: its key, its display name and its warn
/// and hot thresholds in whole degrees.
pub struct Classification {
    pub key: String,
    pub display: String,
    pub warn: u32,
    pub hot: u32,
}

/// A classification as plain values.
pub struct ClassSpec {
    pub key: Seq<char>,
    pub display: Seq<char>,
    pub warn: u32,
    pub hot: u32,
}

impl Classification {
    pub open spec fn as_spec(&self) -> ClassSpec {
        ClassSpec { key: self.key@, display: self.display@, warn: self.warn, hot: self.hot }
    }
}

pub open spec fn class_of(key: &str, display: &str, warn: u32, hot: u32) -> ClassSpec {
    ClassSpec { key: key@, display: display@, warn, hot }
}

pub open spec fn is_cpu_name(l: Seq<char>) -> bool {
    has_infix(l, "coretemp"@) || has_infix(l, "k10temp"@) || has_infix(l, "zen"@) || has_infix(l, "cpu"@)
}

pub open spec fn is_gpu_name(l: Seq<char>) -> bool {
    has_infix(l, "amdgpu"@) || has_infix(l, "nvidia"@) || has_infix(l, "gpu"@)
}

pub open spec fn is_eth_name(l: Seq<char>) -> bool {
    has_infix(l, "r8169"@) || has_infix(l, "igc"@) || has_infix(l, "e1000"@) || has_infix(l, "r8125"@)
}

/// The group of a raw sensor name, given the name (`raw`) and its lowercase
/// form (`l`): the first matching row of the pattern table wins, and a name
/// that matches none forms a group of its own.
pub open spec fn classified(l: Seq<char>, raw: Seq<char>) -> ClassSpec {
    if is_cpu_name(l) {
        class_of("cpu", "CPU", 90, 100)
    } else if is_gpu_name(l) {
        class_of("gpu", "GPU", 85, 95)
    } else if has_infix(l, "nvme"@) {
        class_of("ssd", "SSD (NVMe)", 70, 80)
    } else if has_infix(l, "spd"@) {
        class_of("ram", "Memory (SPD Hub)", 70, 85)
    } else if has_infix(l, "iwlwifi"@) {
        class_of("wifi", "Wi\u{2011}Fi", 80, 90)
    } else if is_eth_name(l) {
        class_of("eth", "Ethernet", 80, 90)
    } else if has_infix(l, "acpitz"@) {
        class_of("acpi", "System (ACPI)", 80, 95)
    } else if has_infix(l, "pch"@) || has_infix(l, "isa"@) {
        class_of("chipset", "Chipset", 85, 95)
    } else {
        ClassSpec { key: raw, display: raw, warn: 90, hot: 100 }
    }
}

fn make(key: &str, display: &str, warn: u32, hot: u32) -> (r: Classification)
    ensures
        r.as_spec() == class_of(key, display, warn, hot),
{
    Classification { key: String::from_str(key), display: String::from_str(display), warn, hot }
}

/// Classifies a raw sensor name whose lowercase form is `lower`.
pub fn classify_folded(lower: &str, raw: &str) -> (r: Classification)
    ensures
        r.as_spec() == classified(lower@, raw@),
{
    let l = lower;
    if contains(l, "coretemp") || contains(l, "k10temp") || contains(l, "zen") || contains(l, "cpu") {
        make("cpu", "CPU", 90, 100)
    } else if contains(l, "amdgpu") || contains(l, "nvidia") || contains(l, "gpu") {
        make("gpu", "GPU", 85, 95)
    } else if contains(l, "nvme") {
        make("ssd", "SSD (NVMe)", 70, 80)
    } else if contains(l, "spd") {
        make("ram", "Memory (SPD Hub)", 70, 85)
    } else if contains(l, "iwlwifi") {
        make("wifi", "Wi\u{2011}Fi", 80, 90)
    } else if contains(l, "r8169") || contains(l, "igc") || contains(l, "e1000") || contains(l, "r8125") {
        make("eth", "Ethernet", 80, 90)
    } else if contains(l, "acpitz") {
        make("acpi", "System (ACPI)", 80, 95)
    } else if contains(l, "pch") || contains(l, "isa") {
        make("chipset", "Chipset", 85, 95)
    } else {
        Classification { key: String::from_str(raw), display: String::from_str(raw), warn: 90, hot: 100 }
    }
}

/// Classifies a raw sensor name, matching the patterns without regard to case.
pub fn classify(raw: &str) -> (r: Classification)
    ensures
        r.as_spec() == classified(lower_of(raw@), raw@),
{
    let lower = lowercase(raw);
    classify_folded(lower.as_str(), raw)
}

} // verus!
