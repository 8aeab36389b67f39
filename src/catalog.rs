use crate::num::{i64_of, parse_int};
use crate::sampler::{normalize_temp, temp_milli};
use crate::items::lemma_insert_multiset;
use crate::text::{ends_with, has_prefix, has_suffix, replace, replace_all, starts_with, trim, trim_of};
use vstd::prelude::*;
use vstd::string::*;

verus! {

/// A per-core frequency counter: the core's index and the file it is read from.
pub struct FreqSensor {
    pub core: usize,
    pub path: String,
}

/// A frequency counter as plain values.
pub struct FreqSpec {
    pub core: usize,
    pub path: Seq<char>,
}

impl FreqSensor {
    pub open spec fn as_spec(&self) -> FreqSpec {
        FreqSpec { core: self.core, path: self.path@ }
    }
}

pub open spec fn freq_specs(s: Seq<FreqSensor>) -> Seq<FreqSpec> {
    s.map_values(|f: FreqSensor| f.as_spec())
}

/// `s` with every leading repetition of "cpu" removed.
pub open spec fn strip_cpu(s: Seq<char>) -> Seq<char>
    decreases s.len(),
{
    if s.len() >= 3 && has_prefix(s, "cpu"@) {
        strip_cpu(s.subrange(3, s.len() as int))
    } else {
        s
    }
}

/// The core index named by a CPU topology directory such as `cpu12`: the name
/// starts with "cpu" and, past the leading "cpu"s, spells an unsigned decimal
/// number (a leading `+` allowed) that fits in `i64` and `usize`.
pub open spec fn core_index_of(name: Seq<char>) -> Option<usize> {
    let rest = strip_cpu(name);
    if !has_prefix(name, "cpu"@) || (rest.len() > 0 && rest[0] == '-') {
        None
    } else {
        match i64_of(rest) {
            Some(v) => if 0 <= v <= usize::MAX { Some(v as usize) } else { None },
            None => None,
        }
    }
}

/// The core index named by a CPU topology directory (see `core_index_of`).
pub fn core_index(name: &str) -> (r: Option<usize>)
    ensures
        r == core_index_of(name@),
{
    proof {
        reveal_strlit("cpu");
    }
    if !starts_with(name, "cpu") {
        return None;
    }
    let mut rest = name;
    while starts_with(rest, "cpu")
        invariant
            "cpu"@.len() == 3,
            strip_cpu(rest@) == strip_cpu(name@),
        decreases rest@.len(),
    {
        let n = rest.unicode_len();
        rest = rest.substring_char(3, n);
    }
    let n = rest.unicode_len();
    if n > 0 && rest.get_char(0) == '-' {
        return None;
    }
    match parse_int(rest) {
        Some(v) => if v >= 0 && (v as u64) <= (usize::MAX as u64) { Some(v as usize) } else { None },
        None => None,
    }
}

/// A temperature input file of a monitoring device: `temp<N>_input`.
pub fn is_temp_input(file_name: &str) -> (r: bool)
    ensures
        r == (has_prefix(file_name@, "temp"@) && has_suffix(file_name@, "_input"@)),
{
    starts_with(file_name, "temp") && ends_with(file_name, "_input")
}

/// The label file that goes with a temperature input file.
pub fn label_file_name(input_name: &str) -> (r: String)
    ensures
        r@ == replace_all(input_name@, "_input"@, "_label"@),
{
    proof {
        reveal_strlit("_input");
    }
    replace(input_name, "_input", "_label")
}

/// The raw label of a temperature input: the trimmed label file when it was
/// read and is not blank, and otherwise the trimmed device name.
pub open spec fn label_for(device_name: Seq<char>, label_text: Option<Seq<char>>) -> Seq<char> {
    match label_text {
        Some(l) => if trim_of(l).len() > 0 { trim_of(l) } else { trim_of(device_name) },
        None => trim_of(device_name),
    }
}

/// The raw label of a temperature input (see `label_for`).
pub fn sensor_label(device_name: &str, label_text: Option<&str>) -> (r: String)
    ensures
        r@ == label_for(device_name@, match label_text {
            Some(l) => Some(l@),
            None => None,
        }),
{
    match label_text {
        Some(l) => {
            let t = trim(l);
            if t.unicode_len() > 0 {
                String::from_str(t)
            } else {
                String::from_str(trim(device_name))
            }
        },
        None => String::from_str(trim(device_name)),
    }
}

/// The integer in the text of a counter file, surrounding whitespace ignored.
pub fn parse_reading(text: &str) -> (r: Option<i64>)
    ensures
        r == i64_of(trim_of(text@)),
{
    parse_int(trim(text))
}

/// A temperature file's reading in milli-degrees (see `temp_milli`).
pub fn temp_from_text(text: &str) -> (r: Option<i64>)
    ensures
        r == match i64_of(trim_of(text@)) {
            Some(v) => temp_milli(v),
            None => None,
        },
{
    match parse_reading(text) {
        Some(v) => normalize_temp(v),
        None => None,
    }
}

/// Orders frequency counters by core index, keeping the order of equal ones.
pub fn sort_freq_sensors(sensors: Vec<FreqSensor>) -> (r: Vec<FreqSensor>)
    ensures
        freq_specs(r@).to_multiset() == freq_specs(sensors@).to_multiset(),
        forall|a: int, b: int| 0 <= a < b < r@.len() ==> (#[trigger] r@[a]).core <= (#[trigger] r@[b]).core,
{
    broadcast use vstd::seq_lib::group_to_multiset_ensures;

    let ghost orig = sensors@;
    let mut rest = sensors;
    let mut out: Vec<FreqSensor> = Vec::new();
    let ghost mut done: int = 0;
    while rest.len() > 0
        invariant
            0 <= done <= orig.len(),
            rest@ == orig.subrange(done, orig.len() as int),
            out@.len() == done,
            freq_specs(out@).to_multiset() == freq_specs(orig.subrange(0, done)).to_multiset(),
            forall|a: int, b: int| 0 <= a < b < out@.len() ==> (#[trigger] out@[a]).core <= (#[trigger] out@[b]).core,
        decreases rest@.len(),
    {
        let x = rest.remove(0);
        let mut j: usize = 0;
        while j < out.len() && out[j].core <= x.core
            invariant
                j <= out@.len(),
                forall|m: int| 0 <= m < j ==> (#[trigger] out@[m]).core <= x.core,
            decreases out@.len() - j,
        {
            j = j + 1;
        }
        proof {
            lemma_insert_multiset(freq_specs(out@), j as int, x.as_spec());
            assert(orig.subrange(done, orig.len() as int)[0] == x);
            assert(orig.subrange(0, done + 1) =~= orig.subrange(0, done).push(x));
            assert(freq_specs(orig.subrange(0, done + 1)) =~= freq_specs(orig.subrange(0, done)).push(x.as_spec()));
            vstd::seq_lib::to_multiset_build(freq_specs(orig.subrange(0, done)), x.as_spec());
        }
        let ghost old_out = out@;
        out.insert(j, x);
        proof {
            assert(freq_specs(out@) =~= freq_specs(old_out).insert(j as int, x.as_spec()));
            assert forall|a: int, b: int| 0 <= a < b < out@.len() implies (#[trigger] out@[a]).core
                <= (#[trigger] out@[b]).core by {
                if a < j && b == j {
                } else if a == j && b > j {
                    if j < old_out.len() {
                        assert(old_out[j as int].core > x.core);
                        assert(old_out[j as int].core <= old_out[b - 1].core);
                    }
                } else if a < j && b < j {
                    assert(out@[a] == old_out[a] && out@[b] == old_out[b]);
                } else if a < j {
                    assert(out@[a] == old_out[a] && out@[b] == old_out[b - 1]);
                } else {
                    assert(out@[a] == old_out[a - 1] && out@[b] == old_out[b - 1]);
                }
            }
            done = done + 1;
            assert(rest@ =~= orig.subrange(done, orig.len() as int));
        }
    }
    assert(orig.subrange(0, done) =~= orig);
    out
}

} // verus!
