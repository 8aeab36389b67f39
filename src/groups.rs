use crate::classify::{classified, classify, Classification};
use crate::color::{group_palette, theme_of, tint_of};
use crate::items::{humanize_item_label, item_specs, items_sorted, label_of, sort_group_items, ItemSpec, SensorItem};
use crate::text::{contains, equals, has_infix, lower_of, lowercase};
use vstd::prelude::*;
use vstd::string::*;

verus! {

/// A discovered temperature input: the name of its device, its label (or the
/// device name when it has none) and the file it is read from.
pub struct TempSensor {
    pub raw_name: String,
    pub raw_label: String,
    pub path: String,
}

/// A named group of readings with its warn and hot thresholds in whole degrees.
pub struct SensorGroup {
    pub key: String,
    pub display: String,
    pub items: Vec<SensorItem>,
    pub visible: bool,
    pub warn: u32,
    pub hot: u32,
    pub show_thresholds: bool,
}

/// The group key of a sensor.
pub open spec fn sensor_key(t: TempSensor) -> Seq<char> {
    classified(lower_of(t.raw_name@), t.raw_name@).key
}

/// The indices below `n` of the sensors of `s` in group `k`, ascending.
pub open spec fn members(s: Seq<TempSensor>, k: Seq<char>, n: int) -> Seq<int>
    decreases n,
{
    if n <= 0 {
        Seq::empty()
    } else if sensor_key(s[n - 1]) == k {
        members(s, k, n - 1).push(n - 1)
    } else {
        members(s, k, n - 1)
    }
}

/// The labels of the readings of group `k`, in the order of discovery.
pub open spec fn member_labels(s: Seq<TempSensor>, k: Seq<char>) -> Seq<Seq<char>> {
    let m = members(s, k, s.len() as int);
    Seq::new(m.len(), |j: int| label_of(k, s[m[j]].raw_label@, j, s[m[j]].path@))
}

/// A label that names an aggregate CPU reading.
pub open spec fn is_aggregate(name: Seq<char>) -> bool {
    has_infix(lower_of(name), "package"@) || has_infix(lower_of(name), "composite"@)
}

/// The first position at or after `j` of an aggregate label, or the length.
pub open spec fn first_aggregate(names: Seq<Seq<char>>, j: int) -> int
    decreases names.len() - j,
{
    if j < 0 || j >= names.len() {
        names.len() as int
    } else if is_aggregate(names[j]) {
        j
    } else {
        first_aggregate(names, j + 1)
    }
}

/// The one reading of a group that is shown at first: the first aggregate
/// reading of the CPU group, and otherwise the first reading.
pub open spec fn rep_index(k: Seq<char>, names: Seq<Seq<char>>) -> int {
    if k == "cpu"@ && first_aggregate(names, 0) < names.len() {
        first_aggregate(names, 0)
    } else {
        0
    }
}

/// The readings of group `k` before sorting, in the order of discovery.
pub open spec fn raw_items(s: Seq<TempSensor>, k: Seq<char>) -> Seq<ItemSpec> {
    let m = members(s, k, s.len() as int);
    let names = member_labels(s, k);
    Seq::new(
        m.len(),
        |j: int|
            ItemSpec {
                name: names[j],
                idx: m[j] as usize,
                visible: j == rep_index(k, names),
                color: tint_of(theme_of(k), j),
            },
    )
}

proof fn lemma_members_bounds(s: Seq<TempSensor>, k: Seq<char>, n: int)
    requires
        0 <= n <= s.len(),
    ensures
        members(s, k, n).len() <= n,
        forall|j: int|
            0 <= j < members(s, k, n).len() ==> 0 <= #[trigger] members(s, k, n)[j] < n
                && sensor_key(s[members(s, k, n)[j]]) == k,
    decreases n,
{
    if n > 0 {
        lemma_members_bounds(s, k, n - 1);
    }
}

/// Collects the labels and series indices of the readings of group `key`.
fn collect_members(s: &Vec<TempSensor>, classes: &Vec<Classification>, key: &str) -> (r: (
    Vec<String>,
    Vec<usize>,
))
    requires
        classes@.len() == s@.len(),
        forall|i: int| 0 <= i < s@.len() ==> #[trigger] classes@[i].key@ == sensor_key(s@[i]),
    ensures
        r.0@.len() == members(s@, key@, s@.len() as int).len(),
        r.1@.len() == r.0@.len(),
        forall|j: int| 0 <= j < r.0@.len() ==> #[trigger] r.0@[j]@ == member_labels(s@, key@)[j],
        forall|j: int| 0 <= j < r.1@.len() ==> #[trigger] r.1@[j] == members(s@, key@, s@.len() as int)[j],
{
    let n = s.len();
    let mut labels: Vec<String> = Vec::new();
    let mut idxs: Vec<usize> = Vec::new();
    let mut i: usize = 0;
    while i < n
        invariant
            n == s@.len(),
            i <= n,
            classes@.len() == s@.len(),
            forall|i: int| 0 <= i < s@.len() ==> #[trigger] classes@[i].key@ == sensor_key(s@[i]),
            labels@.len() == members(s@, key@, i as int).len(),
            idxs@.len() == labels@.len(),
            forall|j: int| 0 <= j < idxs@.len() ==> #[trigger] idxs@[j] == members(s@, key@, i as int)[j],
            forall|j: int|
                0 <= j < labels@.len() ==> #[trigger] labels@[j]@ == label_of(
                    key@,
                    s@[members(s@, key@, i as int)[j]].raw_label@,
                    j,
                    s@[members(s@, key@, i as int)[j]].path@,
                ),
        decreases n - i,
    {
        proof {
            lemma_members_bounds(s@, key@, i as int);
        }
        if equals(classes[i].key.as_str(), key) {
            let pos = labels.len();
            let t = &s[i];
            let label = humanize_item_label(key, t.raw_label.as_str(), pos, t.path.as_str());
            labels.push(label);
            idxs.push(i);
        }
        i = i + 1;
    }
    proof {
        let m = members(s@, key@, n as int);
        assert forall|j: int| 0 <= j < labels@.len() implies #[trigger] labels@[j]@ == member_labels(s@, key@)[j] by {
        }
    }
    (labels, idxs)
}

/// The position of the reading shown at first (see `rep_index`).
fn pick_representative(key: &str, labels: &Vec<String>) -> (r: usize)
    ensures
        r == rep_index(key@, labels@.map_values(|l: String| l@)),
{
    let ghost names = labels@.map_values(|l: String| l@);
    if !equals(key, "cpu") {
        return 0;
    }
    let n = labels.len();
    let mut j: usize = 0;
    while j < n
        invariant
            n == names.len(),
            names == labels@.map_values(|l: String| l@),
            key@ == "cpu"@,
            j <= n,
            first_aggregate(names, 0) == first_aggregate(names, j as int),
        decreases n - j,
    {
        let lower = lowercase(labels[j].as_str());
        assert(names[j as int] == labels@[j as int]@);
        if contains(lower.as_str(), "package") || contains(lower.as_str(), "composite") {
            assert(is_aggregate(names[j as int]));
            return j;
        }
        j = j + 1;
    }
    0
}

/// The readings of group `key` with labels, visibility and colors, sorted.
fn group_items(s: &Vec<TempSensor>, classes: &Vec<Classification>, key: &str) -> (r: Vec<SensorItem>)
    requires
        classes@.len() == s@.len(),
        forall|i: int| 0 <= i < s@.len() ==> #[trigger] classes@[i].key@ == sensor_key(s@[i]),
    ensures
        item_specs(r@).to_multiset() == raw_items(s@, key@).to_multiset(),
        items_sorted(key@, r@),
{
    let (labels, idxs) = collect_members(s, classes, key);
    let ghost names = member_labels(s@, key@);
    assert(labels@.map_values(|l: String| l@) =~= names);
    let rep = pick_representative(key, &labels);
    let n = labels.len();
    let palette = group_palette(key, n);
    let mut items: Vec<SensorItem> = Vec::new();
    let mut j: usize = 0;
    while j < n
        invariant
            n == labels@.len(),
            idxs@.len() == n,
            n == members(s@, key@, s@.len() as int).len(),
            names == member_labels(s@, key@),
            rep == rep_index(key@, names),
            forall|k: int| 0 <= k < n ==> #[trigger] labels@[k]@ == names[k],
            forall|k: int| 0 <= k < n ==> #[trigger] idxs@[k] == members(s@, key@, s@.len() as int)[k],
            forall|k: int| 0 <= k < n ==> #[trigger] palette@[k] == tint_of(theme_of(key@), k),
            palette@.len() >= n,
            j <= n,
            item_specs(items@) =~= raw_items(s@, key@).subrange(0, j as int),
        decreases n - j,
    {
        let item = SensorItem {
            name: labels[j].clone(),
            idx: idxs[j],
            visible: j == rep,
            color: palette[j],
        };
        let ghost prev = items@;
        proof {
            lemma_members_bounds(s@, key@, s@.len() as int);
            assert(item.as_spec() == raw_items(s@, key@)[j as int]);
        }
        items.push(item);
        assert(item_specs(items@) =~= item_specs(prev).push(item.as_spec()));
        j = j + 1;
    }
    assert(raw_items(s@, key@).subrange(0, n as int) =~= raw_items(s@, key@));
    sort_group_items(key, items)
}

// ---------------------------------------------------------------- group order

/// The place of a group in the fixed order of groups.
pub open spec fn rank_of(k: Seq<char>) -> int {
    if k == "cpu"@ {
        0
    } else if k == "gpu"@ {
        1
    } else if k == "ssd"@ {
        2
    } else if k == "ram"@ {
        3
    } else if k == "wifi"@ {
        4
    } else if k == "eth"@ {
        5
    } else {
        6
    }
}

/// The place of a group in the fixed order of groups: cpu, gpu, ssd, ram,
/// wifi, eth, then all others.
pub fn group_rank(key: &str) -> (r: u8)
    ensures
        r == rank_of(key@),
{
    if equals(key, "cpu") {
        0
    } else if equals(key, "gpu") {
        1
    } else if equals(key, "ssd") {
        2
    } else if equals(key, "ram") {
        3
    } else if equals(key, "wifi") {
        4
    } else if equals(key, "eth") {
        5
    } else {
        6
    }
}

/// The fixed group order: cpu, gpu, ssd, ram, wifi and eth come first, in that
/// order, and every other key after them.
pub proof fn lemma_rank_table(k: Seq<char>)
    ensures
        rank_of("cpu"@) < rank_of("gpu"@),
        rank_of("gpu"@) < rank_of("ssd"@),
        rank_of("ssd"@) < rank_of("ram"@),
        rank_of("ram"@) < rank_of("wifi"@),
        rank_of("wifi"@) < rank_of("eth"@),
        k != "cpu"@ && k != "gpu"@ && k != "ssd"@ && k != "ram"@ && k != "wifi"@ && k != "eth"@ ==> rank_of(
            "eth"@,
        ) < rank_of(k),
{
    reveal_strlit("cpu");
    reveal_strlit("gpu");
    reveal_strlit("ssd");
    reveal_strlit("ram");
    reveal_strlit("wifi");
    reveal_strlit("eth");
    let names = seq!["cpu"@, "gpu"@, "ssd"@, "ram"@, "wifi"@, "eth"@];
    assert forall|a: int, b: int| 0 <= a < b < 6 implies #[trigger] names[a] != #[trigger] names[b] by {
        assert(names[a][0] != names[b][0]);
    }
    assert(names[0] != names[1] && names[0] != names[2] && names[1] != names[2]);
    assert(names[0] != names[3] && names[1] != names[3] && names[2] != names[3]);
    assert(names[0] != names[4] && names[1] != names[4] && names[2] != names[4] && names[3] != names[4]);
    assert(names[0] != names[5] && names[1] != names[5] && names[2] != names[5] && names[3] != names[5]
        && names[4] != names[5]);
}

/// Sensor `i` is the first of its group.
pub open spec fn is_first(s: Seq<TempSensor>, i: int) -> bool {
    0 <= i < s.len() && forall|j: int| 0 <= j < i ==> sensor_key(s[j]) != sensor_key(s[i])
}

/// The index of the first sensor of group `k`.
pub open spec fn first_index(s: Seq<TempSensor>, k: Seq<char>) -> int {
    choose|i: int| is_first(s, i) && sensor_key(s[i]) == k
}

/// One of the groups `r` has key `k`.
pub open spec fn has_group(r: Seq<SensorGroup>, k: Seq<char>) -> bool {
    exists|g: int| 0 <= g < r.len() && (#[trigger] r[g]).key@ == k
}

/// Some sensor of `s` falls in group `k`.
pub open spec fn occurs(s: Seq<TempSensor>, k: Seq<char>) -> bool {
    exists|i: int| 0 <= i < s.len() && sensor_key(s[i]) == k
}

/// Group `g` is built as its first sensor's classification says, and holds the
/// readings of its key, sorted.
pub open spec fn group_built(s: Seq<TempSensor>, g: SensorGroup) -> bool {
    let f = first_index(s, g.key@);
    let c = classified(lower_of(s[f].raw_name@), s[f].raw_name@);
    &&& occurs(s, g.key@)
    &&& g.display@ == c.display
    &&& g.warn == c.warn
    &&& g.hot == c.hot
    &&& g.visible
    &&& !g.show_thresholds
    &&& item_specs(g.items@).to_multiset() == raw_items(s, g.key@).to_multiset()
    &&& items_sorted(g.key@, g.items@)
}

proof fn lemma_first_exists(s: Seq<TempSensor>, i: int, j: int)
    requires
        0 <= j <= i < s.len(),
        forall|m: int| 0 <= m < j ==> sensor_key(s[m]) != sensor_key(s[i]),
    ensures
        is_first(s, first_index(s, sensor_key(s[i]))),
        sensor_key(s[first_index(s, sensor_key(s[i]))]) == sensor_key(s[i]),
        first_index(s, sensor_key(s[i])) <= i,
    decreases i - j,
{
    if sensor_key(s[j]) == sensor_key(s[i]) {
        assert(is_first(s, j));
        lemma_first_unique(s, j);
    } else {
        lemma_first_exists(s, i, j + 1);
    }
}

proof fn lemma_first_unique(s: Seq<TempSensor>, f: int)
    requires
        is_first(s, f),
    ensures
        first_index(s, sensor_key(s[f])) == f,
{
    let c = first_index(s, sensor_key(s[f]));
    assert(is_first(s, c) && sensor_key(s[c]) == sensor_key(s[f]));
    if c < f {
        assert(sensor_key(s[c]) != sensor_key(s[f]));
    }
    if f < c {
        assert(sensor_key(s[f]) != sensor_key(s[c]));
    }
}

fn first_of_group(s: &Vec<TempSensor>, classes: &Vec<Classification>, i: usize) -> (r: bool)
    requires
        classes@.len() == s@.len(),
        i < s@.len(),
        forall|k: int| 0 <= k < s@.len() ==> #[trigger] classes@[k].key@ == sensor_key(s@[k]),
    ensures
        r == is_first(s@, i as int),
{
    let mut j: usize = 0;
    while j < i
        invariant
            classes@.len() == s@.len(),
            i < s@.len(),
            forall|k: int| 0 <= k < s@.len() ==> #[trigger] classes@[k].key@ == sensor_key(s@[k]),
            j <= i,
            forall|m: int| 0 <= m < j ==> sensor_key(s@[m]) != sensor_key(s@[i as int]),
        decreases i - j,
    {
        if equals(classes[j].key.as_str(), classes[i].key.as_str()) {
            return false;
        }
        j = j + 1;
    }
    true
}

/// Groups the discovered temperature sensors. Every sensor lands in the group
/// of its key, each group once; groups follow the fixed rank order, and groups
/// of equal rank the order in which their first sensor was discovered.
pub fn build_groups(sensors: &Vec<TempSensor>) -> (r: Vec<SensorGroup>)
    ensures
        forall|g: int| 0 <= g < r@.len() ==> group_built(sensors@, #[trigger] r@[g]),
        forall|i: int| 0 <= i < sensors@.len() ==> has_group(r@, sensor_key(#[trigger] sensors@[i])),
        forall|a: int, b: int|
            0 <= a < b < r@.len() ==> {
                let ka = (#[trigger] r@[a]).key@;
                let kb = (#[trigger] r@[b]).key@;
                rank_of(ka) < rank_of(kb) || (rank_of(ka) == rank_of(kb) && first_index(sensors@, ka)
                    < first_index(sensors@, kb))
            },
        forall|a: int, b: int| 0 <= a < b < r@.len() ==> (#[trigger] r@[a]).key@ != (#[trigger] r@[b]).key@,
{
    let ghost s = sensors@;
    let n = sensors.len();
    let mut classes: Vec<Classification> = Vec::new();
    let mut i: usize = 0;
    while i < n
        invariant
            n == s.len(),
            s == sensors@,
            i <= n,
            classes@.len() == i,
            forall|k: int| 0 <= k < i ==> #[trigger] classes@[k].as_spec() == classified(
                lower_of(s[k].raw_name@),
                s[k].raw_name@,
            ),
        decreases n - i,
    {
        classes.push(classify(sensors[i].raw_name.as_str()));
        i = i + 1;
    }
    assert forall|k: int| 0 <= k < s.len() implies #[trigger] classes@[k].key@ == sensor_key(s[k]) by {
        assert(classes@[k].as_spec() == classified(lower_of(s[k].raw_name@), s[k].raw_name@));
    }
    proof {
        assert forall|j: int| 0 <= j < n implies 0 <= #[trigger] first_index(s, sensor_key(s[j])) by {
            lemma_first_exists(s, j, 0);
        }
    }
    let mut out: Vec<SensorGroup> = Vec::new();
    let mut cur: u8 = 0;
    while cur < 7
        invariant
            n == s.len(),
            s == sensors@,
            classes@.len() == n,
            cur <= 7,
            forall|k: int| 0 <= k < n ==> #[trigger] classes@[k].as_spec() == classified(
                lower_of(s[k].raw_name@),
                s[k].raw_name@,
            ),
            forall|k: int| 0 <= k < n ==> #[trigger] classes@[k].key@ == sensor_key(s[k]),
            forall|j: int| 0 <= j < n ==> 0 <= #[trigger] first_index(s, sensor_key(s[j])),
            forall|g: int| 0 <= g < out@.len() ==> group_built(s, #[trigger] out@[g]),
            forall|g: int| 0 <= g < out@.len() ==> rank_of((#[trigger] out@[g]).key@) < cur,
            forall|j: int|
                0 <= j < n && rank_of(sensor_key(s[j])) < cur ==> exists|g: int|
                    0 <= g < out@.len() && (#[trigger] out@[g]).key@ == sensor_key(#[trigger] s[j]),
            forall|a: int, b: int|
                0 <= a < b < out@.len() ==> {
                    let ka = (#[trigger] out@[a]).key@;
                    let kb = (#[trigger] out@[b]).key@;
                    rank_of(ka) < rank_of(kb) || (rank_of(ka) == rank_of(kb) && first_index(s, ka)
                        < first_index(s, kb))
                },
        decreases 7 - cur,
    {
        let mut i: usize = 0;
        while i < n
            invariant
                n == s.len(),
                s == sensors@,
                classes@.len() == n,
                cur < 7,
                i <= n,
                forall|k: int| 0 <= k < n ==> #[trigger] classes@[k].as_spec() == classified(
                    lower_of(s[k].raw_name@),
                    s[k].raw_name@,
                ),
                forall|k: int| 0 <= k < n ==> #[trigger] classes@[k].key@ == sensor_key(s[k]),
                forall|g: int| 0 <= g < out@.len() ==> group_built(s, #[trigger] out@[g]),
                forall|g: int|
                    0 <= g < out@.len() ==> rank_of((#[trigger] out@[g]).key@) < cur || (rank_of(
                        out@[g].key@,
                    ) == cur && first_index(s, out@[g].key@) < i),
                forall|j: int|
                    0 <= j < n && (rank_of(sensor_key(s[j])) < cur || (rank_of(sensor_key(s[j])) == cur
                        && first_index(s, sensor_key(s[j])) < i)) ==> exists|g: int|
                        0 <= g < out@.len() && (#[trigger] out@[g]).key@ == sensor_key(#[trigger] s[j]),
                forall|a: int, b: int|
                    0 <= a < b < out@.len() ==> {
                        let ka = (#[trigger] out@[a]).key@;
                        let kb = (#[trigger] out@[b]).key@;
                        rank_of(ka) < rank_of(kb) || (rank_of(ka) == rank_of(kb) && first_index(s, ka)
                            < first_index(s, kb))
                    },
            decreases n - i,
        {
            let key = classes[i].key.as_str();
            if group_rank(key) == cur && first_of_group(sensors, &classes, i) {
                let items = group_items(sensors, &classes, key);
                let c = &classes[i];
                let g = SensorGroup {
                    key: c.key.clone(),
                    display: c.display.clone(),
                    items,
                    visible: true,
                    warn: c.warn,
                    hot: c.hot,
                    show_thresholds: false,
                };
                proof {
                    lemma_first_unique(s, i as int);
                    assert(occurs(s, g.key@));
                    assert(g.key@ == sensor_key(s[i as int]));
                    assert(first_index(s, g.key@) == i);
                    assert(classes@[i as int].as_spec() == classified(lower_of(s[i as int].raw_name@), s[i as int].raw_name@));
                    assert(g.display@ == classes@[i as int].display@);
                    assert(item_specs(g.items@).to_multiset() == raw_items(s, g.key@).to_multiset());
                    assert(items_sorted(g.key@, g.items@));
                    assert(group_built(s, g));
                }
                let ghost prev = out@;
                out.push(g);
                proof {
                    assert(out@[prev.len() as int] == g);
                    assert forall|j: int|
                        0 <= j < n && (rank_of(sensor_key(s[j])) < cur || (rank_of(sensor_key(s[j])) == cur
                            && first_index(s, sensor_key(s[j])) < i + 1)) implies exists|g: int|
                            0 <= g < out@.len() && (#[trigger] out@[g]).key@ == sensor_key(
                                #[trigger] s[j],
                            ) by {
                        lemma_first_exists(s, j, 0);
                        if rank_of(sensor_key(s[j])) == cur && first_index(s, sensor_key(s[j])) == i {
                            assert(out@[prev.len() as int].key@ == sensor_key(s[j]));
                        } else {
                            let g0 = choose|g: int| 0 <= g < prev.len() && (#[trigger] prev[g]).key@ == sensor_key(s[j]);
                            assert(out@[g0] == prev[g0]);
                        }
                    }
                }
            } else {
                proof {
                    assert forall|j: int|
                        0 <= j < n && (rank_of(sensor_key(s[j])) < cur || (rank_of(sensor_key(s[j])) == cur
                            && first_index(s, sensor_key(s[j])) < i + 1)) implies exists|g: int|
                            0 <= g < out@.len() && (#[trigger] out@[g]).key@ == sensor_key(
                                #[trigger] s[j],
                            ) by {
                        lemma_first_exists(s, j, 0);
                        let f = first_index(s, sensor_key(s[j]));
                        if rank_of(sensor_key(s[j])) == cur && f == i {
                            assert(sensor_key(s[f]) == sensor_key(s[j]));
                            assert(is_first(s, i as int));
                        }
                    }
                }
            }
            i = i + 1;
        }
        proof {
            assert forall|j: int| 0 <= j < n && rank_of(sensor_key(s[j])) < cur + 1 implies exists|g: int|
                0 <= g < out@.len() && (#[trigger] out@[g]).key@ == sensor_key(#[trigger] s[j]) by {
                lemma_first_exists(s, j, 0);
            }
            assert forall|g: int| 0 <= g < out@.len() implies rank_of((#[trigger] out@[g]).key@) < cur + 1 by {
            }
        }
        cur = cur + 1;
    }
    proof {
        assert forall|a: int, b: int| 0 <= a < b < out@.len() implies (#[trigger] out@[a]).key@
            != (#[trigger] out@[b]).key@ by {
        }
        assert forall|j: int| 0 <= j < n implies exists|g: int|
            0 <= g < out@.len() && (#[trigger] out@[g]).key@ == sensor_key(#[trigger] s[j]) by {
            assert(rank_of(sensor_key(s[j])) < 7);
        }
        assert forall|j: int| 0 <= j < sensors@.len() implies has_group(out@, sensor_key(#[trigger] sensors@[j])) by {
            assert(sensors@[j] == s[j]);
        }
    }
    out
}

// ---------------------------------------------------------------- accelerator

/// A sensor whose device name, in lowercase, mentions "nvidia" or "gpu".
pub open spec fn is_gpu_sensor(t: TempSensor) -> bool {
    has_infix(lower_of(t.raw_name@), "nvidia"@) || has_infix(lower_of(t.raw_name@), "gpu"@)
}

/// The temperature channel that receives the accelerator's temperature: the
/// first sensor whose device name mentions "nvidia" or "gpu", if any.
pub fn gpu_sensor_index(sensors: &Vec<TempSensor>) -> (r: Option<usize>)
    ensures
        match r {
            Some(i) => i < sensors@.len() && is_gpu_sensor(sensors@[i as int]) && forall|j: int|
                0 <= j < i ==> !is_gpu_sensor(#[trigger] sensors@[j]),
            None => forall|j: int| 0 <= j < sensors@.len() ==> !is_gpu_sensor(#[trigger] sensors@[j]),
        },
{
    let n = sensors.len();
    let mut i: usize = 0;
    while i < n
        invariant
            n == sensors@.len(),
            i <= n,
            forall|j: int| 0 <= j < i ==> !is_gpu_sensor(#[trigger] sensors@[j]),
        decreases n - i,
    {
        let lower = lowercase(sensors[i].raw_name.as_str());
        if contains(lower.as_str(), "nvidia") || contains(lower.as_str(), "gpu") {
            return Some(i);
        }
        i = i + 1;
    }
    None
}

/// The empty GPU group shown when an accelerator is present.
pub open spec fn is_gpu_header(g: SensorGroup) -> bool {
    &&& g.key@ == "gpu"@
    &&& g.display@ == "GPU"@
    &&& g.items@.len() == 0
    &&& g.visible
    &&& g.warn == 85
    &&& g.hot == 95
    &&& !g.show_thresholds
}

/// The position of the first group ranked after cpu, or the length.
pub open spec fn after_cpu(gs: Seq<SensorGroup>, i: int) -> int
    decreases gs.len() - i,
{
    if i < 0 || i >= gs.len() {
        gs.len() as int
    } else if rank_of(gs[i].key@) > 0 {
        i
    } else {
        after_cpu(gs, i + 1)
    }
}

/// Groups ordered by rank, ties allowed.
pub open spec fn rank_ordered(gs: Seq<SensorGroup>) -> bool {
    forall|a: int, b: int| 0 <= a < b < gs.len() ==> rank_of((#[trigger] gs[a]).key@) <= rank_of((#[trigger] gs[b]).key@)
}

proof fn lemma_after_cpu(gs: Seq<SensorGroup>, i: int)
    requires
        0 <= i <= gs.len(),
    ensures
        i <= after_cpu(gs, i) <= gs.len(),
        forall|j: int| i <= j < after_cpu(gs, i) ==> rank_of((#[trigger] gs[j]).key@) == 0,
        after_cpu(gs, i) < gs.len() ==> rank_of(gs[after_cpu(gs, i)].key@) > 0,
    decreases gs.len() - i,
{
    if i < gs.len() && rank_of(gs[i].key@) <= 0 {
        lemma_after_cpu(gs, i + 1);
    }
}

/// When an accelerator is present and no group is keyed "gpu", inserts an
/// empty GPU group (warn 85, hot 95) just after the cpu group; otherwise
/// returns the groups unchanged. Rank order is kept.
pub fn add_gpu_header(groups: Vec<SensorGroup>, accelerator: bool) -> (r: Vec<SensorGroup>)
    ensures
        !(accelerator && !has_group(groups@, "gpu"@)) ==> r@ == groups@,
        accelerator && !has_group(groups@, "gpu"@) ==> {
            let p = after_cpu(groups@, 0);
            &&& r@.len() == groups@.len() + 1
            &&& is_gpu_header(r@[p])
            &&& r@ == groups@.insert(p, r@[p])
        },
        rank_ordered(groups@) ==> rank_ordered(r@),
        has_group(r@, "gpu"@) == (accelerator || has_group(groups@, "gpu"@)),
{
    let mut out = groups;
    if !accelerator {
        return out;
    }
    let n = out.len();
    let mut i: usize = 0;
    while i < n
        invariant
            n == out@.len(),
            out@ == groups@,
            i <= n,
            forall|j: int| 0 <= j < i ==> (#[trigger] out@[j]).key@ != "gpu"@,
        decreases n - i,
    {
        if equals(out[i].key.as_str(), "gpu") {
            assert(has_group(out@, "gpu"@)) by {
                assert(out@[i as int].key@ == "gpu"@);
            }
            return out;
        }
        i = i + 1;
    }
    proof {
        reveal_strlit("cpu");
        reveal_strlit("gpu");
        assert("gpu"@[0] != "cpu"@[0]);
        lemma_after_cpu(out@, 0);
    }
    let mut p: usize = 0;
    while p < n && group_rank(out[p].key.as_str()) == 0
        invariant
            n == out@.len(),
            out@ == groups@,
            p <= n,
            after_cpu(out@, 0) == after_cpu(out@, p as int),
        decreases n - p,
    {
        p = p + 1;
    }
    let g = SensorGroup {
        key: String::from_str("gpu"),
        display: String::from_str("GPU"),
        items: Vec::new(),
        visible: true,
        warn: 85,
        hot: 95,
        show_thresholds: false,
    };
    let ghost before = out@;
    out.insert(p, g);
    proof {
        assert(rank_of("gpu"@) == 1);
        assert(out@ =~= before.insert(p as int, out@[p as int]));
        assert(out@[p as int].key@ == "gpu"@);
        assert(has_group(out@, "gpu"@));
        assert(!has_group(before, "gpu"@));
        if rank_ordered(before) {
            assert forall|a: int, b: int| 0 <= a < b < out@.len() implies rank_of(
                (#[trigger] out@[a]).key@,
            ) <= rank_of((#[trigger] out@[b]).key@) by {
                if a < p && b == p {
                    assert(rank_of(before[a].key@) == 0);
                } else if a == p && b > p {
                    assert(out@[b] == before[b - 1]);
                    if b - 1 > p {
                        assert(rank_of(before[p as int].key@) <= rank_of(before[b - 1].key@));
                    }
                } else if a < p && b < p {
                    assert(out@[a] == before[a] && out@[b] == before[b]);
                } else if a < p {
                    assert(out@[a] == before[a] && out@[b] == before[b - 1]);
                } else {
                    assert(out@[a] == before[a - 1] && out@[b] == before[b - 1]);
                }
            }
        }
    }
    out
}

} // verus!
