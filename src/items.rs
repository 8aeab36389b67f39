use crate::color::Rgba;
use crate::num::{dec_of, decimal, int_of, parse_int};
use crate::order::{codes, lemma_lex_trans, lex_le, lex_less, lex_lt};
use crate::text::{
    contains, equals, find, find_from, first_word_from, has_infix, has_prefix, lower_of, lowercase,
    starts_with, trim, trim_of, word_from,
};
use vstd::prelude::*;
use vstd::string::*;

verus! {

/// One reading shown in a group: its label, the index of its series, whether
/// it is shown, and its color.
pub struct SensorItem {
    pub name: String,
    pub idx: usize,
    pub visible: bool,
    pub color: Rgba,
}

/// A sensor item as plain values.
pub struct ItemSpec {
    pub name: Seq<char>,
    pub idx: usize,
    pub visible: bool,
    pub color: Rgba,
}

impl SensorItem {
    pub open spec fn as_spec(&self) -> ItemSpec {
        ItemSpec { name: self.name@, idx: self.idx, visible: self.visible, color: self.color }
    }
}

pub open spec fn item_specs(s: Seq<SensorItem>) -> Seq<ItemSpec> {
    s.map_values(|it: SensorItem| it.as_spec())
}

// ---------------------------------------------------------------- path hints

/// Where the path component that starts at `i` ends: at the next `/` or at the
/// end of the path.
pub open spec fn part_end(p: Seq<char>, i: int) -> int
    decreases p.len() - i,
{
    if i < 0 || i >= p.len() || p[i] == '/' {
        i
    } else {
        part_end(p, i + 1)
    }
}

/// A path component starts at `i`.
pub open spec fn part_starts(p: Seq<char>, i: int) -> bool {
    0 <= i < p.len() && (i == 0 || p[i - 1] == '/')
}

/// The component that starts at `i` begins with "nvme".
pub open spec fn nvme_part_at(p: Seq<char>, i: int) -> bool {
    part_starts(p, i) && has_prefix(p.subrange(i, part_end(p, i)), "nvme"@)
}

/// The first component of path `p` that begins with "nvme", if any.
pub open spec fn nvme_hint(p: Seq<char>) -> Option<Seq<char>> {
    if exists|i: int| nvme_part_at(p, i) {
        let i = choose|i: int| nvme_part_at(p, i) && forall|j: int| 0 <= j < i ==> !nvme_part_at(p, j);
        Some(p.subrange(i, part_end(p, i)))
    } else {
        None
    }
}

proof fn lemma_part_end_bounds(p: Seq<char>, i: int)
    requires
        0 <= i <= p.len(),
    ensures
        i <= part_end(p, i) <= p.len(),
        part_end(p, i) == p.len() || p[part_end(p, i)] == '/',
        forall|k: int| i <= k < part_end(p, i) ==> p[k] != '/',
    decreases p.len() - i,
{
    if i < p.len() && p[i] != '/' {
        lemma_part_end_bounds(p, i + 1);
    }
}

proof fn lemma_first_nvme_unique(p: Seq<char>, i: int)
    requires
        nvme_part_at(p, i),
        forall|j: int| 0 <= j < i ==> !nvme_part_at(p, j),
    ensures
        nvme_hint(p) == Some(p.subrange(i, part_end(p, i))),
{
    let c = choose|c: int| nvme_part_at(p, c) && forall|j: int| 0 <= j < c ==> !nvme_part_at(p, j);
    assert(nvme_part_at(p, c) && forall|j: int| 0 <= j < c ==> !nvme_part_at(p, j));
    if c < i {
        assert(!nvme_part_at(p, c));
    }
    if i < c {
        assert(!nvme_part_at(p, i));
    }
}

/// The first component of `path` that begins with "nvme" (a storage device
/// such as `nvme0` or `nvme0n1`), if there is one.
pub fn nvme_hint_from_path(path: &str) -> (r: Option<String>)
    ensures
        match r {
            Some(h) => nvme_hint(path@) == Some(h@),
            None => nvme_hint(path@) is None,
        },
{
    let n = path.unicode_len();
    let mut i: usize = 0;
    while i < n
        invariant
            n == path@.len(),
            i <= n,
            i == n || i == 0 || path@[i - 1] == '/',
            forall|j: int| 0 <= j < i ==> !nvme_part_at(path@, j),
        decreases n - i,
    {
        let mut e: usize = i;
        while e < n && path.get_char(e) != '/'
            invariant
                n == path@.len(),
                i <= e <= n,
                part_end(path@, i as int) == part_end(path@, e as int),
                forall|k: int| i <= k < e ==> path@[k] != '/',
            decreases n - e,
        {
            e = e + 1;
        }
        proof {
            lemma_part_end_bounds(path@, i as int);
        }
        let part = path.substring_char(i, e);
        if starts_with(part, "nvme") {
            proof {
                assert(nvme_part_at(path@, i as int));
                lemma_first_nvme_unique(path@, i as int);
            }
            return Some(String::from_str(part));
        }
        proof {
            assert forall|j: int| 0 <= j < e + 1 implies !nvme_part_at(path@, j) by {
                if i < j <= e && j < n {
                    assert(path@[j - 1] != '/');
                }
            }
        }
        if e == n {
            i = n;
        } else {
            i = e + 1;
        }
    }
    proof {
        if exists|j: int| nvme_part_at(path@, j) {
            let j = choose|j: int| nvme_part_at(path@, j);
            assert(!nvme_part_at(path@, j));
        }
    }
    None
}

// ---------------------------------------------------------------- labels

/// The label of an item of group `key` whose raw label is `raw_label`, which
/// comes at position `pos` (from zero) among its group's readings and is read
/// from `path`.
pub open spec fn label_of(key: Seq<char>, raw_label: Seq<char>, pos: int, path: Seq<char>) -> Seq<char> {
    let l = trim_of(raw_label);
    let lo = lower_of(l);
    if key == "wifi"@ {
        "Wi\u{2011}Fi"@
    } else if key == "eth"@ {
        if has_infix(lo, "r8169"@) {
            "Ethernet (r8169)"@
        } else if has_infix(lo, "igc"@) {
            "Ethernet (igc)"@
        } else if has_infix(lo, "e1000"@) {
            "Ethernet (e1000)"@
        } else {
            "Ethernet"@
        }
    } else if key == "ram"@ {
        if has_prefix(lo, "spd"@) {
            "SPD Hub"@
        } else {
            "Memory"@
        }
    } else if key == "ssd"@ {
        match nvme_hint(path) {
            Some(h) => "SSD (NVMe "@ + h + ")"@,
            None => "SSD (NVMe #"@ + dec_of((pos + 1) as nat) + ")"@,
        }
    } else if key == "gpu"@ {
        if has_infix(lo, "edge"@) {
            "GPU Edge"@
        } else if has_infix(lo, "hotspot"@) {
            "GPU Hotspot"@
        } else {
            "GPU"@
        }
    } else {
        l
    }
}

/// The display label of one reading of group `group_key` (see `label_of`).
pub fn humanize_item_label(group_key: &str, raw_label: &str, idx: usize, path: &str) -> (r: String)
    requires
        idx < u64::MAX,
    ensures
        r@ == label_of(group_key@, raw_label@, idx as int, path@),
{
    let l = trim(raw_label);
    let lower = lowercase(l);
    let lo = lower.as_str();
    if equals(group_key, "wifi") {
        String::from_str("Wi\u{2011}Fi")
    } else if equals(group_key, "eth") {
        if contains(lo, "r8169") {
            String::from_str("Ethernet (r8169)")
        } else if contains(lo, "igc") {
            String::from_str("Ethernet (igc)")
        } else if contains(lo, "e1000") {
            String::from_str("Ethernet (e1000)")
        } else {
            String::from_str("Ethernet")
        }
    } else if equals(group_key, "ram") {
        if starts_with(lo, "spd") {
            String::from_str("SPD Hub")
        } else {
            String::from_str("Memory")
        }
    } else if equals(group_key, "ssd") {
        match nvme_hint_from_path(path) {
            Some(h) => String::from_str("SSD (NVMe ").concat(h.as_str()).concat(")"),
            None => String::from_str("SSD (NVMe #").concat(decimal(idx as u64 + 1).as_str()).concat(")"),
        }
    } else if equals(group_key, "gpu") {
        if contains(lo, "edge") {
            String::from_str("GPU Edge")
        } else if contains(lo, "hotspot") {
            String::from_str("GPU Hotspot")
        } else {
            String::from_str("GPU")
        }
    } else {
        String::from_str(l)
    }
}

// ---------------------------------------------------------------- item order

/// CPU readings: package or composite first, then numbered cores, then the rest.
pub open spec fn cpu_tier(ln: Seq<char>) -> int {
    if has_infix(ln, "package"@) || has_infix(ln, "composite"@) {
        0
    } else if has_infix(ln, "cpu core "@) || has_prefix(ln, "core "@) {
        1
    } else {
        2
    }
}

/// GPU readings: edge first, then hotspot, then the rest.
pub open spec fn gpu_tier(ln: Seq<char>) -> int {
    if has_infix(ln, "edge"@) {
        0
    } else if has_infix(ln, "hotspot"@) {
        1
    } else {
        2
    }
}

/// The number of the word that follows the first "core " in `ln`, or
/// `i32::MAX` when there is no such word or it is not an `i32`.
pub open spec fn core_number(ln: Seq<char>) -> int {
    match find_from(ln, "core "@, 0) {
        Some(p) => match int_of(word_from(ln, p + 5)) {
            Some(v) => if i32::MIN <= v <= i32::MAX { v } else { i32::MAX as int },
            None => i32::MAX as int,
        },
        None => i32::MAX as int,
    }
}

/// The sort key of a reading named `name` in group `gkey`; readings are
/// ordered by `lex_lt` of their keys.
pub open spec fn item_key(gkey: Seq<char>, name: Seq<char>) -> Seq<int> {
    if gkey == "cpu"@ {
        seq![cpu_tier(lower_of(name)), core_number(lower_of(name))] + codes(lower_of(name))
    } else if gkey == "gpu"@ {
        seq![gpu_tier(lower_of(name))] + codes(name)
    } else {
        codes(name)
    }
}

pub open spec fn ints(v: Seq<i128>) -> Seq<int> {
    v.map_values(|x: i128| x as int)
}

proof fn lemma_find_from_bounds(h: Seq<char>, n: Seq<char>, i: int)
    requires
        find_from(h, n, i) is Some,
    ensures
        i <= find_from(h, n, i)->0,
        find_from(h, n, i)->0 + n.len() <= h.len(),
    decreases h.len() + 1 - i,
{
    if !(i < 0 || i + n.len() > h.len()) && h.subrange(i, i + n.len()) != n {
        lemma_find_from_bounds(h, n, i + 1);
    }
}

fn push_codes(out: &mut Vec<i128>, s: &str)
    ensures
        ints(final(out)@) == ints(old(out)@) + codes(s@),
{
    let n = s.unicode_len();
    let ghost start = ints(out@);
    let mut i: usize = 0;
    while i < n
        invariant
            n == s@.len(),
            i <= n,
            ints(out@) == start + codes(s@.subrange(0, i as int)),
        decreases n - i,
    {
        let c = s.get_char(i);
        let ghost prev = out@;
        out.push(c as u32 as i128);
        assert(ints(out@) =~= ints(prev).push(c as int));
        assert(codes(s@.subrange(0, i + 1)) =~= codes(s@.subrange(0, i as int)).push(c as int));
        assert(ints(out@) =~= start + codes(s@.subrange(0, i + 1)));
        i = i + 1;
    }
    assert(s@.subrange(0, n as int) =~= s@);
}

fn core_number_exec(ln: &str) -> (r: i64)
    ensures
        r == core_number(ln@),
{
    proof {
        reveal_strlit("core ");
    }
    assert("core "@.len() == 5);
    let _n = ln.unicode_len();
    match find(ln, "core ") {
        Some(p) => {
            proof {
                lemma_find_from_bounds(ln@, "core "@, 0);
            }
            let w = first_word_from(ln, p + 5);
            match parse_int(w) {
                Some(v) => if -0x8000_0000 <= v && v <= 0x7fff_ffff { v } else { 0x7fff_ffff },
                None => 0x7fff_ffff,
            }
        },
        None => 0x7fff_ffff,
    }
}

/// The sort key of a reading named `name` in group `gkey`.
pub fn item_sort_key(gkey: &str, name: &str) -> (r: Vec<i128>)
    ensures
        ints(r@) == item_key(gkey@, name@),
{
    let mut out: Vec<i128> = Vec::new();
    if equals(gkey, "cpu") {
        let lower = lowercase(name);
        let ln = lower.as_str();
        let tier: i128 = if contains(ln, "package") || contains(ln, "composite") {
            0
        } else if contains(ln, "cpu core ") || starts_with(ln, "core ") {
            1
        } else {
            2
        };
        out.push(tier);
        out.push(core_number_exec(ln) as i128);
        assert(ints(out@) =~= seq![cpu_tier(ln@), core_number(ln@)]);
        push_codes(&mut out, ln);
    } else if equals(gkey, "gpu") {
        let lower = lowercase(name);
        let ln = lower.as_str();
        let tier: i128 = if contains(ln, "edge") {
            0
        } else if contains(ln, "hotspot") {
            1
        } else {
            2
        };
        out.push(tier);
        assert(ints(out@) =~= seq![gpu_tier(ln@)]);
        push_codes(&mut out, name);
    } else {
        assert(ints(out@) =~= Seq::<int>::empty());
        push_codes(&mut out, name);
        assert(ints(out@) =~= codes(name@));
    }
    out
}

/// Each entry of `ks` is at most every later entry.
pub open spec fn keys_sorted(ks: Seq<Seq<int>>) -> bool {
    forall|a: int, b: int| 0 <= a < b < ks.len() ==> lex_le(#[trigger] ks[a], #[trigger] ks[b])
}

/// The full sort key of a reading: its label's key, an end mark below every
/// character code (so that a label comes before its extensions), then its
/// series index, so that readings with equal labels keep the order in which
/// they were found.
pub open spec fn entry_key(gkey: Seq<char>, it: SensorItem) -> Seq<int> {
    item_key(gkey, it.name@) + seq![-1, it.idx as int]
}

/// The readings of group `gkey` in `s` stand in the order of their keys.
pub open spec fn items_sorted(gkey: Seq<char>, s: Seq<SensorItem>) -> bool {
    forall|a: int, b: int|
        0 <= a < b < s.len() ==> lex_le(entry_key(gkey, #[trigger] s[a]), entry_key(gkey, #[trigger] s[b]))
}

pub open spec fn key_views(ks: Seq<Vec<i128>>) -> Seq<Seq<int>> {
    ks.map_values(|v: Vec<i128>| ints(v@))
}

pub(crate) proof fn lemma_insert_multiset<A>(s: Seq<A>, j: int, x: A)
    requires
        0 <= j <= s.len(),
    ensures
        s.insert(j, x).to_multiset() == s.to_multiset().insert(x),
{
    broadcast use vstd::seq_lib::group_to_multiset_ensures;

    let t = s.insert(j, x);
    assert(t.remove(j) =~= s);
    assert(t[j] == x);
    assert(t.to_multiset().count(x) > 0);
    assert(t.to_multiset() =~= s.to_multiset().insert(x));
}

proof fn lemma_insert_sorted(ks: Seq<Seq<int>>, j: int, x: Seq<int>)
    requires
        0 <= j <= ks.len(),
        keys_sorted(ks),
        forall|m: int| 0 <= m < j ==> lex_le(#[trigger] ks[m], x),
        j < ks.len() ==> lex_lt(x, ks[j]),
    ensures
        keys_sorted(ks.insert(j, x)),
{
    let t = ks.insert(j, x);
    assert forall|a: int, b: int| 0 <= a < b < t.len() implies lex_le(#[trigger] t[a], #[trigger] t[b]) by {
        if a == j {
            let y = ks[b - 1];
            assert(t[b] == y);
            if b - 1 > j {
                assert(lex_le(ks[j], ks[b - 1]));
            }
            if lex_lt(y, x) {
                lemma_lex_trans(y, x, ks[j]);
            }
        } else if b == j {
            assert(t[a] == ks[a]);
        } else if a < j && b < j {
            assert(t[a] == ks[a] && t[b] == ks[b]);
        } else if a < j {
            assert(t[a] == ks[a] && t[b] == ks[b - 1]);
        } else {
            assert(t[a] == ks[a - 1] && t[b] == ks[b - 1]);
        }
    }
}

/// Puts the readings of group `gkey` in order: CPU readings by tier, then core
/// number, then lowercase label; GPU readings by tier, then label; all others
/// by label; readings with equal labels by series index.
pub fn sort_group_items(gkey: &str, items: Vec<SensorItem>) -> (r: Vec<SensorItem>)
    ensures
        item_specs(r@).to_multiset() == item_specs(items@).to_multiset(),
        items_sorted(gkey@, r@),
{
    broadcast use vstd::seq_lib::group_to_multiset_ensures;

    let ghost orig = items@;
    let mut rest = items;
    let mut out: Vec<SensorItem> = Vec::new();
    let mut keys: Vec<Vec<i128>> = Vec::new();
    let ghost mut done: int = 0;
    while rest.len() > 0
        invariant
            0 <= done <= orig.len(),
            rest@ == orig.subrange(done, orig.len() as int),
            out@.len() == done,
            keys@.len() == done,
            item_specs(out@).to_multiset() == item_specs(orig.subrange(0, done)).to_multiset(),
            forall|k: int| 0 <= k < done ==> #[trigger] key_views(keys@)[k] == entry_key(gkey@, out@[k]),
            keys_sorted(key_views(keys@)),
        decreases rest@.len(),
    {
        let x = rest.remove(0);
        let mut xk = item_sort_key(gkey, x.name.as_str());
        let ghost nk = ints(xk@);
        xk.push(-1);
        xk.push(x.idx as i128);
        assert(ints(xk@) =~= nk + seq![-1, x.idx as int]);
        let mut j: usize = 0;
        while j < keys.len() && !lex_less(&xk, &keys[j])
            invariant
                j <= keys@.len(),
                forall|m: int| 0 <= m < j ==> lex_le(#[trigger] key_views(keys@)[m], ints(xk@)),
            decreases keys@.len() - j,
        {
            j = j + 1;
        }
        proof {
            lemma_insert_sorted(key_views(keys@), j as int, ints(xk@));
            lemma_insert_multiset(item_specs(out@), j as int, x.as_spec());
            assert(orig.subrange(done, orig.len() as int)[0] == x);
            assert(orig.subrange(0, done + 1) =~= orig.subrange(0, done).push(x));
            assert(item_specs(orig.subrange(0, done + 1)) =~= item_specs(orig.subrange(0, done)).push(x.as_spec()));
        }
        let ghost old_out = out@;
        let ghost old_keys = keys@;
        out.insert(j, x);
        keys.insert(j, xk);
        proof {
            assert(item_specs(out@) =~= item_specs(old_out).insert(j as int, x.as_spec()));
            assert(key_views(keys@) =~= key_views(old_keys).insert(j as int, ints(xk@)));
            assert forall|k: int| 0 <= k < done + 1 implies #[trigger] key_views(keys@)[k] == entry_key(gkey@, out@[k]) by {
                if k < j {
                    assert(key_views(old_keys)[k] == entry_key(gkey@, old_out[k]));
                } else if k > j {
                    assert(key_views(old_keys)[k - 1] == entry_key(gkey@, old_out[k - 1]));
                }
            }
            vstd::seq_lib::to_multiset_build(item_specs(orig.subrange(0, done)), x.as_spec());
            done = done + 1;
            assert(rest@ =~= orig.subrange(done, orig.len() as int));
        }
    }
    proof {
        assert(orig.subrange(0, done) =~= orig);
        assert forall|a: int, b: int| 0 <= a < b < out@.len() implies lex_le(
            entry_key(gkey@, #[trigger] out@[a]),
            entry_key(gkey@, #[trigger] out@[b]),
        ) by {
            assert(key_views(keys@)[a] == entry_key(gkey@, out@[a]));
            assert(key_views(keys@)[b] == entry_key(gkey@, out@[b]));
        }
    }
    out
}

} // verus!
