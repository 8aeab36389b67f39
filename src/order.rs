use vstd::prelude::*;

verus! {

/// `a` and `b` agree on their first `k` entries.
pub open spec fn agree_upto(a: Seq<int>, b: Seq<int>, k: int) -> bool {
    forall|m: int| 0 <= m < k ==> a[m] == b[m]
}

/// `k` is where `a` first falls below `b`: they agree before it, and there `a`
/// has ended while `b` goes on, or `a` holds the smaller entry.
pub open spec fn below_at(a: Seq<int>, b: Seq<int>, k: int) -> bool {
    &&& 0 <= k <= a.len()
    &&& k <= b.len()
    &&& agree_upto(a, b, k)
    &&& ((k == a.len() && k < b.len()) || (k < a.len() && k < b.len() && a[k] < b[k]))
}

/// Strict lexicographic order: a proper prefix comes first.
pub open spec fn lex_lt(a: Seq<int>, b: Seq<int>) -> bool {
    exists|k: int| below_at(a, b, k)
}

pub open spec fn lex_le(a: Seq<int>, b: Seq<int>) -> bool {
    !lex_lt(b, a)
}

/// The character codes of `s`.
pub open spec fn codes(s: Seq<char>) -> Seq<int> {
    s.map_values(|c: char| c as int)
}

pub proof fn lemma_lex_trans(a: Seq<int>, b: Seq<int>, c: Seq<int>)
    requires
        lex_lt(a, b),
        lex_lt(b, c),
    ensures
        lex_lt(a, c),
{
    let k1 = choose|k: int| below_at(a, b, k);
    let k2 = choose|k: int| below_at(b, c, k);
    if k1 < k2 {
        assert(below_at(a, c, k1));
    } else if k2 < k1 {
        assert(below_at(a, c, k2));
    } else {
        assert(below_at(a, c, k1));
    }
}

/// Whether `a` comes strictly before `b`.
pub fn lex_less(a: &Vec<i128>, b: &Vec<i128>) -> (r: bool)
    ensures
        r == lex_lt(a@.map_values(|x: i128| x as int), b@.map_values(|x: i128| x as int)),
{
    let ghost sa = a@.map_values(|x: i128| x as int);
    let ghost sb = b@.map_values(|x: i128| x as int);
    let mut i: usize = 0;
    while i < a.len() && i < b.len()
        invariant
            sa == a@.map_values(|x: i128| x as int),
            sb == b@.map_values(|x: i128| x as int),
            i <= a@.len(),
            i <= b@.len(),
            agree_upto(sa, sb, i as int),
        decreases a@.len() - i,
    {
        if a[i] != b[i] {
            let r = a[i] < b[i];
            proof {
                if r {
                    assert(below_at(sa, sb, i as int));
                } else {
                    assert forall|k: int| !below_at(sa, sb, k) by {
                        if k > i {
                            assert(sa[i as int] != sb[i as int]);
                        }
                    }
                }
            }
            return r;
        }
        i = i + 1;
    }
    let r = a.len() < b.len();
    proof {
        if r {
            assert(below_at(sa, sb, i as int));
        } else {
            assert forall|k: int| !below_at(sa, sb, k) by {}
        }
    }
    r
}

} // verus!
