use vstd::prelude::*;

use crate::pins::GpioPins;

verus! {

/// The entries of `s` whose pin already occurs earlier in `s`, in order.
pub open spec fn repeated(s: Seq<GpioPins>) -> Seq<GpioPins>
    decreases s.len(),
{
    if s.len() == 0 {
        Seq::empty()
    } else if s.drop_last().contains(s.last()) {
        repeated(s.drop_last()).push(s.last())
    } else {
        repeated(s.drop_last())
    }
}

/// The pins that occur at least twice in `s`.
pub open spec fn repeated_pins(s: Seq<GpioPins>) -> Set<GpioPins> {
    Set::new(|p: GpioPins| exists|i: int, j: int| 0 <= i < j < s.len() && s[i] == p && s[j] == p)
}

/// The entries of `s` that `req` also names, in the order of `s`.
pub open spec fn common(s: Seq<GpioPins>, req: Seq<GpioPins>) -> Seq<GpioPins>
    decreases s.len(),
{
    if s.len() == 0 {
        Seq::empty()
    } else if req.contains(s.last()) {
        common(s.drop_last(), req).push(s.last())
    } else {
        common(s.drop_last(), req)
    }
}

/// The pins of a list of occupants, occupant after occupant.
pub open spec fn flat(occ: Seq<Seq<GpioPins>>) -> Seq<GpioPins>
    decreases occ.len(),
{
    if occ.len() == 0 {
        Seq::empty()
    } else {
        flat(occ.drop_last()) + occ.last()
    }
}

/// The repeated entries of a sequence name exactly the pins that occur more than once.
pub proof fn lemma_repeated_names_repeats(s: Seq<GpioPins>)
    ensures
        repeated(s).to_set() == repeated_pins(s),
        repeated(s).len() == 0 <==> s.no_duplicates(),
    decreases s.len(),
{
    if s.len() > 0 {
        let init = s.drop_last();
        lemma_repeated_names_repeats(init);
        assert forall|p: GpioPins| repeated(s).contains(p) <==> repeated_pins(s).contains(p) by {
            if repeated(s).contains(p) {
                let k = choose|k: int| 0 <= k < repeated(s).len() && repeated(s)[k] == p;
                if k < repeated(init).len() {
                    assert(repeated(init)[k] == p);
                    assert(repeated(init).to_set().contains(p));
                    assert(repeated_pins(init).contains(p));
                    let (i, j) = choose|i: int, j: int|
                        0 <= i < j < init.len() && init[i] == p && init[j] == p;
                    assert(s[i] == p && s[j] == p);
                } else {
                    assert(init.contains(s.last()) && p == s.last());
                    let i = choose|i: int| 0 <= i < init.len() && init[i] == s.last();
                    assert(s[i] == p && s[s.len() - 1] == p);
                }
            }
            if repeated_pins(s).contains(p) {
                let (i, j) = choose|i: int, j: int| 0 <= i < j < s.len() && s[i] == p && s[j] == p;
                if j < s.len() - 1 {
                    assert(init[i] == p && init[j] == p);
                    assert(repeated_pins(init).contains(p));
                    assert(repeated(init).to_set().contains(p));
                    let k = choose|k: int| 0 <= k < repeated(init).len() && repeated(init)[k] == p;
                    assert(repeated(s)[k] == p);
                } else {
                    assert(init[i] == s.last());
                    assert(repeated(s).last() == p);
                }
            }
        }
        assert(repeated(s).to_set() =~= repeated_pins(s));
    }
    if repeated(s).len() == 0 {
        assert forall|i: int, j: int| 0 <= i < s.len() && 0 <= j < s.len() && i != j implies s[i]
            != s[j] by {
            if s[i] == s[j] {
                if i < j {
                    assert(repeated_pins(s).contains(s[i]));
                } else {
                    assert(repeated_pins(s).contains(s[j]));
                }
                assert(repeated(s).to_set().contains(s[i]));
            }
        }
    }
    if s.no_duplicates() && repeated(s).len() > 0 {
        assert(repeated(s).to_set().contains(repeated(s)[0]));
    }
}

/// A pin is among the common entries exactly when both sequences hold it.
pub proof fn lemma_common_contains(s: Seq<GpioPins>, req: Seq<GpioPins>)
    ensures
        forall|p: GpioPins| #[trigger]
            common(s, req).contains(p) <==> (s.contains(p) && req.contains(p)),
        common(s, req).len() == 0 <==> (forall|i: int| 0 <= i < s.len() ==> !req.contains(s[i])),
    decreases s.len(),
{
    if s.len() > 0 {
        let init = s.drop_last();
        lemma_common_contains(init, req);
        assert forall|p: GpioPins| #[trigger]
            common(s, req).contains(p) <==> (s.contains(p) && req.contains(p)) by {
            if s.contains(p) && req.contains(p) {
                let i = choose|i: int| 0 <= i < s.len() && s[i] == p;
                if i < s.len() - 1 {
                    assert(init[i] == p);
                    assert(common(init, req).contains(p));
                    let k = choose|k: int| 0 <= k < common(init, req).len() && common(init, req)[k] == p;
                    assert(common(s, req)[k] == p);
                } else {
                    assert(common(s, req).last() == p);
                }
            }
            if common(s, req).contains(p) {
                let k = choose|k: int| 0 <= k < common(s, req).len() && common(s, req)[k] == p;
                if k < common(init, req).len() {
                    assert(common(init, req)[k] == p);
                    assert(common(init, req).contains(p));
                    assert(init.contains(p));
                    let i = choose|i: int| 0 <= i < init.len() && init[i] == p;
                    assert(s[i] == p);
                } else {
                    assert(req.contains(s.last()));
                    assert(p == s.last());
                    assert(s[s.len() - 1] == p);
                }
            }
        }
        if common(s, req).len() == 0 {
            assert forall|i: int| 0 <= i < s.len() implies !req.contains(s[i]) by {
                if req.contains(s[i]) {
                    assert(common(s, req).contains(s[i]));
                }
            }
        }
        if common(s, req).len() > 0 {
            assert(common(s, req).contains(common(s, req)[0]));
        }
    }
}

/// Adding an occupant appends its pins.
pub proof fn lemma_flat_push(occ: Seq<Seq<GpioPins>>, x: Seq<GpioPins>)
    ensures
        flat(occ.push(x)) == flat(occ) + x,
{
    assert(occ.push(x).drop_last() =~= occ);
}

/// Two sequences without repeats and without a shared pin join into one without repeats.
pub proof fn lemma_concat_no_duplicates(a: Seq<GpioPins>, b: Seq<GpioPins>)
    requires
        a.no_duplicates(),
        b.no_duplicates(),
        forall|i: int| 0 <= i < a.len() ==> !b.contains(a[i]),
    ensures
        (a + b).no_duplicates(),
{
    let c = a + b;
    assert forall|i: int, j: int| 0 <= i < c.len() && 0 <= j < c.len() && i != j implies c[i]
        != c[j] by {
        if i < a.len() && j >= a.len() {
            assert(b[j - a.len()] == c[j]);
            if c[i] == c[j] {
                assert(b.contains(a[i]));
            }
        } else if j < a.len() && i >= a.len() {
            assert(b[i - a.len()] == c[i]);
            if c[i] == c[j] {
                assert(b.contains(a[j]));
            }
        }
    }
}

/// A pin of one occupant is among the pins of all of them.
pub proof fn lemma_flat_contains(occ: Seq<Seq<GpioPins>>, a: int, p: GpioPins)
    requires
        0 <= a < occ.len(),
        occ[a].contains(p),
    ensures
        flat(occ).contains(p),
    decreases occ.len(),
{
    let init = occ.drop_last();
    let k = choose|k: int| 0 <= k < occ[a].len() && occ[a][k] == p;
    if a == occ.len() - 1 {
        assert(flat(occ)[flat(init).len() + k] == p);
    } else {
        assert(init[a] == occ[a]);
        lemma_flat_contains(init, a, p);
        let i = choose|i: int| 0 <= i < flat(init).len() && flat(init)[i] == p;
        assert(flat(occ)[i] == p);
    }
}

/// Each pin among those of all occupants belongs to one of them.
pub proof fn lemma_flat_member(occ: Seq<Seq<GpioPins>>, p: GpioPins)
    requires
        flat(occ).contains(p),
    ensures
        exists|a: int| 0 <= a < occ.len() && #[trigger] occ[a].contains(p),
    decreases occ.len(),
{
    let init = occ.drop_last();
    let i = choose|i: int| 0 <= i < flat(occ).len() && flat(occ)[i] == p;
    if i < flat(init).len() {
        assert(flat(init)[i] == p);
        lemma_flat_member(init, p);
        let a = choose|a: int| 0 <= a < init.len() && #[trigger] init[a].contains(p);
        assert(occ[a] == init[a]);
    } else {
        assert(occ.last()[i - flat(init).len()] == p);
        assert(occ[occ.len() - 1].contains(p));
    }
}

/// When all claimed pins are distinct, every occupant is free of repeats and no two
/// occupants share a pin.
pub proof fn lemma_flat_disjoint(occ: Seq<Seq<GpioPins>>, a: int, b: int)
    requires
        flat(occ).no_duplicates(),
        0 <= a < occ.len(),
        0 <= b < occ.len(),
        a != b,
    ensures
        occ[a].no_duplicates(),
        forall|p: GpioPins| !(occ[a].contains(p) && #[trigger] occ[b].contains(p)),
    decreases occ.len(),
{
    let init = occ.drop_last();
    let fi = flat(init);
    let last = occ.last();
    assert(flat(occ) == fi + last);
    assert forall|i: int, j: int| 0 <= i < fi.len() && 0 <= j < fi.len() && i != j implies fi[i]
        != fi[j] by {
        assert(flat(occ)[i] == fi[i] && flat(occ)[j] == fi[j]);
    }
    assert forall|i: int, j: int| 0 <= i < last.len() && 0 <= j < last.len() && i != j implies last[i]
        != last[j] by {
        assert(flat(occ)[fi.len() + i] == last[i] && flat(occ)[fi.len() + j] == last[j]);
    }
    assert forall|p: GpioPins| !(fi.contains(p) && last.contains(p)) by {
        if fi.contains(p) && last.contains(p) {
            let i = choose|i: int| 0 <= i < fi.len() && fi[i] == p;
            let j = choose|j: int| 0 <= j < last.len() && last[j] == p;
            assert(flat(occ)[i] == p && flat(occ)[fi.len() + j] == p);
        }
    }
    if a < occ.len() - 1 {
        assert(init[a] == occ[a]);
        if b < occ.len() - 1 {
            assert(init[b] == occ[b]);
            lemma_flat_disjoint(init, a, b);
        } else {
            assert forall|p: GpioPins| !(occ[a].contains(p) && #[trigger] occ[b].contains(p)) by {
                if occ[a].contains(p) {
                    lemma_flat_contains(init, a, p);
                }
            }
            if init.len() > 1 {
                let c = if a == 0 { 1int } else { 0int };
                lemma_flat_disjoint(init, a, c);
            } else {
                assert(fi == flat(init.drop_last()) + init.last());
                assert(init.drop_last().len() == 0);
                assert(fi =~= init[a]);
            }
        }
    } else {
        assert(init[b] == occ[b]);
        assert forall|p: GpioPins| !(occ[a].contains(p) && #[trigger] occ[b].contains(p)) by {
            if occ[b].contains(p) {
                lemma_flat_contains(init, b, p);
            }
        }
    }
}

/// Whether `v` holds `p`.
pub fn contains_pin(v: &Vec<GpioPins>, p: GpioPins) -> (r: bool)
    ensures
        r == v@.contains(p),
{
    let mut i: usize = 0;
    while i < v.len()
        invariant
            i <= v.len(),
            forall|k: int| 0 <= k < i ==> v@[k] != p,
        decreases v.len() - i,
    {
        if v[i] == p {
            return true;
        }
        i += 1;
    }
    false
}

/// Whether one of the first `end` entries of `v` is `p`.
fn occurs_before(v: &Vec<GpioPins>, p: GpioPins, end: usize) -> (r: bool)
    requires
        end <= v.len(),
    ensures
        r == v@.subrange(0, end as int).contains(p),
{
    let mut i: usize = 0;
    while i < end
        invariant
            i <= end <= v.len(),
            forall|k: int| 0 <= k < i ==> v@[k] != p,
        decreases end - i,
    {
        if v[i] == p {
            assert(v@.subrange(0, end as int)[i as int] == p);
            return true;
        }
        i += 1;
    }
    false
}

/// Each entry of `pins` that repeats an earlier one, in order.
pub fn find_duplicates(pins: &Vec<GpioPins>) -> (r: Vec<GpioPins>)
    ensures
        r@ == repeated(pins@),
{
    let mut duplicates: Vec<GpioPins> = Vec::new();
    let mut i: usize = 0;
    while i < pins.len()
        invariant
            i <= pins.len(),
            duplicates@ == repeated(pins@.subrange(0, i as int)),
        decreases pins.len() - i,
    {
        let pin = pins[i];
        let seen = occurs_before(pins, pin, i);
        proof {
            let prefix = pins@.subrange(0, i as int + 1);
            assert(prefix.drop_last() =~= pins@.subrange(0, i as int));
            assert(prefix.last() == pin);
        }
        if seen {
            duplicates.push(pin);
        }
        i += 1;
    }
    assert(pins@.subrange(0, pins.len() as int) =~= pins@);
    duplicates
}

/// A copy of `v`.
pub fn copy_pins(v: &Vec<GpioPins>) -> (r: Vec<GpioPins>)
    ensures
        r@ == v@,
{
    let mut r: Vec<GpioPins> = Vec::new();
    let mut i: usize = 0;
    while i < v.len()
        invariant
            i <= v.len(),
            r@ == v@.subrange(0, i as int),
        decreases v.len() - i,
    {
        r.push(v[i]);
        assert(r@ =~= v@.subrange(0, i as int + 1));
        i += 1;
    }
    assert(v@.subrange(0, v.len() as int) =~= v@);
    r
}

/// The common entries of a joined sequence are those of each part, joined.
pub proof fn lemma_common_concat(a: Seq<GpioPins>, b: Seq<GpioPins>, req: Seq<GpioPins>)
    ensures
        common(a + b, req) == common(a, req) + common(b, req),
    decreases b.len(),
{
    if b.len() == 0 {
        assert(a + b =~= a);
        assert(common(a, req) + common(b, req) =~= common(a, req));
    } else {
        lemma_common_concat(a, b.drop_last(), req);
        assert((a + b).drop_last() =~= a + b.drop_last());
        assert((a + b).last() == b.last());
        if req.contains(b.last()) {
            assert(common(a, req) + common(b, req) =~= (common(a, req) + common(b.drop_last(), req)).push(b.last()));
        } else {
            assert(common(a, req) + common(b, req) =~= common(a, req) + common(b.drop_last(), req));
        }
    }
}

/// Appends to `acc` each entry of `s` that `req` names, in order.
pub fn append_common(acc: &mut Vec<GpioPins>, s: &Vec<GpioPins>, req: &Vec<GpioPins>)
    ensures
        final(acc)@ == old(acc)@ + common(s@, req@),
{
    let ghost start = acc@;
    let mut j: usize = 0;
    while j < s.len()
        invariant
            j <= s.len(),
            acc@ == start + common(s@.subrange(0, j as int), req@),
        decreases s.len() - j,
    {
        let pin = s[j];
        proof {
            let cur = s@.subrange(0, j as int + 1);
            assert(cur.drop_last() =~= s@.subrange(0, j as int));
            assert(cur.last() == pin);
        }
        if contains_pin(req, pin) {
            acc.push(pin);
            assert(acc@ =~= start + common(s@.subrange(0, j as int + 1), req@));
        }
        j += 1;
    }
    assert(s@.subrange(0, s.len() as int) =~= s@);
}

/// `a` followed by `b`.
pub fn join_pins(a: &Vec<GpioPins>, b: &Vec<GpioPins>) -> (r: Vec<GpioPins>)
    ensures
        r@ == a@ + b@,
{
    let mut r = copy_pins(a);
    let mut j: usize = 0;
    while j < b.len()
        invariant
            j <= b.len(),
            r@ == a@ + b@.subrange(0, j as int),
        decreases b.len() - j,
    {
        r.push(b[j]);
        assert(r@ =~= a@ + b@.subrange(0, j as int + 1));
        j += 1;
    }
    assert(b@.subrange(0, b.len() as int) =~= b@);
    r
}

} // verus!
