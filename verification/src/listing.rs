//! Names listed from disk, in the order the library takes them: sorted as
//! Rust orders strings (by character code, then by length).
use vstd::prelude::*;

use vstd::relations::{sorted_by, total_ordering};
use vstd::seq_lib::{to_multiset_build, to_multiset_insert};

use crate::library::strings_view;

verus! {

/// Whether `a` comes no later than `b` in the order of Rust strings:
/// compared character by character, a prefix first.
pub open spec fn name_le(a: Seq<char>, b: Seq<char>) -> bool
    decreases a.len(),
{
    if a.len() == 0 {
        true
    } else if b.len() == 0 {
        false
    } else if a[0] != b[0] {
        (a[0] as u32) < (b[0] as u32)
    } else {
        name_le(a.drop_first(), b.drop_first())
    }
}

/// The order of names as a relation.
pub open spec fn name_order() -> spec_fn(Seq<char>, Seq<char>) -> bool {
    |a: Seq<char>, b: Seq<char>| name_le(a, b)
}

proof fn lemma_name_le_reflexive(a: Seq<char>)
    ensures
        name_le(a, a),
    decreases a.len(),
{
    if a.len() > 0 {
        lemma_name_le_reflexive(a.drop_first());
    }
}

proof fn lemma_name_le_antisymmetric(a: Seq<char>, b: Seq<char>)
    requires
        name_le(a, b),
        name_le(b, a),
    ensures
        a == b,
    decreases a.len(),
{
    if a.len() > 0 && b.len() > 0 {
        if a[0] == b[0] {
            lemma_name_le_antisymmetric(a.drop_first(), b.drop_first());
            assert(a =~= seq![a[0]] + a.drop_first());
            assert(b =~= seq![b[0]] + b.drop_first());
        } else {
            assert((a[0] as u32) != (b[0] as u32));
        }
    } else {
        assert(a.len() == 0 && b.len() == 0);
        assert(a =~= b);
    }
}

proof fn lemma_name_le_transitive(a: Seq<char>, b: Seq<char>, c: Seq<char>)
    requires
        name_le(a, b),
        name_le(b, c),
    ensures
        name_le(a, c),
    decreases a.len(),
{
    if a.len() > 0 && b.len() > 0 && c.len() > 0 {
        if a[0] == b[0] && b[0] == c[0] {
            lemma_name_le_transitive(a.drop_first(), b.drop_first(), c.drop_first());
        } else if a[0] != b[0] {
            assert((a[0] as u32) < (b[0] as u32));
            if b[0] != c[0] {
                assert((b[0] as u32) < (c[0] as u32));
            }
            assert((a[0] as u32) < (c[0] as u32));
        } else {
            assert((b[0] as u32) < (c[0] as u32));
        }
    }
}

proof fn lemma_name_le_connected(a: Seq<char>, b: Seq<char>)
    ensures
        name_le(a, b) || name_le(b, a),
    decreases a.len(),
{
    if a.len() > 0 && b.len() > 0 {
        if a[0] == b[0] {
            lemma_name_le_connected(a.drop_first(), b.drop_first());
        } else {
            vstd::utf8::char_u32_cast(a[0], a[0] as u32);
            vstd::utf8::char_u32_cast(b[0], b[0] as u32);
            assert((a[0] as u32) != (b[0] as u32));
        }
    }
}

/// Names are totally ordered: reflexively, antisymmetrically,
/// transitively, and any two are comparable.
pub proof fn lemma_name_order_total()
    ensures
        total_ordering(name_order()),
{
    let r = name_order();
    assert forall|x: Seq<char>| #[trigger] r(x, x) by {
        lemma_name_le_reflexive(x);
    }
    assert forall|x: Seq<char>, y: Seq<char>| #[trigger] r(x, y) && #[trigger] r(y, x) implies x == y by {
        lemma_name_le_antisymmetric(x, y);
    }
    assert forall|x: Seq<char>, y: Seq<char>, z: Seq<char>| #[trigger] r(x, y) && #[trigger] r(y, z) implies r(
        x,
        z,
    ) by {
        lemma_name_le_transitive(x, y, z);
    }
    assert forall|x: Seq<char>, y: Seq<char>| #[trigger] r(x, y) || #[trigger] r(y, x) by {
        lemma_name_le_connected(x, y);
    }
}

/// Whether `a` comes no later than `b`.
pub fn name_le_exec(a: &str, b: &str) -> (r: bool)
    ensures
        r == name_le(a@, b@),
{
    let av = crate::text::chars_of(a);
    let bv = crate::text::chars_of(b);
    let mut i: usize = 0;
    assert(av@.skip(0) =~= av@);
    assert(bv@.skip(0) =~= bv@);
    while i < av.len() && i < bv.len() && av[i] == bv[i]
        invariant
            i <= av@.len(),
            i <= bv@.len(),
            av@ == a@,
            bv@ == b@,
            name_le(av@.skip(i as int), bv@.skip(i as int)) == name_le(a@, b@),
        decreases av.len() - i,
    {
        assert(av@.skip(i as int).drop_first() =~= av@.skip(i + 1));
        assert(bv@.skip(i as int).drop_first() =~= bv@.skip(i + 1));
        i = i + 1;
    }
    proof {
        if i < av@.len() && i < bv@.len() {
            assert(av@.skip(i as int)[0] == av@[i as int]);
            assert(bv@.skip(i as int)[0] == bv@[i as int]);
        }
    }
    if i == av.len() {
        true
    } else if i == bv.len() {
        false
    } else {
        (av[i] as u32) < (bv[i] as u32)
    }
}

/// Inserting an element between those no later and those no earlier keeps
/// a sequence sorted.
proof fn lemma_insert_sorted(s: Seq<Seq<char>>, k: int, x: Seq<char>)
    requires
        sorted_by(s, name_order()),
        0 <= k <= s.len(),
        forall|j: int| 0 <= j < k ==> name_le(#[trigger] s[j], x),
        forall|j: int| k <= j < s.len() ==> name_le(x, #[trigger] s[j]),
    ensures
        sorted_by(s.insert(k, x), name_order()),
{
    let t = s.insert(k, x);
    let r = name_order();
    assert forall|i: int, j: int| 0 <= i < j < t.len() implies #[trigger] r(t[i], t[j]) by {
        if j < k {
            assert(t[i] == s[i] && t[j] == s[j]);
        } else if j == k {
            assert(t[i] == s[i]);
        } else if i < k {
            assert(t[i] == s[i] && t[j] == s[j - 1]);
            assert(r(s[i], s[j - 1]));
        } else if i == k {
            assert(t[j] == s[j - 1]);
        } else {
            assert(t[i] == s[i - 1] && t[j] == s[j - 1]);
        }
    }
}

/// The names sorted as Rust sorts strings.
pub fn sort_names(names: Vec<String>) -> (r: Vec<String>)
    ensures
        sorted_by(strings_view(r@), name_order()),
        strings_view(r@).to_multiset() == strings_view(names@).to_multiset(),
{
    let ghost nv = strings_view(names@);
    let mut out: Vec<String> = Vec::new();
    let mut i: usize = 0;
    proof {
        lemma_name_order_total();
        assert(nv.take(0) =~= Seq::<Seq<char>>::empty());
        assert(strings_view(out@) =~= Seq::<Seq<char>>::empty());
    }
    while i < names.len()
        invariant
            i <= names@.len(),
            nv == strings_view(names@),
            total_ordering(name_order()),
            sorted_by(strings_view(out@), name_order()),
            strings_view(out@).to_multiset() == nv.take(i as int).to_multiset(),
        decreases names.len() - i,
    {
        let x = names[i].clone();
        assert(x@ == nv[i as int]);
        let ghost ov = strings_view(out@);
        let mut k: usize = 0;
        while k < out.len() && name_le_exec(out[k].as_str(), x.as_str())
            invariant
                k <= out@.len(),
                ov == strings_view(out@),
                forall|j: int| 0 <= j < k ==> name_le(#[trigger] ov[j], x@),
            decreases out.len() - k,
        {
            assert(ov[k as int] == out@[k as int]@);
            k = k + 1;
        }
        proof {
            if k < ov.len() {
                assert(ov[k as int] == out@[k as int]@);
                lemma_name_le_connected(ov[k as int], x@);
                assert forall|j: int| k <= j < ov.len() implies name_le(x@, #[trigger] ov[j]) by {
                    if j > k {
                        assert(name_order()(ov[k as int], ov[j]));
                        lemma_name_le_transitive(x@, ov[k as int], ov[j]);
                    }
                }
            }
            lemma_insert_sorted(ov, k as int, x@);
            to_multiset_insert(ov, k as int, x@);
            assert(nv.take(i + 1) =~= nv.take(i as int).push(nv[i as int]));
            to_multiset_build(nv.take(i as int), nv[i as int]);
        }
        out.insert(k, x);
        assert(strings_view(out@) =~= ov.insert(k as int, x@));
        i = i + 1;
    }
    assert(nv.take(i as int) =~= nv);
    out
}

} // verus!
