//! The column packer: distributes images across three display columns so
//! that the columns' accumulated rendered widths stay balanced.

use vstd::prelude::*;
use vstd::seq_lib::lemma_multiset_commutative;
use crate::order::is_reserved_name;
use crate::views_of;

verus! {

/// One probed source image: its filename and pixel dimensions.
#[derive(Debug)]
pub struct ImageEntry {
    pub filename: String,
    pub width: u32,
    pub height: u32,
}

/// The packer's result: the three columns' members concatenated in column
/// order, plus the sizes of columns 0 and 1 (column 2's size is the rest).
#[derive(Debug)]
pub struct LayoutPlan {
    pub order: Vec<String>,
    pub a1: u32,
    pub a2: u32,
}

/// Fixed display height every image is scaled to when its width contribution
/// is computed.
pub const DISPLAY_HEIGHT: u32 = 400;

/// Fixed horizontal margin charged to each image on top of its scaled width.
pub const IMAGE_MARGIN: u32 = 15;

/// Cap on the number of images in one gallery, chosen so that accumulated
/// column widths always fit in a `u64`.
pub const MAX_IMAGES: usize = 1048576;

/// The largest width contribution any single image can have: a `u32` width
/// scaled by the display height, plus the margin.
pub const CONTRIB_MAX: u64 = 1717986918015;

/// The width an image contributes to its column: its pixel width scaled to
/// the fixed display height, plus the fixed margin.
pub open spec fn contribution(e: ImageEntry) -> int {
    (e.width as int) * (DISPLAY_HEIGHT as int) / (e.height as int) + (IMAGE_MARGIN as int)
}

/// The packer's state: the three columns' members (filenames, in assignment
/// order) and their accumulated widths.
pub ghost struct Packing {
    pub q0: Seq<Seq<char>>,
    pub q1: Seq<Seq<char>>,
    pub q2: Seq<Seq<char>>,
    pub w0: int,
    pub w1: int,
    pub w2: int,
}

/// The packing after processing `entries` in order: the first three images
/// seed columns 0, 1, 2; every later image goes to the most under-loaded
/// column, with column 0 preferred over column 1 and column 2 the fallback
/// under ties.
pub open spec fn pack_model(entries: Seq<ImageEntry>) -> Packing
    decreases entries.len(),
{
    if entries.len() == 0 {
        Packing {
            q0: Seq::empty(),
            q1: Seq::empty(),
            q2: Seq::empty(),
            w0: 0,
            w1: 0,
            w2: 0,
        }
    } else {
        let p = pack_model(entries.drop_last());
        let e = entries.last();
        let name = e.filename@;
        let w = contribution(e);
        let n = entries.len() - 1;
        if n == 0 {
            Packing { q0: p.q0.push(name), w0: p.w0 + w, ..p }
        } else if n == 1 {
            Packing { q1: p.q1.push(name), w1: p.w1 + w, ..p }
        } else if n == 2 {
            Packing { q2: p.q2.push(name), w2: p.w2 + w, ..p }
        } else if p.w0 < p.w1 {
            if p.w0 < p.w2 {
                Packing { q0: p.q0.push(name), w0: p.w0 + w, ..p }
            } else {
                Packing { q2: p.q2.push(name), w2: p.w2 + w, ..p }
            }
        } else {
            if p.w1 < p.w2 {
                Packing { q1: p.q1.push(name), w1: p.w1 + w, ..p }
            } else {
                Packing { q2: p.q2.push(name), w2: p.w2 + w, ..p }
            }
        }
    }
}

/// The final gallery ordering: column 0's members, then column 1's, then
/// column 2's.
pub open spec fn packed_order(entries: Seq<ImageEntry>) -> Seq<Seq<char>> {
    pack_model(entries).q0 + pack_model(entries).q1 + pack_model(entries).q2
}

/// The filenames of a sequence of entries, in the same order.
pub open spec fn names_of(entries: Seq<ImageEntry>) -> Seq<Seq<char>> {
    entries.map_values(|e: ImageEntry| e.filename@)
}

/// Boundary arithmetic: the three column sizes always sum to the number of
/// packed images, and the seed step leaves column 0 non-empty from the first
/// image on and column 1 non-empty from the second image on.
pub proof fn lemma_boundary_arithmetic(entries: Seq<ImageEntry>)
    ensures
        pack_model(entries).q0.len() + pack_model(entries).q1.len() + pack_model(entries).q2.len()
            == entries.len(),
        entries.len() >= 1 ==> pack_model(entries).q0.len() >= 1,
        entries.len() >= 2 ==> pack_model(entries).q1.len() >= 1,
    decreases entries.len(),
{
    if entries.len() > 0 {
        lemma_boundary_arithmetic(entries.drop_last());
    }
}

/// The upper bound on one image's width contribution, used to keep the
/// accumulated column widths inside `u64`.
proof fn lemma_contribution_bounds(e: ImageEntry)
    requires
        e.height >= 1,
    ensures
        0 <= contribution(e) <= CONTRIB_MAX,
{
    vstd::arithmetic::div_mod::lemma_div_nonincreasing(
        (e.width as int) * (DISPLAY_HEIGHT as int),
        e.height as int,
    );
    vstd::arithmetic::div_mod::lemma_div_pos_is_pos(
        (e.width as int) * (DISPLAY_HEIGHT as int),
        e.height as int,
    );
}

/// Packs the entries, in the order given, into the three columns and returns
/// the concatenated ordering together with the sizes of columns 0 and 1.
pub fn pack(entries: &Vec<ImageEntry>) -> (plan: LayoutPlan)
    requires
        entries@.len() <= MAX_IMAGES,
        forall|i: int| 0 <= i < entries@.len() ==> (#[trigger] entries@[i]).height >= 1,
    ensures
        views_of(plan.order@) == packed_order(entries@),
        plan.order@.len() == entries@.len(),
        plan.a1 == pack_model(entries@).q0.len(),
        plan.a2 == pack_model(entries@).q1.len(),
        plan.a1 + plan.a2 <= entries@.len(),
{
    let mut q0: Vec<String> = Vec::new();
    let mut q1: Vec<String> = Vec::new();
    let mut q2: Vec<String> = Vec::new();
    let mut w0: u64 = 0;
    let mut w1: u64 = 0;
    let mut w2: u64 = 0;
    let mut k: usize = 0;
    while k < entries.len()
        invariant
            entries@.len() <= MAX_IMAGES,
            forall|i: int| 0 <= i < entries@.len() ==> (#[trigger] entries@[i]).height >= 1,
            0 <= k <= entries@.len(),
            views_of(q0@) == pack_model(entries@.take(k as int)).q0,
            views_of(q1@) == pack_model(entries@.take(k as int)).q1,
            views_of(q2@) == pack_model(entries@.take(k as int)).q2,
            w0 as int == pack_model(entries@.take(k as int)).w0,
            w1 as int == pack_model(entries@.take(k as int)).w1,
            w2 as int == pack_model(entries@.take(k as int)).w2,
            q0@.len() + q1@.len() + q2@.len() == k,
            w0 as int + w1 as int + w2 as int <= k as int * 1717986918015,
        decreases entries@.len() - k,
    {
        let e = &entries[k];
        proof {
            lemma_contribution_bounds(*e);
        }
        let w: u64 = (e.width as u64) * (DISPLAY_HEIGHT as u64) / (e.height as u64)
            + (IMAGE_MARGIN as u64);
        proof {
            assert(w as int == contribution(*e));
            assert(CONTRIB_MAX == 1717986918015u64);
            assert(w0 as int + w1 as int + w2 as int + w as int <= (k as int + 1)
                * 1717986918015);
            assert((k as int + 1) * 1717986918015 <= 1048576 * 1717986918015);
        }
        let ghost prev = pack_model(entries@.take(k as int));
        if k == 0 {
            q0.push(e.filename.clone());
            w0 = w0 + w;
        } else if k == 1 {
            q1.push(e.filename.clone());
            w1 = w1 + w;
        } else if k == 2 {
            q2.push(e.filename.clone());
            w2 = w2 + w;
        } else if w0 < w1 {
            if w0 < w2 {
                q0.push(e.filename.clone());
                w0 = w0 + w;
            } else {
                q2.push(e.filename.clone());
                w2 = w2 + w;
            }
        } else {
            if w1 < w2 {
                q1.push(e.filename.clone());
                w1 = w1 + w;
            } else {
                q2.push(e.filename.clone());
                w2 = w2 + w;
            }
        }
        k += 1;
        proof {
            let taken = entries@.take(k as int);
            assert(taken.drop_last() =~= entries@.take(k as int - 1));
            assert(taken.last() == entries@[k as int - 1]);
            assert(views_of(q0@) == pack_model(taken).q0
                && views_of(q1@) == pack_model(taken).q1
                && views_of(q2@) == pack_model(taken).q2) by {
                assert(views_of(q0@.push(entries@[k as int - 1].filename)) =~= views_of(q0@).push(
                    entries@[k as int - 1].filename@));
                assert(views_of(q1@.push(entries@[k as int - 1].filename)) =~= views_of(q1@).push(
                    entries@[k as int - 1].filename@));
                assert(views_of(q2@.push(entries@[k as int - 1].filename)) =~= views_of(q2@).push(
                    entries@[k as int - 1].filename@));
            }
        }
    }
    proof {
        assert(entries@.take(entries@.len() as int) =~= entries@);
        lemma_boundary_arithmetic(entries@);
    }
    let a1: u32 = q0.len() as u32;
    let a2: u32 = q1.len() as u32;
    let mut order: Vec<String> = q0;
    order.append(&mut q1);
    order.append(&mut q2);
    proof {
        assert(views_of(order@) =~= packed_order(entries@));
    }
    LayoutPlan { order, a1, a2 }
}


/// Partition completeness: the concatenation of the three columns holds
/// exactly the filenames of the packed entries, each exactly once.
pub proof fn lemma_partition_complete(entries: Seq<ImageEntry>)
    ensures
        packed_order(entries).to_multiset() == names_of(entries).to_multiset(),
    decreases entries.len(),
{
    broadcast use vstd::seq_lib::group_to_multiset_ensures;

    let p = pack_model(entries);
    if entries.len() == 0 {
        assert(packed_order(entries) =~= Seq::<Seq<char>>::empty());
        assert(names_of(entries) =~= Seq::<Seq<char>>::empty());
    } else {
        let prev = entries.drop_last();
        let pp = pack_model(prev);
        let x = entries.last().filename@;
        lemma_partition_complete(prev);
        assert(names_of(entries) =~= names_of(prev).push(x));
        lemma_multiset_commutative(pp.q0, pp.q1);
        lemma_multiset_commutative(pp.q0 + pp.q1, pp.q2);
        if p.q0 == pp.q0.push(x) && p.q1 == pp.q1 && p.q2 == pp.q2 {
            lemma_multiset_commutative(pp.q0.push(x), pp.q1);
            lemma_multiset_commutative(pp.q0.push(x) + pp.q1, pp.q2);
            assert(packed_order(entries).to_multiset() =~= names_of(entries).to_multiset());
        } else if p.q0 == pp.q0 && p.q1 == pp.q1.push(x) && p.q2 == pp.q2 {
            lemma_multiset_commutative(pp.q0, pp.q1.push(x));
            lemma_multiset_commutative(pp.q0 + pp.q1.push(x), pp.q2);
            assert(packed_order(entries).to_multiset() =~= names_of(entries).to_multiset());
        } else {
            lemma_multiset_commutative(pp.q0 + pp.q1, pp.q2.push(x));
            assert(packed_order(entries).to_multiset() =~= names_of(entries).to_multiset());
        }
    }
}

/// Whether `s` occurs inside `t` as a subsequence: all of `s`'s elements, in
/// `s`'s order, though not necessarily adjacent in `t`.
pub open spec fn is_subsequence(s: Seq<Seq<char>>, t: Seq<Seq<char>>) -> bool
    decreases s.len() + t.len(),
{
    if s.len() == 0 {
        true
    } else if t.len() == 0 {
        false
    } else if s.last() == t.last() {
        is_subsequence(s.drop_last(), t.drop_last())
    } else {
        is_subsequence(s, t.drop_last())
    }
}

/// Dropping the last element of a subsequence keeps it a subsequence.
proof fn lemma_subsequence_shrink(s: Seq<Seq<char>>, t: Seq<Seq<char>>)
    requires
        is_subsequence(s, t),
        s.len() > 0,
    ensures
        is_subsequence(s.drop_last(), t),
    decreases t.len(),
{
    let sd = s.drop_last();
    if sd.len() == 0 {
    } else if s.last() == t.last() {
        if sd.last() == t.last() {
            lemma_subsequence_shrink(sd, t.drop_last());
        }
    } else {
        lemma_subsequence_shrink(s, t.drop_last());
        if sd.last() == t.last() {
            lemma_subsequence_shrink(sd, t.drop_last());
        }
    }
}

/// Appending to the right-hand sequence keeps a subsequence a subsequence.
proof fn lemma_subsequence_extend(s: Seq<Seq<char>>, t: Seq<Seq<char>>, x: Seq<char>)
    requires
        is_subsequence(s, t),
    ensures
        is_subsequence(s, t.push(x)),
{
    if s.len() > 0 {
        assert(t.push(x).last() == x);
        assert(t.push(x).drop_last() =~= t);
        if s.last() == x {
            lemma_subsequence_shrink(s, t);
        }
    }
}

/// Appending the same element to both sequences keeps a subsequence.
proof fn lemma_subsequence_push_both(s: Seq<Seq<char>>, t: Seq<Seq<char>>, x: Seq<char>)
    requires
        is_subsequence(s, t),
    ensures
        is_subsequence(s.push(x), t.push(x)),
{
    assert(s.push(x).last() == t.push(x).last());
    assert(s.push(x).drop_last() =~= s);
    assert(t.push(x).drop_last() =~= t);
}

/// Ordering stability: each column lists its members in the same relative
/// order in which the packer processed them.
pub proof fn lemma_order_stability(entries: Seq<ImageEntry>)
    ensures
        is_subsequence(pack_model(entries).q0, names_of(entries)),
        is_subsequence(pack_model(entries).q1, names_of(entries)),
        is_subsequence(pack_model(entries).q2, names_of(entries)),
    decreases entries.len(),
{
    if entries.len() == 0 {
        assert(names_of(entries) =~= Seq::<Seq<char>>::empty());
    } else {
        let prev = entries.drop_last();
        let pp = pack_model(prev);
        let x = entries.last().filename@;
        lemma_order_stability(prev);
        assert(names_of(entries) =~= names_of(prev).push(x));
        let p = pack_model(entries);
        if p.q0 == pp.q0.push(x) && p.q1 == pp.q1 && p.q2 == pp.q2 {
            lemma_subsequence_push_both(pp.q0, names_of(prev), x);
            lemma_subsequence_extend(pp.q1, names_of(prev), x);
            lemma_subsequence_extend(pp.q2, names_of(prev), x);
        } else if p.q0 == pp.q0 && p.q1 == pp.q1.push(x) && p.q2 == pp.q2 {
            lemma_subsequence_extend(pp.q0, names_of(prev), x);
            lemma_subsequence_push_both(pp.q1, names_of(prev), x);
            lemma_subsequence_extend(pp.q2, names_of(prev), x);
        } else {
            lemma_subsequence_extend(pp.q0, names_of(prev), x);
            lemma_subsequence_extend(pp.q1, names_of(prev), x);
            lemma_subsequence_push_both(pp.q2, names_of(prev), x);
        }
    }
}

/// Exclusion correctness: when no packed entry carries a reserved filename,
/// no reserved filename appears anywhere in the final ordering.
pub proof fn lemma_exclusion(entries: Seq<ImageEntry>)
    requires
        forall|i: int| 0 <= i < entries.len() ==> !is_reserved_name(
            (#[trigger] entries[i]).filename@,
        ),
    ensures
        forall|j: int| 0 <= j < packed_order(entries).len() ==> !is_reserved_name(
            #[trigger] packed_order(entries)[j],
        ),
{
    broadcast use vstd::seq_lib::group_to_multiset_ensures;

    lemma_partition_complete(entries);
    let order = packed_order(entries);
    let names = names_of(entries);
    assert forall|j: int| 0 <= j < order.len() implies !is_reserved_name(#[trigger] order[j]) by {
        let x = order[j];
        assert(order.contains(x));
        assert(order.to_multiset().count(x) > 0);
        assert(names.to_multiset().count(x) > 0);
        assert(names.contains(x));
        let i = choose|i: int| 0 <= i < names.len() && names[i] == x;
        assert(names[i] == entries[i].filename@);
    }
}

} // verus!
