//! The directory reader's compute half: recognising the reserved asset
//! files and putting the remaining entries into the gallery's fixed
//! descending-lexicographic display order.

use vstd::prelude::*;
use crate::views_of;

verus! {

/// Whether a filename is one of the reserved asset files that never enter
/// the gallery (the two stylesheets and the icon).
pub open spec fn is_reserved_name(name: Seq<char>) -> bool {
    name == "main.css"@ || name == "each.css"@ || name == "f.ico"@
}

/// Whether `a` is lexicographically less than or equal to `b`, comparing
/// character code points position by position.
pub open spec fn lex_le(a: Seq<char>, b: Seq<char>) -> bool
    decreases a.len(),
{
    if a.len() == 0 {
        true
    } else if b.len() == 0 {
        false
    } else if (a[0] as u32) < (b[0] as u32) {
        true
    } else if (a[0] as u32) > (b[0] as u32) {
        false
    } else {
        lex_le(a.skip(1), b.skip(1))
    }
}

/// Whether a sequence of names is in descending lexicographic order.
pub open spec fn sorted_desc(names: Seq<Seq<char>>) -> bool {
    forall|i: int, j: int| 0 <= i < j < names.len() ==> lex_le(names[j], names[i])
}

/// Equality of two string slices, decided character by character.
fn str_eq(a: &str, b: &str) -> (r: bool)
    ensures
        r == (a@ == b@),
{
    let na = a.unicode_len();
    let nb = b.unicode_len();
    if na != nb {
        return false;
    }
    let mut i: usize = 0;
    while i < na
        invariant
            na == a@.len(),
            na == b@.len(),
            0 <= i <= na,
            forall|j: int| 0 <= j < i ==> a@[j] == b@[j],
        decreases na - i,
    {
        if a.get_char(i) != b.get_char(i) {
            return false;
        }
        i += 1;
    }
    proof {
        assert(a@ =~= b@);
    }
    true
}

/// Whether this filename is one of the reserved asset files.
pub fn is_reserved(name: &str) -> (r: bool)
    ensures
        r == is_reserved_name(name@),
{
    str_eq(name, "main.css") || str_eq(name, "each.css") || str_eq(name, "f.ico")
}

/// Decides `lex_le` on the suffixes of `a` and `b` that start at `i`.
fn lex_le_from(a: &str, b: &str, i: usize) -> (r: bool)
    requires
        i <= a@.len(),
        i <= b@.len(),
    ensures
        r == lex_le(a@.skip(i as int), b@.skip(i as int)),
    decreases a@.len() - i,
{
    let na = a.unicode_len();
    let nb = b.unicode_len();
    if i == na {
        proof {
            assert(a@.skip(i as int).len() == 0);
        }
        true
    } else if i == nb {
        proof {
            assert(b@.skip(i as int).len() == 0);
            assert(a@.skip(i as int).len() > 0);
        }
        false
    } else {
        let ca = a.get_char(i);
        let cb = b.get_char(i);
        proof {
            assert(a@.skip(i as int)[0] == a@[i as int]);
            assert(b@.skip(i as int)[0] == b@[i as int]);
            assert(a@.skip(i as int).skip(1) =~= a@.skip(i as int + 1));
            assert(b@.skip(i as int).skip(1) =~= b@.skip(i as int + 1));
        }
        if (ca as u32) < (cb as u32) {
            true
        } else if (ca as u32) > (cb as u32) {
            false
        } else {
            lex_le_from(a, b, i + 1)
        }
    }
}

/// Decides `lex_le` on two string slices.
pub fn lex_le_str(a: &str, b: &str) -> (r: bool)
    ensures
        r == lex_le(a@, b@),
{
    proof {
        assert(a@.skip(0) =~= a@);
        assert(b@.skip(0) =~= b@);
    }
    lex_le_from(a, b, 0)
}

/// `lex_le` is total: of any two names, one is less than or equal to the
/// other.
pub proof fn lemma_lex_total(a: Seq<char>, b: Seq<char>)
    ensures
        lex_le(a, b) || lex_le(b, a),
    decreases a.len(),
{
    if a.len() == 0 {
    } else if b.len() == 0 {
    } else if (a[0] as u32) == (b[0] as u32) {
        lemma_lex_total(a.skip(1), b.skip(1));
    }
}

/// `lex_le` is transitive.
pub proof fn lemma_lex_trans(a: Seq<char>, b: Seq<char>, c: Seq<char>)
    requires
        lex_le(a, b),
        lex_le(b, c),
    ensures
        lex_le(a, c),
    decreases a.len(),
{
    if a.len() == 0 {
    } else if (a[0] as u32) == (b[0] as u32) && (b[0] as u32) == (c[0] as u32) {
        lemma_lex_trans(a.skip(1), b.skip(1), c.skip(1));
    }
}


/// The position of a maximal name (under `lex_le`) in a non-empty vector.
fn find_max_pos(names: &Vec<String>) -> (m: usize)
    requires
        names@.len() > 0,
    ensures
        m < names@.len(),
        forall|j: int| 0 <= j < names@.len() ==> lex_le(#[trigger] names@[j]@, names@[m as int]@),
{
    let mut best: usize = 0;
    let mut k: usize = 1;
    proof {
        lemma_lex_total(names@[0]@, names@[0]@);
    }
    while k < names.len()
        invariant
            0 <= best < k <= names@.len(),
            forall|j: int| 0 <= j < k ==> lex_le(#[trigger] names@[j]@, names@[best as int]@),
        decreases names@.len() - k,
    {
        if !lex_le_str(names[k].as_str(), names[best].as_str()) {
            proof {
                lemma_lex_total(names@[k as int]@, names@[best as int]@);
                assert forall|j: int| 0 <= j < k implies lex_le(
                    #[trigger] names@[j]@,
                    names@[k as int]@,
                ) by {
                    lemma_lex_trans(names@[j]@, names@[best as int]@, names@[k as int]@);
                }
                assert(lex_le(names@[k as int]@, names@[k as int]@)) by {
                    lemma_lex_total(names@[k as int]@, names@[k as int]@);
                }
            }
            best = k;
        }
        k += 1;
    }
    best
}

/// Sorts the names into the gallery's display order: descending
/// lexicographic, keeping exactly the given names (as a multiset).
pub fn order_entries(names: Vec<String>) -> (r: Vec<String>)
    ensures
        sorted_desc(views_of(r@)),
        r@.to_multiset() == names@.to_multiset(),
        r@.len() == names@.len(),
{
    broadcast use vstd::seq_lib::group_to_multiset_ensures;

    let ghost g = names@;
    let mut rest = names;
    let mut out: Vec<String> = Vec::new();
    while rest.len() > 0
        invariant
            out@.to_multiset().add(rest@.to_multiset()) == g.to_multiset(),
            out@.len() + rest@.len() == g.len(),
            sorted_desc(views_of(out@)),
            forall|i: int, j: int|
                0 <= i < out@.len() && 0 <= j < rest@.len() ==> lex_le(
                    #[trigger] rest@[j]@,
                    #[trigger] out@[i]@,
                ),
        decreases rest@.len(),
    {
        let m = find_max_pos(&rest);
        let ghost rest0 = rest@;
        let x = rest.remove(m);
        let ghost out0 = out@;
        out.push(x);
        proof {
            rest0.to_multiset_ensures();
            out0.to_multiset_ensures();
            assert(rest0.remove(m as int).to_multiset() =~= rest0.to_multiset().remove(x));
            assert(out0.push(x).to_multiset() =~= out0.to_multiset().insert(x));
            assert(out@.to_multiset().add(rest@.to_multiset()) =~= g.to_multiset());
            assert(views_of(out@) =~= views_of(out0).push(x@));
            assert forall|i: int, j: int|
                0 <= i < out@.len() && 0 <= j < rest@.len() implies lex_le(
                #[trigger] rest@[j]@,
                #[trigger] out@[i]@,
            ) by {
                let jj = if j < m { j } else { j + 1 };
                assert(rest@[j] == rest0[jj]);
                assert(lex_le(rest0[jj]@, x@));
                if i < out0.len() {
                    lemma_lex_trans(rest0[jj]@, x@, out0[i]@);
                }
            }
            assert(sorted_desc(views_of(out@)));
        }
    }
    out
}

} // verus!
