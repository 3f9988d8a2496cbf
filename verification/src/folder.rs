use vstd::prelude::*;

use crate::app::{is_supported_image, is_supported_image_spec};
use crate::text::chars_of;

verus! {

/// Lexicographic order on text, character by character. On UTF-8 this is the byte order in
/// which the paths of one folder sort.
pub open spec fn lex_le(a: Seq<char>, b: Seq<char>) -> bool
    decreases a.len(),
{
    if a.len() == 0 {
        true
    } else if b.len() == 0 {
        false
    } else if a[0] != b[0] {
        a[0] < b[0]
    } else {
        lex_le(a.drop_first(), b.drop_first())
    }
}

pub proof fn lemma_lex_total(a: Seq<char>, b: Seq<char>)
    ensures
        lex_le(a, b) || lex_le(b, a),
    decreases a.len(),
{
    if a.len() > 0 && b.len() > 0 && a[0] == b[0] {
        lemma_lex_total(a.drop_first(), b.drop_first());
    }
}

pub proof fn lemma_lex_trans(a: Seq<char>, b: Seq<char>, c: Seq<char>)
    requires
        lex_le(a, b),
        lex_le(b, c),
    ensures
        lex_le(a, c),
    decreases a.len(),
{
    if a.len() > 0 && b.len() > 0 && c.len() > 0 && a[0] == b[0] && b[0] == c[0] {
        lemma_lex_trans(a.drop_first(), b.drop_first(), c.drop_first());
    }
}

/// Whether `a` sorts no later than `b` (see [`lex_le`]).
pub fn str_le(a: &str, b: &str) -> (r: bool)
    ensures
        r == lex_le(a@, b@),
{
    let x = chars_of(a);
    let y = chars_of(b);
    let mut i: usize = 0;
    proof {
        assert(x@.skip(0) =~= x@);
        assert(y@.skip(0) =~= y@);
    }
    while i < x.len() && i < y.len() && x[i] == y[i]
        invariant
            x@ == a@,
            y@ == b@,
            i <= x.len(),
            i <= y.len(),
            lex_le(a@, b@) == lex_le(x@.skip(i as int), y@.skip(i as int)),
        decreases x.len() - i,
    {
        proof {
            assert(x@.skip(i as int).drop_first() =~= x@.skip(i + 1));
            assert(y@.skip(i as int).drop_first() =~= y@.skip(i + 1));
        }
        i = i + 1;
    }
    if i == x.len() {
        true
    } else if i == y.len() {
        false
    } else {
        x[i] < y[i]
    }
}

pub open spec fn names_view(v: Seq<String>) -> Seq<Seq<char>> {
    v.map_values(|s: String| s@)
}

/// Whether `s` is in lexicographic order.
pub open spec fn lex_sorted(s: Seq<Seq<char>>) -> bool {
    forall|i: int, j: int| 0 <= i < j < s.len() ==> lex_le(#[trigger] s[i], #[trigger] s[j])
}

/// The names in `names` that name images the editor maps (see [`is_supported_image_spec`]),
/// in their order.
pub open spec fn image_names(names: Seq<Seq<char>>) -> Seq<Seq<char>>
    decreases names.len(),
{
    if names.len() == 0 {
        seq![]
    } else {
        let prior = image_names(names.drop_last());
        if is_supported_image_spec(names.last()) {
            prior.push(names.last())
        } else {
            prior
        }
    }
}

/// The image files among the file names of a folder, sorted lexicographically: the order in
/// which their textures take tile IDs.
pub fn image_files(names: Vec<String>) -> (r: Vec<String>)
    ensures
        lex_sorted(names_view(r@)),
        names_view(r@).to_multiset() == image_names(names_view(names@)).to_multiset(),
{
    broadcast use vstd::seq_lib::group_to_multiset_ensures;

    let mut out: Vec<String> = Vec::new();
    let mut i: usize = 0;
    proof {
        assert(names_view(names@).take(0) =~= Seq::<Seq<char>>::empty());
        assert(names_view(out@) =~= Seq::<Seq<char>>::empty());
    }
    while i < names.len()
        invariant
            0 <= i <= names.len(),
            lex_sorted(names_view(out@)),
            names_view(out@).to_multiset() == image_names(names_view(names@).take(i as int)).to_multiset(),
        decreases names.len() - i,
    {
        let name = &names[i];
        let ghost nv = names_view(names@);
        proof {
            assert(nv.take(i + 1).drop_last() =~= nv.take(i as int));
            assert(nv.take(i + 1).last() == name@);
        }
        if is_supported_image(name.as_str()) {
            let mut p: usize = 0;
            while p < out.len() && str_le(out[p].as_str(), name.as_str())
                invariant
                    0 <= p <= out.len(),
                    forall|k: int| 0 <= k < p ==> lex_le(#[trigger] names_view(out@)[k], name@),
                decreases out.len() - p,
            {
                p = p + 1;
            }
            let ghost before = names_view(out@);
            proof {
                if p < out.len() {
                    lemma_lex_total(before[p as int], name@);
                }
            }
            out.insert(p, name.clone());
            proof {
                assert(image_names(nv.take(i + 1)) == image_names(nv.take(i as int)).push(name@));
                assert(names_view(out@) =~= before.insert(p as int, name@));
                let after = names_view(out@);
                assert forall|a: int, b: int| 0 <= a < b < after.len() implies lex_le(
                    #[trigger] after[a],
                    #[trigger] after[b],
                ) by {
                    if a < p && b == p {
                    } else if a < p && b > p {
                        assert(after[b] == before[b - 1]);
                        if (p as int) < before.len() {
                            assert(lex_le(before[a], before[b - 1]));
                        }
                    } else if a == p {
                        assert(after[b] == before[b - 1]);
                        if b - 1 > p {
                            assert(lex_le(before[p as int], before[b - 1]));
                            lemma_lex_trans(name@, before[p as int], before[b - 1]);
                        }
                    } else if a > p {
                        assert(after[a] == before[a - 1]);
                        assert(after[b] == before[b - 1]);
                    }
                }
                vstd::seq_lib::to_multiset_insert(before, p as int, name@);
                vstd::seq_lib::to_multiset_build(image_names(nv.take(i as int)), name@);
                assert(names_view(out@).to_multiset() == image_names(nv.take(i + 1)).to_multiset());
            }
        } else {
            assert(image_names(nv.take(i + 1)) == image_names(nv.take(i as int)));
        }
        i = i + 1;
    }
    proof {
        assert(names_view(names@).take(names@.len() as int) =~= names_view(names@));
    }
    out
}

} // verus!
