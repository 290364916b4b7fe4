//! Sorted name listings.
//!
//! Directory listings are handed to the presentation layer in lexicographic
//! order. The order, the comparison, and the sort live here; reading the
//! directory itself is the shell's I/O.

use vstd::prelude::*;
use vstd::multiset::group_multiset_axioms;
use vstd::seq_lib::group_to_multiset_ensures;

verus! {

/// Lexicographic order on text, by character code: a prefix comes before
/// its extensions, and otherwise the first differing character decides.
pub open spec fn lex_le(a: Seq<char>, b: Seq<char>) -> bool
    decreases a.len(),
{
    if a.len() == 0 {
        true
    } else if b.len() == 0 {
        false
    } else if (a[0] as u32) < (b[0] as u32) {
        true
    } else if (b[0] as u32) < (a[0] as u32) {
        false
    } else {
        lex_le(a.drop_first(), b.drop_first())
    }
}

/// Any two texts are ordered one way or the other.
pub proof fn lemma_lex_le_total(a: Seq<char>, b: Seq<char>)
    ensures
        lex_le(a, b) || lex_le(b, a),
    decreases a.len(),
{
    if a.len() > 0 && b.len() > 0 && !((a[0] as u32) < (b[0] as u32)) && !((b[0] as u32) < (
    a[0] as u32)) {
        lemma_lex_le_total(a.drop_first(), b.drop_first());
    }
}

/// The order is transitive.
pub proof fn lemma_lex_le_trans(a: Seq<char>, b: Seq<char>, c: Seq<char>)
    requires
        lex_le(a, b),
        lex_le(b, c),
    ensures
        lex_le(a, c),
    decreases a.len(),
{
    if a.len() > 0 && b.len() > 0 && c.len() > 0 && !((a[0] as u32) < (b[0] as u32)) && !((
    b[0] as u32) < (a[0] as u32)) && !((b[0] as u32) < (c[0] as u32)) && !((c[0] as u32) < (
    b[0] as u32)) {
        lemma_lex_le_trans(a.drop_first(), b.drop_first(), c.drop_first());
    }
}

/// Whether a sequence of texts is in lexicographic order.
pub open spec fn lex_sorted(s: Seq<Seq<char>>) -> bool {
    forall|p: int, q: int| #![trigger s[p], s[q]] 0 <= p < q < s.len() ==> lex_le(s[p], s[q])
}

/// Whether `a` comes no later than `b` in lexicographic order.
pub fn str_le(a: &str, b: &str) -> (r: bool)
    ensures
        r == lex_le(a@, b@),
{
    let alen = a.unicode_len();
    let blen = b.unicode_len();
    let mut i: usize = 0;
    proof {
        assert(a@.skip(0) =~= a@);
        assert(b@.skip(0) =~= b@);
    }
    while i < alen && i < blen
        invariant
            i <= alen == a@.len(),
            i <= blen == b@.len(),
            lex_le(a@, b@) == lex_le(a@.skip(i as int), b@.skip(i as int)),
        decreases alen - i,
    {
        let ca = a.get_char(i) as u32;
        let cb = b.get_char(i) as u32;
        if ca < cb {
            return true;
        }
        if cb < ca {
            return false;
        }
        proof {
            assert(a@.skip(i as int).drop_first() =~= a@.skip(i + 1));
            assert(b@.skip(i as int).drop_first() =~= b@.skip(i + 1));
        }
        i = i + 1;
    }
    proof {
        if alen <= blen {
            assert(a@.skip(i as int).len() == 0);
        } else {
            assert(b@.skip(i as int).len() == 0);
            assert(a@.skip(i as int).len() > 0);
        }
    }
    alen <= blen
}

/// Moving the name at `i` back to position `j` keeps the names before the
/// old `i` sorted, now one longer, provided the moved name sits between
/// what precedes `j` and what follows it.
proof fn lemma_moved_prefix_sorted(s: Seq<String>, i: int, j: int)
    requires
        0 <= j <= i < s.len(),
        forall|p: int, q: int| #![trigger s[p], s[q]] 0 <= p < q < i ==> lex_le(s[p]@, s[q]@),
        forall|k: int| 0 <= k < j ==> lex_le((#[trigger] s[k])@, s[i]@),
        forall|k: int| j <= k < i ==> lex_le(s[i]@, (#[trigger] s[k])@),
    ensures
        forall|p: int, q: int|
            #![trigger s.remove(i).insert(j, s[i])[p], s.remove(i).insert(j, s[i])[q]]
            0 <= p < q < i + 1 ==> lex_le(
                s.remove(i).insert(j, s[i])[p]@,
                s.remove(i).insert(j, s[i])[q]@,
            ),
{
    let t = s.remove(i).insert(j, s[i]);
    s.remove_ensures(i);
    s.remove(i).insert_ensures(j, s[i]);
    assert forall|p: int, q: int| 0 <= p < q < i + 1 implies lex_le(
        (#[trigger] t[p])@,
        (#[trigger] t[q])@,
    ) by {
        if q < j {
            assert(t[p] == s[p] && t[q] == s[q]);
        } else if q == j {
            assert(t[p] == s[p] && t[q] == s[i]);
        } else if p < j {
            assert(t[p] == s[p] && t[q] == s[q - 1]);
        } else if p == j {
            assert(t[p] == s[i] && t[q] == s[q - 1]);
        } else {
            assert(t[p] == s[p - 1] && t[q] == s[q - 1]);
        }
    }
}

/// The move is a rearrangement: the multiset of names is unchanged.
proof fn lemma_moved_multiset(s: Seq<String>, i: int, j: int)
    requires
        0 <= j <= i < s.len(),
    ensures
        s.remove(i).insert(j, s[i]).to_multiset() == s.to_multiset(),
{
    broadcast use group_to_multiset_ensures;
    broadcast use group_multiset_axioms;

    assert(s.contains(s[i]));
    assert(s.to_multiset().count(s[i]) > 0);
    assert(s.remove(i).to_multiset() =~= s.to_multiset().remove(s[i]));
    assert(s.remove(i).insert(j, s[i]).to_multiset() =~= s.to_multiset().remove(s[i]).insert(
        s[i],
    ));
    assert(s.to_multiset().remove(s[i]).insert(s[i]) =~= s.to_multiset());
}

/// Sorts names into lexicographic order, keeping exactly the same names:
/// the result is the ordered rearrangement of the input.
pub fn sort_strings(v: &mut Vec<String>)
    ensures
        lex_sorted(final(v).deep_view()),
        final(v)@.to_multiset() == old(v)@.to_multiset(),
{
    let n = v.len();
    if n == 0 {
        return ;
    }
    let mut i: usize = 1;
    while i < n
        invariant
            1 <= i <= n == v@.len(),
            forall|p: int, q: int| #![trigger v@[p], v@[q]] 0 <= p < q < i ==> lex_le(v@[p]@, v@[q]@),
            v@.to_multiset() == old(v)@.to_multiset(),
        decreases n - i,
    {
        let mut j: usize = 0;
        while j < i && str_le(v[j].as_str(), v[i].as_str())
            invariant
                j <= i < n == v@.len(),
                forall|k: int| 0 <= k < j ==> lex_le((#[trigger] v@[k])@, v@[i as int]@),
            decreases i - j,
        {
            j = j + 1;
        }
        let ghost s = v@;
        proof {
            assert forall|k: int| j <= k < i implies lex_le(s[i as int]@, (#[trigger] s[k])@) by {
                lemma_lex_le_total(s[j as int]@, s[i as int]@);
                if k > j {
                    lemma_lex_le_trans(s[i as int]@, s[j as int]@, s[k]@);
                }
            }
            lemma_moved_prefix_sorted(s, i as int, j as int);
            lemma_moved_multiset(s, i as int, j as int);
        }
        let x = v.remove(i);
        v.insert(j, x);
        i = i + 1;
    }
    proof {
        assert forall|p: int, q: int|
            #![trigger v.deep_view()[p], v.deep_view()[q]]
            0 <= p < q < v.deep_view().len() implies lex_le(
            v.deep_view()[p],
            v.deep_view()[q],
        ) by {
            assert(v.deep_view()[p] == v@[p]@);
            assert(v.deep_view()[q] == v@[q]@);
        }
    }
}

} // verus!
