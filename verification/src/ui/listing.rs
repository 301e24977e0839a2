//! The order in which channel names are listed: by name in lower case,
//! names that differ only in case by the names themselves.
use vstd::prelude::*;

use crate::text::{lemma_lex_total, lemma_lex_trans, lex_less, lex_lt, lower, seq_eq};

verus! {

/// `x` is listed before `y`.
pub open spec fn name_before(x: Seq<char>, y: Seq<char>) -> bool {
    lex_lt(lower(x), lower(y)) || (lower(x) == lower(y) && lex_lt(x, y))
}

/// Each name is listed before every later one.
pub open spec fn names_in_order(s: Seq<Seq<char>>) -> bool {
    forall|i: int, j: int| 0 <= i < j < s.len() ==> name_before(#[trigger] s[i], #[trigger] s[j])
}

/// `name_before` is a strict total order.
pub proof fn lemma_name_order(x: Seq<char>, y: Seq<char>, z: Seq<char>)
    ensures
        !name_before(x, x),
        x != y ==> name_before(x, y) || name_before(y, x),
        name_before(x, y) ==> !name_before(y, x),
        name_before(x, y) && name_before(y, z) ==> name_before(x, z),
{
    lemma_lex_total(lower(x), lower(y));
    lemma_lex_total(x, y);
    lemma_lex_total(lower(x), lower(x));
    if lex_lt(lower(x), lower(y)) && lex_lt(lower(y), lower(z)) {
        lemma_lex_trans(lower(x), lower(y), lower(z));
    }
    if lex_lt(x, y) && lex_lt(y, z) {
        lemma_lex_trans(x, y, z);
    }
}

/// Two lists in order that hold the same names are the same list.
pub proof fn lemma_in_order_unique(s1: Seq<Seq<char>>, s2: Seq<Seq<char>>)
    requires
        names_in_order(s1),
        names_in_order(s2),
        forall|x: Seq<char>| s1.contains(x) <==> s2.contains(x),
    ensures
        s1 == s2,
    decreases s1.len(),
{
    if s1.len() == 0 {
        if s2.len() > 0 {
            assert(s2.contains(s2[0]));
        }
        assert(s1 =~= s2);
    } else {
        assert(s1.contains(s1[0]));
        let j = choose|j: int| 0 <= j < s2.len() && s2[j] == s1[0];
        assert(s2.contains(s2[0]));
        let i = choose|i: int| 0 <= i < s1.len() && s1[i] == s2[0];
        if j > 0 {
            assert(name_before(s2[0], s2[j]));
            lemma_name_order(s1[0], s1[0], s1[0]);
            if i > 0 {
                assert(name_before(s1[0], s1[i]));
                lemma_name_order(s1[0], s2[0], s1[0]);
            }
        }
        assert(s1[0] == s2[0]);
        let t1 = s1.drop_first();
        let t2 = s2.drop_first();
        lemma_name_order(s1[0], s1[0], s1[0]);
        assert forall|x: Seq<char>| t1.contains(x) <==> t2.contains(x) by {
            if t1.contains(x) {
                let k = choose|k: int| 0 <= k < t1.len() && t1[k] == x;
                assert(s1[k + 1] == x);
                assert(name_before(s1[0], s1[k + 1]));
                assert(s1.contains(x));
                let m = choose|m: int| 0 <= m < s2.len() && s2[m] == x;
                assert(m != 0);
                assert(t2[m - 1] == x);
            }
            if t2.contains(x) {
                let k = choose|k: int| 0 <= k < t2.len() && t2[k] == x;
                assert(s2[k + 1] == x);
                assert(name_before(s2[0], s2[k + 1]));
                assert(s2.contains(x));
                let m = choose|m: int| 0 <= m < s1.len() && s1[m] == x;
                assert(m != 0);
                assert(t1[m - 1] == x);
            }
        }
        assert(names_in_order(t1)) by {
            assert forall|a: int, b: int| 0 <= a < b < t1.len() implies name_before(
                #[trigger] t1[a],
                #[trigger] t1[b],
            ) by {
                assert(t1[a] == s1[a + 1] && t1[b] == s1[b + 1]);
            }
        }
        assert(names_in_order(t2)) by {
            assert forall|a: int, b: int| 0 <= a < b < t2.len() implies name_before(
                #[trigger] t2[a],
                #[trigger] t2[b],
            ) by {
                assert(t2[a] == s2[a + 1] && t2[b] == s2[b + 1]);
            }
        }
        lemma_in_order_unique(t1, t2);
        assert(s1 =~= seq![s1[0]] + t1);
        assert(s2 =~= seq![s2[0]] + t2);
    }
}

/// Whether `x` is listed before `y`, given both names and their lower-case
/// forms.
pub fn name_before_exec(x: &Vec<char>, lx: &Vec<char>, y: &Vec<char>, ly: &Vec<char>) -> (r: bool)
    requires
        lx@ == lower(x@),
        ly@ == lower(y@),
    ensures
        r == name_before(x@, y@),
{
    lex_less(lx, ly) || (seq_eq(lx, ly) && lex_less(x, y))
}

} // verus!
