//! The regions of road points, put in order by name.
//!
//! Regions are found by walking a directory; whatever order the walk gives,
//! they are used in the order of their names, as `str`'s comparison orders
//! them (by character, then by length).

use vstd::prelude::*;

use crate::name_gen::chars_of;

verus! {

/// `a` comes before `b`: at the first position where they differ `a` has
/// the smaller character, or `a` is a proper prefix of `b`.
pub open spec fn text_lt(a: Seq<char>, b: Seq<char>) -> bool
    decreases a.len(),
{
    if a.len() == 0 {
        b.len() > 0
    } else if b.len() == 0 {
        false
    } else if a[0] != b[0] {
        (a[0] as int) < (b[0] as int)
    } else {
        text_lt(a.drop_first(), b.drop_first())
    }
}

proof fn lemma_text_lt_irreflexive(a: Seq<char>)
    ensures
        !text_lt(a, a),
    decreases a.len(),
{
    if a.len() > 0 {
        lemma_text_lt_irreflexive(a.drop_first());
    }
}

proof fn lemma_text_lt_asymmetric(a: Seq<char>, b: Seq<char>)
    ensures
        text_lt(a, b) ==> !text_lt(b, a),
    decreases a.len(),
{
    if a.len() > 0 && b.len() > 0 && a[0] == b[0] {
        lemma_text_lt_asymmetric(a.drop_first(), b.drop_first());
    }
}

proof fn lemma_text_lt_transitive(a: Seq<char>, b: Seq<char>, c: Seq<char>)
    ensures
        text_lt(a, b) && text_lt(b, c) ==> text_lt(a, c),
    decreases a.len(),
{
    if a.len() > 0 && b.len() > 0 && c.len() > 0 {
        lemma_text_lt_transitive(a.drop_first(), b.drop_first(), c.drop_first());
    }
}

proof fn lemma_text_lt_total(a: Seq<char>, b: Seq<char>)
    ensures
        a != b ==> text_lt(a, b) || text_lt(b, a),
    decreases a.len(),
{
    if a.len() > 0 && b.len() > 0 {
        if a[0] == b[0] {
            lemma_text_lt_total(a.drop_first(), b.drop_first());
            if a.drop_first() == b.drop_first() {
                assert(a.drop_first().len() == a.len() - 1 && b.drop_first().len() == b.len() - 1);
                assert(a.len() == b.len());
                assert forall|i: int| 0 <= i < a.len() implies a[i] == b[i] by {
                    if i > 0 {
                        assert(a[i] == a.drop_first()[i - 1]);
                        assert(b[i] == b.drop_first()[i - 1]);
                    }
                }
                assert(a =~= b);
            }
        } else {
            assert((a[0] as int) != (b[0] as int));
        }
    } else if a.len() == 0 && b.len() == 0 {
        assert(a =~= b);
    }
}

proof fn lemma_char_code(c: char)
    ensures
        (c as u32) as int == c as int,
{
}

/// Whether `a` comes before `b`.
fn chars_lt(a: &Vec<char>, b: &Vec<char>) -> (r: bool)
    ensures
        r == text_lt(a@, b@),
{
    let mut i: usize = 0;
    assert(a@.skip(0) =~= a@ && b@.skip(0) =~= b@);
    while i < a.len() && i < b.len() && a[i] == b[i]
        invariant
            0 <= i <= a@.len(),
            i <= b@.len(),
            text_lt(a@, b@) == text_lt(a@.skip(i as int), b@.skip(i as int)),
        decreases a@.len() - i,
    {
        proof {
            let sa = a@.skip(i as int);
            let sb = b@.skip(i as int);
            assert(sa.drop_first() =~= a@.skip(i + 1));
            assert(sb.drop_first() =~= b@.skip(i + 1));
            assert(sa[0] == sb[0]);
        }
        i = i + 1;
    }
    let ghost sa = a@.skip(i as int);
    let ghost sb = b@.skip(i as int);
    if i == a.len() {
        assert(sa.len() == 0);
        i < b.len()
    } else if i == b.len() {
        assert(sb.len() == 0);
        false
    } else {
        assert(sa[0] == a@[i as int] && sb[0] == b@[i as int]);
        proof {
            lemma_char_code(a@[i as int]);
            lemma_char_code(b@[i as int]);
        }
        (a[i] as u32) < (b[i] as u32)
    }
}

/// `order` lists indices of `names` in order: no name listed later comes
/// before one listed earlier, and equal names keep their relative order.
pub open spec fn sorted_by_name(names: Seq<Seq<char>>, order: Seq<usize>) -> bool {
    forall|i: int, j: int|
        0 <= i < j < order.len() ==> {
            &&& !text_lt(names[order[j] as int], names[order[i] as int])
            &&& names[order[i] as int] == names[order[j] as int] ==> order[i] < order[j]
        }
}

/// `order` lists each of the indices `0..n` exactly once.
pub open spec fn is_permutation(order: Seq<usize>, n: nat) -> bool {
    &&& order.len() == n
    &&& forall|i: int| 0 <= i < order.len() ==> order[i] < n
    &&& forall|i: int, j: int| 0 <= i < j < order.len() ==> order[i] != order[j]
}

/// The texts of some strings.
pub open spec fn name_texts(v: Seq<String>) -> Seq<Seq<char>> {
    v.map_values(|w: String| w@)
}

/// Inserting index `k` at `p`, after the entries it does not come before and
/// in front of the first one it comes before, keeps the list in order.
proof fn lemma_insert_keeps_order(texts: Seq<Seq<char>>, before: Seq<usize>, p: int, k: usize)
    requires
        k < texts.len(),
        is_permutation(before, k as nat),
        sorted_by_name(texts, before),
        0 <= p <= before.len(),
        forall|i: int| 0 <= i < p ==> !text_lt(texts[k as int], #[trigger] texts[before[i] as int]),
        p < before.len() ==> text_lt(texts[k as int], texts[before[p] as int]),
    ensures
        is_permutation(before.insert(p, k), (k + 1) as nat),
        sorted_by_name(texts, before.insert(p, k)),
{
    let order = before.insert(p, k);
    let x = texts[k as int];
    before.insert_ensures(p, k);
    assert(order[p] == k);
    assert forall|i: int| 0 <= i < order.len() implies #[trigger] order[i] < k + 1 && (i != p ==> order[i]
        < k) by {
        if i > p {
            assert(order[i] == before[i - 1]);
        }
    }
    assert forall|i: int, j: int| 0 <= i < j < order.len() implies order[i] != order[j] by {
        if i > p {
            assert(order[i] == before[i - 1] && order[j] == before[j - 1]);
        } else if i < p && j > p {
            assert(order[i] == before[i] && order[j] == before[j - 1]);
        } else if i < p && j < p {
            assert(order[i] == before[i] && order[j] == before[j]);
        } else if i < p {
            assert(order[i] < k);
        } else {
            assert(order[j] < k);
        }
    }
    assert forall|i: int, j: int| 0 <= i < j < order.len() implies {
        &&& !text_lt(texts[order[j] as int], texts[order[i] as int])
        &&& texts[order[i] as int] == texts[order[j] as int] ==> order[i] < order[j]
    } by {
        lemma_insert_pair(texts, before, p, k, i, j);
    }
}

/// One pair of entries after the insertion of [`lemma_insert_keeps_order`].
proof fn lemma_insert_pair(texts: Seq<Seq<char>>, before: Seq<usize>, p: int, k: usize, i: int, j: int)
    requires
        k < texts.len(),
        is_permutation(before, k as nat),
        sorted_by_name(texts, before),
        0 <= p <= before.len(),
        forall|i: int| 0 <= i < p ==> !text_lt(texts[k as int], #[trigger] texts[before[i] as int]),
        p < before.len() ==> text_lt(texts[k as int], texts[before[p] as int]),
        0 <= i < j < before.len() + 1,
    ensures
        ({
            let order = before.insert(p, k);
            &&& !text_lt(texts[order[j] as int], texts[order[i] as int])
            &&& texts[order[i] as int] == texts[order[j] as int] ==> order[i] < order[j]
        }),
{
    let order = before.insert(p, k);
    let x = texts[k as int];
    before.insert_ensures(p, k);
    if i < p && j == p {
        assert(order[i] == before[i]);
        assert(!text_lt(x, texts[before[i] as int]));
        assert(before[i] < k);
    } else if i == p {
        let ej = texts[order[j] as int];
        let ep = texts[before[p] as int];
        assert(text_lt(x, ep));
        assert(order[j] == before[j - 1]);
        if j > p + 1 {
            assert(!text_lt(ej, ep));
            lemma_text_lt_total(ep, ej);
            lemma_text_lt_transitive(x, ep, ej);
        }
        assert(text_lt(x, ej));
        lemma_text_lt_asymmetric(x, ej);
        lemma_text_lt_irreflexive(x);
    } else if i < p && j > p {
        assert(order[i] == before[i] && order[j] == before[j - 1]);
    } else if i > p {
        assert(order[i] == before[i - 1] && order[j] == before[j - 1]);
    } else {
        assert(order[i] == before[i] && order[j] == before[j]);
    }
}

/// The positions of `names` in order of the names: a stable sort.
pub fn name_order(names: &Vec<String>) -> (order: Vec<usize>)
    ensures
        is_permutation(order@, names@.len()),
        sorted_by_name(name_texts(names@), order@),
{
    let ghost texts = name_texts(names@);
    let mut chars: Vec<Vec<char>> = Vec::new();
    let mut k: usize = 0;
    while k < names.len()
        invariant
            0 <= k <= names@.len(),
            texts == name_texts(names@),
            chars@.len() == k,
            forall|i: int| 0 <= i < k ==> (#[trigger] chars@[i])@ == texts[i],
        decreases names@.len() - k,
    {
        let c = chars_of(names[k].as_str());
        chars.push(c);
        k = k + 1;
    }
    let mut order: Vec<usize> = Vec::new();
    let mut k: usize = 0;
    while k < names.len()
        invariant
            0 <= k <= names@.len(),
            texts == name_texts(names@),
            texts.len() == names@.len(),
            chars@.len() == names@.len(),
            forall|i: int| 0 <= i < names@.len() ==> (#[trigger] chars@[i])@ == texts[i],
            is_permutation(order@, k as nat),
            sorted_by_name(texts, order@),
        decreases names@.len() - k,
    {
        let mut p: usize = 0;
        while p < order.len() && !chars_lt(&chars[k], &chars[order[p]])
            invariant
                0 <= p <= order@.len(),
                k < names@.len(),
                chars@.len() == names@.len(),
                forall|i: int| 0 <= i < names@.len() ==> (#[trigger] chars@[i])@ == texts[i],
                is_permutation(order@, k as nat),
                forall|i: int| 0 <= i < p ==> !text_lt(texts[k as int], #[trigger] texts[order@[i] as int]),
            decreases order@.len() - p,
        {
            p = p + 1;
        }
        let ghost before = order@;
        order.insert(p, k);
        proof {
            lemma_insert_keeps_order(texts, before, p as int, k);
        }
        k = k + 1;
    }
    order
}

} // verus!
