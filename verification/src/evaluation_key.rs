//! The key under which the evaluation of a candidate is remembered.

use vstd::prelude::*;
use vstd::relations::{sorted_by, total_ordering};

use crate::text::{append_text, decimal, decimal_digits, join, joined, letters, texts};

verus! {

/// The first text comes before the second in a dictionary, or is the same.
pub open spec fn comes_first(a: Seq<char>, b: Seq<char>) -> bool
    decreases a.len(),
{
    if a.len() == 0 {
        true
    } else if b.len() == 0 {
        false
    } else if a[0] == b[0] {
        comes_first(a.skip(1), b.skip(1))
    } else {
        (a[0] as int) < (b[0] as int)
    }
}

/// Every text comes first before those behind it.
pub open spec fn in_dictionary_order(parts: Seq<Seq<char>>) -> bool {
    forall|i: int, j: int| 0 <= i < j < parts.len() ==> comes_first(#[trigger] parts[i], #[trigger] parts[j])
}

/// The same texts in dictionary order.
pub open spec fn is_ordered_copy(parts: Seq<Seq<char>>, ordered: Seq<Seq<char>>) -> bool {
    in_dictionary_order(ordered) && ordered.to_multiset() == parts.to_multiset()
}

proof fn lemma_comes_first_is_reflexive(a: Seq<char>)
    ensures
        comes_first(a, a),
    decreases a.len(),
{
    if a.len() > 0 {
        lemma_comes_first_is_reflexive(a.skip(1));
    }
}

proof fn lemma_comes_first_is_antisymmetric(a: Seq<char>, b: Seq<char>)
    requires
        comes_first(a, b),
        comes_first(b, a),
    ensures
        a == b,
    decreases a.len(),
{
    if a.len() == 0 || b.len() == 0 {
        assert(a =~= b);
    } else {
        lemma_comes_first_is_antisymmetric(a.skip(1), b.skip(1));
        assert(a =~= seq![a[0]] + a.skip(1));
        assert(b =~= seq![b[0]] + b.skip(1));
    }
}

proof fn lemma_comes_first_is_transitive(a: Seq<char>, b: Seq<char>, c: Seq<char>)
    requires
        comes_first(a, b),
        comes_first(b, c),
    ensures
        comes_first(a, c),
    decreases a.len(),
{
    if a.len() > 0 && b.len() > 0 && c.len() > 0 && a[0] == b[0] && b[0] == c[0] {
        lemma_comes_first_is_transitive(a.skip(1), b.skip(1), c.skip(1));
    }
}

proof fn lemma_comes_first_is_total(a: Seq<char>, b: Seq<char>)
    ensures
        comes_first(a, b) || comes_first(b, a),
    decreases a.len(),
{
    if a.len() > 0 && b.len() > 0 {
        let (x, y) = (a[0], b[0]);
        if x == y {
            lemma_comes_first_is_total(a.skip(1), b.skip(1));
        } else {
            assert(x as int != y as int);
        }
    }
}

/// Whether the first text comes before the second in a dictionary.
fn precedes(a: &Vec<char>, b: &Vec<char>) -> (r: bool)
    ensures
        r == comes_first(a@, b@),
{
    let mut i: usize = 0;
    assert(a@.skip(0) =~= a@);
    assert(b@.skip(0) =~= b@);
    while i < a.len()
        invariant
            i <= a@.len(),
            i <= b@.len(),
            comes_first(a@, b@) == comes_first(a@.skip(i as int), b@.skip(i as int)),
        decreases a@.len() - i,
    {
        if i == b.len() {
            return false;
        }
        let x: char = a[i];
        let y: char = b[i];
        if x != y {
            return x < y;
        }
        assert(a@.skip(i as int).skip(1) =~= a@.skip(i as int + 1));
        assert(b@.skip(i as int).skip(1) =~= b@.skip(i as int + 1));
        i = i + 1;
    }
    true
}

fn ordered_copy(parts: &Vec<String>) -> (ordered: Vec<String>)
    ensures
        is_ordered_copy(texts(parts@), texts(ordered@)),
{
    let mut ordered: Vec<String> = Vec::new();
    let mut i: usize = 0;
    assert(texts(parts@).take(0) =~= texts(ordered@));
    while i < parts.len()
        invariant
            i <= parts@.len(),
            ordered@.len() == i,
            is_ordered_copy(texts(parts@).take(i as int), texts(ordered@)),
        decreases parts@.len() - i,
    {
        let part: Vec<char> = letters(parts[i].as_str());
        let mut at: usize = ordered.len();
        let mut moved: bool = true;
        while at > 0 && moved
            invariant
                at <= ordered@.len(),
                part@ == parts@[i as int]@,
                forall|k: int| at <= k < ordered@.len() ==> !comes_first(#[trigger] texts(ordered@)[k], part@),
                !moved ==> at > 0 && comes_first(texts(ordered@)[at as int - 1], part@),
            decreases at, if moved { 1int } else { 0int },
        {
            let other: Vec<char> = letters(ordered[at - 1].as_str());
            if precedes(&other, &part) {
                moved = false;
            } else {
                at = at - 1;
            }
        }
        let ghost before = texts(ordered@);
        ordered.insert(at, parts[i].clone());
        proof {
            let after = texts(ordered@);
            let all = texts(parts@);
            assert(after =~= before.insert(at as int, part@));
            vstd::seq_lib::to_multiset_remove(after, at as int);
            assert(after.remove(at as int) =~= before);
            after.to_multiset_ensures();
            assert(after.contains(after[at as int]));
            assert(after.to_multiset() =~= before.to_multiset().insert(part@));
            vstd::seq_lib::to_multiset_build(all.take(i as int), part@);
            assert(all.take(i as int + 1) =~= all.take(i as int).push(part@));
            assert forall|a: int, b: int| 0 <= a < b < after.len() implies comes_first(
                #[trigger] after[a],
                #[trigger] after[b],
            ) by {
                if a < at && b == at {
                    if a < at - 1 {
                        assert(comes_first(before[a], before[at as int - 1]));
                        lemma_comes_first_is_transitive(before[a], before[at as int - 1], part@);
                    }
                } else if a == at {
                    lemma_comes_first_is_total(before[b - 1], part@);
                } else {
                    let x = if a < at { a } else { a - 1 };
                    let y = if b < at { b } else { b - 1 };
                    assert(comes_first(before[x], before[y]));
                }
            }
        }
        i = i + 1;
    }
    assert(texts(parts@).take(i as int) =~= texts(parts@));
    ordered
}

/// The key of an evaluation at a sample rate and on so many folds, with the
/// parameters in the given order.
pub open spec fn key_text(sample_rate: nat, folds: nat, ordered: Seq<Seq<char>>) -> Seq<char> {
    "sr"@ + decimal_digits(sample_rate) + "|f"@ + decimal_digits(folds) + "|"@ + joined(ordered, "|"@)
}

/// The text is the key of an evaluation with these parameters.
pub open spec fn is_key_of(sample_rate: nat, folds: nat, parameters: Seq<Seq<char>>, key: Seq<char>) -> bool {
    exists|ordered: Seq<Seq<char>>| #[trigger]
        is_ordered_copy(parameters, ordered) && key == key_text(sample_rate, folds, ordered)
}

/// The key under which the evaluation of a candidate is remembered. Each
/// parameter is given as a text of its own; their order does not matter.
pub fn evaluation_key(sample_rate: usize, folds: usize, parameters: &Vec<String>) -> (key: String)
    ensures
        is_key_of(sample_rate as nat, folds as nat, texts(parameters@), key@),
{
    let ordered: Vec<String> = ordered_copy(parameters);
    let mut key: String = "sr".to_owned();
    append_text(&mut key, decimal(sample_rate).as_str());
    append_text(&mut key, "|f");
    append_text(&mut key, decimal(folds).as_str());
    append_text(&mut key, "|");
    append_text(&mut key, join(&ordered, "|").as_str());
    assert(is_ordered_copy(texts(parameters@), texts(ordered@)));
    key
}

/// The same parameters at the same sample rate and on as many folds have the
/// same key, in whatever order they come.
pub proof fn law_same_evaluation_has_the_same_key(
    sample_rate: nat,
    folds: nat,
    a: Seq<Seq<char>>,
    b: Seq<Seq<char>>,
    key_a: Seq<char>,
    key_b: Seq<char>,
)
    requires
        a.to_multiset() == b.to_multiset(),
        is_key_of(sample_rate, folds, a, key_a),
        is_key_of(sample_rate, folds, b, key_b),
    ensures
        key_a == key_b,
{
    let first = choose|ordered: Seq<Seq<char>>| #[trigger]
        is_ordered_copy(a, ordered) && key_a == key_text(sample_rate, folds, ordered);
    let second = choose|ordered: Seq<Seq<char>>| #[trigger]
        is_ordered_copy(b, ordered) && key_b == key_text(sample_rate, folds, ordered);
    let leq = |x: Seq<char>, y: Seq<char>| comes_first(x, y);
    assert forall|x: Seq<char>| #[trigger] leq(x, x) by {
        lemma_comes_first_is_reflexive(x);
    }
    assert forall|x: Seq<char>, y: Seq<char>| #[trigger] leq(x, y) && #[trigger] leq(y, x) implies x == y by {
        lemma_comes_first_is_antisymmetric(x, y);
    }
    assert forall|x: Seq<char>, y: Seq<char>, z: Seq<char>| #[trigger] leq(x, y) && #[trigger] leq(y, z) implies leq(
        x,
        z,
    ) by {
        lemma_comes_first_is_transitive(x, y, z);
    }
    assert forall|x: Seq<char>, y: Seq<char>| #[trigger] leq(x, y) || #[trigger] leq(y, x) by {
        lemma_comes_first_is_total(x, y);
    }
    assert(total_ordering(leq));
    assert(sorted_by(first, leq));
    assert(sorted_by(second, leq));
    vstd::seq_lib::lemma_sorted_unique(first, second, leq);
}

} // verus!
