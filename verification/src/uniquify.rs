//! Making a sequence of labels unique.

use crate::names::names_in;
use crate::names::UsedNames;
use crate::text::decimal_text;
use crate::text::digit_char;
use crate::text::digits;
use crate::text::placeholder;
use crate::text::placeholder_name;
use vstd::prelude::*;

verus! {

/// The name a label starts from: the label itself, or the placeholder of its
/// position where the label is empty.
pub open spec fn base_name(label: Seq<char>, index: nat) -> Seq<char> {
    if label.len() == 0 {
        placeholder(index)
    } else {
        label
    }
}

/// The `k`-th name tried for a base name: the base name itself, then the base
/// name followed by an underscore and `k` in decimal.
pub open spec fn candidate(base: Seq<char>, k: nat) -> Seq<char> {
    if k == 0 {
        base
    } else {
        base + seq!['_'] + digits(k)
    }
}

/// `k` is the first suffix whose candidate is not in `used`.
pub open spec fn first_free(used: Set<Seq<char>>, base: Seq<char>, k: nat) -> bool {
    &&& !used.contains(candidate(base, k))
    &&& forall|j: nat| j < k ==> used.contains(#[trigger] candidate(base, j))
}

/// The first suffix whose candidate is not in `used`.
pub open spec fn free_suffix(used: Set<Seq<char>>, base: Seq<char>) -> nat {
    choose|k: nat| first_free(used, base, k)
}

/// The unique names of a sequence of labels: each label, from left to
/// right, gets the first candidate of its base name that no label before it
/// was given.
pub open spec fn unique_names(labels: Seq<Seq<char>>) -> Seq<Seq<char>>
    decreases labels.len(),
{
    if labels.len() == 0 {
        Seq::empty()
    } else {
        let before = unique_names(labels.drop_last());
        let base = base_name(labels.last(), (labels.len() - 1) as nat);
        before.push(candidate(base, free_suffix(before.to_set(), base)))
    }
}

/// A decimal numeral is never empty.
pub proof fn lemma_digits_nonempty(n: nat)
    ensures
        digits(n).len() >= 1,
    decreases n,
{
    if n >= 10 {
        lemma_digits_nonempty(n / 10);
    }
}

/// Two numbers with the same decimal numeral are equal.
pub proof fn lemma_digits_injective(a: nat, b: nat)
    requires
        digits(a) == digits(b),
    ensures
        a == b,
    decreases a,
{
    lemma_digits_nonempty(a / 10);
    lemma_digits_nonempty(b / 10);
    if a < 10 && b < 10 {
        assert(digits(a)[0] == digit_char(a));
        assert(digits(b)[0] == digit_char(b));
    } else if a >= 10 && b >= 10 {
        let da = digits(a / 10);
        let db = digits(b / 10);
        assert(digits(a) == da.push(digit_char(a % 10)));
        assert(digits(b) == db.push(digit_char(b % 10)));
        assert(da =~= digits(a).drop_last());
        assert(db =~= digits(b).drop_last());
        assert(digit_char(a % 10) == digits(a).last());
        assert(digit_char(b % 10) == digits(b).last());
        lemma_digits_injective(a / 10, b / 10);
    } else if a < 10 {
        assert(digits(a).len() == 1);
        assert(digits(b) == digits(b / 10).push(digit_char(b % 10)));
    } else {
        assert(digits(b).len() == 1);
        assert(digits(a) == digits(a / 10).push(digit_char(a % 10)));
    }
}

/// Different suffixes give different candidates.
pub proof fn lemma_candidate_injective(base: Seq<char>, j: nat, k: nat)
    requires
        candidate(base, j) == candidate(base, k),
    ensures
        j == k,
{
    lemma_digits_nonempty(j);
    lemma_digits_nonempty(k);
    if j != 0 && k != 0 {
        let cj = candidate(base, j);
        let ck = candidate(base, k);
        let start = base.len() + 1;
        assert(cj.len() == start + digits(j).len());
        assert(ck.len() == start + digits(k).len());
        assert(digits(j) =~= cj.subrange(start as int, cj.len() as int));
        assert(digits(k) =~= ck.subrange(start as int, ck.len() as int));
        lemma_digits_injective(j, k);
    } else if j != 0 {
        assert(candidate(base, j).len() > base.len());
    } else if k != 0 {
        assert(candidate(base, k).len() > base.len());
    }
}

/// The first `k` candidates of a base name, as a set of `k` names.
proof fn first_candidates(base: Seq<char>, k: nat) -> (tried: Set<Seq<char>>)
    ensures
        tried.finite(),
        tried.len() == k,
        forall|x: Seq<char>| #[trigger]
            tried.contains(x) <==> exists|j: nat| j < k && x == candidate(base, j),
    decreases k,
{
    if k == 0 {
        Set::empty()
    } else {
        let p: nat = (k - 1) as nat;
        let before = first_candidates(base, p);
        let last = candidate(base, p);
        if before.contains(last) {
            let j = choose|j: nat| j < p && last == candidate(base, j);
            lemma_candidate_injective(base, j, p);
        }
        let tried = before.insert(last);
        assert forall|x: Seq<char>| #[trigger]
            tried.contains(x) <==> exists|j: nat| j < k && x == candidate(base, j) by {
            if tried.contains(x) {
                if x == last {
                    assert(p < k && x == candidate(base, p));
                } else {
                    let j = choose|j: nat| j < p && x == candidate(base, j);
                    assert(j < k && x == candidate(base, j));
                }
            }
            if exists|j: nat| j < k && x == candidate(base, j) {
                let j = choose|j: nat| j < k && x == candidate(base, j);
                if j < p {
                    assert(before.contains(x));
                }
            }
        }
        tried
    }
}

/// A finite set that holds the first `k` candidates of a base name has at
/// least `k` elements.
pub proof fn lemma_candidates_bounded(used: Set<Seq<char>>, base: Seq<char>, k: nat)
    requires
        used.finite(),
        forall|j: nat| j < k ==> used.contains(#[trigger] candidate(base, j)),
    ensures
        k <= used.len(),
{
    let tried = first_candidates(base, k);
    assert(tried.subset_of(used));
    vstd::set_lib::lemma_len_subset(tried, used);
}

/// From any suffix below which every candidate is taken, a first free suffix
/// is reached.
proof fn lemma_first_free_from(used: Set<Seq<char>>, base: Seq<char>, k: nat)
    requires
        used.finite(),
        forall|j: nat| j < k ==> used.contains(#[trigger] candidate(base, j)),
    ensures
        exists|m: nat| first_free(used, base, m),
    decreases used.len() - k,
{
    lemma_candidates_bounded(used, base, k);
    if !used.contains(candidate(base, k)) {
        assert(first_free(used, base, k));
    } else {
        lemma_candidates_bounded(used, base, k + 1);
        lemma_first_free_from(used, base, k + 1);
    }
}

/// In a finite set of names every base name has exactly one first free
/// suffix, and `free_suffix` is that one.
pub proof fn lemma_free_suffix(used: Set<Seq<char>>, base: Seq<char>)
    requires
        used.finite(),
    ensures
        first_free(used, base, free_suffix(used, base)),
        forall|k: nat| first_free(used, base, k) ==> k == free_suffix(used, base),
{
    lemma_first_free_from(used, base, 0);
    let f = free_suffix(used, base);
    assert forall|k: nat| first_free(used, base, k) implies k == f by {
        if k < f {
            assert(used.contains(candidate(base, k)));
        } else if f < k {
            assert(used.contains(candidate(base, f)));
        }
    }
}

/// There is one unique name for each label.
pub proof fn lemma_unique_names_len(labels: Seq<Seq<char>>)
    ensures
        unique_names(labels).len() == labels.len(),
    decreases labels.len(),
{
    if labels.len() > 0 {
        lemma_unique_names_len(labels.drop_last());
    }
}

/// Writes the candidate of `base` with the suffix `k`.
fn suffixed(base: &String, k: usize) -> (name: String)
    requires
        k > 0,
    ensures
        name@ == candidate(base@, k as nat),
{
    let mut name: String = base.clone();
    proof {
        reveal_strlit("_");
        assert("_"@ =~= seq!['_']);
    }
    name.append("_");
    let number: String = decimal_text(k as u64);
    name.append(number.as_str());
    name
}

/// Makes the labels unique, from left to right.
///
/// An empty label starts from the placeholder of its position. A name that
/// an earlier label was given is followed by `_1`, `_2`, ... until it is
/// free. The result has one name for each label, in the same order, no name
/// is empty and no two are equal.
pub fn uniquify(labels: &Vec<String>) -> (names: Vec<String>)
    ensures
        names.deep_view() == unique_names(labels.deep_view()),
        names.len() == labels.len(),
        names.deep_view().no_duplicates(),
        forall|i: int| 0 <= i < names.len() ==> (#[trigger] names[i])@.len() > 0,
{
    let n: usize = labels.len();
    let mut names: Vec<String> = Vec::with_capacity(n);
    let mut used: UsedNames = UsedNames::new();
    let mut i: usize = 0;
    proof {
        assert(names.deep_view() =~= unique_names(labels.deep_view().take(0)));
        assert(names.deep_view().to_set() =~= Set::<Seq<char>>::empty());
    }
    while i < n
        invariant
            n == labels.len(),
            i <= n,
            names.len() == i,
            names.deep_view() == unique_names(labels.deep_view().take(i as int)),
            names_in(used) == names.deep_view().to_set(),
        decreases n - i,
    {
        let ghost before = names.deep_view();
        proof {
            before.lemma_cardinality_of_set();
            vstd::seq_lib::seq_to_set_is_finite(before);
        }
        let base: String = if labels[i].as_str().is_empty() {
            placeholder_name(i)
        } else {
            labels[i].clone()
        };
        assert(base@ == base_name(labels[i as int]@, i as nat));
        let mut name: String = base.clone();
        let mut suffix: usize = 0;
        while used.contains(&name)
            invariant
                i < n,
                names_in(used) == before.to_set(),
                before.to_set().finite(),
                before.to_set().len() <= i,
                name@ == candidate(base@, suffix as nat),
                suffix <= i,
                forall|j: nat|
                    j < suffix ==> before.to_set().contains(#[trigger] candidate(base@, j)),
            decreases i - suffix,
        {
            proof {
                lemma_candidates_bounded(before.to_set(), base@, (suffix + 1) as nat);
            }
            suffix += 1;
            name = suffixed(&base, suffix);
        }
        proof {
            assert(first_free(before.to_set(), base@, suffix as nat));
            lemma_free_suffix(before.to_set(), base@);
            let part = labels.deep_view().take(i as int + 1);
            assert(part.drop_last() =~= labels.deep_view().take(i as int));
            assert(part.last() == labels[i as int]@);
            assert(unique_names(part) == before.push(name@));
            before.lemma_push_to_set_commute(name@);
        }
        let kept: String = name.clone();
        used.insert(name);
        names.push(kept);
        i += 1;
        proof {
            assert(names.deep_view() =~= before.push(kept@));
        }
    }
    proof {
        assert(labels.deep_view().take(n as int) =~= labels.deep_view());
        lemma_unique_names_distinct(labels.deep_view());
        assert forall|i: int| 0 <= i < names.len() implies (#[trigger] names[i])@.len() > 0 by {
            assert(names.deep_view()[i] == names[i]@);
        }
    }
    names
}

/// No two of the unique names are equal, so as a set they are as many as
/// the labels; and none is empty.
pub proof fn lemma_unique_names_distinct(labels: Seq<Seq<char>>)
    ensures
        unique_names(labels).no_duplicates(),
        unique_names(labels).to_set().len() == labels.len(),
        forall|i: int|
            0 <= i < unique_names(labels).len() ==> (#[trigger] unique_names(labels)[i]).len() > 0,
    decreases labels.len(),
{
    lemma_unique_names_len(labels);
    if labels.len() > 0 {
        let before = unique_names(labels.drop_last());
        let index = (labels.len() - 1) as nat;
        let base = base_name(labels.last(), index);
        lemma_unique_names_distinct(labels.drop_last());
        lemma_unique_names_len(labels.drop_last());
        vstd::seq_lib::seq_to_set_is_finite(before);
        lemma_free_suffix(before.to_set(), base);
        let name = candidate(base, free_suffix(before.to_set(), base));
        assert(!before.contains(name));
        lemma_digits_nonempty(index);
        assert(base.len() > 0);
        assert(name.len() > 0);
    }
    unique_names(labels).unique_seq_to_set();
}

/// Labels that are unique already, and none of them empty, stay as they
/// are.
pub proof fn lemma_unique_names_fixed(labels: Seq<Seq<char>>)
    requires
        labels.no_duplicates(),
        forall|i: int| 0 <= i < labels.len() ==> (#[trigger] labels[i]).len() > 0,
    ensures
        unique_names(labels) == labels,
    decreases labels.len(),
{
    if labels.len() > 0 {
        let before = labels.drop_last();
        lemma_unique_names_fixed(before);
        let base = base_name(labels.last(), (labels.len() - 1) as nat);
        vstd::seq_lib::seq_to_set_is_finite(before);
        assert(base == labels.last());
        assert(!before.to_set().contains(candidate(base, 0))) by {
            if before.contains(labels.last()) {
                let i = choose|i: int| 0 <= i < before.len() && before[i] == labels.last();
                assert(labels[i] == labels[labels.len() - 1]);
            }
        }
        assert(first_free(before.to_set(), base, 0));
        lemma_free_suffix(before.to_set(), base);
        assert(unique_names(labels) =~= labels);
    }
}

/// Making names unique a second time changes nothing.
pub proof fn lemma_unique_names_idempotent(labels: Seq<Seq<char>>)
    ensures
        unique_names(unique_names(labels)) == unique_names(labels),
{
    lemma_unique_names_distinct(labels);
    lemma_unique_names_fixed(unique_names(labels));
}

} // verus!
