//! Sequence scanning: extracting document sequence numbers from directory
//! entry names that follow the fixed naming conventions, and deriving the
//! next number from the current set.
//!
//! The filesystem is the source of truth: callers list a directory (one
//! level, non-recursive) and hand the entry names here. A homework entry is
//! a directory named `homework<N>`; a lesson entry is a file named
//! `les<N>.tex`. Entries that do not match are skipped, never an error.

use vstd::prelude::*;
use crate::text::{is_digit, is_digit_exec, digit_val, dec_val, dec_rep, all_digits, chars_vec,
    lemma_dec_rep_digits, lemma_dec_val_of_rep};

verus! {

/// The number embedded in a name of the shape `prefix`, then one or more
/// decimal digits, then `suffix`; `None` when the name has another shape or
/// the number does not fit in a `u32`.
pub open spec fn name_num(s: Seq<char>, prefix: Seq<char>, suffix: Seq<char>) -> Option<u32> {
    let p = prefix.len() as int;
    let q = suffix.len() as int;
    if s.len() >= p + q + 1 && s.subrange(0, p) == prefix && s.subrange(
        s.len() - q,
        s.len() as int,
    ) == suffix && all_digits(s.subrange(p, s.len() - q)) && dec_val(
        s.subrange(p, s.len() - q),
    ) <= u32::MAX {
        Some(dec_val(s.subrange(p, s.len() - q)) as u32)
    } else {
        None
    }
}

/// The homework sequence number of an entry name `homework<N>`.
pub open spec fn hw_num(s: Seq<char>) -> Option<u32> {
    name_num(s, "homework"@, ""@)
}

/// The lesson sequence number of an entry name `les<N>.tex`.
pub open spec fn lesson_num(s: Seq<char>) -> Option<u32> {
    name_num(s, "les"@, ".tex"@)
}

/// The homework numbers among `names`, in directory order.
pub open spec fn homework_numbers(names: Seq<String>) -> Seq<u32> {
    names.filter_map(|n: String| hw_num(n@))
}

/// The lesson numbers among `names`, in directory order.
pub open spec fn lesson_numbers(names: Seq<String>) -> Seq<u32> {
    names.filter_map(|n: String| lesson_num(n@))
}

/// A name generated for number `n` scans back to exactly `n`: the factory
/// and the scanner agree, so an existing number is never reused.
pub proof fn lemma_generated_name_scans_back(n: u32)
    ensures
        hw_num("homework"@ + dec_rep(n as nat)) == Some(n),
        lesson_num("les"@ + dec_rep(n as nat) + ".tex"@) == Some(n),
{
    reveal_strlit("");
    lemma_dec_rep_digits(n as nat);
    lemma_dec_val_of_rep(n as nat);
    let d = dec_rep(n as nat);
    let h = "homework"@ + d;
    assert(h.subrange(0, "homework"@.len() as int) =~= "homework"@);
    assert(h.subrange(h.len() - ""@.len(), h.len() as int) =~= ""@);
    assert(h.subrange("homework"@.len() as int, h.len() - ""@.len()) =~= d);
    let l = "les"@ + d + ".tex"@;
    assert(l.subrange(0, "les"@.len() as int) =~= "les"@);
    assert(l.subrange(l.len() - ".tex"@.len(), l.len() as int) =~= ".tex"@);
    assert(l.subrange("les"@.len() as int, l.len() - ".tex"@.len()) =~= d);
}

/// Ascending order, duplicates allowed.
pub open spec fn sorted(s: Seq<u32>) -> bool {
    forall|i: int, j: int| 0 <= i < j < s.len() ==> s[i] <= s[j]
}

/// The largest element of a non-empty sequence.
pub open spec fn seq_max(s: Seq<u32>) -> u32
    recommends
        s.len() > 0,
    decreases s.len(),
{
    if s.len() == 0 {
        0
    } else if s.len() == 1 {
        s[0]
    } else if s.last() > seq_max(s.drop_last()) {
        s.last()
    } else {
        seq_max(s.drop_last())
    }
}

/// The next sequence number of a document set: one more than the maximum,
/// or 1 for the empty set.
pub open spec fn next_of(s: Seq<u32>) -> int {
    if s.len() == 0 {
        1
    } else {
        seq_max(s) + 1
    }
}

/// The ascending rearrangement of a number sequence.
pub open spec fn sorted_numbers(s: Seq<u32>) -> Seq<u32> {
    s.sort_by(|a: u32, b: u32| a <= b)
}

/// `sorted_numbers` sorts ascending and keeps the multiset of elements.
pub proof fn lemma_sorted_numbers_props(s: Seq<u32>)
    ensures
        sorted(sorted_numbers(s)),
        sorted_numbers(s).to_multiset() == s.to_multiset(),
{
    let leq = |a: u32, b: u32| a <= b;
    assert(vstd::relations::total_ordering(leq)) by {
        assert(vstd::relations::reflexive(leq));
        assert(vstd::relations::antisymmetric(leq));
        assert(vstd::relations::transitive(leq));
        assert(vstd::relations::connected(leq));
    }
    s.lemma_sort_by_ensures(leq);
    assert(vstd::relations::sorted_by(s.sort_by(leq), leq));
    assert forall|i: int, j: int|
        0 <= i < j < sorted_numbers(s).len() implies sorted_numbers(s)[i] <= sorted_numbers(
        s,
    )[j] by {
        assert(leq(s.sort_by(leq)[i], s.sort_by(leq)[j]));
    }
}

/// Two sorted sequences with the same multiset of elements are equal.
pub proof fn lemma_sorted_multiset_unique(s1: Seq<u32>, s2: Seq<u32>)
    requires
        sorted(s1),
        sorted(s2),
        s1.to_multiset() == s2.to_multiset(),
    ensures
        s1 == s2,
    decreases s1.len(),
{
    vstd::seq_lib::to_multiset_len(s1);
    vstd::seq_lib::to_multiset_len(s2);
    if s1.len() == 0 {
        assert(s1 =~= s2);
    } else {
        vstd::seq_lib::to_multiset_contains(s1, s1[0]);
        vstd::seq_lib::to_multiset_contains(s2, s1[0]);
        vstd::seq_lib::to_multiset_contains(s1, s2[0]);
        vstd::seq_lib::to_multiset_contains(s2, s2[0]);
        assert(s2.contains(s1[0]));
        assert(s1.contains(s2[0]));
        let i = choose|i: int| 0 <= i < s2.len() && s2[i] == s1[0];
        let j = choose|j: int| 0 <= j < s1.len() && s1[j] == s2[0];
        assert(s2[0] <= s2[i]);
        assert(s1[0] <= s1[j]);
        assert(s1[0] == s2[0]);
        vstd::seq_lib::to_multiset_remove(s1, 0);
        vstd::seq_lib::to_multiset_remove(s2, 0);
        assert(s1.remove(0) =~= s1.drop_first());
        assert(s2.remove(0) =~= s2.drop_first());
        assert(s1.drop_first().to_multiset() == s2.drop_first().to_multiset());
        assert(sorted(s1.drop_first()));
        assert(sorted(s2.drop_first()));
        lemma_sorted_multiset_unique(s1.drop_first(), s2.drop_first());
        assert forall|k: int| 0 <= k < s1.len() implies s1[k] == s2[k] by {
            if k > 0 {
                assert(s1.drop_first()[k - 1] == s1[k]);
                assert(s2.drop_first()[k - 1] == s2[k]);
            }
        }
        assert(s1 =~= s2);
    }
}

/// A bound that holds of every element holds of every element of any
/// rearrangement.
pub proof fn lemma_bound_transfer(s1: Seq<u32>, s2: Seq<u32>, b: u32)
    requires
        s1.to_multiset() == s2.to_multiset(),
        forall|i: int| 0 <= i < s2.len() ==> s2[i] < b,
    ensures
        forall|i: int| 0 <= i < s1.len() ==> s1[i] < b,
{
    assert forall|i: int| 0 <= i < s1.len() implies s1[i] < b by {
        vstd::seq_lib::to_multiset_contains(s1, s1[i]);
        vstd::seq_lib::to_multiset_contains(s2, s1[i]);
        assert(s1.contains(s1[i]));
        assert(s2.contains(s1[i]));
        let j = choose|j: int| 0 <= j < s2.len() && s2[j] == s1[i];
    }
}

/// `seq_max` is an element of the sequence and bounds every element.
pub proof fn lemma_seq_max_props(s: Seq<u32>)
    requires
        s.len() > 0,
    ensures
        s.contains(seq_max(s)),
        forall|i: int| 0 <= i < s.len() ==> s[i] <= seq_max(s),
    decreases s.len(),
{
    if s.len() == 1 {
        assert(s[0] == seq_max(s));
    } else {
        lemma_seq_max_props(s.drop_last());
        let m = seq_max(s.drop_last());
        if s.last() > m {
            assert(s[s.len() - 1] == seq_max(s));
        } else {
            let i = choose|i: int| 0 <= i < s.drop_last().len() && s.drop_last()[i] == m;
            assert(s[i] == m);
        }
        assert forall|i: int| 0 <= i < s.len() implies s[i] <= seq_max(s) by {
            if i < s.len() - 1 {
                assert(s.drop_last()[i] == s[i]);
            }
        }
    }
}

/// Two sequences with the same multiset of elements have the same maximum.
pub proof fn lemma_seq_max_multiset(s1: Seq<u32>, s2: Seq<u32>)
    requires
        s1.to_multiset() == s2.to_multiset(),
        s1.len() > 0,
    ensures
        s2.len() > 0,
        seq_max(s1) == seq_max(s2),
{
    vstd::seq_lib::to_multiset_len(s1);
    vstd::seq_lib::to_multiset_len(s2);
    assert(s2.len() > 0);
    lemma_seq_max_props(s1);
    lemma_seq_max_props(s2);
    vstd::seq_lib::to_multiset_contains(s1, seq_max(s1));
    vstd::seq_lib::to_multiset_contains(s2, seq_max(s1));
    vstd::seq_lib::to_multiset_contains(s1, seq_max(s2));
    vstd::seq_lib::to_multiset_contains(s2, seq_max(s2));
    assert(s2.contains(seq_max(s1)));
    let i = choose|i: int| 0 <= i < s2.len() && s2[i] == seq_max(s1);
    assert(seq_max(s1) <= seq_max(s2));
    assert(s1.contains(seq_max(s2)));
    let j = choose|j: int| 0 <= j < s1.len() && s1[j] == seq_max(s2);
    assert(seq_max(s2) <= seq_max(s1));
}

/// In a sorted non-empty sequence, the last element is the maximum.
pub proof fn lemma_sorted_last_is_max(s: Seq<u32>)
    requires
        sorted(s),
        s.len() > 0,
    ensures
        s.last() == seq_max(s),
{
    lemma_seq_max_props(s);
    let i = choose|i: int| 0 <= i < s.len() && s[i] == seq_max(s);
    assert(s[i] <= s[s.len() - 1] || i == s.len() - 1);
    assert(s.last() <= seq_max(s));
}

/// Dropping characters from the right never increases the decimal value.
proof fn lemma_dec_val_take_le(s: Seq<char>, i: int)
    requires
        0 <= i <= s.len(),
    ensures
        dec_val(s.take(i)) <= dec_val(s),
    decreases s.len() - i,
{
    if i < s.len() {
        lemma_dec_val_take_le(s, i + 1);
        assert(s.take(i + 1).drop_last() =~= s.take(i));
        assert(dec_val(s.take(i + 1)) == dec_val(s.take(i)) * 10 + digit_val(s.take(i + 1).last()));
    } else {
        assert(s.take(i) =~= s);
    }
}

/// `filter_map` depends only on the pointwise behaviour of its function.
proof fn lemma_filter_map_ext<A, B>(s: Seq<A>, f1: spec_fn(A) -> Option<B>, f2: spec_fn(A) -> Option<B>)
    requires
        forall|a: A| #[trigger] f1(a) == f2(a),
    ensures
        s.filter_map(f1) == s.filter_map(f2),
    decreases s.len(),
{
    if s.len() == 0 {
        assert(s.filter_map(f1) =~= s.filter_map(f2));
    } else {
        lemma_filter_map_ext(s.drop_last(), f1, f2);
        assert(f1(s.last()) == f2(s.last()));
        assert(s.filter_map(f1) =~= s.filter_map(f2));
    }
}

/// Matches `name` against `prefix`, one or more digits, `suffix`, and
/// returns the embedded number when it fits in a `u32`.
fn match_name(name: &str, prefix: &Vec<char>, suffix: &Vec<char>) -> (r: Option<u32>)
    ensures
        r == name_num(name@, prefix@, suffix@),
{
    let nv = chars_vec(name);
    let p: usize = prefix.len();
    let q: usize = suffix.len();
    if nv.len() < p || nv.len() - p <= q {
        return None;
    }
    let end: usize = nv.len() - q;
    // the prefix characters
    let mut i: usize = 0;
    while i < p
        invariant
            i <= p,
            p <= end <= nv.len(),
            end == nv.len() - q,
            p + q < nv.len(),
            nv@ == name@,
            p == prefix@.len(),
            q == suffix@.len(),
            forall|k: int| 0 <= k < i ==> nv@[k] == prefix@[k],
        decreases p - i,
    {
        if nv[i] != prefix[i] {
            proof {
                assert(name@.subrange(0, p as int)[i as int] != prefix@[i as int]);
            }
            return None;
        }
        i = i + 1;
    }
    assert(name@.subrange(0, p as int) =~= prefix@);
    // the suffix characters
    let mut j: usize = 0;
    while j < q
        invariant
            j <= q,
            p <= end <= nv.len(),
            end == nv.len() - q,
            p + q < nv.len(),
            nv@ == name@,
            p == prefix@.len(),
            q == suffix@.len(),
            forall|k: int| 0 <= k < j ==> nv@[end + k] == suffix@[k],
        decreases q - j,
    {
        if nv[end + j] != suffix[j] {
            proof {
                assert(name@.subrange(end as int, nv@.len() as int)[j as int] != suffix@[j as int]);
            }
            return None;
        }
        j = j + 1;
    }
    assert(name@.subrange(end as int, name@.len() as int) =~= suffix@);
    // the digits between them
    let ghost mid = name@.subrange(p as int, end as int);
    let mut v: u64 = 0;
    let mut k: usize = p;
    while k < end
        invariant
            p <= k <= end <= nv.len(),
            end == nv.len() - q,
            p + q < nv.len(),
            nv@ == name@,
            p == prefix@.len(),
            q == suffix@.len(),
            mid == name@.subrange(p as int, end as int),
            all_digits(mid.take(k - p)),
            v == dec_val(mid.take(k - p)),
            v <= u32::MAX,
        decreases end - k,
    {
        let c = nv[k];
        if !is_digit_exec(c) {
            proof {
                assert(mid[k - p] == c);
                assert(!all_digits(mid));
            }
            return None;
        }
        let u: u32 = c as u32;
        v = v * 10 + (u - 48) as u64;
        proof {
            assert(mid.take(k - p + 1).drop_last() =~= mid.take(k - p));
            assert(mid.take(k - p + 1).last() == c);
            assert(digit_val(c) == u - 48);
            assert(v == dec_val(mid.take(k - p + 1)));
            assert(all_digits(mid.take(k - p + 1)));
        }
        if v > 0xFFFF_FFFF {
            proof {
                lemma_dec_val_take_le(mid, k - p + 1);
                assert(dec_val(mid) > u32::MAX);
            }
            return None;
        }
        k = k + 1;
    }
    assert(mid.take(end - p) =~= mid);
    assert(name_num(name@, prefix@, suffix@) == Some(dec_val(mid) as u32));
    Some(v as u32)
}

/// Inserts `x` into a sorted vector, keeping it sorted.
fn insert_sorted(v: &mut Vec<u32>, x: u32)
    requires
        sorted(old(v)@),
    ensures
        sorted(final(v)@),
        final(v)@.to_multiset() == old(v)@.to_multiset().insert(x),
{
    let mut idx: usize = 0;
    while idx < v.len() && v[idx] <= x
        invariant
            sorted(v@),
            v@ == old(v)@,
            idx <= v@.len(),
            forall|k: int| 0 <= k < idx ==> v@[k] <= x,
        decreases v@.len() - idx,
    {
        idx = idx + 1;
    }
    let ghost s0 = v@;
    v.insert(idx, x);
    proof {
        let s1 = v@;
        assert(s1 == s0.insert(idx as int, x));
        assert forall|a: int, b: int| 0 <= a < b < s1.len() implies s1[a] <= s1[b] by {
            if b < idx {
                assert(s1[a] == s0[a] && s1[b] == s0[b]);
            } else if a > idx {
                assert(s1[a] == s0[a - 1] && s1[b] == s0[b - 1]);
            } else if a < idx && b == idx {
                assert(s1[a] == s0[a] && s1[b] == x);
            } else if a == idx && b > idx {
                assert(s1[a] == x && s1[b] == s0[b - 1]);
                assert(idx < s0.len() ==> x < s0[idx as int]);
                assert(s0[idx as int] <= s0[b - 1]);
            } else if a < idx && b > idx {
                assert(s1[a] == s0[a] && s1[b] == s0[b - 1]);
                assert(idx < s0.len() ==> x < s0[idx as int]);
            }
        }
        vstd::seq_lib::to_multiset_insert(s0, idx as int, x);
    }
}

/// Scans entry names for the given naming convention and returns the
/// embedded numbers sorted ascending; non-matching entries are skipped.
fn scan_names(names: &Vec<String>, prefix: &Vec<char>, suffix: &Vec<char>) -> (r: Vec<u32>)
    ensures
        sorted(r@),
        r@.to_multiset() == names@.filter_map(
            |n: String| name_num(n@, prefix@, suffix@),
        ).to_multiset(),
{
    broadcast use vstd::seq_lib::group_to_multiset_ensures;

    let ghost f = |n: String| name_num(n@, prefix@, suffix@);
    let mut r: Vec<u32> = Vec::new();
    let mut i: usize = 0;
    proof {
        assert(names@.take(0int).filter_map(f) =~= Seq::<u32>::empty());
        assert(r@.to_multiset() =~= names@.take(0int).filter_map(f).to_multiset());
    }
    while i < names.len()
        invariant
            i <= names@.len(),
            sorted(r@),
            r@.to_multiset() == names@.take(i as int).filter_map(f).to_multiset(),
            f == (|n: String| name_num(n@, prefix@, suffix@)),
        decreases names@.len() - i,
    {
        let m = match_name(names[i].as_str(), prefix, suffix);
        proof {
            names@.lemma_filter_map_take_succ(f, i as int);
        }
        match m {
            Some(x) => {
                insert_sorted(&mut r, x);
                proof {
                    let prev = names@.take(i as int).filter_map(f);
                    assert(prev + seq![x] =~= prev.push(x));
                    vstd::seq_lib::to_multiset_build(prev, x);
                    assert(names@.take(i as int + 1).filter_map(f) =~= prev + seq![x]);
                }
            },
            None => {
                proof {
                    let prev = names@.take(i as int).filter_map(f);
                    assert(prev + Seq::<u32>::empty() =~= prev);
                    assert(names@.take(i as int + 1).filter_map(f) =~= prev);
                }
            },
        }
        i = i + 1;
    }
    proof {
        assert(names@.take(names@.len() as int) =~= names@);
    }
    r
}

/// The homework numbers present under a course directory, sorted ascending.
/// Entry names that do not follow the `homework<N>` convention are ignored.
pub fn detect_homeworks(names: &Vec<String>) -> (r: Vec<u32>)
    ensures
        r@ == sorted_numbers(homework_numbers(names@)),
        sorted(r@),
        r@.to_multiset() == homework_numbers(names@).to_multiset(),
{
    let prefix = chars_vec("homework");
    let suffix = chars_vec("");
    let r = scan_names(names, &prefix, &suffix);
    proof {
        lemma_filter_map_ext(
            names@,
            |n: String| name_num(n@, prefix@, suffix@),
            |n: String| hw_num(n@),
        );
        lemma_sorted_numbers_props(homework_numbers(names@));
        lemma_sorted_multiset_unique(r@, sorted_numbers(homework_numbers(names@)));
    }
    r
}

/// The lesson numbers present under a lecture directory, sorted ascending.
/// Entry names that do not follow the `les<N>.tex` convention are ignored.
pub fn detect_lessons(names: &Vec<String>) -> (r: Vec<u32>)
    ensures
        r@ == sorted_numbers(lesson_numbers(names@)),
        sorted(r@),
        r@.to_multiset() == lesson_numbers(names@).to_multiset(),
{
    let prefix = chars_vec("les");
    let suffix = chars_vec(".tex");
    let r = scan_names(names, &prefix, &suffix);
    proof {
        lemma_filter_map_ext(
            names@,
            |n: String| name_num(n@, prefix@, suffix@),
            |n: String| lesson_num(n@),
        );
        lemma_sorted_numbers_props(lesson_numbers(names@));
        lemma_sorted_multiset_unique(r@, sorted_numbers(lesson_numbers(names@)));
    }
    r
}

/// The next sequence number: one more than the maximum, or 1 when the set
/// is empty. The bound in `requires` is a machine limit: the successor must
/// fit in a `u32`.
pub fn next_number(nums: &Vec<u32>) -> (r: u32)
    requires
        forall|i: int| 0 <= i < nums@.len() ==> nums@[i] < u32::MAX,
    ensures
        r == next_of(nums@),
{
    if nums.len() == 0 {
        return 1;
    }
    let mut m: u32 = nums[0];
    let mut i: usize = 1;
    proof {
        assert(nums@.take(1int).len() == 1);
        assert(nums@.take(1int)[0] == nums@[0]);
    }
    while i < nums.len()
        invariant
            1 <= i <= nums@.len(),
            nums@.len() > 0,
            m == seq_max(nums@.take(i as int)),
            forall|k: int| 0 <= k < nums@.len() ==> nums@[k] < u32::MAX,
        decreases nums@.len() - i,
    {
        proof {
            assert(nums@.take(i as int + 1).drop_last() =~= nums@.take(i as int));
            assert(nums@.take(i as int + 1).last() == nums@[i as int]);
        }
        if nums[i] > m {
            m = nums[i];
        }
        i = i + 1;
    }
    proof {
        assert(nums@.take(nums@.len() as int) =~= nums@);
        lemma_seq_max_props(nums@);
    }
    m + 1
}

} // verus!
