//! Small helpers shared by the modules.

use vstd::prelude::*;
use vstd::string::StringExecFns;

verus! {

/// Whether two texts are equal.
pub fn str_eq(a: &str, b: &str) -> (r: bool)
    ensures
        r == (a@ == b@),
{
    String::from_str(a) == String::from_str(b)
}

/// Whether a list of keys holds this text.
pub open spec fn has_key(keys: Seq<String>, k: Seq<char>) -> bool {
    exists|i: int| 0 <= i < keys.len() && #[trigger] keys[i]@ == k
}

/// Whether a key list holds each key once.
pub open spec fn no_repeats(keys: Seq<String>) -> bool {
    forall|i: int, j: int|
        0 <= i < keys.len() && 0 <= j < keys.len() && i != j ==> #[trigger] keys[i]@ != #[trigger] keys[j]@
}

/// Two repeat-free key lists of the same length, the first held in the second, hold the same
/// keys.
proof fn lemma_same_keys(left: Seq<String>, right: Seq<String>)
    requires
        left.len() == right.len(),
        no_repeats(left),
        no_repeats(right),
        forall|i: int| 0 <= i < left.len() ==> has_key(right, #[trigger] left[i]@),
    ensures
        forall|k: Seq<char>| #[trigger] has_key(left, k) == has_key(right, k),
{
    let lv = left.map_values(|s: String| s@);
    let rv = right.map_values(|s: String| s@);
    assert(lv.no_duplicates()) by {
        assert forall|i: int, j: int| 0 <= i < lv.len() && 0 <= j < lv.len() && i != j implies lv[i] != lv[j] by {
            assert(left[i]@ != left[j]@);
        }
    }
    assert(rv.no_duplicates()) by {
        assert forall|i: int, j: int| 0 <= i < rv.len() && 0 <= j < rv.len() && i != j implies rv[i] != rv[j] by {
            assert(right[i]@ != right[j]@);
        }
    }
    lv.unique_seq_to_set();
    rv.unique_seq_to_set();
    assert(lv.to_set().subset_of(rv.to_set())) by {
        assert forall|x: Seq<char>| lv.to_set().contains(x) implies rv.to_set().contains(x) by {
            let i = choose|i: int| 0 <= i < lv.len() && lv[i] == x;
            assert(has_key(right, left[i]@));
            let j = choose|j: int| 0 <= j < right.len() && #[trigger] right[j]@ == left[i]@;
            assert(rv[j] == x);
        }
    }
    vstd::set_lib::lemma_subset_equality(lv.to_set(), rv.to_set());
    assert forall|k: Seq<char>| #[trigger] has_key(left, k) == has_key(right, k) by {
        if has_key(left, k) {
            let i = choose|i: int| 0 <= i < left.len() && #[trigger] left[i]@ == k;
            assert(lv[i] == k);
            assert(lv.to_set().contains(k));
            assert(rv.to_set().contains(k));
            let j = choose|j: int| 0 <= j < rv.len() && rv[j] == k;
            assert(right[j]@ == k);
        }
        if has_key(right, k) {
            let j = choose|j: int| 0 <= j < right.len() && #[trigger] right[j]@ == k;
            assert(rv[j] == k);
            assert(rv.to_set().contains(k));
            assert(lv.to_set().contains(k));
            let i = choose|i: int| 0 <= i < lv.len() && lv[i] == k;
            assert(left[i]@ == k);
        }
    }
}

/// Whether two key lists have the same length and every key of the first is in the second.
/// For lists without repeats this is whether they hold the same keys.
pub fn keys_are_the_same(left: &Vec<String>, right: &Vec<String>) -> (r: bool)
    ensures
        r == (left@.len() == right@.len() && forall|i: int|
            0 <= i < left@.len() ==> has_key(right@, #[trigger] left@[i]@)),
        r && no_repeats(left@) && no_repeats(right@) ==> forall|k: Seq<char>|
            #[trigger] has_key(left@, k) == has_key(right@, k),
{
    if left.len() != right.len() {
        return false;
    }
    let mut i: usize = 0;
    while i < left.len()
        invariant
            i <= left@.len(),
            forall|j: int| 0 <= j < i ==> has_key(right@, #[trigger] left@[j]@),
        decreases left@.len() - i,
    {
        let mut found = false;
        let mut k: usize = 0;
        while k < right.len()
            invariant
                i < left@.len(),
                k <= right@.len(),
                found ==> has_key(right@, left@[i as int]@),
                !found ==> forall|m: int| 0 <= m < k ==> #[trigger] right@[m]@ != left@[i as int]@,
            decreases right@.len() - k,
        {
            if str_eq(right[k].as_str(), left[i].as_str()) {
                found = true;
            }
            k = k + 1;
        }
        if !found {
            proof {
                if has_key(right@, left@[i as int]@) {
                    let m = choose|m: int| 0 <= m < right@.len() && right@[m]@ == left@[i as int]@;
                }
            }
            return false;
        }
        i = i + 1;
    }
    proof {
        if no_repeats(left@) && no_repeats(right@) {
            lemma_same_keys(left@, right@);
        }
    }
    true
}

} // verus!
