use vstd::prelude::*;

use crate::test::{Test, TestV};

verus! {

/// Strict lexicographic order on character sequences, by code point; a
/// proper prefix comes first. This is the order `str` comparison gives,
/// since UTF-8 byte order agrees with code-point order.
pub open spec fn str_lt(a: Seq<char>, b: Seq<char>) -> bool
    decreases a.len(),
{
    if b.len() == 0 {
        false
    } else if a.len() == 0 {
        true
    } else if (a[0] as u32) < (b[0] as u32) {
        true
    } else if a[0] == b[0] {
        str_lt(a.drop_first(), b.drop_first())
    } else {
        false
    }
}

/// Strict lexicographic order on tag sequences: element-by-element by
/// `str_lt`, a proper prefix first.
pub open spec fn tags_lt(a: Seq<Seq<char>>, b: Seq<Seq<char>>) -> bool
    decreases a.len(),
{
    if b.len() == 0 {
        false
    } else if a.len() == 0 {
        true
    } else if str_lt(a[0], b[0]) {
        true
    } else if a[0] == b[0] {
        tags_lt(a.drop_first(), b.drop_first())
    } else {
        false
    }
}

/// Strict order on optional case labels: an absent label sorts before any
/// present one.
pub open spec fn case_lt(a: Option<Seq<char>>, b: Option<Seq<char>>) -> bool {
    match (a, b) {
        (Option::None, Option::None) => false,
        (Option::None, Option::Some(_)) => true,
        (Option::Some(_), Option::None) => false,
        (Option::Some(x), Option::Some(y)) => str_lt(x, y),
    }
}

/// The execution order of descriptors: by tag sequence, then by name, then
/// by case label. Strict: two descriptors with equal keys are unordered.
pub open spec fn key_lt(a: TestV, b: TestV) -> bool {
    ||| tags_lt(a.tags, b.tags)
    ||| (a.tags == b.tags && str_lt(a.name, b.name))
    ||| (a.tags == b.tags && a.name == b.name && case_lt(a.case, b.case))
}

fn str_lt_from(a: &str, b: &str, i: usize) -> (r: bool)
    requires
        i <= a@.len(),
        i <= b@.len(),
    ensures
        r == str_lt(a@.skip(i as int), b@.skip(i as int)),
    decreases a@.len() - i,
{
    proof {
        assert(a@.skip(i as int).len() == a@.len() - i);
        assert(b@.skip(i as int).len() == b@.len() - i);
    }
    if i == b.unicode_len() {
        false
    } else if i == a.unicode_len() {
        true
    } else {
        let ca = a.get_char(i);
        let cb = b.get_char(i);
        if (ca as u32) < (cb as u32) {
            true
        } else if (ca as u32) == (cb as u32) {
            proof {
                assert(a@.skip(i as int).drop_first() =~= a@.skip(i + 1));
                assert(b@.skip(i as int).drop_first() =~= b@.skip(i + 1));
            }
            str_lt_from(a, b, i + 1)
        } else {
            false
        }
    }
}

/// Decides `str_lt` on two strings.
pub fn str_is_lt(a: &str, b: &str) -> (r: bool)
    ensures
        r == str_lt(a@, b@),
{
    proof {
        assert(a@.skip(0) =~= a@);
        assert(b@.skip(0) =~= b@);
    }
    str_lt_from(a, b, 0)
}

fn tags_lt_from(a: &Vec<String>, b: &Vec<String>, i: usize) -> (r: bool)
    requires
        i <= a@.len(),
        i <= b@.len(),
    ensures
        r == tags_lt(a.deep_view().skip(i as int), b.deep_view().skip(i as int)),
    decreases a@.len() - i,
{
    proof {
        assert(a.deep_view().len() == a@.len());
        assert(b.deep_view().len() == b@.len());
    }
    if i == b.len() {
        false
    } else if i == a.len() {
        true
    } else {
        proof {
            assert(a.deep_view().skip(i as int)[0] == a@[i as int]@);
            assert(b.deep_view().skip(i as int)[0] == b@[i as int]@);
        }
        if str_is_lt(a[i].as_str(), b[i].as_str()) {
            true
        } else if a[i] == b[i] {
            proof {
                assert(a.deep_view().skip(i as int).drop_first() =~= a.deep_view().skip(i + 1));
                assert(b.deep_view().skip(i as int).drop_first() =~= b.deep_view().skip(i + 1));
            }
            tags_lt_from(a, b, i + 1)
        } else {
            false
        }
    }
}

/// Decides `tags_lt` on two tag vectors.
pub fn tags_is_lt(a: &Vec<String>, b: &Vec<String>) -> (r: bool)
    ensures
        r == tags_lt(a.deep_view(), b.deep_view()),
{
    proof {
        assert(a.deep_view().skip(0) =~= a.deep_view());
        assert(b.deep_view().skip(0) =~= b.deep_view());
    }
    tags_lt_from(a, b, 0)
}

/// Decides equality of two tag vectors, element by element.
pub fn tags_eq(a: &Vec<String>, b: &Vec<String>) -> (r: bool)
    ensures
        r == (a.deep_view() == b.deep_view()),
{
    if a.len() != b.len() {
        proof {
            assert(a.deep_view().len() != b.deep_view().len());
        }
        return false;
    }
    let n = a.len();
    let mut i: usize = 0;
    while i < n
        invariant
            n == a@.len() == b@.len(),
            i <= n,
            forall|j: int| 0 <= j < i ==> a.deep_view()[j] == b.deep_view()[j],
        decreases n - i,
    {
        if !(a[i] == b[i]) {
            proof {
                assert(a.deep_view()[i as int] != b.deep_view()[i as int]);
            }
            return false;
        }
        i += 1;
    }
    proof {
        assert(a.deep_view() =~= b.deep_view());
    }
    true
}

fn case_is_lt(a: &Option<String>, b: &Option<String>) -> (r: bool)
    ensures
        r == case_lt(a.deep_view(), b.deep_view()),
{
    match (a, b) {
        (Option::None, Option::None) => false,
        (Option::None, Option::Some(_)) => true,
        (Option::Some(_), Option::None) => false,
        (Option::Some(x), Option::Some(y)) => str_is_lt(x.as_str(), y.as_str()),
    }
}

pub(crate) fn str_eq(a: &String, b: &String) -> (r: bool)
    ensures
        r == (a@ == b@),
{
    *a == *b
}

/// Decides the strict execution order `key_lt` on two descriptors.
pub fn test_is_lt(a: &Test, b: &Test) -> (r: bool)
    ensures
        r == key_lt(a@, b@),
{
    if tags_is_lt(&a.tags, &b.tags) {
        true
    } else if tags_eq(&a.tags, &b.tags) {
        if str_is_lt(a.name.as_str(), b.name.as_str()) {
            true
        } else if str_eq(&a.name, &b.name) {
            case_is_lt(&a.case, &b.case)
        } else {
            false
        }
    } else {
        false
    }
}

} // verus!
