//! The order of strings, and sorted lists of distinct strings.
use vstd::prelude::*;
use vstd::string::*;

use crate::text;

verus! {

/// Whether `a` comes before `b`: at the first place where they differ it has the smaller
/// character, or it is a proper prefix of `b`.
pub open spec fn text_before(a: Seq<char>, b: Seq<char>) -> bool
    decreases a.len(),
{
    if b.len() == 0 {
        false
    } else if a.len() == 0 {
        true
    } else if a[0] == b[0] {
        text_before(a.skip(1), b.skip(1))
    } else {
        (a[0] as u32) < (b[0] as u32)
    }
}

/// Each string comes before the next.
pub open spec fn ascending(s: Seq<Seq<char>>) -> bool {
    forall|i: int, j: int| 0 <= i < j < s.len() ==> text_before(#[trigger] s[i], #[trigger] s[j])
}

/// No string comes before itself.
pub proof fn lemma_before_irreflexive(a: Seq<char>)
    ensures
        !text_before(a, a),
    decreases a.len(),
{
    if a.len() > 0 {
        lemma_before_irreflexive(a.skip(1));
    }
}

pub proof fn lemma_before_transitive(a: Seq<char>, b: Seq<char>, c: Seq<char>)
    requires
        text_before(a, b),
        text_before(b, c),
    ensures
        text_before(a, c),
    decreases a.len(),
{
    if a.len() > 0 && b.len() > 0 && c.len() > 0 && a[0] == b[0] && b[0] == c[0] {
        lemma_before_transitive(a.skip(1), b.skip(1), c.skip(1));
    }
}

/// Of two different strings one comes before the other.
pub proof fn lemma_before_total(a: Seq<char>, b: Seq<char>)
    ensures
        text_before(a, b) || a == b || text_before(b, a),
    decreases a.len(),
{
    if a.len() == 0 || b.len() == 0 {
        if a.len() == 0 && b.len() == 0 {
            assert(a =~= b);
        }
    } else if a[0] != b[0] {
        vstd::utf8::char_u32_cast(a[0], a[0] as u32);
        vstd::utf8::char_u32_cast(b[0], b[0] as u32);
    } else {
        lemma_before_total(a.skip(1), b.skip(1));
        if a.skip(1) == b.skip(1) {
            assert(a =~= seq![a[0]] + a.skip(1));
            assert(b =~= seq![b[0]] + b.skip(1));
        }
    }
}

/// An ascending list is fixed by the strings that it holds.
pub proof fn lemma_ascending_unique(a: Seq<Seq<char>>, b: Seq<Seq<char>>)
    requires
        ascending(a),
        ascending(b),
        forall|k: Seq<char>| a.contains(k) == b.contains(k),
    ensures
        a == b,
    decreases a.len(),
{
    if a.len() == 0 {
        if b.len() > 0 {
            assert(b.contains(b[0]));
        }
        assert(a =~= b);
    } else {
        assert(a.contains(a.last()));
        let n = choose|n: int| 0 <= n < b.len() && b[n] == a.last();
        assert(b.contains(b.last()));
        let m = choose|m: int| 0 <= m < a.len() && a[m] == b.last();
        if m < a.len() - 1 {
            assert(text_before(a[m], a[a.len() - 1]));
            if n < b.len() - 1 {
                assert(text_before(b[n], b[b.len() - 1]));
                lemma_before_transitive(a[m], a.last(), b.last());
            }
            lemma_before_irreflexive(a[m]);
        }
        assert(a.last() == b.last());
        let x = a.drop_last();
        let y = b.drop_last();
        assert forall|k: Seq<char>| x.contains(k) == y.contains(k) by {
            if x.contains(k) {
                let i = choose|i: int| 0 <= i < x.len() && x[i] == k;
                assert(a[i] == k);
                assert(a.contains(k));
                let j = choose|j: int| 0 <= j < b.len() && b[j] == k;
                if j == b.len() - 1 {
                    assert(text_before(a[i], a[a.len() - 1]));
                    lemma_before_irreflexive(k);
                }
                assert(y[j] == k);
            }
            if y.contains(k) {
                let i = choose|i: int| 0 <= i < y.len() && y[i] == k;
                assert(b[i] == k);
                assert(b.contains(k));
                let j = choose|j: int| 0 <= j < a.len() && a[j] == k;
                if j == a.len() - 1 {
                    assert(text_before(b[i], b[b.len() - 1]));
                    lemma_before_irreflexive(k);
                }
                assert(x[j] == k);
            }
        }
        lemma_ascending_unique(x, y);
        assert(a =~= x.push(a.last()));
        assert(b =~= y.push(b.last()));
    }
}

/// The strings of a finite class, in ascending order.
pub open spec fn ascending_list(p: spec_fn(Seq<char>) -> bool) -> Seq<Seq<char>> {
    choose|r: Seq<Seq<char>>|
        #![trigger ascending(r)]
        ascending(r) && forall|k: Seq<char>| r.contains(k) == p(k)
}

/// An ascending list of the strings of a class is the one that `ascending_list` names.
pub proof fn lemma_ascending_list(r: Seq<Seq<char>>, p: spec_fn(Seq<char>) -> bool)
    requires
        ascending(r),
        forall|k: Seq<char>| r.contains(k) == p(k),
    ensures
        r == ascending_list(p),
{
    let other = ascending_list(p);
    assert(ascending(other) && forall|k: Seq<char>| other.contains(k) == p(k));
    assert forall|k: Seq<char>| r.contains(k) == other.contains(k) by {
        assert(other.contains(k) == p(k));
    }
    lemma_ascending_unique(r, other);
}

/// Whether `a` comes before `b`.
pub fn comes_before(a: &str, b: &str) -> (r: bool)
    ensures
        r == text_before(a@, b@),
{
    let x = text::chars_of(a);
    let y = text::chars_of(b);
    let mut i: usize = 0;
    assert(a@.skip(0) =~= a@);
    assert(b@.skip(0) =~= b@);
    loop
        invariant
            i <= x@.len(),
            i <= y@.len(),
            x@ == a@,
            y@ == b@,
            text_before(a@, b@) == text_before(a@.skip(i as int), b@.skip(i as int)),
        decreases x@.len() - i,
    {
        if i == y.len() {
            return false;
        }
        if i == x.len() {
            return true;
        }
        if x[i] != y[i] {
            return (x[i] as u32) < (y[i] as u32);
        }
        assert(a@.skip(i as int).skip(1) =~= a@.skip(i + 1));
        assert(b@.skip(i as int).skip(1) =~= b@.skip(i + 1));
        i += 1;
    }
}

/// Enters `name` into an ascending list, unless the list holds it.
fn insert_name(list: &mut Vec<String>, name: &str)
    requires
        ascending(old(list).deep_view()),
    ensures
        ascending(final(list).deep_view()),
        forall|k: Seq<char>| #[trigger]
            final(list).deep_view().contains(k) == (old(list).deep_view().contains(k) || k == name@),
{
    let ghost before = list.deep_view();
    let mut i: usize = 0;
    while i < list.len() && comes_before(list[i].as_str(), name)
        invariant
            i <= list@.len(),
            before == list.deep_view(),
            forall|k: int| 0 <= k < i ==> text_before(#[trigger] before[k], name@),
        ensures
            i < list@.len() ==> !text_before(before[i as int], name@),
        decreases list@.len() - i,
    {
        assert(before[i as int] == list@[i as int]@);
        i += 1;
    }
    if i < list.len() && text::same(list[i].as_str(), name) {
        proof {
            assert(before[i as int] == name@);
        }
        return;
    }
    list.insert(i, name.to_owned());
    proof {
        let after = list.deep_view();
        assert(after =~= before.insert(i as int, name@));
        if i < before.len() {
            assert(before[i as int] == old(list)@[i as int]@);
            lemma_before_total(before[i as int], name@);
        }
        assert forall|a: int, b: int| 0 <= a < b < after.len() implies text_before(
            #[trigger] after[a],
            #[trigger] after[b],
        ) by {
            if b < i {
                assert(text_before(before[a], before[b]));
            } else if b == i {
                assert(text_before(before[a], name@));
            } else if a < i {
                assert(text_before(before[a], before[b - 1]));
            } else if a == i {
                if b - 1 > i {
                    assert(text_before(before[i as int], before[b - 1]));
                    lemma_before_transitive(name@, before[i as int], before[b - 1]);
                }
            } else {
                assert(text_before(before[a - 1], before[b - 1]));
            }
        }
        assert forall|k: Seq<char>| #[trigger] after.contains(k) == (before.contains(k) || k
            == name@) by {
            if before.contains(k) {
                let j = choose|j: int| 0 <= j < before.len() && before[j] == k;
                if j < i {
                    assert(after[j] == k);
                } else {
                    assert(after[j + 1] == k);
                }
            }
            if k == name@ {
                assert(after[i as int] == k);
            }
            if after.contains(k) {
                let j = choose|j: int| 0 <= j < after.len() && after[j] == k;
                if j < i {
                    assert(before[j] == k);
                } else if j > i {
                    assert(before[j - 1] == k);
                }
            }
        }
    }
}

/// The strings of `names`, each once, in ascending order.
pub fn sorted_names(names: &Vec<String>) -> (r: Vec<String>)
    ensures
        ascending(r.deep_view()),
        forall|k: Seq<char>| #[trigger] r.deep_view().contains(k) == names.deep_view().contains(k),
{
    let ghost all = names.deep_view();
    let mut out: Vec<String> = Vec::new();
    let mut i: usize = 0;
    while i < names.len()
        invariant
            i <= names@.len(),
            all == names.deep_view(),
            ascending(out.deep_view()),
            forall|k: Seq<char>| #[trigger]
                out.deep_view().contains(k) == all.take(i as int).contains(k),
        decreases names@.len() - i,
    {
        let ghost before = out.deep_view();
        insert_name(&mut out, names[i].as_str());
        proof {
            assert(all[i as int] == names@[i as int]@);
            assert forall|k: Seq<char>| #[trigger] out.deep_view().contains(k) == all.take(
                i + 1,
            ).contains(k) by {
                assert(before.contains(k) == all.take(i as int).contains(k));
                let seen = all.take(i as int);
                if seen.contains(k) {
                    let j = choose|j: int| 0 <= j < seen.len() && seen[j] == k;
                    assert(all.take(i + 1)[j] == k);
                }
                if k == all[i as int] {
                    assert(all.take(i + 1)[i as int] == k);
                }
                let next = all.take(i + 1);
                if next.contains(k) {
                    let j = choose|j: int| 0 <= j < next.len() && next[j] == k;
                    if j < i {
                        assert(all.take(i as int)[j] == k);
                    }
                }
            }
        }
        i += 1;
    }
    assert(all.take(all.len() as int) =~= all);
    out
}

} // verus!
