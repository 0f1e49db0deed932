//! Lists of strings in which nothing occurs twice.
use vstd::prelude::*;
use crate::text::{position_of, same, texts};

verus! {

/// Whether no text occurs twice.
pub open spec fn distinct(s: Seq<Seq<char>>) -> bool {
    forall|i: int, j: int| 0 <= i < j < s.len() ==> s[i] != s[j]
}

/// `s` with `x` in it: at the end, unless it was there already.
pub open spec fn with_name(s: Seq<Seq<char>>, x: Seq<char>) -> Seq<Seq<char>> {
    if s.contains(x) {
        s
    } else {
        s.push(x)
    }
}

/// `s` without `x`, the rest in its order.
pub open spec fn without_name(s: Seq<Seq<char>>, x: Seq<char>) -> Seq<Seq<char>>
    decreases s.len(),
{
    if s.len() == 0 {
        s
    } else if s.last() == x {
        without_name(s.drop_last(), x)
    } else {
        without_name(s.drop_last(), x).push(s.last())
    }
}

/// Adding a name keeps the list free of repetitions.
pub proof fn lemma_with_name(s: Seq<Seq<char>>, x: Seq<char>)
    requires
        distinct(s),
    ensures
        distinct(with_name(s, x)),
        with_name(s, x).contains(x),
        forall|y: Seq<char>| s.contains(y) ==> #[trigger] with_name(s, x).contains(y),
        forall|y: Seq<char>| #[trigger] with_name(s, x).contains(y) ==> s.contains(y) || y == x,
{
    let w = with_name(s, x);
    if !s.contains(x) {
        assert(w[s.len() as int] == x);
        assert forall|y: Seq<char>| s.contains(y) implies #[trigger] w.contains(y) by {
            let i = choose|i: int| 0 <= i < s.len() && s[i] == y;
            assert(w[i] == y);
        }
        assert forall|y: Seq<char>| #[trigger] w.contains(y) implies s.contains(y) || y == x by {
            let i = choose|i: int| 0 <= i < w.len() && w[i] == y;
            if i < s.len() {
                assert(s[i] == y);
            }
        }
    }
}

/// Removing a name removes that name and nothing else.
pub proof fn lemma_without_name(s: Seq<Seq<char>>, x: Seq<char>)
    ensures
        !without_name(s, x).contains(x),
        forall|y: Seq<char>|
            y != x ==> #[trigger] without_name(s, x).contains(y) == s.contains(y),
        forall|y: Seq<char>| #[trigger] without_name(s, x).contains(y) ==> s.contains(y),
        distinct(s) ==> distinct(without_name(s, x)),
        without_name(s, x).len() <= s.len(),
        !s.contains(x) ==> without_name(s, x) == s,
    decreases s.len(),
{
    let w = without_name(s, x);
    if s.len() > 0 {
        let d = s.drop_last();
        lemma_without_name(d, x);
        let wd = without_name(d, x);
        assert forall|y: Seq<char>| d.contains(y) implies s.contains(y) by {
            let i = choose|i: int| 0 <= i < d.len() && d[i] == y;
            assert(s[i] == y);
        }
        assert forall|y: Seq<char>| s.contains(y) implies d.contains(y) || y == s.last() by {
            let i = choose|i: int| 0 <= i < s.len() && s[i] == y;
            if i < d.len() {
                assert(d[i] == y);
            }
        }
        assert(s[s.len() - 1] == s.last());
        assert(s.contains(s.last()));
        if s.last() != x {
            assert(w == wd.push(s.last()));
            assert forall|y: Seq<char>| #[trigger] w.contains(y) implies wd.contains(y) || y
                == s.last() by {
                let i = choose|i: int| 0 <= i < w.len() && w[i] == y;
                if i < wd.len() {
                    assert(wd[i] == y);
                }
            }
            assert forall|y: Seq<char>| wd.contains(y) || y == s.last() implies #[trigger] w.contains(
                y,
            ) by {
                if wd.contains(y) {
                    let i = choose|i: int| 0 <= i < wd.len() && wd[i] == y;
                    assert(w[i] == y);
                } else {
                    assert(w[wd.len() as int] == y);
                }
            }
            if distinct(s) {
                assert(distinct(d));
                assert(!d.contains(s.last()));
                assert(!wd.contains(s.last()));
            }
            if !s.contains(x) {
                assert(w =~= s);
            }
        }
    }
}

/// Whether the list holds `x`.
pub fn has_name(list: &Vec<String>, x: &str) -> (r: bool)
    ensures
        r == texts(list@).contains(x@),
{
    let r = position_of(list, x);
    proof {
        if r is Some {
            assert(texts(list@)[r->0 as int] == x@);
        } else if texts(list@).contains(x@) {
            let i = choose|i: int| 0 <= i < texts(list@).len() && texts(list@)[i] == x@;
            assert(list@[i]@ == x@);
        }
    }
    r.is_some()
}

/// Adds `x` to the list. Returns whether it was new.
pub fn add_name(list: &mut Vec<String>, x: String) -> (new: bool)
    ensures
        texts(final(list)@) == with_name(texts(old(list)@), x@),
        new == !texts(old(list)@).contains(x@),
{
    if has_name(list, x.as_str()) {
        return false;
    }
    let ghost before = texts(list@);
    list.push(x);
    assert(texts(list@) =~= before.push(x@));
    true
}

/// The strings of the list other than `x`, in their order.
pub fn names_without(list: &Vec<String>, x: &str) -> (r: Vec<String>)
    ensures
        texts(r@) == without_name(texts(list@), x@),
{
    let mut out: Vec<String> = Vec::new();
    let mut i: usize = 0;
    let ghost all = texts(list@);
    assert(texts(out@) =~= all.take(0));
    while i < list.len()
        invariant
            i <= list@.len(),
            all == texts(list@),
            texts(out@) == without_name(all.take(i as int), x@),
        decreases list.len() - i,
    {
        assert(all.take(i + 1).drop_last() =~= all.take(i as int));
        assert(all.take(i + 1).last() == list@[i as int]@);
        if !same(list[i].as_str(), x) {
            let ghost before = texts(out@);
            let s = list[i].clone();
            out.push(s);
            assert(texts(out@) =~= before.push(s@));
        }
        i += 1;
    }
    assert(all.take(i as int) =~= all);
    out
}

/// Removes `x` from the list.
pub fn remove_name(list: &mut Vec<String>, x: &str)
    ensures
        texts(final(list)@) == without_name(texts(old(list)@), x@),
{
    let r = names_without(list, x);
    *list = r;
}

} // verus!
