//! Putting things in order: by a number, then by a name, then by position.
use vstd::prelude::*;
use crate::text::{chars_of, texts};

verus! {

/// Whether `a` comes before `b` in a dictionary of code points.
pub open spec fn text_before(a: Seq<char>, b: Seq<char>) -> bool
    decreases b.len(),
{
    if b.len() == 0 {
        false
    } else if a.len() == 0 {
        true
    } else if a[0] != b[0] {
        a[0] < b[0]
    } else {
        text_before(a.drop_first(), b.drop_first())
    }
}

/// Of two different texts one comes before the other.
pub proof fn lemma_text_before_total(a: Seq<char>, b: Seq<char>)
    ensures
        a != b ==> text_before(a, b) || text_before(b, a),
        !(text_before(a, b) && text_before(b, a)),
        !text_before(a, a),
    decreases b.len(),
{
    if b.len() == 0 {
        if a.len() == 0 {
            assert(a =~= b);
        }
    } else if a.len() > 0 && a[0] == b[0] {
        lemma_text_before_total(a.drop_first(), b.drop_first());
        if a.drop_first() == b.drop_first() {
            assert(a =~= seq![a[0]] + a.drop_first());
            assert(b =~= seq![b[0]] + b.drop_first());
        }
    }
    if a.len() > 0 {
        lemma_text_irreflexive(a);
    }
}

proof fn lemma_text_irreflexive(a: Seq<char>)
    ensures
        !text_before(a, a),
    decreases a.len(),
{
    if a.len() > 0 {
        lemma_text_irreflexive(a.drop_first());
    }
}

/// Dictionary order is transitive.
pub proof fn lemma_text_before_transitive(a: Seq<char>, b: Seq<char>, c: Seq<char>)
    requires
        text_before(a, b),
        text_before(b, c),
    ensures
        text_before(a, c),
    decreases c.len(),
{
    if a.len() > 0 && b.len() > 0 && c.len() > 0 && a[0] == b[0] && b[0] == c[0] {
        lemma_text_before_transitive(a.drop_first(), b.drop_first(), c.drop_first());
    }
}

/// Whether `a` comes before `b` in a dictionary of code points.
pub fn comes_before(a: &str, b: &str) -> (r: bool)
    ensures
        r == text_before(a@, b@),
{
    let x = chars_of(a);
    let y = chars_of(b);
    let mut i: usize = 0;
    assert(x@.skip(0) =~= x@);
    assert(y@.skip(0) =~= y@);
    while i < x.len() && i < y.len()
        invariant
            i <= x@.len(),
            i <= y@.len(),
            x@ == a@,
            y@ == b@,
            text_before(a@, b@) == text_before(x@.skip(i as int), y@.skip(i as int)),
        decreases x.len() - i,
    {
        assert(x@.skip(i as int)[0] == x@[i as int]);
        assert(y@.skip(i as int)[0] == y@[i as int]);
        if x[i] != y[i] {
            return x[i] < y[i];
        }
        assert(x@.skip(i as int).drop_first() =~= x@.skip(i + 1));
        assert(y@.skip(i as int).drop_first() =~= y@.skip(i + 1));
        i += 1;
    }
    i < y.len()
}

/// Whether item `i` goes before item `j`: greater key first, then the name that
/// comes first, then the item that came first.
pub open spec fn goes_before(keys: Seq<u64>, names: Seq<Seq<char>>, i: int, j: int) -> bool {
    if keys[i] != keys[j] {
        keys[i] > keys[j]
    } else if names[i] != names[j] {
        text_before(names[i], names[j])
    } else {
        i < j
    }
}

proof fn lemma_goes_before_transitive(
    keys: Seq<u64>,
    names: Seq<Seq<char>>,
    i: int,
    j: int,
    k: int,
)
    requires
        goes_before(keys, names, i, j),
        goes_before(keys, names, j, k),
    ensures
        goes_before(keys, names, i, k),
{
    if keys[i] == keys[j] && keys[j] == keys[k] {
        if names[i] != names[j] && names[j] != names[k] {
            lemma_text_before_transitive(names[i], names[j], names[k]);
            lemma_text_before_total(names[i], names[k]);
        }
    }
}

/// Whether `p` is the one ordering of `n` items that `goes_before` gives.
pub open spec fn is_ordering(keys: Seq<u64>, names: Seq<Seq<char>>, p: Seq<usize>, n: int) -> bool {
    &&& p.len() == n
    &&& forall|a: int| 0 <= a < p.len() ==> 0 <= #[trigger] p[a] < n
    &&& forall|a: int, b: int|
        0 <= a < b < p.len() ==> goes_before(
            keys,
            names,
            #[trigger] p[a] as int,
            #[trigger] p[b] as int,
        )
    &&& forall|i: usize| i < n ==> #[trigger] p.contains(i)
}

/// Puts items in order by inserting one after the other.
pub fn ordering(keys: &Vec<u64>, names: &Vec<String>) -> (p: Vec<usize>)
    requires
        keys@.len() == names@.len(),
    ensures
        is_ordering(keys@, texts(names@), p@, keys@.len() as int),
{
    let mut p: Vec<usize> = Vec::new();
    let mut n: usize = 0;
    let ghost ns = texts(names@);
    while n < keys.len()
        invariant
            n <= keys@.len() == names@.len(),
            ns == texts(names@),
            is_ordering(keys@, ns, p@, n as int),
        decreases keys.len() - n,
    {
        let mut at: usize = n;
        while at > 0 && item_before(keys, names, n, p[at - 1])
            invariant
                0 <= at <= n,
                n < keys@.len() == names@.len(),
                ns == texts(names@),
                is_ordering(keys@, ns, p@, n as int),
                forall|b: int|
                    at <= b < n ==> goes_before(keys@, ns, n as int, #[trigger] p@[b] as int),
            decreases at,
        {
            at -= 1;
        }
        let ghost q = p@;
        proof {
            if at > 0 {
                let last = q[at - 1] as int;
                lemma_text_before_total(ns[n as int], ns[last]);
                assert(goes_before(keys@, ns, last, n as int));
                assert forall|a: int| 0 <= a < at implies goes_before(
                    keys@,
                    ns,
                    #[trigger] q[a] as int,
                    n as int,
                ) by {
                    if a < at - 1 {
                        lemma_goes_before_transitive(keys@, ns, q[a] as int, last, n as int);
                    }
                }
            }
        }
        p.insert(at, n);
        proof {
            assert forall|i: usize| i < n + 1 implies #[trigger] p@.contains(i) by {
                if i == n {
                    assert(p@[at as int] == i);
                } else {
                    assert(q.contains(i));
                    let a = choose|a: int| 0 <= a < q.len() && q[a] == i;
                    if a < at {
                        assert(p@[a] == i);
                    } else {
                        assert(p@[a + 1] == i);
                    }
                }
            }
            assert forall|a: int, b: int| 0 <= a < b < p@.len() implies goes_before(
                keys@,
                ns,
                #[trigger] p@[a] as int,
                #[trigger] p@[b] as int,
            ) by {
                let x = if a < at { a } else { a - 1 };
                let y = if b < at { b } else { b - 1 };
                if a == at {
                    assert(p@[b] == q[b - 1]);
                } else if b == at {
                    assert(p@[a] == q[a]);
                } else {
                    assert(p@[a] == q[x] && p@[b] == q[y]);
                }
            }
            assert forall|a: int| 0 <= a < p@.len() implies 0 <= #[trigger] p@[a] < n + 1 by {
                if a < at {
                    assert(p@[a] == q[a]);
                } else if a > at {
                    assert(p@[a] == q[a - 1]);
                }
            }
        }
        n += 1;
    }
    p
}

/// Whether item `i` goes before item `j`.
fn item_before(keys: &Vec<u64>, names: &Vec<String>, i: usize, j: usize) -> (r: bool)
    requires
        i < keys@.len(),
        j < keys@.len(),
        keys@.len() == names@.len(),
    ensures
        r == goes_before(keys@, texts(names@), i as int, j as int),
{
    if keys[i] != keys[j] {
        keys[i] > keys[j]
    } else if names[i] != names[j] {
        comes_before(names[i].as_str(), names[j].as_str())
    } else {
        i < j
    }
}

proof fn lemma_goes_before_asymmetric(keys: Seq<u64>, names: Seq<Seq<char>>, i: int, j: int)
    requires
        goes_before(keys, names, i, j),
    ensures
        !goes_before(keys, names, j, i),
{
    lemma_text_before_total(names[i], names[j]);
}

/// Two orderings of the same items are the same.
pub proof fn lemma_ordering_unique(
    keys: Seq<u64>,
    names: Seq<Seq<char>>,
    p: Seq<usize>,
    q: Seq<usize>,
    n: int,
)
    requires
        is_ordering(keys, names, p, n),
        is_ordering(keys, names, q, n),
    ensures
        p == q,
{
    lemma_orderings_agree(keys, names, p, q, n, n);
    assert(p =~= q);
}

proof fn lemma_orderings_agree(
    keys: Seq<u64>,
    names: Seq<Seq<char>>,
    p: Seq<usize>,
    q: Seq<usize>,
    n: int,
    a: int,
)
    requires
        is_ordering(keys, names, p, n),
        is_ordering(keys, names, q, n),
        0 <= a <= n,
    ensures
        forall|b: int| 0 <= b < a ==> p[b] == q[b],
    decreases a,
{
    if a > 0 {
        lemma_orderings_agree(keys, names, p, q, n, a - 1);
        let x = a - 1;
        if p[x] != q[x] {
            assert(q.contains(p[x]));
            let i = choose|i: int| 0 <= i < q.len() && q[i] == p[x];
            if i < x {
                assert(p[i] == q[i]);
                assert(goes_before(keys, names, p[i] as int, p[x] as int));
                lemma_goes_before_asymmetric(keys, names, p[i] as int, p[x] as int);
            }
            assert(goes_before(keys, names, q[x] as int, q[i] as int));
            assert(p.contains(q[x]));
            let j = choose|j: int| 0 <= j < p.len() && p[j] == q[x];
            if j < x {
                assert(p[j] == q[j]);
                assert(goes_before(keys, names, q[j] as int, q[x] as int));
                lemma_goes_before_asymmetric(keys, names, q[j] as int, q[x] as int);
            }
            assert(goes_before(keys, names, p[x] as int, p[j] as int));
            lemma_goes_before_asymmetric(keys, names, p[x] as int, q[x] as int);
        }
    }
}

/// Texts are ordered as in a dictionary: where they first differ, the lesser character comes
/// first, and a text comes before every longer one that begins with it.
pub proof fn lemma_first_difference_decides(
    front: Seq<char>,
    x: char,
    a: Seq<char>,
    y: char,
    b: Seq<char>,
)
    ensures
        x != y ==> (text_before(front + seq![x] + a, front + seq![y] + b) <==> x < y),
        text_before(front, front + seq![y] + b),
        !text_before(front + seq![y] + b, front),
        !text_before(front, front),
    decreases front.len(),
{
    let s = front + seq![x] + a;
    let t = front + seq![y] + b;
    if front.len() > 0 {
        let f = front.drop_first();
        lemma_first_difference_decides(f, x, a, y, b);
        assert(s.drop_first() =~= f + seq![x] + a);
        assert(t.drop_first() =~= f + seq![y] + b);
        assert(s[0] == front[0] && t[0] == front[0]);
    } else {
        assert(s[0] == x && t[0] == y);
    }
}

} // verus!
