use vstd::prelude::*;

verus! {

/// Each character of `r` is smaller than every one after it, so `r` is
/// sorted and holds no character twice.
pub open spec fn strictly_sorted(r: Seq<char>) -> bool {
    forall|i: int, j: int| 0 <= i < j < r.len() ==> r[i] < r[j]
}

/// `a` and `b` hold the same characters, whatever their order and repeats.
pub open spec fn same_chars(a: Seq<char>, b: Seq<char>) -> bool {
    forall|c: char| a.contains(c) <==> b.contains(c)
}

/// The distinct characters of `c` in ascending order.
pub open spec fn sorted_unique(c: Seq<char>) -> Seq<char> {
    choose|r: Seq<char>| strictly_sorted(r) && same_chars(r, c)
}

/// Two strictly sorted sequences of the same characters are equal.
pub proof fn lemma_strictly_sorted_unique(a: Seq<char>, b: Seq<char>)
    requires
        strictly_sorted(a),
        strictly_sorted(b),
        same_chars(a, b),
    ensures
        a == b,
    decreases a.len(),
{
    if a.len() == 0 {
        if b.len() > 0 {
            assert(b.contains(b[0]));
        }
        assert(a =~= b);
    } else {
        assert(a.contains(a[0]));
        assert(b.len() > 0);
        assert(b.contains(b[0]));
        let j = choose|j: int| 0 <= j < b.len() && b[j] == a[0];
        let i = choose|i: int| 0 <= i < a.len() && a[i] == b[0];
        assert(a[0] == b[0]) by {
            if j > 0 {
                assert(b[0] < b[j]);
                if i > 0 {
                    assert(a[0] < a[i]);
                }
            }
        };
        let ta = a.drop_first();
        let tb = b.drop_first();
        assert forall|c: char| ta.contains(c) <==> tb.contains(c) by {
            if ta.contains(c) {
                let k = choose|k: int| 0 <= k < ta.len() && ta[k] == c;
                assert(a[k + 1] == c);
                assert(a.contains(c));
                let m = choose|m: int| 0 <= m < b.len() && b[m] == c;
                assert(a[0] < a[k + 1]);
                assert(m != 0);
                assert(tb[m - 1] == c);
            }
            if tb.contains(c) {
                let k = choose|k: int| 0 <= k < tb.len() && tb[k] == c;
                assert(b[k + 1] == c);
                assert(b.contains(c));
                let m = choose|m: int| 0 <= m < a.len() && a[m] == c;
                assert(b[0] < b[k + 1]);
                assert(m != 0);
                assert(ta[m - 1] == c);
            }
        };
        lemma_strictly_sorted_unique(ta, tb);
        assert(a =~= b) by {
            assert forall|k: int| 0 <= k < a.len() implies a[k] == b[k] by {
                if k > 0 {
                    assert(a[k] == ta[k - 1]);
                    assert(b[k] == tb[k - 1]);
                }
            };
        };
    }
}

/// A strictly sorted sequence holding the characters of `c` is
/// `sorted_unique(c)`.
pub proof fn lemma_sorted_unique_is(r: Seq<char>, c: Seq<char>)
    requires
        strictly_sorted(r),
        same_chars(r, c),
    ensures
        sorted_unique(c) == r,
{
    let s = sorted_unique(c);
    assert(strictly_sorted(s) && same_chars(s, c));
    lemma_strictly_sorted_unique(s, r);
}

/// Inserting `c` where it belongs keeps a strictly sorted sequence
/// strictly sorted and adds `c` to its characters.
proof fn lemma_insert_sorted(r: Seq<char>, i: int, c: char)
    requires
        strictly_sorted(r),
        0 <= i <= r.len(),
        forall|k: int| 0 <= k < i ==> r[k] < c,
        i < r.len() ==> r[i] > c,
    ensures
        strictly_sorted(r.insert(i, c)),
        forall|x: char| r.insert(i, c).contains(x) <==> (r.contains(x) || x == c),
{
    let t = r.insert(i, c);
    assert forall|a: int, b: int| 0 <= a < b < t.len() implies t[a] < t[b] by {
        if b < i {
        } else if a < i {
            if b > i {
                assert(r[b - 1] >= r[i]);
            }
        } else if a == i {
            if b - 1 > i {
                assert(r[i] < r[b - 1]);
            }
        } else {
            assert(r[a - 1] < r[b - 1]);
        }
    };
    assert forall|x: char| t.contains(x) <==> (r.contains(x) || x == c) by {
        if t.contains(x) {
            let k = choose|k: int| 0 <= k < t.len() && t[k] == x;
            if k < i {
                assert(r[k] == x);
            } else if k > i {
                assert(r[k - 1] == x);
            }
        }
        if r.contains(x) {
            let k = choose|k: int| 0 <= k < r.len() && r[k] == x;
            if k < i {
                assert(t[k] == x);
            } else {
                assert(t[k + 1] == x);
            }
        }
        if x == c {
            assert(t[i] == c);
        }
    };
}

/// Where `c` belongs in the strictly sorted `r`: after every smaller
/// character and before every other.
proof fn insertion_point(r: Seq<char>, c: char) -> (i: int)
    requires
        strictly_sorted(r),
    ensures
        0 <= i <= r.len(),
        forall|k: int| 0 <= k < i ==> r[k] < c,
        i < r.len() ==> r[i] >= c,
    decreases r.len(),
{
    if r.len() == 0 || r.last() < c {
        assert forall|k: int| 0 <= k < r.len() implies r[k] < c by {
            if k < r.len() - 1 {
                assert(r[k] < r[r.len() - 1]);
            }
        };
        r.len() as int
    } else {
        let t = r.drop_last();
        assert forall|a: int, b: int| 0 <= a < b < t.len() implies t[a] < t[b] by {
            assert(r[a] < r[b]);
        };
        let i = insertion_point(t, c);
        assert forall|k: int| 0 <= k < i implies r[k] < c by {
            assert(t[k] < c);
        };
        i
    }
}

/// Adding a character to a sequence adds it to the characters it holds.
proof fn lemma_push_chars(c: Seq<char>, x: char)
    ensures
        forall|y: char| c.push(x).contains(y) <==> (c.contains(y) || y == x),
{
    let t = c.push(x);
    assert forall|y: char| t.contains(y) <==> (c.contains(y) || y == x) by {
        if t.contains(y) {
            let k = choose|k: int| 0 <= k < t.len() && t[k] == y;
            if k < c.len() {
                assert(c[k] == y);
            }
        }
        if c.contains(y) {
            let k = choose|k: int| 0 <= k < c.len() && c[k] == y;
            assert(t[k] == y);
        }
        if y == x {
            assert(t[c.len() as int] == x);
        }
    };
}

/// Every sequence of characters has a sorted form: `sorted_unique(c)` is
/// strictly sorted and holds exactly the characters of `c`.
pub proof fn lemma_sorted_unique_holds(c: Seq<char>)
    ensures
        strictly_sorted(sorted_unique(c)),
        same_chars(sorted_unique(c), c),
    decreases c.len(),
{
    if c.len() == 0 {
        assert(strictly_sorted(Seq::<char>::empty()));
        assert(same_chars(Seq::<char>::empty(), c));
    } else {
        let rest = c.drop_last();
        let x = c.last();
        lemma_sorted_unique_holds(rest);
        let r = sorted_unique(rest);
        assert(c =~= rest.push(x));
        lemma_push_chars(rest, x);
        if r.contains(x) {
            assert(strictly_sorted(r) && same_chars(r, c));
        } else {
            let i = insertion_point(r, x);
            if i < r.len() {
                assert(r[i] != x);
            }
            lemma_insert_sorted(r, i, x);
            let t = r.insert(i, x);
            assert(strictly_sorted(t));
            assert forall|y: char| t.contains(y) <==> c.contains(y) by {
                assert(r.contains(y) <==> rest.contains(y));
            };
            assert(same_chars(t, c));
        }
    }
}

/// Adds `c` to the strictly sorted `r`, unless `r` already holds it.
fn insert_sorted(r: &mut Vec<char>, c: char)
    requires
        strictly_sorted(old(r)@),
    ensures
        strictly_sorted(final(r)@),
        forall|x: char| final(r)@.contains(x) <==> (old(r)@.contains(x) || x == c),
{
    let mut i: usize = 0;
    while i < r.len() && r[i] < c
        invariant
            i <= r@.len(),
            forall|k: int| 0 <= k < i ==> r@[k] < c,
        decreases r@.len() - i,
    {
        i = i + 1;
    }
    if i < r.len() && r[i] == c {
        assert(r@[i as int] == c);
        assert(r@.contains(c));
        assert forall|x: char| r@.contains(x) <==> (r@.contains(x) || x == c) by {
            if x == c {
                assert(r@.contains(c));
            }
        };
    } else {
        let ghost before = r@;
        assert(before == old(r)@);
        proof {
            lemma_insert_sorted(before, i as int, c);
        }
        r.insert(i, c);
        assert(r@ == before.insert(i as int, c));
    }
    assert(forall|x: char| r@.contains(x) <==> (old(r)@.contains(x) || x == c));
}

/// The distinct characters of `c`, in ascending order.
pub fn sort_dedup(c: &Vec<char>) -> (r: Vec<char>)
    ensures
        r@ == sorted_unique(c@),
        strictly_sorted(r@),
        same_chars(r@, c@),
{
    let mut r: Vec<char> = Vec::new();
    let mut i: usize = 0;
    while i < c.len()
        invariant
            i <= c@.len(),
            strictly_sorted(r@),
            same_chars(r@, c@.subrange(0, i as int)),
        decreases c@.len() - i,
    {
        let ghost seen = c@.subrange(0, i as int);
        insert_sorted(&mut r, c[i]);
        proof {
            assert(c@.subrange(0, i + 1) =~= seen.push(c@[i as int]));
            lemma_push_chars(seen, c@[i as int]);
        }
        i = i + 1;
    }
    assert(c@.subrange(0, i as int) =~= c@);
    proof {
        lemma_sorted_unique_is(r@, c@);
    }
    r
}

} // verus!
