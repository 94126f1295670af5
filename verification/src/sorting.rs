//! Sorting by insertion.
use vstd::prelude::*;

verus! {

/// A value inserted before the first greater one.
pub open spec fn inserted(s: Seq<usize>, x: usize) -> Seq<usize>
    decreases s.len(),
{
    if s.len() > 0 && s.last() > x {
        inserted(s.drop_last(), x).push(s.last())
    } else {
        s.push(x)
    }
}

/// The values in increasing order.
pub open spec fn sorted(s: Seq<usize>) -> Seq<usize>
    decreases s.len(),
{
    if s.len() == 0 {
        s
    } else {
        inserted(sorted(s.drop_last()), s.last())
    }
}

/// The ids in increasing order.
pub fn sorted_ids(ids: &Vec<usize>) -> (r: Vec<usize>)
    ensures
        r@ == sorted(ids@),
{
    let mut out: Vec<usize> = Vec::new();
    let mut i: usize = 0;
    assert(ids@.take(0) =~= Seq::empty());
    while i < ids.len()
        invariant
            i <= ids@.len(),
            out@ == sorted(ids@.take(i as int)),
        decreases ids@.len() - i,
    {
        let x: usize = ids[i];
        let ghost before = out@;
        assert(ids@.take(i as int + 1).drop_last() =~= ids@.take(i as int));
        let mut at: usize = out.len();
        assert(before.take(at as int) =~= before);
        assert(before.skip(at as int) =~= Seq::empty());
        assert(inserted(before, x).add(Seq::empty()) =~= inserted(before, x));
        while at > 0 && out[at - 1] > x
            invariant
                at <= out@.len(),
                out@ == before,
                inserted(before, x) == inserted(before.take(at as int), x).add(before.skip(at as int)),
            decreases at,
        {
            proof {
                let t = before.take(at as int);
                assert(t.drop_last() =~= before.take(at as int - 1));
                let a = inserted(t.drop_last(), x);
                assert(a.push(t.last()).add(before.skip(at as int)) =~= a.add(before.skip(at as int - 1)));
            }
            at -= 1;
        }
        out.insert(at, x);
        assert(out@ =~= before.take(at as int).push(x).add(before.skip(at as int)));
        i += 1;
    }
    assert(ids@.take(i as int) =~= ids@);
    out
}

proof fn lemma_inserted(s: Seq<usize>, x: usize)
    requires
        forall|i: int, j: int| 0 <= i < j < s.len() ==> s[i] <= s[j],
    ensures
        forall|i: int, j: int| 0 <= i < j < inserted(s, x).len() ==> inserted(s, x)[i] <= inserted(s, x)[j],
        inserted(s, x).to_multiset() == s.to_multiset().insert(x),
        inserted(s, x).len() == s.len() + 1,
        forall|i: int| 0 <= i < inserted(s, x).len() ==> #[trigger] inserted(s, x)[i] <= x || (s.len() > 0
            && inserted(s, x)[i] <= s.last()),
    decreases s.len(),
{
    broadcast use vstd::seq_lib::group_to_multiset_ensures;

    if s.len() > 0 && s.last() > x {
        lemma_inserted(s.drop_last(), x);
        let a = inserted(s.drop_last(), x);
        let r = inserted(s, x);
        assert(s =~= s.drop_last().push(s.last()));
        assert forall|i: int| 0 <= i < a.len() implies #[trigger] a[i] <= s.last() by {
            if !(a[i] <= x) {
                assert(a[i] <= s.drop_last().last());
                assert(s.drop_last().last() == s[s.len() - 2]);
            }
        }
        assert forall|i: int, j: int| 0 <= i < j < r.len() implies r[i] <= r[j] by {
            if j < a.len() {
                assert(r[i] == a[i] && r[j] == a[j]);
            } else {
                assert(r[i] == a[i]);
            }
        }
        assert(s.to_multiset().insert(x) =~= s.drop_last().to_multiset().insert(x).insert(s.last()));
    }
}

/// Sorting rearranges the values so that none is greater than a later one.
pub proof fn law_sorted(s: Seq<usize>)
    ensures
        forall|i: int, j: int| 0 <= i < j < sorted(s).len() ==> sorted(s)[i] <= sorted(s)[j],
        sorted(s).to_multiset() == s.to_multiset(),
        sorted(s).len() == s.len(),
    decreases s.len(),
{
    broadcast use vstd::seq_lib::group_to_multiset_ensures;

    if s.len() > 0 {
        law_sorted(s.drop_last());
        lemma_inserted(sorted(s.drop_last()), s.last());
        assert(s =~= s.drop_last().push(s.last()));
    }
}

/// A number inserted before the first greater one.
pub open spec fn number_inserted(s: Seq<u64>, x: u64) -> Seq<u64>
    decreases s.len(),
{
    if s.len() > 0 && s.last() > x {
        number_inserted(s.drop_last(), x).push(s.last())
    } else {
        s.push(x)
    }
}

/// The numbers in increasing order.
pub open spec fn numbers_sorted(s: Seq<u64>) -> Seq<u64>
    decreases s.len(),
{
    if s.len() == 0 {
        s
    } else {
        number_inserted(numbers_sorted(s.drop_last()), s.last())
    }
}

/// The numbers in increasing order.
pub fn sorted_numbers(v: &Vec<u64>) -> (r: Vec<u64>)
    ensures
        r@ == numbers_sorted(v@),
        r@.len() == v@.len(),
{
    let mut out: Vec<u64> = Vec::new();
    let mut i: usize = 0;
    assert(v@.take(0) =~= Seq::empty());
    while i < v.len()
        invariant
            i <= v@.len(),
            out@ == numbers_sorted(v@.take(i as int)),
            out@.len() == i,
        decreases v@.len() - i,
    {
        let x: u64 = v[i];
        let ghost before = out@;
        assert(v@.take(i as int + 1).drop_last() =~= v@.take(i as int));
        let mut at: usize = out.len();
        assert(before.take(at as int) =~= before);
        assert(before.skip(at as int) =~= Seq::empty());
        assert(number_inserted(before, x).add(Seq::empty()) =~= number_inserted(before, x));
        while at > 0 && out[at - 1] > x
            invariant
                at <= out@.len(),
                out@ == before,
                number_inserted(before, x) == number_inserted(before.take(at as int), x).add(before.skip(at as int)),
            decreases at,
        {
            proof {
                let t = before.take(at as int);
                assert(t.drop_last() =~= before.take(at as int - 1));
                let a = number_inserted(t.drop_last(), x);
                assert(a.push(t.last()).add(before.skip(at as int)) =~= a.add(before.skip(at as int - 1)));
            }
            at -= 1;
        }
        out.insert(at, x);
        assert(out@ =~= before.take(at as int).push(x).add(before.skip(at as int)));
        i += 1;
    }
    assert(v@.take(i as int) =~= v@);
    out
}

proof fn lemma_number_inserted(s: Seq<u64>, x: u64)
    requires
        forall|i: int, j: int| 0 <= i < j < s.len() ==> s[i] <= s[j],
    ensures
        forall|i: int, j: int|
            0 <= i < j < number_inserted(s, x).len() ==> number_inserted(s, x)[i] <= number_inserted(s, x)[j],
        number_inserted(s, x).to_multiset() == s.to_multiset().insert(x),
        number_inserted(s, x).len() == s.len() + 1,
        forall|i: int|
            0 <= i < number_inserted(s, x).len() ==> #[trigger] number_inserted(s, x)[i] <= x || (s.len() > 0
                && number_inserted(s, x)[i] <= s.last()),
    decreases s.len(),
{
    broadcast use vstd::seq_lib::group_to_multiset_ensures;

    if s.len() > 0 && s.last() > x {
        lemma_number_inserted(s.drop_last(), x);
        let a = number_inserted(s.drop_last(), x);
        let r = number_inserted(s, x);
        assert(s =~= s.drop_last().push(s.last()));
        assert forall|i: int| 0 <= i < a.len() implies #[trigger] a[i] <= s.last() by {
            if !(a[i] <= x) {
                assert(a[i] <= s.drop_last().last());
                assert(s.drop_last().last() == s[s.len() - 2]);
            }
        }
        assert forall|i: int, j: int| 0 <= i < j < r.len() implies r[i] <= r[j] by {
            if j < a.len() {
                assert(r[i] == a[i] && r[j] == a[j]);
            } else {
                assert(r[i] == a[i]);
            }
        }
        assert(s.to_multiset().insert(x) =~= s.drop_last().to_multiset().insert(x).insert(s.last()));
    }
}

/// Sorting rearranges the numbers so that none is greater than a later one.
pub proof fn law_numbers_sorted(s: Seq<u64>)
    ensures
        forall|i: int, j: int| 0 <= i < j < numbers_sorted(s).len() ==> numbers_sorted(s)[i] <= numbers_sorted(s)[j],
        numbers_sorted(s).to_multiset() == s.to_multiset(),
        numbers_sorted(s).len() == s.len(),
    decreases s.len(),
{
    broadcast use vstd::seq_lib::group_to_multiset_ensures;

    if s.len() > 0 {
        law_numbers_sorted(s.drop_last());
        lemma_number_inserted(numbers_sorted(s.drop_last()), s.last());
        assert(s =~= s.drop_last().push(s.last()));
    }
}

/// The middle one of the numbers in increasing order: of an even count, the upper middle.
pub open spec fn spec_median(s: Seq<u64>) -> u64 {
    numbers_sorted(s)[s.len() as int / 2]
}

/// The median of some numbers, if there are any.
pub fn median(v: &Vec<u64>) -> (r: Option<u64>)
    ensures
        r == (if v@.len() == 0 {
            None
        } else {
            Some(spec_median(v@))
        }),
{
    if v.len() == 0 {
        return None;
    }
    let s = sorted_numbers(v);
    Some(s[v.len() / 2])
}

/// The median stands in the middle of the numbers in increasing order.
pub proof fn law_median_of_the_sorted(s: Seq<u64>)
    requires
        s.len() > 0,
    ensures
        numbers_sorted(s).len() == s.len(),
        s.len() % 2 == 1 ==> spec_median(s) == numbers_sorted(s)[(s.len() - 1) / 2],
        s.len() % 2 == 0 ==> spec_median(s) == numbers_sorted(s)[s.len() as int / 2],
{
    law_numbers_sorted(s);
}

} // verus!
