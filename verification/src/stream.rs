//! Pull-driven lazy sequences of solutions, and what it means to take the
//! first items of a sequence.

use vstd::prelude::*;
use crate::algs::{Solution, SolutionView};

verus! {

/// The first `cap` items of `s`, or all of `s` where there is no cap or
/// `s` has no more than `cap` items.
pub open spec fn firstn<T>(s: Seq<T>, cap: Option<usize>) -> Seq<T> {
    match cap {
        Some(c) => if c < s.len() {
            s.take(c as int)
        } else {
            s
        },
        None => s,
    }
}

/// Whether a list of `len` items has reached the cap.
pub open spec fn spec_is_capped(len: usize, cap: Option<usize>) -> bool {
    match cap {
        Some(c) => len >= c,
        None => false,
    }
}

#[verifier::when_used_as_spec(spec_is_capped)]
pub fn is_capped(len: usize, cap: Option<usize>) -> (r: bool)
    ensures
        r == spec_is_capped(len, cap),
{
    match cap {
        Some(c) => len >= c,
        None => false,
    }
}

/// The smaller of two caps, where no cap is larger than any cap.
pub open spec fn spec_min_cap(a: Option<usize>, b: Option<usize>) -> Option<usize> {
    match (a, b) {
        (Some(x), Some(y)) => if x <= y {
            Some(x)
        } else {
            Some(y)
        },
        (Some(x), None) => Some(x),
        (None, y) => y,
    }
}

#[verifier::when_used_as_spec(spec_min_cap)]
pub fn min_cap(a: Option<usize>, b: Option<usize>) -> (r: Option<usize>)
    ensures
        r == spec_min_cap(a, b),
{
    match (a, b) {
        (Some(x), Some(y)) => if x <= y {
            Some(x)
        } else {
            Some(y)
        },
        (Some(x), None) => Some(x),
        (None, y) => y,
    }
}

/// How a search that was to append `results` to the list `before` has left
/// it as `after`: it has appended a prefix of `results`; it has not gone
/// beyond the cap; unless it was interrupted it has appended the whole of
/// `results` or has reached the cap; and it was not interrupted where it
/// polls no token.
pub open spec fn grown<T>(
    before: Seq<T>,
    after: Seq<T>,
    results: Seq<T>,
    cap: Option<usize>,
    cancellable: bool,
    interrupted: bool,
) -> bool {
    let n = after.len() - before.len();
    &&& 0 <= n <= results.len()
    &&& after == before + results.take(n)
    &&& (cap matches Some(c) ==> before.len() <= c ==> after.len() <= c)
    &&& !interrupted ==> n == results.len() || (cap matches Some(c) && after.len() >= c)
    &&& !cancellable ==> !interrupted
}

/// A list that has grown by the whole of `a` and then by a part of `b` has
/// grown by that part of `a + b`.
pub proof fn lemma_grown_extend<T>(
    before: Seq<T>,
    mid: Seq<T>,
    after: Seq<T>,
    a: Seq<T>,
    b: Seq<T>,
    cap: Option<usize>,
    cancellable: bool,
    interrupted: bool,
)
    requires
        grown(before, mid, a, cap, cancellable, false),
        mid.len() - before.len() == a.len(),
        grown(mid, after, b, cap, cancellable, interrupted),
    ensures
        grown(before, after, a + b, cap, cancellable, interrupted),
{
    let n2 = after.len() - mid.len();
    assert(a.take(a.len() as int) =~= a);
    assert((a + b).take(a.len() + n2) =~= a + b.take(n2));
    assert(after =~= before + (a + b).take(a.len() + n2));
}

/// A list that has grown by a part of `a` and was stopped there has grown
/// by that part of `a + b`.
pub proof fn lemma_grown_stop<T>(
    before: Seq<T>,
    after: Seq<T>,
    a: Seq<T>,
    b: Seq<T>,
    cap: Option<usize>,
    cancellable: bool,
    interrupted: bool,
)
    requires
        grown(before, after, a, cap, cancellable, interrupted),
        interrupted || (cap matches Some(c) && after.len() >= c),
    ensures
        grown(before, after, a + b, cap, cancellable, interrupted),
{
    let n = after.len() - before.len();
    assert((a + b).take(n) =~= a.take(n));
}

/// A list that was left as it is has grown by the empty part of `results`.
pub proof fn lemma_grown_none<T>(
    before: Seq<T>,
    results: Seq<T>,
    cap: Option<usize>,
    cancellable: bool,
    interrupted: bool,
)
    requires
        interrupted ==> cancellable,
        !interrupted ==> results.len() == 0 || (cap matches Some(c) && before.len() >= c),
    ensures
        grown(before, before, results, cap, cancellable, interrupted),
{
    assert(before =~= before + results.take(0));
}

/// The cap that is left after one item.
pub open spec fn spec_dec_cap(cap: Option<usize>) -> Option<usize> {
    match cap {
        Some(c) => if c > 0 {
            Some((c - 1) as usize)
        } else {
            Some(0usize)
        },
        None => None,
    }
}

#[verifier::when_used_as_spec(spec_dec_cap)]
pub fn dec_cap(cap: Option<usize>) -> (r: Option<usize>)
    ensures
        r == spec_dec_cap(cap),
{
    match cap {
        Some(c) => if c > 0 {
            Some(c - 1)
        } else {
            Some(0)
        },
        None => None,
    }
}

/// Taking the first item off a capped sequence leaves the rest of the
/// sequence under the cap less one.
pub proof fn lemma_firstn_first<T>(s: Seq<T>, cap: Option<usize>)
    requires
        s.len() > 0,
        cap != Some(0usize),
    ensures
        firstn(s, cap).len() > 0,
        firstn(s, cap)[0] == s[0],
        firstn(s, cap).skip(1) == firstn(s.skip(1), spec_dec_cap(cap)),
{
    assert(firstn(s, cap).skip(1) =~= firstn(s.skip(1), spec_dec_cap(cap)));
}

/// Under the cap `a`, it makes no difference whether the front part `x` of
/// a sequence was cut at `q` or at the smaller of `q` and `a`.
pub proof fn lemma_firstn_absorb<T>(x: Seq<T>, t: Seq<T>, q: Option<usize>, a: Option<usize>)
    ensures
        firstn(firstn(x, spec_min_cap(q, a)) + t, a) == firstn(firstn(x, q) + t, a),
{
    assert(firstn(firstn(x, spec_min_cap(q, a)) + t, a) =~= firstn(firstn(x, q) + t, a));
}

/// What a list of solutions holds.
pub open spec fn sols_view(s: Seq<Solution>) -> Seq<SolutionView> {
    Seq::new(s.len(), |i: int| s[i]@)
}

/// A lazy sequence of solutions: each call of `next` does the work for one
/// more item and no more.
pub trait SolutionSource {
    /// The validity of the source's state.
    spec fn inv(&self) -> bool;

    /// The items still to come, in order, if nothing cancels.
    spec fn remaining(&self) -> Seq<SolutionView>;

    /// Whether the source has seen the cancellation signal.
    spec fn halted(&self) -> bool;

    /// Whether the source polls a cancellation token.
    spec fn cancellable(&self) -> bool;

    /// The next item, or `None` where nothing is left or the cancellation
    /// signal was seen.
    fn next(&mut self) -> (r: Option<Solution>)
        requires
            old(self).inv(),
        ensures
            final(self).inv(),
            final(self).cancellable() == old(self).cancellable(),
            old(self).halted() ==> final(self).halted(),
            !final(self).cancellable() ==> final(self).halted() == old(self).halted(),
            r matches Some(s) ==> old(self).remaining().len() > 0 && s@ == old(self).remaining()[0]
                && final(self).remaining() == old(self).remaining().skip(1),
            r is None ==> final(self).remaining() == old(self).remaining(),
            r is None ==> final(self).halted() || old(self).remaining().len() == 0,
    ;
}

/// A list of solutions as a source.
pub struct SolutionList {
    items: Vec<Solution>,
    pos: usize,
}

impl SolutionList {
    /// The source that yields `items` in order.
    pub fn new(items: Vec<Solution>) -> (r: SolutionList)
        ensures
            r.inv(),
            r.remaining() == sols_view(items@),
            !r.halted(),
            !r.cancellable(),
    {
        let r = SolutionList { items, pos: 0 };
        assert(sols_view(items@).skip(0) =~= sols_view(items@));
        r
    }
}

impl SolutionSource for SolutionList {
    closed spec fn inv(&self) -> bool {
        self.pos <= self.items@.len()
    }

    closed spec fn remaining(&self) -> Seq<SolutionView> {
        sols_view(self.items@).skip(self.pos as int)
    }

    closed spec fn halted(&self) -> bool {
        false
    }

    closed spec fn cancellable(&self) -> bool {
        false
    }

    fn next(&mut self) -> (r: Option<Solution>) {
        if self.pos < self.items.len() {
            let s = self.items[self.pos].clone();
            self.pos += 1;
            assert(sols_view(self.items@).skip(self.pos as int) =~= old(self).remaining().skip(1));
            Some(s)
        } else {
            None
        }
    }
}

} // verus!
