//! Bounded look-ahead over a sequence: elements are admitted ahead of
//! consumption, up to a limit, and are handed out in source order.

use std::collections::VecDeque;
use vstd::prelude::*;

verus! {

/// Buffer up to a set amount of a source sequence. Admitting an element is the
/// moment its work may start; consumption follows the source order exactly.
pub struct BufferedIter<T> {
    source: VecDeque<T>,
    buffer: VecDeque<T>,
    limit: usize,
    admitted: usize,
}

impl<T> BufferedIter<T> {
    /// Elements of the source that have not been admitted yet.
    pub closed spec fn pending(&self) -> Seq<T> {
        self.source@
    }

    /// Admitted elements that have not been consumed yet, oldest first.
    pub closed spec fn queued(&self) -> Seq<T> {
        self.buffer@
    }

    /// The look-ahead bound; `0` means no bound.
    pub closed spec fn limit(&self) -> nat {
        self.limit as nat
    }

    /// How many source elements have been admitted since construction.
    pub closed spec fn admitted_count(&self) -> nat {
        self.admitted as nat
    }

    /// Everything still to be handed out, in the order it will come.
    pub open spec fn items(&self) -> Seq<T> {
        self.queued() + self.pending()
    }

    pub open spec fn wf(&self) -> bool {
        &&& self.limit() == 0 ==> self.pending().len() == 0
        &&& self.limit() > 0 ==> self.queued().len() <= self.limit()
        &&& self.limit() > 0 && self.pending().len() > 0 ==> self.queued().len() == self.limit()
        &&& self.queued().len() <= self.admitted_count()
        &&& self.admitted_count() + self.pending().len() <= usize::MAX
    }

    /// Take up to `limit` elements of `source` into the buffer; `0` admits
    /// the whole source at once.
    pub fn new(source: Vec<T>, limit: usize) -> (r: Self)
        ensures
            r.wf(),
            r.limit() == limit,
            r.items() == source@,
            r.queued() == (if limit == 0 || source@.len() <= limit {
                source@
            } else {
                source@.take(limit as int)
            }),
            r.admitted_count() == r.queued().len(),
    {
        let total: usize = source.len();
        let mut rest = source;
        let mut all: VecDeque<T> = VecDeque::new();
        while rest.len() > 0
            invariant
                rest@ + all@ == source@,
                source@.len() == total,
            decreases rest@.len(),
        {
            match rest.pop() {
                Some(x) => {
                    all.push_front(x);
                    assert(rest@ + all@ =~= source@);
                },
                None => {},
            }
        }
        assert(all@ =~= source@);
        let mut buffer: VecDeque<T> = VecDeque::new();
        while (limit == 0 || buffer.len() < limit) && all.len() > 0
            invariant
                buffer@ + all@ == source@,
                limit > 0 ==> buffer@.len() <= limit,
                source@.len() == total,
            decreases all@.len(),
        {
            match all.pop_front() {
                Some(x) => {
                    buffer.push_back(x);
                    assert(buffer@ + all@ =~= source@);
                },
                None => {},
            }
        }
        proof {
            if limit == 0 || source@.len() <= limit {
                assert(buffer@ =~= source@);
            } else {
                assert(buffer@ =~= source@.take(limit as int));
            }
        }
        let admitted = buffer.len();
        BufferedIter { source: all, buffer, limit, admitted }
    }

    /// Number of elements currently buffered.
    pub fn len(&self) -> (r: usize)
        ensures
            r == self.queued().len(),
    {
        self.buffer.len()
    }

    /// Number of source elements admitted so far.
    pub fn admitted(&self) -> (r: usize)
        ensures
            r == self.admitted_count(),
    {
        self.admitted
    }

    /// Hand out the oldest buffered element and admit the next source
    /// element, if any.
    pub fn next(&mut self) -> (r: Option<T>)
        requires
            old(self).wf(),
        ensures
            final(self).wf(),
            final(self).limit() == old(self).limit(),
            old(self).items().len() == 0 ==> r is None && final(self).items() == old(self).items(),
            old(self).items().len() > 0 ==> r == Some(old(self).items()[0]) && final(self).items()
                == old(self).items().drop_first(),
            old(self).pending().len() > 0 ==> final(self).pending() == old(self).pending().drop_first()
                && final(self).admitted_count() == old(self).admitted_count() + 1,
            old(self).pending().len() == 0 ==> final(self).pending() == old(self).pending()
                && final(self).admitted_count() == old(self).admitted_count(),
    {
        let res = self.buffer.pop_front();
        match self.source.pop_front() {
            Some(x) => {
                self.buffer.push_back(x);
                self.admitted = self.admitted + 1;
            },
            None => {},
        }
        proof {
            if old(self).items().len() > 0 {
                assert(self.items() =~= old(self).items().drop_first());
            } else {
                assert(self.items() =~= old(self).items());
            }
        }
        res
    }

    /// Consume everything still to come. The elements arrive exactly in
    /// source order, and at no step is more than the limit buffered ahead.
    pub fn into_vec(self) -> (r: Vec<T>)
        requires
            self.wf(),
        ensures
            r@ == self.items(),
    {
        let ghost all = self.items();
        let mut it = self;
        let mut out: Vec<T> = Vec::new();
        while it.len() > 0
            invariant
                it.wf(),
                out@ + it.items() == all,
                it.limit() > 0 ==> it.queued().len() <= it.limit(),
            decreases it.items().len(),
        {
            let ghost before = it.items();
            match it.next() {
                Some(x) => {
                    out.push(x);
                    assert(out@ + it.items() =~= all);
                },
                None => {},
            }
        }
        assert(it.items() =~= Seq::<T>::empty());
        assert(out@ =~= all);
        out
    }

    /// Bounds on the number of elements still to come: the source's exact
    /// remaining count plus what is buffered, for both bounds.
    pub fn size_hint(&self) -> (r: (usize, Option<usize>))
        requires
            self.wf(),
        ensures
            r.0 == self.pending().len() + self.queued().len(),
            r.1 == Some(r.0),
    {
        let sh = self.source.len();
        let n = sh + self.buffer.len();
        (n, Some(n))
    }
}

} // verus!
