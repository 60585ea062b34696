use crate::control::ExitError;
use crate::word::Word;
use vstd::prelude::*;

verus! {

/// `s` with its top and the element at depth `n` exchanged.
pub open spec fn swapped(s: Seq<Word>, n: int) -> Seq<Word> {
    s.update(s.len() - 1, s[s.len() - 1 - n]).update(s.len() - 1 - n, s[s.len() - 1])
}

/// A bounded last-in first-out stack of words. The top is the last element of
/// the view.
pub struct Stack {
    data: Vec<Word>,
    limit: usize,
}

impl View for Stack {
    type V = Seq<Word>;

    closed spec fn view(&self) -> Seq<Word> {
        self.data@
    }
}

impl Stack {
    pub closed spec fn spec_limit(&self) -> nat {
        self.limit as nat
    }

    pub open spec fn wf(&self) -> bool {
        self@.len() <= self.spec_limit()
    }

    /// The element at depth `i`, counting the top as depth 0.
    pub open spec fn at_depth(&self, i: int) -> Word {
        self@[self@.len() - 1 - i]
    }

    pub fn new(limit: usize) -> (r: Stack)
        ensures
            r@ == Seq::<Word>::empty(),
            r.spec_limit() == limit,
            r.wf(),
    {
        Stack { data: Vec::new(), limit }
    }

    pub fn len(&self) -> (r: usize)
        ensures
            r == self@.len(),
    {
        self.data.len()
    }

    pub fn limit(&self) -> (r: usize)
        ensures
            r == self.spec_limit(),
    {
        self.limit
    }

    /// The elements from bottom to top.
    pub fn data(&self) -> (r: &Vec<Word>)
        ensures
            r@ == self@,
    {
        &self.data
    }

    pub fn pop(&mut self) -> (r: Result<Word, ExitError>)
        ensures
            old(self)@.len() == 0 ==> r == Err::<Word, ExitError>(ExitError::StackUnderflow)
                && final(self)@ == old(self)@,
            old(self)@.len() > 0 ==> r == Ok::<Word, ExitError>(old(self)@.last())
                && final(self)@ == old(self)@.drop_last(),
            final(self).spec_limit() == old(self).spec_limit(),
            old(self).wf() ==> final(self).wf(),
    {
        match self.data.pop() {
            Some(w) => Ok(w),
            None => Err(ExitError::StackUnderflow),
        }
    }

    pub fn push(&mut self, w: Word) -> (r: Result<(), ExitError>)
        ensures
            old(self)@.len() >= old(self).spec_limit() ==> r == Err::<(), ExitError>(
                ExitError::StackOverflow,
            ) && final(self)@ == old(self)@,
            old(self)@.len() < old(self).spec_limit() ==> r == Ok::<(), ExitError>(())
                && final(self)@ == old(self)@.push(w),
            final(self).spec_limit() == old(self).spec_limit(),
            old(self).wf() ==> final(self).wf(),
    {
        if self.data.len() >= self.limit {
            return Err(ExitError::StackOverflow);
        }
        self.data.push(w);
        Ok(())
    }

    /// Removes and returns the top of a non-empty stack.
    pub fn take_top(&mut self) -> (r: Word)
        requires
            old(self)@.len() > 0,
        ensures
            r == old(self)@.last(),
            final(self)@ == old(self)@.drop_last(),
            final(self).spec_limit() == old(self).spec_limit(),
            old(self).wf() ==> final(self).wf(),
    {
        self.data.pop().unwrap()
    }

    /// Pushes onto a stack that has room.
    pub fn put_top(&mut self, w: Word)
        requires
            old(self)@.len() < old(self).spec_limit(),
        ensures
            final(self)@ == old(self)@.push(w),
            final(self).spec_limit() == old(self).spec_limit(),
            old(self).wf() ==> final(self).wf(),
    {
        self.data.push(w);
    }

    /// The element at depth `i`.
    pub fn peek(&self, i: usize) -> (r: Result<Word, ExitError>)
        ensures
            i >= self@.len() ==> r == Err::<Word, ExitError>(ExitError::StackUnderflow),
            i < self@.len() ==> r == Ok::<Word, ExitError>(self.at_depth(i as int)),
    {
        if i >= self.data.len() {
            return Err(ExitError::StackUnderflow);
        }
        Ok(self.data[self.data.len() - 1 - i])
    }

    /// Overwrites the element at depth `i`.
    pub fn set(&mut self, i: usize, w: Word) -> (r: Result<(), ExitError>)
        ensures
            i >= old(self)@.len() ==> r == Err::<(), ExitError>(ExitError::StackUnderflow)
                && final(self)@ == old(self)@,
            i < old(self)@.len() ==> r == Ok::<(), ExitError>(()) && final(self)@ == old(
                self,
            )@.update(old(self)@.len() - 1 - i, w),
            final(self).spec_limit() == old(self).spec_limit(),
            old(self).wf() ==> final(self).wf(),
    {
        if i >= self.data.len() {
            return Err(ExitError::StackUnderflow);
        }
        let k = self.data.len() - 1 - i;
        self.data.set(k, w);
        Ok(())
    }

    /// Pushes a copy of the `n`-th element from the top (`n` = 1 is the top).
    pub fn dup(&mut self, n: usize) -> (r: Result<(), ExitError>)
        requires
            1 <= n,
        ensures
            n > old(self)@.len() ==> r == Err::<(), ExitError>(ExitError::StackUnderflow)
                && final(self)@ == old(self)@,
            n <= old(self)@.len() && old(self)@.len() >= old(self).spec_limit() ==> r == Err::<
                (),
                ExitError,
            >(ExitError::StackOverflow) && final(self)@ == old(self)@,
            n <= old(self)@.len() && old(self)@.len() < old(self).spec_limit() ==> r == Ok::<
                (),
                ExitError,
            >(()) && final(self)@ == old(self)@.push(old(self).at_depth(n - 1)),
            final(self).spec_limit() == old(self).spec_limit(),
            old(self).wf() ==> final(self).wf(),
    {
        let w = match self.peek(n - 1) {
            Ok(w) => w,
            Err(e) => return Err(e),
        };
        self.push(w)
    }

    /// Exchanges the top with the element at depth `n`.
    pub fn swap(&mut self, n: usize) -> (r: Result<(), ExitError>)
        requires
            1 <= n,
        ensures
            n >= old(self)@.len() ==> r == Err::<(), ExitError>(ExitError::StackUnderflow)
                && final(self)@ == old(self)@,
            n < old(self)@.len() ==> r == Ok::<(), ExitError>(()) && final(self)@ == swapped(
                old(self)@,
                n as int,
            ),
            final(self).spec_limit() == old(self).spec_limit(),
            old(self).wf() ==> final(self).wf(),
    {
        if n >= self.data.len() {
            return Err(ExitError::StackUnderflow);
        }
        let top = self.data.len() - 1;
        let k = top - n;
        let a = self.data[top];
        let b = self.data[k];
        self.data.set(top, b);
        self.data.set(k, a);
        Ok(())
    }
}

} // verus!
