use vstd::prelude::*;

use crate::tokenizer::{event_views, lemma_event_views_push, ITreeSink, TreeEventView, TreeEvents};

verus! {

/// Failures a `VecSink` can report.
#[derive(Debug)]
pub enum Error {
    Overflow,
}

/// A sink that records every value pushed to it, in order.
pub struct VecSink<TInput> where TInput: Clone {
    data: Vec<TInput>,
}

impl<TInput: Clone> View for VecSink<TInput> {
    type V = Seq<TInput>;

    open spec fn view(&self) -> Seq<TInput> {
        self.recorded()
    }
}

impl<TInput: Clone> VecSink<TInput> {
    /// The values pushed so far, oldest first.
    pub closed spec fn recorded(&self) -> Seq<TInput> {
        self.data@
    }

    /// An empty sink.
    pub fn new() -> (r: Self)
        ensures
            r@ == Seq::<TInput>::empty(),
    {
        VecSink { data: Vec::new() }
    }

    /// A copy of the recorded values, oldest first.
    pub fn data(&self) -> (r: Vec<TInput>)
        ensures
            r@.len() == self@.len(),
            forall|i: int| 0 <= i < r@.len() ==> cloned::<TInput>(self@[i], #[trigger] r@[i]),
    {
        self.data.clone()
    }

    /// Records `input` after the values already held and returns how many
    /// values the sink now holds. A sink whose count can no longer grow
    /// refuses the value with `Error::Overflow` and stays as it was.
    pub fn push(&mut self, input: TInput) -> (r: Result<usize, Error>)
        ensures
            old(self)@.len() < usize::MAX ==> {
                &&& final(self)@ == old(self)@.push(input)
                &&& r == Ok::<usize, Error>(final(self)@.len() as usize)
            },
            old(self)@.len() >= usize::MAX ==> {
                &&& final(self)@ == old(self)@
                &&& r == Err::<usize, Error>(Error::Overflow)
            },
    {
        if self.data.len() == usize::MAX {
            return Err(Error::Overflow);
        }
        self.data.push(input);
        Ok(self.data.len())
    }
}

/// What a sink holds when `values` are pushed, one by one and each
/// accepted, onto one that holds `start`.
pub open spec fn after_pushes<TInput>(start: Seq<TInput>, values: Seq<TInput>) -> Seq<TInput>
    decreases values.len(),
{
    if values.len() == 0 {
        start
    } else {
        after_pushes(start, values.drop_last()).push(values.last())
    }
}

/// A sink built by `new` and given values by `push`, each accepted, holds
/// exactly those values, each once, in the order they were pushed; `data`
/// gives them back in that order.
pub proof fn law_pushes_are_recorded_in_order<TInput>(values: Seq<TInput>)
    ensures
        after_pushes(Seq::<TInput>::empty(), values) == values,
    decreases values.len(),
{
    if values.len() > 0 {
        law_pushes_are_recorded_in_order(values.drop_last());
        assert(values.drop_last().push(values.last()) =~= values);
    }
}

/// A sink that records the events of a tokenizer.
pub type VecTreeSink = VecSink<TreeEvents>;

impl ITreeSink for VecSink<TreeEvents> {
    type TResult = usize;
    type TError = Error;

    open spec fn received(&self) -> Seq<TreeEventView> {
        event_views(self@)
    }

    /// The sink has room until its count reaches `usize::MAX`.
    open spec fn room(&self) -> nat {
        if self@.len() < usize::MAX {
            (usize::MAX - self@.len()) as nat
        } else {
            0
        }
    }

    /// Records the event; the result is the number of events now held.
    fn handle(&mut self, input: TreeEvents) -> (r: Result<usize, Error>)
        ensures
            old(self)@.len() < usize::MAX ==> {
                &&& final(self)@ == old(self)@.push(input)
                &&& r == Ok::<usize, Error>(final(self)@.len() as usize)
            },
            old(self)@.len() >= usize::MAX ==> r == Err::<usize, Error>(Error::Overflow),
    {
        proof {
            lemma_event_views_push(self@, input);
        }
        self.push(input)
    }
}

} // verus!
