//! The ordered batch queue behind asynchronous process output.
//!
//! A producer appends to a buffer of its own. At the end of a frame that
//! buffer becomes one batch of the queue. Batches keep their order; a final
//! batch closes the queue, and a closed queue drains what it holds before it
//! reports its end.
use vstd::prelude::*;

verus! {

/// One batch of text, with the completion token of a final batch.
pub struct OutputBatch<C> {
    pub text: String,
    pub completion: Option<C>,
}

/// What the writer gets when it asks for the next batch.
pub enum TakeNext<C> {
    /// The oldest batch.
    Batch(OutputBatch<C>),
    /// Nothing is queued and nothing more will be.
    Closed,
    /// Nothing is queued yet; the writer waits for a producer.
    Pending,
}

/// The queued texts after `batch` is pushed: a non-empty batch joins them
/// while the queue accepts output.
pub open spec fn after_push(texts: Seq<Seq<char>>, accepting: bool, batch: Seq<char>) -> Seq<Seq<char>> {
    if accepting && batch.len() > 0 {
        texts.push(batch)
    } else {
        texts
    }
}

/// The queued texts after each of `batches` is pushed in turn.
pub open spec fn after_pushes(
    texts: Seq<Seq<char>>,
    accepting: bool,
    batches: Seq<Seq<char>>,
) -> Seq<Seq<char>>
    decreases batches.len(),
{
    if batches.len() == 0 {
        texts
    } else {
        after_push(after_pushes(texts, accepting, batches.drop_last()), accepting, batches.last())
    }
}

/// Once the queue has stopped accepting output, as it does after the final
/// batch, no later batch is queued, however many are pushed.
pub proof fn lemma_closed_queue_takes_nothing(texts: Seq<Seq<char>>, batches: Seq<Seq<char>>)
    ensures
        after_pushes(texts, false, batches) == texts,
    decreases batches.len(),
{
    if batches.len() > 0 {
        lemma_closed_queue_takes_nothing(texts, batches.drop_last());
    }
}

/// The queued batches and whether more are accepted.
pub struct OutputQueue<C> {
    batches: Vec<OutputBatch<C>>,
    accepting: bool,
}

impl<C> OutputQueue<C> {
    /// The queued texts, oldest first.
    pub closed spec fn texts(&self) -> Seq<Seq<char>> {
        self.batches@.map_values(|batch: OutputBatch<C>| batch.text@)
    }

    /// Which queued batches carry a completion token.
    pub closed spec fn completions(&self) -> Seq<bool> {
        self.batches@.map_values(|batch: OutputBatch<C>| batch.completion is Some)
    }

    pub closed spec fn accepting(&self) -> bool {
        self.accepting
    }

    pub fn new() -> (queue: Self)
        ensures
            queue.texts() == Seq::<Seq<char>>::empty(),
            queue.completions() == Seq::<bool>::empty(),
            queue.accepting(),
    {
        let queue = Self { batches: Vec::new(), accepting: true };
        proof {
            assert(queue.texts() =~= Seq::<Seq<char>>::empty());
            assert(queue.completions() =~= Seq::<bool>::empty());
        }
        queue
    }

    /// Whether no batch is queued.
    pub fn is_empty(&self) -> (empty: bool)
        ensures
            empty == (self.texts().len() == 0),
    {
        self.batches.len() == 0
    }

    fn push_batch(&mut self, batch: OutputBatch<C>)
        ensures
            final(self).texts() == if old(self).accepting() {
                old(self).texts().push(batch.text@)
            } else {
                old(self).texts()
            },
            final(self).completions() == if old(self).accepting() {
                old(self).completions().push(batch.completion is Some)
            } else {
                old(self).completions()
            },
            final(self).accepting() == old(self).accepting(),
    {
        if self.accepting {
            let ghost before = self.batches@;
            let ghost text = batch.text@;
            let ghost completes = batch.completion is Some;
            self.batches.push(batch);
            proof {
                assert(self.texts() =~= before.map_values(|batch: OutputBatch<C>| batch.text@).push(
                    text,
                ));
                assert(self.completions() =~= before.map_values(
                    |batch: OutputBatch<C>| batch.completion is Some,
                ).push(completes));
            }
        }
    }

    /// Queues a non-empty batch while the queue accepts output.
    pub fn push(&mut self, batch: String)
        ensures
            final(self).texts() == after_push(old(self).texts(), old(self).accepting(), batch@),
            final(self).completions() == if old(self).accepting() && batch@.len() > 0 {
                old(self).completions().push(false)
            } else {
                old(self).completions()
            },
            final(self).accepting() == old(self).accepting(),
    {
        if batch.as_str().is_empty() {
            return;
        }
        self.push_batch(OutputBatch { text: batch, completion: None });
    }

    /// Queues the last batch with its completion token; from then on the
    /// queue rejects every later batch. The token comes back when it can be
    /// signalled at once: the batch is empty, or the queue was already closed.
    pub fn push_final(&mut self, batch: String, completion: C) -> (unsignalled: Option<C>)
        ensures
            !final(self).accepting(),
            batch@.len() == 0 ==> unsignalled == Some(completion) && final(self).texts() == old(self).texts() && final(self).completions() == old(self).completions(),
            batch@.len() > 0 && old(self).accepting() ==> unsignalled is None && final(self).texts()
                == old(self).texts().push(batch@) && final(self).completions() == old(self).completions().push(true),
            batch@.len() > 0 && !old(self).accepting() ==> unsignalled == Some(completion) && final(self).texts() == old(self).texts() && final(self).completions() == old(self).completions(),
    {
        if batch.as_str().is_empty() {
            self.accepting = false;
            return Some(completion);
        }
        if self.accepting {
            self.push_batch(OutputBatch { text: batch, completion: Some(completion) });
            self.accepting = false;
            None
        } else {
            Some(completion)
        }
    }

    /// Stops accepting output; what is queued is still handed out.
    pub fn close(&mut self)
        ensures
            final(self).texts() == old(self).texts(),
            final(self).completions() == old(self).completions(),
            !final(self).accepting(),
    {
        self.accepting = false;
    }

    /// Hands out the oldest batch, or says whether more can still come.
    pub fn take_next(&mut self) -> (next: TakeNext<C>)
        ensures
            old(self).texts().len() > 0 ==> match next {
                TakeNext::Batch(batch) => {
                    &&& batch.text@ == old(self).texts()[0]
                    &&& (batch.completion is Some) == old(self).completions()[0]
                    &&& final(self).texts() == old(self).texts().drop_first()
                    &&& final(self).completions() == old(self).completions().drop_first()
                },
                _ => false,
            },
            old(self).texts().len() == 0 ==> final(self).texts() == old(self).texts()
                && final(self).completions() == old(self).completions() && (if old(self).accepting() {
                next is Pending
            } else {
                next is Closed
            }),
            final(self).accepting() == old(self).accepting(),
    {
        if self.batches.len() > 0 {
            let ghost before = self.batches@;
            let batch = self.batches.remove(0);
            proof {
                assert(self.texts() =~= before.map_values(
                    |batch: OutputBatch<C>| batch.text@,
                ).drop_first());
                assert(self.completions() =~= before.map_values(
                    |batch: OutputBatch<C>| batch.completion is Some,
                ).drop_first());
            }
            TakeNext::Batch(batch)
        } else if self.accepting {
            TakeNext::Pending
        } else {
            TakeNext::Closed
        }
    }

    /// Hands out the texts of every queued batch, oldest first.
    pub fn take_all(&mut self) -> (texts: Vec<String>)
        ensures
            texts@.map_values(|text: String| text@) == old(self).texts(),
            final(self).texts() == Seq::<Seq<char>>::empty(),
            final(self).accepting() == old(self).accepting(),
    {
        let mut texts: Vec<String> = Vec::new();
        let ghost initial = self.texts();
        let ghost accepting = self.accepting;
        proof {
            assert(initial.take(0) =~= Seq::<Seq<char>>::empty());
            assert(texts@.map_values(|text: String| text@) =~= Seq::<Seq<char>>::empty());
        }
        while self.batches.len() > 0
            invariant
                texts@.map_values(|text: String| text@) + self.texts() == initial,
                self.accepting == accepting,
            decreases self.batches@.len(),
        {
            let ghost before = self.texts();
            let ghost taken = texts@.map_values(|text: String| text@);
            let batch = self.batches.remove(0);
            texts.push(batch.text);
            proof {
                assert(self.texts() =~= before.drop_first());
                assert(texts@.map_values(|text: String| text@) =~= taken.push(before[0]));
                assert(taken.push(before[0]) + before.drop_first() =~= taken + before);
            }
        }
        proof {
            assert(texts@.map_values(|text: String| text@) =~= initial);
            assert(self.texts() =~= Seq::<Seq<char>>::empty());
        }
        texts
    }
}

} // verus!
