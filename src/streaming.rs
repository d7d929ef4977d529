//! The buffering and folding policy of a streaming quantile estimator.
//!
//! Samples are buffered and handed out in batches; the caller folds each batch
//! into its mergeable sketch (a fresh sketch of the batch, merged into the
//! current one if there is one) and then compresses the result. Batching
//! keeps the number of merges low at the price of a delay: a sample is seen
//! by quantile queries only once its batch has been folded, or after an
//! explicit flush with [`SketchBuffer::merge`].
use vstd::prelude::*;

verus! {

/// The number of buffered samples at which a batch is handed out.
pub const FOLD_THRESHOLD: usize = 200;

/// The size a sketch is compressed to after each fold.
pub const COMPRESSION_TARGET: usize = 2000;

/// A batch to fold into the sketch.
#[derive(Debug)]
pub struct Fold<T> {
    /// The samples, in the order they were inserted.
    pub batch: Vec<T>,
    /// Whether a sketch already exists that the batch's sketch is merged into;
    /// otherwise the batch's sketch becomes the sketch.
    pub merge_into_existing: bool,
    /// The size to compress the resulting sketch to.
    pub compress_to: usize,
}

/// The buffer in front of a sketch, and whether the sketch exists yet.
pub struct SketchBuffer<T> {
    pending: Vec<T>,
    threshold: usize,
    sketched: bool,
    inserted: Ghost<Seq<T>>,
    folded: Ghost<Seq<T>>,
}

impl<T> SketchBuffer<T> {
    /// The samples that have not been handed out yet.
    pub closed spec fn pending(&self) -> Seq<T> {
        self.pending@
    }

    /// The buffer length at which a batch is handed out.
    pub closed spec fn threshold(&self) -> nat {
        self.threshold as nat
    }

    /// Whether a batch has been handed out, so that a sketch exists.
    pub closed spec fn sketched(&self) -> bool {
        self.sketched
    }

    /// Every sample inserted so far, in order.
    pub closed spec fn inserted(&self) -> Seq<T> {
        self.inserted@
    }

    /// Every sample handed out in a batch so far, in order.
    pub closed spec fn folded(&self) -> Seq<T> {
        self.folded@
    }

    pub open spec fn wf(&self) -> bool {
        &&& self.threshold() >= 1
        &&& self.pending().len() < self.threshold()
        &&& self.folded() + self.pending() == self.inserted()
        &&& self.sketched() <==> self.folded().len() > 0
    }

    /// The fold that hands out the samples `batch`.
    pub open spec fn fold_of(&self, f: Fold<T>, batch: Seq<T>) -> bool {
        &&& f.batch@ == batch
        &&& f.merge_into_existing == self.sketched()
        &&& f.compress_to == COMPRESSION_TARGET
    }

    /// An empty buffer that hands out batches of `FOLD_THRESHOLD` samples.
    pub fn new() -> (r: SketchBuffer<T>)
        ensures
            r.wf(),
            r.pending() == Seq::<T>::empty(),
            r.inserted() == Seq::<T>::empty(),
            r.threshold() == FOLD_THRESHOLD,
            !r.sketched(),
    {
        SketchBuffer {
            pending: Vec::new(),
            threshold: FOLD_THRESHOLD,
            sketched: false,
            inserted: Ghost(Seq::empty()),
            folded: Ghost(Seq::empty()),
        }
    }

    /// An empty buffer that hands out batches of `threshold` samples.
    pub fn with_threshold(threshold: usize) -> (r: SketchBuffer<T>)
        requires
            threshold >= 1,
        ensures
            r.wf(),
            r.pending() == Seq::<T>::empty(),
            r.inserted() == Seq::<T>::empty(),
            r.threshold() == threshold,
            !r.sketched(),
    {
        SketchBuffer {
            pending: Vec::new(),
            threshold,
            sketched: false,
            inserted: Ghost(Seq::empty()),
            folded: Ghost(Seq::empty()),
        }
    }

    /// Whether quantile queries can be answered from a sketch.
    pub fn has_sketch(&self) -> (r: bool)
        ensures
            r == self.sketched(),
    {
        self.sketched
    }

    /// The number of samples waiting to be folded.
    pub fn pending_len(&self) -> (r: usize)
        ensures
            r == self.pending().len(),
    {
        self.pending.len()
    }

    fn take_fold(&mut self) -> (r: Fold<T>)
        requires
            old(self).threshold() >= 1,
            old(self).folded() + old(self).pending() == old(self).inserted(),
            old(self).pending().len() > 0,
        ensures
            final(self).wf(),
            final(self).inserted() == old(self).inserted(),
            old(self).fold_of(r, old(self).pending()),
            final(self).pending() == Seq::<T>::empty(),
            final(self).threshold() == old(self).threshold(),
            final(self).sketched(),
            final(self).folded() == old(self).folded() + old(self).pending(),
    {
        let mut batch: Vec<T> = Vec::new();
        std::mem::swap(&mut batch, &mut self.pending);
        let merge_into_existing = self.sketched;
        self.sketched = true;
        proof {
            self.folded = Ghost(self.folded@ + batch@);
        }
        Fold { batch, merge_into_existing, compress_to: COMPRESSION_TARGET }
    }

    /// Buffers `x`; once the buffer holds `threshold` samples they are handed
    /// out as a batch to fold, and the buffer starts over empty.
    pub fn insert(&mut self, x: T) -> (r: Option<Fold<T>>)
        requires
            old(self).wf(),
        ensures
            final(self).wf(),
            final(self).threshold() == old(self).threshold(),
            final(self).inserted() == old(self).inserted().push(x),
            ({
                let p = old(self).pending().push(x);
                if p.len() >= old(self).threshold() {
                    &&& r is Some
                    &&& old(self).fold_of(r->Some_0, p)
                    &&& final(self).pending() == Seq::<T>::empty()
                    &&& final(self).sketched()
                } else {
                    &&& r is None
                    &&& final(self).pending() == p
                    &&& final(self).sketched() == old(self).sketched()
                }
            }),
    {
        self.pending.push(x);
        proof {
            self.inserted = Ghost(self.inserted@.push(x));
            assert(self.folded@ + self.pending@ == self.inserted@);
        }
        if self.pending.len() >= self.threshold {
            Some(self.take_fold())
        } else {
            None
        }
    }

    /// Hands out whatever is buffered, even below the threshold. With an empty
    /// buffer nothing happens: the sketch, and every quantile read from it,
    /// stays as it was.
    pub fn merge(&mut self) -> (r: Option<Fold<T>>)
        requires
            old(self).wf(),
        ensures
            final(self).wf(),
            final(self).threshold() == old(self).threshold(),
            final(self).inserted() == old(self).inserted(),
            final(self).pending() == Seq::<T>::empty(),
            final(self).folded() == final(self).inserted(),
            old(self).pending().len() == 0 ==> r is None && final(self).pending() == old(self).pending()
                && final(self).sketched() == old(self).sketched(),
            old(self).pending().len() > 0 ==> {
                &&& r is Some
                &&& old(self).fold_of(r->Some_0, old(self).pending())
                &&& final(self).pending() == Seq::<T>::empty()
                &&& final(self).sketched()
            },
    {
        if self.pending.len() == 0 {
            return None;
        }
        Some(self.take_fold())
    }
}

/// Whatever their batch sizes, two buffers given the same samples have, once
/// both are flushed, handed the same samples to their sketches in the same
/// order.
pub proof fn lemma_flushed_buffers_agree<T>(a: SketchBuffer<T>, b: SketchBuffer<T>)
    requires
        a.wf(),
        b.wf(),
        a.inserted() == b.inserted(),
        a.pending().len() == 0,
        b.pending().len() == 0,
    ensures
        a.folded() == b.folded(),
        a.folded() == a.inserted(),
{
    assert(a.folded() + a.pending() == a.folded());
    assert(b.folded() + b.pending() == b.folded());
}


} // verus!
