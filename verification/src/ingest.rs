//! Saving sampled hashes in segments, so that a failure in the middle loses nothing and saves
//! nothing twice.

use vstd::prelude::*;

verus! {

/// The number of hashes that are saved at once.
pub const SEGMENT: usize = 1024;

/// What to do next with the samples.
#[derive(Clone, Copy, Debug, PartialEq, Eq, Structural)]
pub enum IngestStep {
    /// Wait for a batch.
    Receive,
    /// Save the hashes from the first index up to the second.
    Save(usize, usize),
    /// The batch is saved in full.
    Finish,
}

/// The batch that is being saved, and how much of it is confirmed. It outlives the wait for a
/// confirmation, so that an interrupted save goes on where it was.
#[derive(Clone, Copy, Debug, PartialEq, Eq, Structural)]
pub struct SampleProgress {
    pub batch: Option<usize>,
    pub offset: usize,
    pub failed: bool,
}

impl SampleProgress {
    /// Whether no more is confirmed than there is.
    pub open spec fn well_formed(self) -> bool {
        match self.batch {
            Some(count) => self.offset <= count,
            None => true,
        }
    }

    /// The step that comes next.
    pub open spec fn step(self) -> IngestStep {
        match self.batch {
            None => IngestStep::Receive,
            Some(count) => if self.offset >= count {
                IngestStep::Finish
            } else {
                IngestStep::Save(
                    self.offset,
                    if count - self.offset > SEGMENT {
                        (self.offset + SEGMENT) as usize
                    } else {
                        count
                    },
                )
            },
        }
    }

    /// No batch yet.
    pub fn new() -> (progress: SampleProgress)
        ensures
            progress.well_formed(),
            progress.batch is None,
            progress.offset == 0,
            !progress.failed,
    {
        SampleProgress { batch: None, offset: 0, failed: false }
    }

    /// The step that comes next.
    pub fn next_step(&self) -> (step: IngestStep)
        requires
            self.well_formed(),
        ensures
            step == self.step(),
    {
        match self.batch {
            None => IngestStep::Receive,
            Some(count) => if self.offset >= count {
                IngestStep::Finish
            } else {
                let end: usize = if count - self.offset > SEGMENT {
                    self.offset + SEGMENT
                } else {
                    count
                };
                IngestStep::Save(self.offset, end)
            },
        }
    }

    /// Takes a batch of `count` hashes.
    pub fn received(&mut self, count: usize)
        requires
            old(self).step() is Receive,
        ensures
            final(self).well_formed(),
            *final(self) == (SampleProgress { batch: Some(count), offset: 0, ..*old(self) }),
    {
        self.batch = Some(count);
        self.offset = 0;
    }

    /// The segment that was asked for is saved.
    pub fn confirmed(&mut self)
        requires
            old(self).well_formed(),
            old(self).step() is Save,
        ensures
            final(self).well_formed(),
            *final(self) == (SampleProgress { offset: old(self).step()->Save_1, ..*old(self) }),
    {
        if let IngestStep::Save(_, end) = self.next_step() {
            self.offset = end;
        }
    }

    /// The segment that was asked for could not be saved. It stays to be saved.
    pub fn rejected(&mut self)
        requires
            old(self).well_formed(),
        ensures
            final(self).well_formed(),
            *final(self) == (SampleProgress { failed: true, ..*old(self) }),
            final(self).step() == old(self).step(),
    {
        self.failed = true;
    }

    /// The batch is saved in full, which also clears an earlier failure.
    pub fn finished(&mut self)
        requires
            old(self).step() is Finish,
        ensures
            final(self).well_formed(),
            final(self).batch is None,
            !final(self).failed,
            final(self).offset == old(self).offset,
    {
        self.batch = None;
        self.failed = false;
    }
}

/// A segment starts where the confirmed part ends, is not empty and not too large; once it is
/// confirmed the next one starts where it ended. So every hash is saved, in order, and none that is
/// confirmed is saved again.
pub proof fn lemma_segments(progress: SampleProgress)
    requires
        progress.well_formed(),
        progress.step() is Save,
    ensures
        ({
            let start = progress.step()->Save_0;
            let end = progress.step()->Save_1;
            let after = SampleProgress { offset: end, ..progress };
            &&& start == progress.offset
            &&& start < end <= progress.batch->0
            &&& end - start <= SEGMENT
            &&& after.step() is Finish <==> end == progress.batch->0
            &&& after.step() is Save ==> after.step()->Save_0 == end
        }),
{
}

/// Without a batch the next step is to receive one. A batch is saved from where it is confirmed, a
/// thousand and twenty-four hashes at once or what is left of it, and is finished where all of it is.
pub proof fn lemma_next_step(progress: SampleProgress)
    requires
        progress.well_formed(),
    ensures
        progress.batch is None <==> progress.step() is Receive,
        progress.batch matches Some(count) ==> {
            let left = count - progress.offset;
            &&& 0 <= left
            &&& progress.step() is Finish <==> left == 0
            &&& 0 < left <= 1024 ==> progress.step() == IngestStep::Save(progress.offset, count)
            &&& left > 1024 ==> progress.step() == IngestStep::Save(
                progress.offset,
                (progress.offset + 1024) as usize,
            )
        },
{
}

} // verus!
