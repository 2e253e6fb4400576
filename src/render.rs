use vstd::prelude::*;

verus! {

/// One rendering pass: the image size, the samples per pixel and the number
/// of worker threads.
#[derive(Clone, Copy, Debug, PartialEq, Eq, Structural)]
pub struct Pass {
    pub imgx: usize,
    pub imgy: usize,
    pub n_samples: usize,
    pub n_threads: usize,
}

/// The passes of a scene, each shown before the next: a preview at a quarter
/// of the size with one sample on one thread, the full size with one sample
/// on one thread, then the full size with all samples on all threads.
pub fn render_passes(imgx: usize, imgy: usize, n_samples: usize, n_threads: usize) -> (r: Vec<Pass>)
    ensures
        r@ == seq![
            Pass { imgx: imgx / 4, imgy: imgy / 4, n_samples: 1, n_threads: 1 },
            Pass { imgx, imgy, n_samples: 1, n_threads: 1 },
            Pass { imgx, imgy, n_samples, n_threads },
        ],
{
    let mut r: Vec<Pass> = Vec::new();
    r.push(Pass { imgx: imgx / 4, imgy: imgy / 4, n_samples: 1, n_threads: 1 });
    r.push(Pass { imgx, imgy, n_samples: 1, n_threads: 1 });
    r.push(Pass { imgx, imgy, n_samples, n_threads });
    assert(r@ =~= seq![
        Pass { imgx: imgx / 4, imgy: imgy / 4, n_samples: 1, n_threads: 1 },
        Pass { imgx, imgy, n_samples: 1, n_threads: 1 },
        Pass { imgx, imgy, n_samples, n_threads },
    ]);
    r
}

/// What follows the answer to a finished pass.
#[derive(Clone, Copy, Debug, PartialEq, Eq, Structural)]
pub enum AfterPass {
    /// Render the pass with this index.
    Pass(usize),
    /// Draw a new scene and start again from the first pass.
    NewScene,
}

/// A scene goes on to its next pass only when the pass just shown was
/// accepted; after the last pass, or on refusal, a new scene is drawn.
pub fn after_answer(pass: usize, n_passes: usize, accepted: bool) -> (r: AfterPass)
    requires
        pass < n_passes,
    ensures
        r == (if accepted && pass + 1 < n_passes {
            AfterPass::Pass((pass + 1) as usize)
        } else {
            AfterPass::NewScene
        }),
{
    if accepted && pass + 1 < n_passes {
        AfterPass::Pass(pass + 1)
    } else {
        AfterPass::NewScene
    }
}

/// Capacity of the channel that carries finished frames: three for each
/// worker, so that workers wait when the accumulator falls behind.
pub fn channel_capacity(n_threads: usize) -> (r: usize)
    requires
        3 * n_threads <= usize::MAX,
    ensures
        r == 3 * n_threads,
{
    3 * n_threads
}

/// A worker that drew sample index `index` from the shared counter renders a
/// frame for it only when the index is below the number of samples wanted;
/// otherwise it stops.
pub fn sample_claimed(index: usize, n_samples: usize) -> (r: bool)
    ensures
        r == (index < n_samples),
{
    index < n_samples
}

/// The buffer row of image-plane row `j`, counted from the bottom: buffers
/// are stored from the top row down.
pub fn buffer_row(j: usize, imgy: usize) -> (r: usize)
    requires
        j < imgy,
    ensures
        r == imgy - 1 - j,
{
    imgy - 1 - j
}

/// What the accumulator learnt from its last receive.
#[derive(Clone, Copy, Debug, PartialEq, Eq, Structural)]
pub enum Received {
    /// A finished frame arrived.
    Frame,
    /// No frame arrived within the wait.
    Timeout,
    /// The channel is empty and every worker has gone.
    Closed,
}

/// What the accumulator does next.
#[derive(Clone, Copy, Debug, PartialEq, Eq, Structural)]
pub enum Action {
    /// Add the frame that arrived to the running sum.
    Accumulate,
    /// Hand a normalized copy of the running sum to the image sink.
    Snapshot,
    /// Nothing to do: receive again.
    Wait,
    /// All frames are in: the render is complete.
    Finish,
}

/// The accumulator's state: whether it waits without limit for a frame
/// (`draining` false) or drains frames as long as they keep coming within a
/// bounded wait, and how many frames it has added.
#[derive(Clone, Copy, Debug, PartialEq, Eq, Structural)]
pub struct Accumulator {
    pub draining: bool,
    pub frames: usize,
}

pub open spec fn spec_step(s: Accumulator, ev: Received) -> (Accumulator, Action) {
    match ev {
        Received::Frame => (Accumulator { draining: true, frames: (s.frames + 1) as usize }, Action::Accumulate),
        Received::Timeout => if s.draining {
            (Accumulator { draining: false, frames: s.frames }, Action::Snapshot)
        } else {
            (s, Action::Wait)
        },
        Received::Closed => if s.draining {
            (Accumulator { draining: false, frames: s.frames }, Action::Snapshot)
        } else {
            (s, Action::Finish)
        },
    }
}

impl Accumulator {
    /// Waiting for the first frame, none added.
    pub fn new() -> (r: Accumulator)
        ensures
            r == (Accumulator { draining: false, frames: 0 }),
    {
        Accumulator { draining: false, frames: 0 }
    }

    /// Whether the next receive waits without limit: true until a frame has
    /// come, and again after each snapshot.
    pub fn waits_for_frame(&self) -> (r: bool)
        ensures
            r == !self.draining,
    {
        !self.draining
    }

    /// Every frame is added and switches to draining. While draining, a
    /// timeout or the closing of the channel ends the burst with a snapshot.
    /// While waiting, the closing of the channel finishes the render.
    pub fn step(&mut self, ev: Received) -> (r: Action)
        requires
            old(self).frames < usize::MAX,
        ensures
            (*final(self), r) == spec_step(*old(self), ev),
    {
        match ev {
            Received::Frame => {
                self.draining = true;
                self.frames = self.frames + 1;
                Action::Accumulate
            },
            Received::Timeout => if self.draining {
                self.draining = false;
                Action::Snapshot
            } else {
                Action::Wait
            },
            Received::Closed => if self.draining {
                self.draining = false;
                Action::Snapshot
            } else {
                Action::Finish
            },
        }
    }
}

} // verus!
