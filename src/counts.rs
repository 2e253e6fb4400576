use vstd::prelude::*;

verus! {

/// Element-wise sum of two equally long count sequences.
pub open spec fn summed(a: Seq<nat>, b: Seq<nat>) -> Seq<nat> {
    Seq::new(a.len(), |i: int| a[i] + b[i])
}

/// How many samples each pixel of an image has received, row by row from the
/// top, with the image's dimensions.
#[derive(Debug)]
pub struct SampleCounts {
    imgx: usize,
    imgy: usize,
    counts: Vec<usize>,
}

impl View for SampleCounts {
    type V = Seq<nat>;

    closed spec fn view(&self) -> Seq<nat> {
        self.counts@.map_values(|c: usize| c as nat)
    }
}

impl SampleCounts {
    pub closed spec fn width(&self) -> nat {
        self.imgx as nat
    }

    pub closed spec fn height(&self) -> nat {
        self.imgy as nat
    }

    /// One count for each pixel.
    pub closed spec fn wf(&self) -> bool {
        &&& self.imgx * self.imgy <= usize::MAX
        &&& self.counts@.len() == self.imgx * self.imgy
    }

    /// Where pixel `(x, y)` stands: rows one after the other.
    pub open spec fn spec_index(&self, x: nat, y: nat) -> nat {
        y * self.width() + x
    }

    /// No pixel has received a sample yet.
    pub fn new(imgx: usize, imgy: usize) -> (r: SampleCounts)
        requires
            imgx * imgy <= usize::MAX,
        ensures
            r.wf(),
            r.width() == imgx,
            r.height() == imgy,
            r@ == Seq::new((imgx * imgy) as nat, |i: int| 0nat),
    {
        let n = imgx * imgy;
        let mut counts: Vec<usize> = Vec::new();
        let mut i: usize = 0;
        while i < n
            invariant
                i <= n,
                counts@.len() == i,
                forall|j: int| 0 <= j < i ==> counts@[j] == 0,
            decreases n - i,
        {
            counts.push(0);
            i += 1;
        }
        let r = SampleCounts { imgx, imgy, counts };
        assert(r@ =~= Seq::new((imgx * imgy) as nat, |i: int| 0nat));
        r
    }

    pub fn imgx(&self) -> (r: usize)
        ensures
            r == self.width(),
    {
        self.imgx
    }

    pub fn imgy(&self) -> (r: usize)
        ensures
            r == self.height(),
    {
        self.imgy
    }

    /// Position of pixel `(x, y)` in the image, counted row by row.
    pub fn index(&self, x: usize, y: usize) -> (r: usize)
        requires
            self.wf(),
            x < self.width(),
            y < self.height(),
        ensures
            r == self.spec_index(x as nat, y as nat),
            r < self@.len(),
    {
        proof {
            assert(y * self.imgx + x < self.imgx * self.imgy) by (nonlinear_arith)
                requires
                    x < self.imgx,
                    y < self.imgy,
            ;
            assert(y * self.imgx <= self.imgx * self.imgy) by (nonlinear_arith)
                requires
                    y < self.imgy,
            ;
        }
        y * self.imgx + x
    }

    /// Samples received so far by pixel `(x, y)`.
    pub fn count(&self, x: usize, y: usize) -> (r: usize)
        requires
            self.wf(),
            x < self.width(),
            y < self.height(),
        ensures
            r == self@[self.spec_index(x as nat, y as nat) as int],
    {
        let i = self.index(x, y);
        self.counts[i]
    }

    /// Records one more sample for pixel `(x, y)`.
    pub fn add_sample(&mut self, x: usize, y: usize)
        requires
            old(self).wf(),
            x < old(self).width(),
            y < old(self).height(),
            old(self)@[old(self).spec_index(x as nat, y as nat) as int] < usize::MAX,
        ensures
            final(self).wf(),
            final(self).width() == old(self).width(),
            final(self).height() == old(self).height(),
            final(self)@ == old(self)@.update(
                old(self).spec_index(x as nat, y as nat) as int,
                old(self)@[old(self).spec_index(x as nat, y as nat) as int] + 1,
            ),
    {
        let i = self.index(x, y);
        let c = self.counts[i];
        self.counts.set(i, c + 1);
        assert(self@ =~= old(self)@.update(i as int, old(self)@[i as int] + 1));
    }

    /// Adds the counts of `other`, an image of the same dimensions, pixel by
    /// pixel.
    pub fn add_counts(&mut self, other: &SampleCounts)
        requires
            old(self).wf(),
            other.wf(),
            other.width() == old(self).width(),
            other.height() == old(self).height(),
            forall|i: int| 0 <= i < old(self)@.len() ==> old(self)@[i] + other@[i] <= usize::MAX,
        ensures
            final(self).wf(),
            final(self).width() == old(self).width(),
            final(self).height() == old(self).height(),
            final(self)@ == summed(old(self)@, other@),
    {
        let n = self.counts.len();
        assert forall|j: int| 0 <= j < n implies old(self).counts@[j] + other.counts@[j] <= usize::MAX by {
            assert(old(self)@[j] == old(self).counts@[j] as nat);
            assert(other@[j] == other.counts@[j] as nat);
        }
        let mut i: usize = 0;
        while i < n
            invariant
                n == old(self).counts@.len(),
                n == other.counts@.len(),
                i <= n,
                self.imgx == old(self).imgx,
                self.imgy == old(self).imgy,
                self.counts@.len() == n,
                forall|j: int| 0 <= j < i ==> self.counts@[j] == old(self).counts@[j] + other.counts@[j],
                forall|j: int| i <= j < n ==> self.counts@[j] == old(self).counts@[j],
                forall|j: int| 0 <= j < n ==> old(self).counts@[j] + other.counts@[j] <= usize::MAX,
            decreases n - i,
        {
            let c = self.counts[i] + other.counts[i];
            self.counts.set(i, c);
            i += 1;
        }
        assert(self@ =~= summed(old(self)@, other@));
    }
}

/// Adding two frames' counts in either order gives the same totals.
pub proof fn lemma_accumulation_commutes(s: Seq<nat>, a: Seq<nat>, b: Seq<nat>)
    requires
        a.len() == s.len(),
        b.len() == s.len(),
    ensures
        summed(summed(s, a), b) == summed(summed(s, b), a),
{
    assert(summed(summed(s, a), b) =~= summed(summed(s, b), a));
}

} // verus!
