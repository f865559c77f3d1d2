//! Scratch-path construction for the fixed conformance catalog: a path
//! modelled as its list of segments, grown and trimmed at the right end.

use vstd::prelude::*;

verus! {

/// A scratch path: the ordered segments below some root.
#[derive(Clone)]
pub struct TestPath {
    segments: Vec<String>,
}

impl View for TestPath {
    type V = Seq<Seq<char>>;

    closed spec fn view(&self) -> Seq<Seq<char>> {
        self.segments@.map_values(|s: String| s@)
    }
}

impl TestPath {
    /// A path with no segments yet.
    pub fn new() -> (r: TestPath)
        ensures
            r@ == Seq::<Seq<char>>::empty(),
    {
        let r = TestPath { segments: Vec::new() };
        proof {
            assert(r@ =~= Seq::<Seq<char>>::empty());
        }
        r
    }

    /// Append one segment at the end.
    pub fn push(&mut self, segment: String)
        ensures
            final(self)@ == old(self)@.push(segment@),
    {
        let ghost s = segment@;
        self.segments.push(segment);
        proof {
            assert(self@ =~= old(self)@.push(s));
        }
    }

    /// Drop the last segment, reporting whether there was one to drop.
    pub fn pop(&mut self) -> (r: bool)
        ensures
            r == (old(self)@.len() > 0),
            r ==> final(self)@ == old(self)@.drop_last(),
            !r ==> final(self)@ == old(self)@,
    {
        if self.segments.len() > 0 {
            let _last = self.segments.pop();
            proof {
                assert(self@ =~= old(self)@.drop_last());
            }
            true
        } else {
            false
        }
    }

    /// How many segments the path holds.
    pub fn depth(&self) -> (r: usize)
        ensures
            r == self@.len(),
    {
        self.segments.len()
    }

    /// The segments themselves, for rendering into a platform path.
    pub fn segments(&self) -> (r: &Vec<String>)
        ensures
            r@.map_values(|s: String| s@) == self@,
    {
        &self.segments
    }
}

} // verus!
