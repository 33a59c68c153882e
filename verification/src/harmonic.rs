use vstd::prelude::*;

verus! {

/// The analyzer of harmonic strengths. It keeps no state from one frame to
/// the next, so a new one is all a caller needs.
#[derive(Debug, Default)]
pub struct HarmonicAnalyzer;

impl HarmonicAnalyzer {
    /// A new analyzer.
    pub fn new() -> (a: Self) {
        HarmonicAnalyzer
    }
}

} // verus!
