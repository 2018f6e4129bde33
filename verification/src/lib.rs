pub mod aggregate;
pub mod bed;
pub mod codon;
pub mod convert;
pub mod lines;
pub mod pipeline;
pub mod sequence;
pub mod text;
pub mod translate;
pub mod utils;

use vstd::prelude::*;

verus! {

/// The failure classes of the conversion pipeline.  Every one of them is
/// fatal to a run: the caller aborts instead of emitting partial output.
#[derive(Clone, Copy, PartialEq, Eq, Structural, Debug)]
pub enum PipelineError {
    /// A line of the interval input is structurally invalid.
    MalformedRecord,
    /// A transcript is missing from the isoform-to-gene mapping.
    MissingGene,
    /// A coding region is advertised but no codon can be resolved,
    /// or a position walk runs off the exon chain.
    CodonResolution,
    /// The output name selects no known dialect.
    UnsupportedFormat,
    /// An isoform mapping was supplied but held no usable entry.
    EmptyIsoformMap,
}

/// One strand of the genome; gene models on `-` are read right to left.
#[derive(Clone, Copy, PartialEq, Eq, Structural, Debug)]
pub enum Strand {
    Plus,
    Minus,
}

impl Strand {
    pub fn symbol(&self) -> (r: &'static str)
        ensures
            *self == Strand::Plus ==> r@ == "+"@,
            *self == Strand::Minus ==> r@ == "-"@,
    {
        match self {
            Strand::Plus => "+",
            Strand::Minus => "-",
        }
    }
}

} // verus!
