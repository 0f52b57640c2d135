//! The shape of one rendered output row. Parsing input rows and rendering
//! these fields from account states are the adapter's concern; the engine
//! only fixes the shape and the field meanings.

use vstd::prelude::*;

verus! {

/// One account of the final report: the client id, the decimal renderings
/// of its available, held and total funds, and whether it is locked.
#[derive(Debug, Clone)]
pub struct OutputRow {
    pub client: u16,
    pub available: String,
    pub held: String,
    pub total: String,
    pub locked: bool,
}

} // verus!
