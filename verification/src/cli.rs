use vstd::prelude::*;

use crate::train::ModelKind;

verus! {

/// The command line of the tool: which ticker, which pipeline stage, and the mini-batch
/// size for training (full-batch training when absent).
#[derive(Debug, Clone)]
pub struct Cli {
    pub ticker: String,
    pub mode: RunMode,
    pub batch_size: Option<i64>,
}

/// A pipeline stage.
#[derive(Debug, Clone, Copy, PartialEq, Eq)]
pub enum RunMode {
    /// Retrieve daily ticker price history data, prepare lookback windows, scale them and
    /// save the training splits.
    RetrieveData,
    /// Train a vanilla RNN on the saved splits.
    RunRnn,
    /// Train an LSTM on the saved splits.
    RunLstm,
}

impl RunMode {
    /// The model that this stage trains, if it trains one.
    pub fn model_kind(self) -> (kind: Option<ModelKind>)
        ensures
            kind == match self {
                RunMode::RetrieveData => None,
                RunMode::RunRnn => Some(ModelKind::VanillaRnn),
                RunMode::RunLstm => Some(ModelKind::Lstm),
            },
    {
        match self {
            RunMode::RetrieveData => None,
            RunMode::RunRnn => Some(ModelKind::VanillaRnn),
            RunMode::RunLstm => Some(ModelKind::Lstm),
        }
    }
}

} // verus!
