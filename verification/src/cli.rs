//! The settings of the `analyze` command.
use vstd::prelude::*;

verus! {

/// What `analyze` is asked to do.
#[derive(Debug, Clone)]
pub struct AnalyzeArgs {
    /// The audio file to measure.
    pub input: String,
    /// Also draw the spectrogram and waveform.
    pub visualize: bool,
    /// Where the pictures go; the working directory when absent.
    pub output: Option<String>,
    /// Show each ffmpeg command line as it runs.
    pub verbose: bool,
}

} // verus!
