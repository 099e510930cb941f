//! The request envelope of the remote translation service.

use vstd::prelude::*;

verus! {

/// Task marker for a text-to-text translation request.
pub const TASK_TEXT_TO_TEXT: &'static str = "text2text";

/// Task marker for a speech-to-text transcription request.
pub const TASK_SPEECH_TO_TEXT: &'static str = "speech2text";

/// One request to the remote translation service: the payload (plain text,
/// or base64-encoded audio), the two languages, and the task marker.
/// Immutable once constructed; serialized as the service's JSON envelope.
#[derive(Debug)]
pub struct SubnetPost {
    pub input: String,
    pub source_language: String,
    pub target_language: String,
    pub task_string: String,
}

/// The mathematical content of a `SubnetPost`.
pub struct SubnetPostV {
    pub input: Seq<char>,
    pub source_language: Seq<char>,
    pub target_language: Seq<char>,
    pub task_string: Seq<char>,
}

impl View for SubnetPost {
    type V = SubnetPostV;

    open spec fn view(&self) -> SubnetPostV {
        SubnetPostV {
            input: self.input@,
            source_language: self.source_language@,
            target_language: self.target_language@,
            task_string: self.task_string@,
        }
    }
}

} // verus!
