//! Random bytes drawn from a transcript.
use vstd::prelude::*;
use merlin::Transcript;
use crate::transcript::{TranscriptOp, transcript_entries, merlin_challenge, transcript_challenge};

verus! {

/// Provides an arbitrary number of random bytes: the challenge bytes of a
/// borrowed transcript under one label.
pub struct RandomBytesProvider<'a> {
    pub transcript: &'a mut Transcript,
    pub label: &'static [u8],
}

impl<'a> RandomBytesProvider<'a> {
    /// A provider of the challenge bytes of `transcript` under `label`; what
    /// the provider does to the transcript is what the caller's transcript
    /// ends with.
    pub fn new(transcript: &'a mut Transcript, label: &'static [u8]) -> (r: Self)
        ensures
            r.label == label,
            *r.transcript == *old(transcript),
            *final(r.transcript) == *final(transcript),
    {
        RandomBytesProvider { transcript, label }
    }

    /// Writes random bytes into `dest`: the transcript's challenge bytes
    /// under the label. As the signature shows, a provider is used once.
    pub fn fill_bytes(self, dest: &mut [u8])
        requires
            old(dest)@.len() <= u32::MAX,
        ensures
            final(dest)@ == merlin_challenge(transcript_entries(*old(self.transcript)), self.label@, old(dest)@.len()),
            transcript_entries(*final(self.transcript)) == transcript_entries(*old(self.transcript)).push(
                TranscriptOp::Challenge(self.label@, old(dest)@.len()),
            ),
    {
        transcript_challenge(self.transcript, self.label, dest);
    }
}

} // verus!
