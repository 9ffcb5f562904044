//! Fiat-Shamir transcripts: the `merlin` transcript and what the library
//! states of it.
use vstd::prelude::*;
use merlin::Transcript;

verus! {

#[verifier::external_type_specification]
#[verifier::external_body]
pub struct ExTranscript(merlin::Transcript);

/// One operation on a transcript, as a plain value.
pub enum TranscriptOp {
    /// `append_message(label, message)`.
    Message(Seq<u8>, Seq<u8>),
    /// `challenge_bytes(label, dest)` with `dest` of the given length.
    Challenge(Seq<u8>, nat),
}

/// The operations applied to a transcript since its STROBE state was
/// initialised with the merlin protocol label, in order.
pub uninterp spec fn transcript_entries(t: Transcript) -> Seq<TranscriptOp>;

/// The bytes that `challenge_bytes` writes, for a transcript whose entries
/// are `entries`, under `label`, into a buffer of `len` bytes.
pub uninterp spec fn merlin_challenge(entries: Seq<TranscriptOp>, label: Seq<u8>, len: nat) -> Seq<u8>;

/// The label `b"dom-sep"`.
pub open spec fn dom_sep_label() -> Seq<u8> {
    seq![100u8, 111u8, 109u8, 45u8, 115u8, 101u8, 112u8]
}

/// `Transcript::new(label)`: merlin initialises its STROBE state and then
/// appends `label` under `b"dom-sep"`, so the entries are that one message.
#[verifier::external_body]
pub(crate) fn transcript_new(label: &'static [u8]) -> (t: Transcript)
    requires
        label@.len() <= u32::MAX,
    ensures
        transcript_entries(t) == seq![TranscriptOp::Message(dom_sep_label(), label@)],
{
    Transcript::new(label)
}

/// `Transcript::append_message`: appends one message entry. merlin panics on
/// a message longer than `u32::MAX` bytes.
#[verifier::external_body]
pub(crate) fn transcript_append(t: &mut Transcript, label: &'static [u8], message: &[u8])
    requires
        message@.len() <= u32::MAX,
    ensures
        transcript_entries(*final(t)) == transcript_entries(*old(t)).push(
            TranscriptOp::Message(label@, message@),
        ),
{
    t.append_message(label, message)
}

/// `Transcript::challenge_bytes`: fills `dest` with bytes that depend on the
/// entries so far, the label and the length alone (STROBE is deterministic;
/// the old contents of `dest` are overwritten), and records the operation.
#[verifier::external_body]
pub(crate) fn transcript_challenge(t: &mut Transcript, label: &'static [u8], dest: &mut [u8])
    requires
        old(dest)@.len() <= u32::MAX,
    ensures
        final(dest)@ == merlin_challenge(transcript_entries(*old(t)), label@, old(dest)@.len()),
        final(dest)@.len() == old(dest)@.len(),
        transcript_entries(*final(t)) == transcript_entries(*old(t)).push(
            TranscriptOp::Challenge(label@, old(dest)@.len()),
        ),
{
    t.challenge_bytes(label, dest)
}

} // verus!
