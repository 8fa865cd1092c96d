//! The evidence that a statement carries itself, in a `SmallVec`: up to
//! [`INLINE_EVIDENCE_CAP`] entries take no allocation.

use smallvec::SmallVec;
use vstd::prelude::*;

use crate::tables::statement::{EvidenceEntry, INLINE_EVIDENCE_CAP};

verus! {

/// A short list of evidence.
#[verifier::external_body]
#[derive(Debug, PartialEq, Eq)]
pub struct InlineEvidence {
    entries: SmallVec<[EvidenceEntry; INLINE_EVIDENCE_CAP]>,
}

/// The entries of a list, in order.
pub uninterp spec fn inline_entries(list: InlineEvidence) -> Seq<EvidenceEntry>;

impl View for InlineEvidence {
    type V = Seq<EvidenceEntry>;

    open spec fn view(&self) -> Seq<EvidenceEntry> {
        inline_entries(*self)
    }
}

/// `smallvec::SmallVec::new`: a list without entries.
#[verifier::external_body]
fn inline_new() -> (r: InlineEvidence)
    ensures
        inline_entries(r) == Seq::<EvidenceEntry>::empty(),
{
    InlineEvidence { entries: SmallVec::new() }
}

/// `smallvec::SmallVec::push`: the entry comes last, after those that were
/// there. Memory that runs out is not spoken of, as with a `Vec`.
#[verifier::external_body]
fn inline_push(list: &mut InlineEvidence, entry: EvidenceEntry)
    ensures
        inline_entries(*final(list)) == inline_entries(*old(list)).push(entry),
{
    list.entries.push(entry);
}

/// `smallvec::SmallVec::as_slice`: the entries, in order.
#[verifier::external_body]
fn inline_slice(list: &InlineEvidence) -> (r: &[EvidenceEntry])
    ensures
        r@ == inline_entries(*list),
{
    list.entries.as_slice()
}

impl InlineEvidence {
    /// The list of the given entries.
    pub fn from_entries(entries: &[EvidenceEntry]) -> (r: InlineEvidence)
        ensures
            r@ == entries@,
    {
        let mut list = inline_new();
        let mut i: usize = 0;
        while i < entries.len()
            invariant
                i <= entries.len(),
                list@ == entries@.take(i as int),
            decreases entries.len() - i,
        {
            inline_push(&mut list, entries[i]);
            i = i + 1;
            proof {
                assert(entries@.take(i as int) =~= entries@.take(i as int - 1).push(entries@[i as int - 1]));
            }
        }
        proof {
            assert(entries@.take(i as int) =~= entries@);
        }
        list
    }

    /// The entries, in order.
    pub fn as_slice(&self) -> (r: &[EvidenceEntry])
        ensures
            r@ == self@,
    {
        inline_slice(self)
    }
}

impl Clone for InlineEvidence {
    fn clone(&self) -> (r: Self)
        ensures
            r@ == self@,
    {
        InlineEvidence::from_entries(self.as_slice())
    }
}

} // verus!
