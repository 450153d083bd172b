//! The evidence that a group's epoch is frozen, and its stored form.

use crate::collections::{KeyMap, KeySet};
use crate::ids::GroupId;
use crate::text::{hex_bytes, hex_decode, hex_encode, hex_text, is_hex_text, law_hex_round_trip};
use vstd::prelude::*;

verus! {

/// What was seen of a group whose epoch does not advance.
#[derive(Clone, Copy, Debug, PartialEq, Eq, Structural)]
pub struct EpochStallEvidence {
    pub stalled_epoch: u64,
    pub fruitless_completions: u64,
    pub fruitless_reported: bool,
    pub last_arm_at_ms: u64,
}

/// The stored form of a group's evidence.
#[derive(Debug, PartialEq, Eq)]
pub struct StoredEpochStallEvidence {
    pub group_id_hex: String,
    pub stalled_epoch: u64,
    pub fruitless_completions: u64,
    pub fruitless_reported: bool,
    pub last_arm_at_ms: u64,
}

impl DeepView for StoredEpochStallEvidence {
    type V = (Seq<char>, EpochStallEvidence);

    open spec fn deep_view(&self) -> (Seq<char>, EpochStallEvidence) {
        (
            self.group_id_hex@,
            EpochStallEvidence {
                stalled_epoch: self.stalled_epoch,
                fruitless_completions: self.fruitless_completions,
                fruitless_reported: self.fruitless_reported,
                last_arm_at_ms: self.last_arm_at_ms,
            },
        )
    }
}

/// A group with its evidence.
#[derive(Debug)]
pub struct GroupEvidence {
    pub group_id: GroupId,
    pub evidence: EpochStallEvidence,
}

impl DeepView for GroupEvidence {
    type V = (Seq<u8>, EpochStallEvidence);

    open spec fn deep_view(&self) -> (Seq<u8>, EpochStallEvidence) {
        (self.group_id.deep_view(), self.evidence)
    }
}

/// The stored evidence of those groups that there is evidence of.
pub open spec fn evidence_rows(
    groups: Seq<Seq<u8>>,
    known: spec_fn(Seq<u8>) -> Option<EpochStallEvidence>,
) -> Seq<(Seq<char>, EpochStallEvidence)>
    decreases groups.len(),
{
    if groups.len() == 0 {
        Seq::empty()
    } else {
        let before = evidence_rows(groups.drop_last(), known);
        match known(groups.last()) {
            Some(evidence) => before.push((hex_text(groups.last()), evidence)),
            None => before,
        }
    }
}

/// What a table of evidence knows of a group.
pub open spec fn known_evidence(evidence: KeyMap<GroupId, EpochStallEvidence>) -> spec_fn(
    Seq<u8>,
) -> Option<EpochStallEvidence> {
    |group: Seq<u8>| evidence.lookup(group)
}

/// Writes the evidence of those groups that there is evidence of.
pub fn persist_epoch_stall_evidence(
    groups: &Vec<GroupId>,
    evidence: &KeyMap<GroupId, EpochStallEvidence>,
) -> (rows: Vec<StoredEpochStallEvidence>)
    ensures
        rows.deep_view() == evidence_rows(groups.deep_view(), known_evidence(*evidence)),
{
    let ghost all = groups.deep_view();
    let ghost known = known_evidence(*evidence);
    let mut rows: Vec<StoredEpochStallEvidence> = Vec::new();
    let mut i: usize = 0;
    assert(all.take(0) =~= Seq::<Seq<u8>>::empty());
    assert(rows.deep_view() =~= Seq::<(Seq<char>, EpochStallEvidence)>::empty());
    while i < groups.len()
        invariant
            i <= groups@.len(),
            all == groups.deep_view(),
            known == known_evidence(*evidence),
            rows.deep_view() == evidence_rows(all.take(i as int), known),
        decreases groups.len() - i,
    {
        assert(all.take(i + 1).drop_last() =~= all.take(i as int));
        assert(all.take(i + 1).last() == groups@[i as int].deep_view());
        let ghost before = rows.deep_view();
        if let Some(found) = evidence.get(&groups[i]) {
            let row = StoredEpochStallEvidence {
                group_id_hex: hex_encode(groups[i].bytes.as_slice()),
                stalled_epoch: found.stalled_epoch,
                fruitless_completions: found.fruitless_completions,
                fruitless_reported: found.fruitless_reported,
                last_arm_at_ms: found.last_arm_at_ms,
            };
            let ghost added = row.deep_view();
            rows.push(row);
            assert(rows.deep_view() =~= before.push(added));
        }
        i += 1;
    }
    assert(all.take(all.len() as int) =~= all);
    rows
}

/// The evidence that stored rows hold. A row whose group is not hexadecimal is
/// ignored.
pub open spec fn evidence_read(rows: Seq<(Seq<char>, EpochStallEvidence)>) -> Seq<
    (Seq<u8>, EpochStallEvidence),
>
    decreases rows.len(),
{
    if rows.len() == 0 {
        Seq::empty()
    } else {
        let before = evidence_read(rows.drop_last());
        if is_hex_text(rows.last().0) {
            before.push((hex_bytes(rows.last().0), rows.last().1))
        } else {
            before
        }
    }
}

/// Reads stored evidence, and counts the rows that are ignored.
pub fn restore_persisted_epoch_stall_evidence(rows: &Vec<StoredEpochStallEvidence>) -> (restored: (
    Vec<GroupEvidence>,
    usize,
))
    ensures
        restored.0.deep_view() == evidence_read(rows.deep_view()),
        restored.1 == rows@.len() - restored.0@.len(),
{
    let ghost all = rows.deep_view();
    let mut restored: Vec<GroupEvidence> = Vec::new();
    let mut malformed: usize = 0;
    let mut i: usize = 0;
    assert(all.take(0) =~= Seq::<(Seq<char>, EpochStallEvidence)>::empty());
    assert(restored.deep_view() =~= Seq::<(Seq<u8>, EpochStallEvidence)>::empty());
    while i < rows.len()
        invariant
            i <= rows@.len(),
            all == rows.deep_view(),
            restored.deep_view() == evidence_read(all.take(i as int)),
            malformed + restored@.len() == i,
        decreases rows.len() - i,
    {
        assert(all.take(i + 1).drop_last() =~= all.take(i as int));
        assert(all.take(i + 1).last() == rows@[i as int].deep_view());
        let ghost before = restored.deep_view();
        match hex_decode(rows[i].group_id_hex.as_str()) {
            Ok(bytes) => {
                let entry = GroupEvidence {
                    group_id: GroupId::new(bytes),
                    evidence: EpochStallEvidence {
                        stalled_epoch: rows[i].stalled_epoch,
                        fruitless_completions: rows[i].fruitless_completions,
                        fruitless_reported: rows[i].fruitless_reported,
                        last_arm_at_ms: rows[i].last_arm_at_ms,
                    },
                };
                let ghost added = entry.deep_view();
                restored.push(entry);
                assert(restored.deep_view() =~= before.push(added));
            },
            Err(_) => {
                malformed += 1;
            },
        }
        i += 1;
    }
    assert(all.take(all.len() as int) =~= all);
    (restored, malformed)
}

/// The groups that rows in hexadecimal name.
pub open spec fn decoded_groups(names: Seq<Seq<char>>) -> Seq<Seq<u8>>
    decreases names.len(),
{
    if names.len() == 0 {
        Seq::empty()
    } else {
        let before = decoded_groups(names.drop_last());
        if is_hex_text(names.last()) && !before.contains(hex_bytes(names.last())) {
            before.push(hex_bytes(names.last()))
        } else {
            before
        }
    }
}

/// Reads the groups that are shown to the user. A name that is not hexadecimal is
/// passed over.
pub fn projected_group_ids(names: &Vec<String>) -> (groups: KeySet<GroupId>)
    ensures
        groups.sequence() == decoded_groups(names.deep_view()),
{
    let ghost all = names.deep_view();
    let mut groups: KeySet<GroupId> = KeySet::new();
    let mut i: usize = 0;
    assert(all.take(0) =~= Seq::<Seq<char>>::empty());
    while i < names.len()
        invariant
            i <= names@.len(),
            all == names.deep_view(),
            groups.sequence() == decoded_groups(all.take(i as int)),
        decreases names.len() - i,
    {
        assert(all.take(i + 1).drop_last() =~= all.take(i as int));
        assert(all.take(i + 1).last() == names@[i as int]@);
        if let Ok(bytes) = hex_decode(names[i].as_str()) {
            let _ = groups.insert(GroupId::new(bytes));
        }
        i += 1;
    }
    assert(all.take(all.len() as int) =~= all);
    groups
}

/// The groups that there is evidence of, with it.
pub open spec fn evidence_of(
    groups: Seq<Seq<u8>>,
    known: spec_fn(Seq<u8>) -> Option<EpochStallEvidence>,
) -> Seq<(Seq<u8>, EpochStallEvidence)>
    decreases groups.len(),
{
    if groups.len() == 0 {
        Seq::empty()
    } else {
        let before = evidence_of(groups.drop_last(), known);
        match known(groups.last()) {
            Some(evidence) => before.push((groups.last(), evidence)),
            None => before,
        }
    }
}

/// Evidence that was stored is read back, for every group that there is evidence of
/// and for no other.
pub proof fn law_stored_evidence_is_read_back(
    groups: Seq<Seq<u8>>,
    known: spec_fn(Seq<u8>) -> Option<EpochStallEvidence>,
)
    ensures
        evidence_read(evidence_rows(groups, known)) == evidence_of(groups, known),
    decreases groups.len(),
{
    if groups.len() > 0 {
        law_stored_evidence_is_read_back(groups.drop_last(), known);
        let before = evidence_rows(groups.drop_last(), known);
        if let Some(evidence) = known(groups.last()) {
            law_hex_round_trip(groups.last());
            let rows = before.push((hex_text(groups.last()), evidence));
            assert(rows.drop_last() =~= before);
        }
    }
}

} // verus!
