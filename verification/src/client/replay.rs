//! Stored batches grouped into the operations they came from.

use crate::client::visibility::{
    merge_account_visibility_effects, AccountDeviceEffects, AccountVisibilityBatch,
    AccountVisibilitySource, EffectsContent, SourceContent,
};
use crate::collections::Key;
use crate::error::AppError;
use crate::ids::OperationId;
use crate::order::{extend_unique, lemma_extend_unique, lemma_push_contains};
use vstd::prelude::*;

verus! {

/// One operation to be projected again under its own source.
#[derive(Debug, PartialEq, Eq)]
pub struct ReplayedAccountVisibilityOperation {
    pub operation_id: OperationId,
    pub source: AccountVisibilitySource,
    pub effects: AccountDeviceEffects,
}

/// The operations that batches belong to, in order, with repetitions.
pub open spec fn operation_ids(batches: Seq<AccountVisibilityBatch>) -> Seq<Seq<u8>> {
    Seq::new(batches.len(), |i: int| batches[i].operation_id.deep_view())
}

/// The source of an operation's first batch.
pub open spec fn first_source(
    batches: Seq<AccountVisibilityBatch>,
    operation: Seq<u8>,
) -> Option<SourceContent>
    decreases batches.len(),
{
    if batches.len() == 0 {
        None
    } else {
        match first_source(batches.drop_last(), operation) {
            Some(source) => Some(source),
            None => if batches.last().operation_id.deep_view() == operation {
                Some(batches.last().source.deep_view())
            } else {
                None
            },
        }
    }
}

/// The effects of an operation's batches, in order.
pub open spec fn merged_effects(
    batches: Seq<AccountVisibilityBatch>,
    operation: Seq<u8>,
) -> EffectsContent
    decreases batches.len(),
{
    if batches.len() == 0 {
        EffectsContent::none()
    } else {
        let before = merged_effects(batches.drop_last(), operation);
        if batches.last().operation_id.deep_view() == operation {
            before.followed_by(batches.last().effects@)
        } else {
            before
        }
    }
}

/// Whether every batch has the source of its operation's first batch.
pub open spec fn sources_agree(batches: Seq<AccountVisibilityBatch>) -> bool {
    forall|i: int|
        0 <= i < batches.len() ==> first_source(
            batches,
            (#[trigger] batches[i]).operation_id.deep_view(),
        ) == Some(batches[i].source.deep_view())
}

pub open spec fn replayed_ids(operations: Seq<ReplayedAccountVisibilityOperation>) -> Seq<Seq<u8>> {
    Seq::new(operations.len(), |i: int| operations[i].operation_id.deep_view())
}

proof fn lemma_first_source_grows(
    batches: Seq<AccountVisibilityBatch>,
    batch: AccountVisibilityBatch,
    operation: Seq<u8>,
)
    ensures
        first_source(batches.push(batch), operation) == (match first_source(batches, operation) {
            Some(source) => Some(source),
            None => if batch.operation_id.deep_view() == operation {
                Some(batch.source.deep_view())
            } else {
                None
            },
        }),
        merged_effects(batches.push(batch), operation) == (if batch.operation_id.deep_view()
            == operation {
            merged_effects(batches, operation).followed_by(batch.effects@)
        } else {
            merged_effects(batches, operation)
        }),
{
    assert(batches.push(batch).drop_last() =~= batches);
}

proof fn lemma_first_source_known(batches: Seq<AccountVisibilityBatch>, operation: Seq<u8>)
    ensures
        first_source(batches, operation) is Some <==> operation_ids(batches).contains(operation),
        !operation_ids(batches).contains(operation) ==> merged_effects(batches, operation)
            == EffectsContent::none(),
    decreases batches.len(),
{
    if batches.len() == 0 {
    } else {
        let rest = batches.drop_last();
        lemma_first_source_known(rest, operation);
        let last = batches.last().operation_id.deep_view();
        assert(operation_ids(batches) =~= operation_ids(rest).push(last));
        lemma_push_contains(operation_ids(rest), last, operation);
    }
}

/// What is known of the operations after some batches.
pub open spec fn grouped(
    operations: Seq<ReplayedAccountVisibilityOperation>,
    batches: Seq<AccountVisibilityBatch>,
) -> bool {
    &&& replayed_ids(operations) == extend_unique(Seq::empty(), operation_ids(batches))
    &&& forall|k: int|
        0 <= k < operations.len() ==> {
            let id = (#[trigger] operations[k]).operation_id.deep_view();
            &&& first_source(batches, id) == Some(operations[k].source.deep_view())
            &&& operations[k].effects@ == merged_effects(batches, id)
        }
}

/// Groups batches into operations, in the order of each operation's first batch.
/// Every operation keeps its own source; a batch that claims another is refused.
pub fn group_visibility_operations(batches: Vec<AccountVisibilityBatch>) -> (operations: Result<
    Vec<ReplayedAccountVisibilityOperation>,
    AppError,
>)
    ensures
        match operations {
            Ok(list) => sources_agree(batches@) && grouped(list@, batches@),
            Err(error) => !sources_agree(batches@) && (error matches AppError::BlockingTask(text)
                && text@ == "account visibility operation changed source"@),
        },
{
    let ghost all = batches@;
    let mut source = batches;
    let mut operations: Vec<ReplayedAccountVisibilityOperation> = Vec::new();
    assert(all.take(0) =~= Seq::<AccountVisibilityBatch>::empty());
    assert(all.skip(0) =~= all);
    assert(replayed_ids(operations@) =~= extend_unique(
        Seq::<Seq<u8>>::empty(),
        operation_ids(all.take(0)),
    )) by {
        assert(operation_ids(all.take(0)) =~= Seq::<Seq<u8>>::empty());
    }
    while source.len() > 0
        invariant
            all == batches@,
            source@.len() <= all.len(),
            source@ == all.skip(all.len() - source@.len()),
            sources_agree(all.take(all.len() - source@.len())),
            grouped(operations@, all.take(all.len() - source@.len())),
        decreases source.len(),
    {
        let ghost done = all.len() - source@.len();
        let ghost seen = all.take(done);
        let ghost before = operations@;
        let batch = source.remove(0);
        let ghost given = batch;
        let ghost id = batch.operation_id.deep_view();
        assert(batch == all[done]);
        assert(source@ =~= all.skip(done + 1));
        assert(all.take(done + 1) =~= seen.push(batch));
        proof {
            lemma_first_source_known(seen, id);
            lemma_extend_unique(Seq::<Seq<u8>>::empty(), operation_ids(seen));
            assert(operation_ids(all.take(done + 1)) =~= operation_ids(seen).push(id));
            assert(operation_ids(all.take(done + 1)).drop_last() =~= operation_ids(seen));
            lemma_first_source_grows(seen, batch, id);
        }
        let mut found: Option<usize> = None;
        let mut i: usize = 0;
        while i < operations.len() && found.is_none()
            invariant
                i <= operations@.len(),
                operations@ == before,
                id == batch.operation_id.deep_view(),
                match found {
                    Some(at) => at < operations@.len() && operations@[at as int].operation_id.deep_view()
                        == id,
                    None => forall|k: int|
                        0 <= k < i ==> (#[trigger] operations@[k]).operation_id.deep_view() != id,
                },
            decreases operations.len() - i,
        {
            if operations[i].operation_id.same(&batch.operation_id) {
                found = Some(i);
            }
            i += 1;
        }
        match found {
            Some(at) => {
                assert(replayed_ids(before)[at as int] == id);
                assert(replayed_ids(before).contains(id));
                if !operations[at].source.same(&batch.source) {
                    proof {
                        lemma_source_stays(all, done + 1, id);
                        assert(all[done].operation_id.deep_view() == id);
                    }
                    return Err(
                        AppError::BlockingTask(
                            "account visibility operation changed source".to_owned(),
                        ),
                    );
                }
                let mut operation = operations.remove(at);
                merge_account_visibility_effects(&mut operation.effects, batch.effects);
                operations.insert(at, operation);
                assert(operations@ =~= before.update(at as int, operation));
                assert(replayed_ids(operations@) =~= replayed_ids(before));
            },
            None => {
                assert(!replayed_ids(before).contains(id)) by {
                    if replayed_ids(before).contains(id) {
                        let k = choose|k: int|
                            0 <= k < replayed_ids(before).len() && replayed_ids(before)[k] == id;
                        assert(before[k].operation_id.deep_view() == id);
                    }
                }
                let mut effects = AccountDeviceEffects::default();
                merge_account_visibility_effects(&mut effects, batch.effects);
                operations.push(
                    ReplayedAccountVisibilityOperation {
                        operation_id: batch.operation_id,
                        source: batch.source,
                        effects,
                    },
                );
                assert(replayed_ids(operations@) =~= replayed_ids(before).push(id));
            },
        }
        proof {
            let now = all.take(done + 1);
            assert forall|k: int| 0 <= k < operations@.len() implies ({
                let op = (#[trigger] operations@[k]).operation_id.deep_view();
                &&& first_source(now, op) == Some(operations@[k].source.deep_view())
                &&& operations@[k].effects@ == merged_effects(now, op)
            }) by {
                let op = operations@[k].operation_id.deep_view();
                lemma_first_source_grows(seen, given, op);
                if k < before.len() {
                    let _ = before[k].operation_id.deep_view();
                    lemma_extend_unique(Seq::<Seq<u8>>::empty(), operation_ids(seen));
                    if found is Some && k != found->Some_0 {
                        assert(replayed_ids(before)[k] != replayed_ids(before)[found->Some_0 as int]);
                    }
                    if found is None {
                        assert(before[k].operation_id.deep_view() != id);
                    }
                }
            }
            assert forall|i: int| 0 <= i < now.len() implies first_source(
                now,
                (#[trigger] now[i]).operation_id.deep_view(),
            ) == Some(now[i].source.deep_view()) by {
                let op = now[i].operation_id.deep_view();
                lemma_first_source_grows(seen, given, op);
                if i < done {
                    assert(now[i] == seen[i]);
                    assert(first_source(seen, seen[i].operation_id.deep_view()) == Some(
                        seen[i].source.deep_view(),
                    ));
                }
            }
        }
    }
    assert(all.take(all.len() as int) =~= all);
    Ok(operations)
}

proof fn lemma_source_stays(batches: Seq<AccountVisibilityBatch>, count: int, operation: Seq<u8>)
    requires
        0 <= count <= batches.len(),
        first_source(batches.take(count), operation) is Some,
    ensures
        first_source(batches, operation) == first_source(batches.take(count), operation),
    decreases batches.len() - count,
{
    if count == batches.len() {
        assert(batches.take(count) =~= batches);
    } else {
        assert(batches.take(count + 1).drop_last() =~= batches.take(count));
        lemma_source_stays(batches, count + 1, operation);
    }
}

/// Each operation is replayed once, and no batch's events are lost: an operation
/// has a batch exactly when it is replayed.
pub proof fn law_every_batch_is_replayed_once(
    operations: Seq<ReplayedAccountVisibilityOperation>,
    batches: Seq<AccountVisibilityBatch>,
)
    requires
        grouped(operations, batches),
    ensures
        replayed_ids(operations).no_duplicates(),
        forall|id: Seq<u8>| #[trigger]
            replayed_ids(operations).contains(id) <==> operation_ids(batches).contains(id),
{
    lemma_extend_unique(Seq::<Seq<u8>>::empty(), operation_ids(batches));
}

} // verus!
