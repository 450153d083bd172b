//! Opaque byte identifiers of groups, messages and members.

use crate::collections::{copy_bytes, same_bytes, Key};
use crate::order::{
    bytes_less, bytes_lt, lemma_bytes_lt_total, lemma_bytes_lt_transitive, Ordered,
};
use vstd::prelude::*;

verus! {

/// The identifier of a group.
#[derive(Debug, PartialEq, Eq)]
pub struct GroupId {
    pub bytes: Vec<u8>,
}

impl DeepView for GroupId {
    type V = Seq<u8>;

    open spec fn deep_view(&self) -> Seq<u8> {
        self.bytes@
    }
}

impl GroupId {
    pub fn new(bytes: Vec<u8>) -> (id: Self)
        ensures
            id.bytes == bytes,
            id.deep_view() == bytes@,
    {
        GroupId { bytes }
    }
}

impl Clone for GroupId {
    fn clone(&self) -> (copy: Self)
        ensures
            copy.deep_view() == self.deep_view(),
    {
        GroupId { bytes: copy_bytes(&self.bytes) }
    }
}

impl Key for GroupId {
    fn same(&self, other: &Self) -> (equal: bool) {
        same_bytes(&self.bytes, &other.bytes)
    }

    fn duplicate(&self) -> (copy: Self) {
        GroupId { bytes: copy_bytes(&self.bytes) }
    }
}

/// The identifier of a transport message.
#[derive(Debug, PartialEq, Eq)]
pub struct MessageId {
    pub bytes: Vec<u8>,
}

impl DeepView for MessageId {
    type V = Seq<u8>;

    open spec fn deep_view(&self) -> Seq<u8> {
        self.bytes@
    }
}

impl MessageId {
    pub fn new(bytes: Vec<u8>) -> (id: Self)
        ensures
            id.bytes == bytes,
            id.deep_view() == bytes@,
    {
        MessageId { bytes }
    }
}

impl Clone for MessageId {
    fn clone(&self) -> (copy: Self)
        ensures
            copy.deep_view() == self.deep_view(),
    {
        MessageId { bytes: copy_bytes(&self.bytes) }
    }
}

impl Key for MessageId {
    fn same(&self, other: &Self) -> (equal: bool) {
        same_bytes(&self.bytes, &other.bytes)
    }

    fn duplicate(&self) -> (copy: Self) {
        MessageId { bytes: copy_bytes(&self.bytes) }
    }
}

/// The identifier of a group member: the bytes of its account key.
#[derive(Debug, PartialEq, Eq)]
pub struct MemberId {
    pub bytes: Vec<u8>,
}

impl DeepView for MemberId {
    type V = Seq<u8>;

    open spec fn deep_view(&self) -> Seq<u8> {
        self.bytes@
    }
}

impl MemberId {
    pub fn new(bytes: Vec<u8>) -> (id: Self)
        ensures
            id.bytes == bytes,
            id.deep_view() == bytes@,
    {
        MemberId { bytes }
    }
}

impl Clone for MemberId {
    fn clone(&self) -> (copy: Self)
        ensures
            copy.deep_view() == self.deep_view(),
    {
        MemberId { bytes: copy_bytes(&self.bytes) }
    }
}

impl Key for MemberId {
    fn same(&self, other: &Self) -> (equal: bool) {
        same_bytes(&self.bytes, &other.bytes)
    }

    fn duplicate(&self) -> (copy: Self) {
        MemberId { bytes: copy_bytes(&self.bytes) }
    }
}

/// The identifier of a stored batch of effects.
#[derive(Debug, PartialEq, Eq)]
pub struct BatchId {
    pub bytes: Vec<u8>,
}

impl DeepView for BatchId {
    type V = Seq<u8>;

    open spec fn deep_view(&self) -> Seq<u8> {
        self.bytes@
    }
}

impl BatchId {
    pub fn new(bytes: Vec<u8>) -> (id: Self)
        ensures
            id.bytes == bytes,
            id.deep_view() == bytes@,
    {
        BatchId { bytes }
    }
}

impl Clone for BatchId {
    fn clone(&self) -> (copy: Self)
        ensures
            copy.deep_view() == self.deep_view(),
    {
        BatchId { bytes: copy_bytes(&self.bytes) }
    }
}

impl Key for BatchId {
    fn same(&self, other: &Self) -> (equal: bool) {
        same_bytes(&self.bytes, &other.bytes)
    }

    fn duplicate(&self) -> (copy: Self) {
        BatchId { bytes: copy_bytes(&self.bytes) }
    }
}

/// The identifier of the operation that a batch belongs to.
#[derive(Debug, PartialEq, Eq)]
pub struct OperationId {
    pub bytes: Vec<u8>,
}

impl DeepView for OperationId {
    type V = Seq<u8>;

    open spec fn deep_view(&self) -> Seq<u8> {
        self.bytes@
    }
}

impl OperationId {
    pub fn new(bytes: Vec<u8>) -> (id: Self)
        ensures
            id.bytes == bytes,
            id.deep_view() == bytes@,
    {
        OperationId { bytes }
    }
}

impl Clone for OperationId {
    fn clone(&self) -> (copy: Self)
        ensures
            copy.deep_view() == self.deep_view(),
    {
        OperationId { bytes: copy_bytes(&self.bytes) }
    }
}

impl Key for OperationId {
    fn same(&self, other: &Self) -> (equal: bool) {
        same_bytes(&self.bytes, &other.bytes)
    }

    fn duplicate(&self) -> (copy: Self) {
        OperationId { bytes: copy_bytes(&self.bytes) }
    }
}

impl Ordered for GroupId {
    open spec fn before(&self, other: &Self) -> bool {
        bytes_lt(self.bytes@, other.bytes@)
    }

    proof fn order_laws(first: &Self, second: &Self, third: &Self) {
        lemma_bytes_order_laws(first.bytes@, second.bytes@, third.bytes@);
    }

    fn precedes(&self, other: &Self) -> (earlier: bool) {
        bytes_less(self.bytes.as_slice(), other.bytes.as_slice())
    }
}

/// Byte strings are strictly and weakly ordered.
pub proof fn lemma_bytes_order_laws(first: Seq<u8>, second: Seq<u8>, third: Seq<u8>)
    ensures
        bytes_lt(first, second) ==> !bytes_lt(second, first),
        !bytes_lt(first, second) && !bytes_lt(second, third) ==> !bytes_lt(first, third),
{
    lemma_bytes_lt_total(first, second);
    lemma_bytes_lt_total(second, third);
    lemma_bytes_lt_total(first, third);
    if bytes_lt(third, second) && bytes_lt(second, first) {
        lemma_bytes_lt_transitive(third, second, first);
    }
}

} // verus!
