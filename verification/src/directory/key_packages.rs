//! Key packages: reading them out of relay events, checking their tags against
//! what decoding gave, and choosing between fresh and cached ones.

use crate::collections::{copy_bytes, Key};
use crate::directory::entry::{
    DirectoryKeyPackage, DirectoryKeyPackageContent, EntryContent, UserDirectoryRecord,
};
use crate::directory::merge::{AccountKeyPackageRecord, RecordContent};
use crate::directory::records::{
    no_relay_lists, replaces, AccountRelayListStatus, DirectoryFreshness, DirectorySelection,
    EventContent, EventRecordContent, RelayEvent, RelayEventRecord, RelayListStatusContent,
    KIND_MARMOT_KEY_PACKAGE,
};
use crate::error::{AppError, ErrorContent};
use crate::ids::MessageId;
use crate::order::{
    extend_unique, lemma_sorted_content, push_unique_texts, sort_stable, sorted_by, Ordered,
};
use crate::text::{
    base64_decode, base64_decoded, decimal, decimal_text, hex_bytes, hex_decode, hex_encode,
    hex_text, is_hex_text, join, trim_text, trimmed,
};
use vstd::prelude::*;

verus! {

/// The first application component of the private-use range.
pub const PRIVATE_USE_APP_COMPONENT_ID_START: u16 = 0x8000;

/// How many bytes an event identifier has.
pub const EVENT_ID_BYTES: usize = 32;

/// The generation of the protocol that a key package is made for.
#[derive(Clone, Copy, Debug, PartialEq, Eq, Structural)]
pub enum ProtocolProfile {
    Legacy,
    Current,
}

/// The bytes of a key package and where they came from.
#[derive(Debug)]
pub struct KeyPackage {
    pub bytes: Vec<u8>,
    pub source_event_id: Option<MessageId>,
    pub protocol_profile: ProtocolProfile,
}

/// The content of a [`KeyPackage`].
#[verifier::ext_equal]
pub struct KeyPackageContent {
    pub bytes: Seq<u8>,
    pub source_event_id: Option<Seq<u8>>,
    pub protocol_profile: ProtocolProfile,
}

impl DeepView for KeyPackage {
    type V = KeyPackageContent;

    open spec fn deep_view(&self) -> KeyPackageContent {
        KeyPackageContent {
            bytes: self.bytes@,
            source_event_id: self.source_event_id.deep_view(),
            protocol_profile: self.protocol_profile,
        }
    }
}

impl KeyPackage {
    pub fn duplicate(&self) -> (copy: Self)
        ensures
            copy.deep_view() == self.deep_view(),
    {
        KeyPackage {
            bytes: copy_bytes(&self.bytes),
            source_event_id: crate::directory::entry::copy_optional(&self.source_event_id),
            protocol_profile: self.protocol_profile,
        }
    }
}

/// What decoding a key package says of it.
#[derive(Debug)]
pub struct KeyPackageMetadata {
    pub ciphersuite: u16,
    pub mls_extensions: Vec<u16>,
    pub mls_proposals: Vec<u16>,
    pub app_components: Vec<u16>,
    pub credential_identity_hex: String,
    pub key_package_ref_hex: String,
    pub protocol_profile: ProtocolProfile,
    pub not_before: u64,
    pub not_after: u64,
}

/// The content of a [`KeyPackageMetadata`].
#[verifier::ext_equal]
pub struct MetadataContent {
    pub ciphersuite: u16,
    pub mls_extensions: Seq<u16>,
    pub mls_proposals: Seq<u16>,
    pub app_components: Seq<u16>,
    pub credential_identity_hex: Seq<char>,
    pub key_package_ref_hex: Seq<char>,
    pub protocol_profile: ProtocolProfile,
    pub not_before: u64,
    pub not_after: u64,
}

impl DeepView for KeyPackageMetadata {
    type V = MetadataContent;

    open spec fn deep_view(&self) -> MetadataContent {
        MetadataContent {
            ciphersuite: self.ciphersuite,
            mls_extensions: self.mls_extensions@,
            mls_proposals: self.mls_proposals@,
            app_components: self.app_components@,
            credential_identity_hex: self.credential_identity_hex@,
            key_package_ref_hex: self.key_package_ref_hex@,
            protocol_profile: self.protocol_profile,
            not_before: self.not_before,
            not_after: self.not_after,
        }
    }
}

fn copy_ids(ids: &Vec<u16>) -> (copy: Vec<u16>)
    ensures
        copy@ == ids@,
{
    let mut copy: Vec<u16> = Vec::new();
    let mut i: usize = 0;
    while i < ids.len()
        invariant
            i <= ids@.len(),
            copy@ == ids@.take(i as int),
        decreases ids.len() - i,
    {
        copy.push(ids[i]);
        assert(ids@.take(i + 1) =~= ids@.take(i as int).push(ids@[i as int]));
        i += 1;
    }
    assert(ids@.take(ids@.len() as int) =~= ids@);
    copy
}

impl KeyPackageMetadata {
    pub fn duplicate(&self) -> (copy: Self)
        ensures
            copy.deep_view() == self.deep_view(),
    {
        KeyPackageMetadata {
            ciphersuite: self.ciphersuite,
            mls_extensions: copy_ids(&self.mls_extensions),
            mls_proposals: copy_ids(&self.mls_proposals),
            app_components: copy_ids(&self.app_components),
            credential_identity_hex: self.credential_identity_hex.clone(),
            key_package_ref_hex: self.key_package_ref_hex.clone(),
            protocol_profile: self.protocol_profile,
            not_before: self.not_before,
            not_after: self.not_after,
        }
    }
}

/// Copies what decoding gave.
pub fn copy_decoding(metadata: &Result<KeyPackageMetadata, String>) -> (copy: Result<
    KeyPackageMetadata,
    String,
>)
    ensures
        decoding(copy) == decoding(*metadata),
{
    match metadata {
        Ok(metadata) => Ok(metadata.duplicate()),
        Err(error) => Err(error.clone()),
    }
}

/// The content of what decoding gave: metadata, or the text of an error.
pub open spec fn decoding(metadata: Result<KeyPackageMetadata, String>) -> Result<
    MetadataContent,
    Seq<char>,
> {
    match metadata {
        Ok(metadata) => Ok(metadata.deep_view()),
        Err(error) => Err(error@),
    }
}

/// A relay event together with what decoding its content as a key package gave.
#[derive(Debug)]
pub struct KeyPackageEventRecord {
    pub record: RelayEventRecord,
    pub metadata: Result<KeyPackageMetadata, String>,
}

/// The content of a [`KeyPackageEventRecord`].
#[verifier::ext_equal]
pub struct PackageRecordContent {
    pub record: EventRecordContent,
    pub metadata: Result<MetadataContent, Seq<char>>,
}

impl DeepView for KeyPackageEventRecord {
    type V = PackageRecordContent;

    open spec fn deep_view(&self) -> PackageRecordContent {
        PackageRecordContent {
            record: self.record.deep_view(),
            metadata: decoding(self.metadata),
        }
    }
}

impl KeyPackageEventRecord {
    pub fn duplicate(&self) -> (copy: Self)
        ensures
            copy.deep_view() == self.deep_view(),
    {
        KeyPackageEventRecord {
            record: self.record.duplicate(),
            metadata: copy_decoding(&self.metadata),
        }
    }
}

/// A key package that passed every check, with where it was found.
#[derive(Debug)]
pub struct FetchedKeyPackage {
    pub account_id_hex: String,
    pub key_package: KeyPackage,
    pub key_package_id: String,
    pub key_package_ref_hex: String,
    pub key_package_event_id: String,
    pub created_at: u64,
    pub source_relays: Vec<String>,
    pub relay_lists: AccountRelayListStatus,
}

/// The content of a [`FetchedKeyPackage`].
#[verifier::ext_equal]
pub struct FetchedContent {
    pub account_id_hex: Seq<char>,
    pub key_package: KeyPackageContent,
    pub key_package_id: Seq<char>,
    pub key_package_ref_hex: Seq<char>,
    pub key_package_event_id: Seq<char>,
    pub created_at: u64,
    pub source_relays: Seq<Seq<char>>,
    pub relay_lists: RelayListStatusContent,
}

impl DeepView for FetchedKeyPackage {
    type V = FetchedContent;

    open spec fn deep_view(&self) -> FetchedContent {
        FetchedContent {
            account_id_hex: self.account_id_hex@,
            key_package: self.key_package.deep_view(),
            key_package_id: self.key_package_id@,
            key_package_ref_hex: self.key_package_ref_hex@,
            key_package_event_id: self.key_package_event_id@,
            created_at: self.created_at,
            source_relays: self.source_relays.deep_view(),
            relay_lists: self.relay_lists.deep_view(),
        }
    }
}

impl FetchedKeyPackage {
    pub fn duplicate(&self) -> (copy: Self)
        ensures
            copy.deep_view() == self.deep_view(),
    {
        FetchedKeyPackage {
            account_id_hex: self.account_id_hex.clone(),
            key_package: self.key_package.duplicate(),
            key_package_id: self.key_package_id.clone(),
            key_package_ref_hex: self.key_package_ref_hex.clone(),
            key_package_event_id: self.key_package_event_id.clone(),
            created_at: self.created_at,
            source_relays: crate::collections::copy_list(&self.source_relays),
            relay_lists: self.relay_lists.duplicate(),
        }
    }
}

/// The content of a fallible result.
pub open spec fn outcome<T: DeepView>(result: Result<T, AppError>) -> Result<T::V, ErrorContent> {
    match result {
        Ok(value) => Ok(value.deep_view()),
        Err(error) => Err(error.deep_view()),
    }
}

/// Whether a tag has a name.
pub open spec fn tag_named(tag: Seq<Seq<char>>, name: Seq<char>) -> bool {
    tag.len() > 0 && tag[0] == name
}

/// The value of the first tag with a name that has one.
pub open spec fn tag_value(tags: Seq<Seq<Seq<char>>>, name: Seq<char>) -> Option<Seq<char>>
    decreases tags.len(),
{
    if tags.len() == 0 {
        None
    } else if tag_named(tags[0], name) && tags[0].len() > 1 {
        Some(tags[0][1])
    } else {
        tag_value(tags.drop_first(), name)
    }
}

/// The first tag with a name.
pub open spec fn first_tag(tags: Seq<Seq<Seq<char>>>, name: Seq<char>) -> Option<Seq<Seq<char>>>
    decreases tags.len(),
{
    if tags.len() == 0 {
        None
    } else if tag_named(tags[0], name) {
        Some(tags[0])
    } else {
        first_tag(tags.drop_first(), name)
    }
}

/// How many tags have a name.
pub open spec fn tag_count(tags: Seq<Seq<Seq<char>>>, name: Seq<char>) -> nat
    decreases tags.len(),
{
    if tags.len() == 0 {
        0
    } else {
        tag_count(tags.drop_first(), name) + if tag_named(tags[0], name) {
            1nat
        } else {
            0nat
        }
    }
}

fn is_tag_named(tag: &Vec<String>, name: &String) -> (named: bool)
    ensures
        named == tag_named(tag.deep_view(), name@),
{
    if tag.len() > 0 {
        assert(tag.deep_view()[0] == tag@[0]@);
        tag[0].same(name)
    } else {
        false
    }
}

impl RelayEvent {
    /// The value of the first tag with a name that has one.
    pub fn tag_value(&self, name: &str) -> (value: Option<String>)
        ensures
            value.deep_view() == tag_value(self.deep_view().tags, name@),
    {
        let ghost tags = self.tags.deep_view();
        let wanted = name.to_owned();
        let mut i: usize = 0;
        assert(tags.skip(0) =~= tags);
        while i < self.tags.len()
            invariant
                i <= self.tags@.len(),
                tags == self.tags.deep_view(),
                wanted@ == name@,
                tag_value(tags, name@) == tag_value(tags.skip(i as int), name@),
            decreases self.tags.len() - i,
        {
            assert(tags.skip(i as int)[0] == self.tags@[i as int].deep_view());
            assert(tags.skip(i as int).drop_first() =~= tags.skip(i + 1));
            if is_tag_named(&self.tags[i], &wanted) && self.tags[i].len() > 1 {
                assert(self.tags@[i as int].deep_view()[1] == self.tags@[i as int]@[1]@);
                return Some(self.tags[i][1].clone());
            }
            i += 1;
        }
        None
    }

    fn first_tag_index(&self, name: &str) -> (index: Option<usize>)
        ensures
            match index {
                Some(i) => i < self.tags@.len() && first_tag(self.deep_view().tags, name@) == Some(
                    self.tags@[i as int].deep_view(),
                ) && self.tags@[i as int]@.len() > 0,
                None => first_tag(self.deep_view().tags, name@) is None,
            },
    {
        let ghost tags = self.tags.deep_view();
        let wanted = name.to_owned();
        let mut i: usize = 0;
        assert(tags.skip(0) =~= tags);
        while i < self.tags.len()
            invariant
                i <= self.tags@.len(),
                tags == self.tags.deep_view(),
                wanted@ == name@,
                first_tag(tags, name@) == first_tag(tags.skip(i as int), name@),
            decreases self.tags.len() - i,
        {
            assert(tags.skip(i as int)[0] == self.tags@[i as int].deep_view());
            assert(tags.skip(i as int).drop_first() =~= tags.skip(i + 1));
            if is_tag_named(&self.tags[i], &wanted) {
                return Some(i);
            }
            i += 1;
        }
        None
    }
}

/// Whether a name is on more than one tag.
fn tag_is_repeated(event: &RelayEvent, name: &str) -> (repeated: bool)
    ensures
        repeated == (tag_count(event.deep_view().tags, name@) > 1),
{
    let ghost tags = event.tags.deep_view();
    let wanted = name.to_owned();
    let mut count: usize = 0;
    let mut i: usize = 0;
    assert(tags.skip(0) =~= tags);
    while i < event.tags.len()
        invariant
            i <= event.tags@.len(),
            count <= i,
            tags == event.tags.deep_view(),
            wanted@ == name@,
            tag_count(tags, name@) == count + tag_count(tags.skip(i as int), name@),
        decreases event.tags.len() - i,
    {
        assert(tags.skip(i as int)[0] == event.tags@[i as int].deep_view());
        assert(tags.skip(i as int).drop_first() =~= tags.skip(i + 1));
        if is_tag_named(&event.tags[i], &wanted) {
            count += 1;
        }
        i += 1;
    }
    count > 1
}

fn invalid<T: DeepView>(text: String) -> (error: Result<T, AppError>)
    ensures
        outcome(error) == Err::<T::V, ErrorContent>(ErrorContent::InvalidKeyPackageEvent(text@)),
{
    Err(AppError::InvalidKeyPackageEvent(text))
}

/// What is wrong with a tag that has to hold one value.
pub open spec fn tag_fault(tags: Seq<Seq<Seq<char>>>, name: Seq<char>, expected: Seq<char>)
    -> Option<Seq<char>> {
    if tag_count(tags, name) > 1 {
        Some("duplicate "@ + name + " tag"@)
    } else {
        match tag_value(tags, name) {
            Some(value) => if value == expected {
                None
            } else {
                Some("invalid "@ + name + " tag"@)
            },
            None => Some("missing "@ + name + " tag"@),
        }
    }
}

/// The content of a check.
pub open spec fn verdict(result: Result<(), AppError>) -> Option<ErrorContent> {
    match result {
        Ok(()) => None,
        Err(error) => Some(error.deep_view()),
    }
}

/// Rejects an event that repeats a tag.
pub fn reject_duplicate_key_package_tag(event: &RelayEvent, name: &str) -> (result: Result<
    (),
    AppError,
>)
    ensures
        verdict(result) == (if tag_count(event.deep_view().tags, name@) > 1 {
            Some(ErrorContent::InvalidKeyPackageEvent("duplicate "@ + name@ + " tag"@))
        } else {
            None
        }),
{
    if tag_is_repeated(event, name) {
        return Err(
            AppError::InvalidKeyPackageEvent(
                join(join("duplicate ", name).as_str(), " tag"),
            ),
        );
    }
    Ok(())
}

/// Checks that exactly one tag has a name and that its value is the expected one.
pub fn require_key_package_tag(event: &RelayEvent, name: &str, expected: &str) -> (result: Result<
    (),
    AppError,
>)
    ensures
        verdict(result) == (match tag_fault(event.deep_view().tags, name@, expected@) {
            Some(text) => Some(ErrorContent::InvalidKeyPackageEvent(text)),
            None => None,
        }),
{
    reject_duplicate_key_package_tag(event, name)?;
    match event.tag_value(name) {
        Some(value) => if value.same(&expected.to_owned()) {
            Ok(())
        } else {
            Err(AppError::InvalidKeyPackageEvent(join(join("invalid ", name).as_str(), " tag")))
        },
        None => Err(
            AppError::InvalidKeyPackageEvent(join(join("missing ", name).as_str(), " tag")),
        ),
    }
}

/// An identifier as tags write it.
pub open spec fn id_text(id: u16) -> Seq<char> {
    "0x"@ + hex_text(seq![(id / 256) as u8, (id % 256) as u8])
}

/// Writes an identifier as tags do.
pub fn write_id(id: u16) -> (text: String)
    ensures
        text@ == id_text(id),
{
    let mut bytes: Vec<u8> = Vec::new();
    bytes.push((id / 256) as u8);
    bytes.push((id % 256) as u8);
    assert(bytes@ =~= seq![(id / 256) as u8, (id % 256) as u8]);
    join("0x", hex_encode(bytes.as_slice()).as_str())
}

pub open spec fn id_texts(ids: Seq<u16>) -> Seq<Seq<char>> {
    ids.map_values(|id: u16| id_text(id))
}

/// Whether a list of values names each identifier once and nothing else.
pub open spec fn names_exactly(values: Seq<Seq<char>>, ids: Seq<u16>) -> bool {
    &&& values.no_duplicates()
    &&& forall|text: Seq<char>| #[trigger]
        values.contains(text) <==> id_texts(ids).contains(text)
}

/// What is wrong with a tag that has to list identifiers.
pub open spec fn id_list_fault(tags: Seq<Seq<Seq<char>>>, name: Seq<char>, ids: Seq<u16>)
    -> Option<Seq<char>> {
    if tag_count(tags, name) > 1 {
        Some("duplicate "@ + name + " tag"@)
    } else {
        match first_tag(tags, name) {
            None => Some("missing "@ + name + " tag"@),
            Some(tag) => if names_exactly(tag.skip(1), ids) {
                None
            } else {
                Some(name + " tag does not exactly match decoded KeyPackage metadata"@)
            },
        }
    }
}

/// Checks that a list of values names each identifier once and nothing else.
fn lists_exactly(tag: &Vec<String>, ids: &Vec<u16>) -> (exact: bool)
    requires
        tag@.len() > 0,
    ensures
        exact == names_exactly(tag.deep_view().skip(1), ids@),
{
    let ghost values = tag.deep_view().skip(1);
    let mut expected: Vec<String> = Vec::new();
    let mut k: usize = 0;
    while k < ids.len()
        invariant
            k <= ids@.len(),
            expected@.len() == k,
            forall|j: int| 0 <= j < k ==> (#[trigger] expected@[j])@ == id_text(ids@[j]),
        decreases ids.len() - k,
    {
        expected.push(write_id(ids[k]));
        k += 1;
    }
    assert(expected.deep_view() =~= id_texts(ids@));
    let mut seen: Vec<String> = Vec::new();
    let mut i: usize = 1;
    assert(seen.deep_view() =~= values.take(0));
    while i < tag.len()
        invariant
            1 <= i <= tag@.len(),
            values == tag.deep_view().skip(1),
            seen.deep_view() == values.take(i - 1),
            values.take(i - 1).no_duplicates(),
            expected.deep_view() == id_texts(ids@),
            forall|j: int|
                0 <= j < i - 1 ==> id_texts(ids@).contains(#[trigger] values[j]),
        decreases tag.len() - i,
    {
        assert(values[i - 1] == tag@[i as int]@);
        if crate::collections::list_contains(&seen, &tag[i]) {
            proof {
                let j = choose|j: int|
                    0 <= j < seen.deep_view().len() && seen.deep_view()[j] == tag@[i as int]@;
                assert(values.take(i - 1)[j] == values[j]);
                assert(values[j] == values[i - 1]);
            }
            return false;
        }
        if !crate::collections::list_contains(&expected, &tag[i]) {
            assert(values.contains(values[i - 1]));
            return false;
        }
        let ghost before = seen.deep_view();
        seen.push(tag[i].clone());
        assert(seen.deep_view() =~= before.push(tag@[i as int]@));
        assert(values.take(i as int) =~= values.take(i - 1).push(values[i - 1]));
        assert forall|a: int, b: int|
            0 <= a < b < i implies values.take(i as int)[a] != values.take(i as int)[b] by {
            if b == i - 1 {
                assert(before[a] == values.take(i - 1)[a]);
                assert(before.contains(before[a]));
            } else {
                assert(values.take(i - 1)[a] != values.take(i - 1)[b]);
            }
        }
        i += 1;
    }
    assert(values.take(values.len() as int) =~= values);
    let mut m: usize = 0;
    while m < expected.len()
        invariant
            m <= expected@.len(),
            expected.deep_view() == id_texts(ids@),
            seen.deep_view() == values,
            values == tag.deep_view().skip(1),
            forall|j: int| 0 <= j < m ==> values.contains(#[trigger] id_texts(ids@)[j]),
        decreases expected.len() - m,
    {
        assert(id_texts(ids@)[m as int] == expected@[m as int]@);
        if !crate::collections::list_contains(&seen, &expected[m]) {
            assert(id_texts(ids@).contains(id_texts(ids@)[m as int]));
            return false;
        }
        m += 1;
    }
    assert forall|text: Seq<char>| #[trigger]
        values.contains(text) <==> id_texts(ids@).contains(text) by {
        if values.contains(text) {
            let j = choose|j: int| 0 <= j < values.len() && values[j] == text;
            assert(id_texts(ids@).contains(values[j]));
        }
        if id_texts(ids@).contains(text) {
            let j = choose|j: int| 0 <= j < id_texts(ids@).len() && id_texts(ids@)[j] == text;
            assert(values.contains(id_texts(ids@)[j]));
        }
    }
    true
}

/// Checks that exactly one tag has a name and lists exactly the expected
/// identifiers.
pub fn require_multi_value_key_package_tag_matches(
    event: &RelayEvent,
    name: &str,
    expected_ids: &Vec<u16>,
) -> (result: Result<(), AppError>)
    ensures
        verdict(result) == (match id_list_fault(event.deep_view().tags, name@, expected_ids@) {
            Some(text) => Some(ErrorContent::InvalidKeyPackageEvent(text)),
            None => None,
        }),
{
    reject_duplicate_key_package_tag(event, name)?;
    match event.first_tag_index(name) {
        None => Err(
            AppError::InvalidKeyPackageEvent(join(join("missing ", name).as_str(), " tag")),
        ),
        Some(i) => if lists_exactly(&event.tags[i], expected_ids) {
            Ok(())
        } else {
            Err(
                AppError::InvalidKeyPackageEvent(
                    join(name, " tag does not exactly match decoded KeyPackage metadata"),
                ),
            )
        },
    }
}

/// The bytes of an event identifier in hexadecimal.
pub open spec fn event_id_bytes(text: Seq<char>) -> Result<Seq<u8>, ErrorContent> {
    if !is_hex_text(text) {
        Err(ErrorContent::InvalidHex)
    } else if hex_bytes(text).len() != EVENT_ID_BYTES {
        Err(
            ErrorContent::InvalidKeyPackageEvent(
                "KeyPackage event id must be 32 bytes, got "@ + decimal_text(hex_bytes(text).len()),
            ),
        )
    } else {
        Ok(hex_bytes(text))
    }
}

/// Reads an event identifier.
pub fn key_package_event_id_from_hex(event_id_hex: &str) -> (result: Result<MessageId, AppError>)
    ensures
        outcome(result) == event_id_bytes(event_id_hex@),
{
    match hex_decode(event_id_hex) {
        Err(_) => Err(AppError::InvalidHex),
        Ok(bytes) => if bytes.len() != EVENT_ID_BYTES {
            Err(
                AppError::InvalidKeyPackageEvent(
                    join(
                        "KeyPackage event id must be 32 bytes, got ",
                        decimal(bytes.len() as u64).as_str(),
                    ),
                ),
            )
        } else {
            Ok(MessageId::new(bytes))
        },
    }
}

/// Reads an event identifier that may stand between white space, and writes it
/// in lower case.
pub fn parse_key_package_event_id_hex(value: &str) -> (result: Result<String, AppError>)
    ensures
        outcome(result) == (match event_id_bytes(trimmed(value@)) {
            Ok(bytes) => Ok(hex_text(bytes)),
            Err(error) => Err(error),
        }),
{
    let id = key_package_event_id_from_hex(trim_text(value).as_str());
    match id {
        Ok(id) => Ok(hex_encode(id.bytes.as_slice())),
        Err(error) => Err(error),
    }
}

/// The application components that a key package advertises by tag.
pub open spec fn advertised(components: Seq<u16>) -> Seq<u16> {
    components.filter(|id: u16| id >= PRIVATE_USE_APP_COMPONENT_ID_START)
}

fn advertised_components(components: &Vec<u16>) -> (out: Vec<u16>)
    ensures
        out@ == advertised(components@),
{
    let ghost keep = |id: u16| id >= PRIVATE_USE_APP_COMPONENT_ID_START;
    let mut out: Vec<u16> = Vec::new();
    let mut i: usize = 0;
    proof {
        reveal(Seq::filter);
        assert(components@.take(0).filter(keep) =~= Seq::<u16>::empty());
    }
    while i < components.len()
        invariant
            i <= components@.len(),
            keep == (|id: u16| id >= PRIVATE_USE_APP_COMPONENT_ID_START),
            out@ == components@.take(i as int).filter(keep),
        decreases components.len() - i,
    {
        proof {
            assert(components@.take(i + 1).drop_last() =~= components@.take(i as int));
            reveal(Seq::filter);
        }
        if components[i] >= PRIVATE_USE_APP_COMPONENT_ID_START {
            out.push(components[i]);
        }
        i += 1;
    }
    assert(components@.take(components@.len() as int) =~= components@);
    out
}

/// A tag value that is there and is not empty.
pub open spec fn nonempty_tag(tags: Seq<Seq<Seq<char>>>, name: Seq<char>) -> Option<Seq<char>> {
    match tag_value(tags, name) {
        Some(value) => if value.len() > 0 {
            Some(value)
        } else {
            None
        },
        None => None,
    }
}

pub open spec fn refused<T>(text: Seq<char>) -> Result<T, ErrorContent> {
    Err(ErrorContent::InvalidKeyPackageEvent(text))
}

/// The checks of an event that its decoded metadata takes part in, in order: the
/// first that fails.
pub open spec fn metadata_fault(event: EventContent, metadata: MetadataContent) -> Option<
    Seq<char>,
> {
    let tags = event.tags;
    match tag_fault(tags, "mls_ciphersuite"@, id_text(metadata.ciphersuite)) {
        Some(fault) => Some(fault),
        None => match id_list_fault(tags, "mls_extensions"@, metadata.mls_extensions) {
            Some(fault) => Some(fault),
            None => match id_list_fault(tags, "mls_proposals"@, metadata.mls_proposals) {
                Some(fault) => Some(fault),
                None => match id_list_fault(
                    tags,
                    "app_components"@,
                    advertised(metadata.app_components),
                ) {
                    Some(fault) => Some(fault),
                    None => if metadata.credential_identity_hex != event.pubkey {
                        Some("transport author does not match KeyPackage credential identity"@)
                    } else if Some(metadata.key_package_ref_hex) != nonempty_tag(tags, "i"@) {
                        Some("i tag does not match decoded KeyPackageRef"@)
                    } else {
                        None
                    },
                },
            },
        },
    }
}

/// The key package of an event, given what decoding its content gave.
pub open spec fn package_of(
    record: PackageRecordContent,
    content: Result<Seq<u8>, Seq<char>>,
) -> Result<FetchedContent, ErrorContent> {
    let event = record.record.event;
    match tag_fault(event.tags, "mls_protocol_version"@, "1.0"@) {
        Some(fault) => refused(fault),
        None => if nonempty_tag(event.tags, "d"@) is None {
            refused("missing d tag"@)
        } else if nonempty_tag(event.tags, "i"@) is None {
            refused("missing i tag"@)
        } else {
            match content {
                Err(error) => refused("invalid base64 content: "@ + error),
                Ok(bytes) => if bytes.len() == 0 {
                    refused("empty key package content"@)
                } else {
                    match event_id_bytes(event.id) {
                        Err(error) => Err(error),
                        Ok(event_id) => match record.metadata {
                            Err(error) => refused(error),
                            Ok(metadata) => match metadata_fault(event, metadata) {
                                Some(fault) => refused(fault),
                                None => Ok(
                                    FetchedContent {
                                        account_id_hex: event.pubkey,
                                        key_package: KeyPackageContent {
                                            bytes,
                                            source_event_id: Some(event_id),
                                            protocol_profile: metadata.protocol_profile,
                                        },
                                        key_package_id: nonempty_tag(event.tags, "d"@)->0,
                                        key_package_ref_hex: metadata.key_package_ref_hex,
                                        key_package_event_id: event.id,
                                        created_at: event.created_at,
                                        source_relays: extend_unique(
                                            Seq::empty(),
                                            record.record.endpoints,
                                        ),
                                        relay_lists: no_relay_lists(),
                                    },
                                ),
                            },
                        },
                    }
                },
            }
        },
    }
}

fn check_metadata(event: &RelayEvent, metadata: &KeyPackageMetadata, package_ref: &String)
    -> (result: Result<(), AppError>)
    requires
        nonempty_tag(event.deep_view().tags, "i"@) == Some(package_ref@),
    ensures
        verdict(result) == (match metadata_fault(event.deep_view(), metadata.deep_view()) {
            Some(text) => Some(ErrorContent::InvalidKeyPackageEvent(text)),
            None => None,
        }),
{
    require_key_package_tag(
        event,
        "mls_ciphersuite",
        write_id(metadata.ciphersuite).as_str(),
    )?;
    require_multi_value_key_package_tag_matches(event, "mls_extensions", &metadata.mls_extensions)?;
    require_multi_value_key_package_tag_matches(event, "mls_proposals", &metadata.mls_proposals)?;
    require_multi_value_key_package_tag_matches(
        event,
        "app_components",
        &advertised_components(&metadata.app_components),
    )?;
    if !metadata.credential_identity_hex.same(&event.pubkey) {
        return Err(
            AppError::InvalidKeyPackageEvent(
                "transport author does not match KeyPackage credential identity".to_owned(),
            ),
        );
    }
    if !metadata.key_package_ref_hex.same(package_ref) {
        return Err(
            AppError::InvalidKeyPackageEvent(
                "i tag does not match decoded KeyPackageRef".to_owned(),
            ),
        );
    }
    Ok(())
}

fn required_value(event: &RelayEvent, name: &str) -> (value: Option<String>)
    ensures
        value.deep_view() == nonempty_tag(event.deep_view().tags, name@),
{
    match event.tag_value(name) {
        Some(value) => if value.as_str().is_empty() {
            None
        } else {
            Some(value)
        },
        None => None,
    }
}

/// Reads the key package of an event, given what decoding its content gave.
pub fn key_package_from_decoded(record: KeyPackageEventRecord, content: Result<Vec<u8>, String>)
    -> (result: Result<FetchedKeyPackage, AppError>)
    ensures
        outcome(result) == package_of(
            record.deep_view(),
            match content {
                Ok(bytes) => Ok(bytes@),
                Err(error) => Err(error@),
            },
        ),
{
    let KeyPackageEventRecord { record, metadata } = record;
    let event = record.event;
    match require_key_package_tag(&event, "mls_protocol_version", "1.0") {
        Err(error) => return Err(error),
        Ok(()) => {},
    }
    let key_package_id = match required_value(&event, "d") {
        Some(value) => value,
        None => return invalid("missing d tag".to_owned()),
    };
    let package_ref = match required_value(&event, "i") {
        Some(value) => value,
        None => return invalid("missing i tag".to_owned()),
    };
    let bytes = match content {
        Ok(bytes) => bytes,
        Err(error) => return invalid(join("invalid base64 content: ", error.as_str())),
    };
    if bytes.len() == 0 {
        return invalid("empty key package content".to_owned());
    }
    let event_id = match key_package_event_id_from_hex(event.id.as_str()) {
        Ok(id) => id,
        Err(error) => return Err(error),
    };
    let metadata = match metadata {
        Ok(metadata) => metadata,
        Err(error) => return invalid(error),
    };
    match check_metadata(&event, &metadata, &package_ref) {
        Err(error) => return Err(error),
        Ok(()) => {},
    }
    let mut source_relays: Vec<String> = Vec::new();
    assert(source_relays.deep_view() =~= Seq::<Seq<char>>::empty());
    push_unique_texts(&mut source_relays, &record.endpoints);
    Ok(
        FetchedKeyPackage {
            account_id_hex: event.pubkey,
            key_package: KeyPackage {
                bytes,
                source_event_id: Some(event_id),
                protocol_profile: metadata.protocol_profile,
            },
            key_package_id,
            key_package_ref_hex: metadata.key_package_ref_hex,
            key_package_event_id: event.id,
            created_at: event.created_at,
            source_relays,
            relay_lists: AccountRelayListStatus::empty(),
        },
    )
}

/// The key package of an event.
pub open spec fn package_of_record(record: PackageRecordContent) -> Result<
    FetchedContent,
    ErrorContent,
> {
    package_of(record, base64_decoded(record.record.event.content))
}

/// The bytes of the key package that an event holds, or why there are none.
pub fn key_package_content(record: &RelayEventRecord) -> (content: Result<Vec<u8>, String>)
    ensures
        match content {
            Ok(bytes) => base64_decoded(record.event.content@) == Ok::<Seq<u8>, Seq<char>>(bytes@),
            Err(error) => base64_decoded(record.event.content@) == Err::<Seq<u8>, Seq<char>>(
                error@,
            ),
        },
{
    base64_decode(record.event.content.as_str())
}

/// Reads the key package of an event.
pub fn key_package_from_record(record: KeyPackageEventRecord) -> (result: Result<
    FetchedKeyPackage,
    AppError,
>)
    ensures
        outcome(result) == package_of_record(record.deep_view()),
{
    let content = key_package_content(&record.record);
    key_package_from_decoded(record, content)
}

/// The order of records: what is replaced comes first.
pub open spec fn package_record_lt() -> spec_fn(PackageRecordContent, PackageRecordContent) -> bool {
    |a: PackageRecordContent, b: PackageRecordContent|
        replaces(
            b.record.event.created_at,
            b.record.event.id,
            a.record.event.created_at,
            a.record.event.id,
        )
}

impl Ordered for KeyPackageEventRecord {
    open spec fn before(&self, other: &Self) -> bool {
        replaces(
            other.record.event.created_at,
            other.record.event.id@,
            self.record.event.created_at,
            self.record.event.id@,
        )
    }

    proof fn order_laws(first: &Self, second: &Self, third: &Self) {
        RelayEventRecord::order_laws(&first.record, &second.record, &third.record);
    }

    fn precedes(&self, other: &Self) -> (earlier: bool) {
        self.record.precedes(&other.record)
    }
}

spec fn package_record_content() -> spec_fn(KeyPackageEventRecord) -> PackageRecordContent {
    |r: KeyPackageEventRecord| r.deep_view()
}

/// Whether a record is a key package of an account.
pub open spec fn is_package_of(account: Seq<char>, record: PackageRecordContent) -> bool {
    record.record.event.kind == KIND_MARMOT_KEY_PACKAGE && record.record.event.pubkey == account
}

/// The last usable key package of a list; without one, the error of the last
/// record that could not be used.
pub open spec fn last_package(
    account: Seq<char>,
    sorted: Seq<PackageRecordContent>,
    error: Option<ErrorContent>,
) -> Result<FetchedContent, ErrorContent>
    decreases sorted.len(),
{
    if sorted.len() == 0 {
        match error {
            Some(error) => Err(error),
            None => Err(ErrorContent::MissingKeyPackage(account)),
        }
    } else if !is_package_of(account, sorted.last()) {
        last_package(account, sorted.drop_last(), error)
    } else {
        match package_of_record(sorted.last()) {
            Ok(fetched) => if fetched.key_package.protocol_profile == ProtocolProfile::Current {
                Ok(fetched)
            } else {
                last_package(account, sorted.drop_last(), error)
            },
            Err(fault) => last_package(
                account,
                sorted.drop_last(),
                if error is Some {
                    error
                } else {
                    Some(fault)
                },
            ),
        }
    }
}

/// The newest usable key package of an account.
pub open spec fn latest_package(account: Seq<char>, records: Seq<PackageRecordContent>) -> Result<
    FetchedContent,
    ErrorContent,
> {
    last_package(account, sorted_by(records, package_record_lt()), None)
}

fn latest_key_package_from_records(account_id_hex: &str, records: Vec<KeyPackageEventRecord>)
    -> (result: Result<FetchedKeyPackage, AppError>)
    ensures
        outcome(result) == latest_package(account_id_hex@, records.deep_view()),
{
    let ghost given = records@;
    assert(given.map_values(package_record_content()) =~= records.deep_view());
    let mut sorted = sort_stable(records);
    proof {
        lemma_sorted_content(given, package_record_content(), package_record_lt());
        assert(sorted@.map_values(package_record_content()) =~= sorted.deep_view());
    }
    let ghost all = sorted.deep_view();
    let account = account_id_hex.to_owned();
    let mut newest_error: Option<AppError> = None;
    while sorted.len() > 0
        invariant
            account@ == account_id_hex@,
            all == sorted_by(records.deep_view(), package_record_lt()),
            last_package(account@, all, None) == last_package(
                account@,
                sorted.deep_view(),
                newest_error.deep_view(),
            ),
        decreases sorted.len(),
    {
        let ghost before = sorted.deep_view();
        let record = sorted.pop().unwrap();
        assert(before.last() == record.deep_view());
        assert(sorted.deep_view() =~= before.drop_last());
        if record.record.event.kind == KIND_MARMOT_KEY_PACKAGE && record.record.event.pubkey.same(
            &account,
        ) {
            match key_package_from_record(record) {
                Ok(fetched) => {
                    if fetched.key_package.protocol_profile == ProtocolProfile::Current {
                        return Ok(fetched);
                    }
                },
                Err(error) => {
                    if newest_error.is_none() {
                        newest_error = Some(error);
                    }
                },
            }
        }
    }
    match newest_error {
        Some(error) => Err(error),
        None => Err(AppError::MissingKeyPackage(account)),
    }
}

/// The records that freshness does not set aside.
pub open spec fn fresh_packages(
    account: Seq<char>,
    records: Seq<PackageRecordContent>,
    freshness: DirectoryFreshness,
) -> Seq<PackageRecordContent> {
    records.filter(
        |r: PackageRecordContent| !is_package_of(account, r) || freshness.fresh(r.record),
    )
}

/// Whether a key package of an account is from the future.
pub open spec fn has_future_package(
    account: Seq<char>,
    records: Seq<PackageRecordContent>,
    freshness: DirectoryFreshness,
) -> bool {
    exists|i: int|
        0 <= i < records.len() && is_package_of(account, #[trigger] records[i])
            && !freshness.fresh(records[i].record)
}

/// The content of a selection.
pub open spec fn selected(selection: DirectorySelection<Option<FetchedKeyPackage>>) -> (
    Option<FetchedContent>,
    bool,
) {
    (selection.value.deep_view(), selection.rejected_future)
}

/// The newest key package that is not from the future, if there is one.
pub open spec fn fresh_choice(
    account: Seq<char>,
    records: Seq<PackageRecordContent>,
    freshness: DirectoryFreshness,
) -> Result<(Option<FetchedContent>, bool), ErrorContent> {
    let rejected = has_future_package(account, records, freshness);
    match latest_package(account, fresh_packages(account, records, freshness)) {
        Ok(fetched) => Ok((Some(fetched), rejected)),
        Err(ErrorContent::MissingKeyPackage(_)) => Ok((None, rejected)),
        Err(error) => Err(error),
    }
}

/// Chooses the newest key package that is not from the future.
pub fn latest_fresh_key_package_from_records(
    account_id_hex: &str,
    records: Vec<KeyPackageEventRecord>,
    freshness: DirectoryFreshness,
) -> (result: Result<DirectorySelection<Option<FetchedKeyPackage>>, AppError>)
    ensures
        fresh_choice(account_id_hex@, records.deep_view(), freshness) == (match result {
            Ok(selection) => Ok(selected(selection)),
            Err(error) => Err(error.deep_view()),
        }),
{
    let ghost all = records.deep_view();
    let ghost items = records@;
    let ghost keep = |r: PackageRecordContent|
        !is_package_of(account_id_hex@, r) || freshness.fresh(r.record);
    let mut source = records;
    let mut kept: Vec<KeyPackageEventRecord> = Vec::new();
    let mut rejected_future = false;
    let account = account_id_hex.to_owned();
    let ghost mut done: int = 0;
    assert(all.take(0).filter(keep) =~= Seq::<PackageRecordContent>::empty()) by {
        reveal(Seq::filter);
    }
    assert(kept.deep_view() =~= Seq::<PackageRecordContent>::empty());
    assert(items.skip(0) =~= items);
    while source.len() > 0
        invariant
            0 <= done <= items.len(),
            done + source@.len() == items.len(),
            source@ == items.skip(done),
            account@ == account_id_hex@,
            all.len() == items.len(),
            forall|j: int| 0 <= j < items.len() ==> all[j] == (#[trigger] items[j]).deep_view(),
            keep == (|r: PackageRecordContent|
                !is_package_of(account_id_hex@, r) || freshness.fresh(r.record)),
            kept.deep_view() == all.take(done).filter(keep),
            rejected_future == exists|i: int|
                0 <= i < done && is_package_of(account_id_hex@, #[trigger] all[i])
                    && !freshness.fresh(all[i].record),
        decreases source.len(),
    {
        let record = source.remove(0);
        assert(record == items[done]);
        assert(source@ =~= items.skip(done + 1));
        let package = record.record.event.kind == KIND_MARMOT_KEY_PACKAGE
            && record.record.event.pubkey.same(&account);
        let accepted = !package || freshness.accepts(&record.record);
        proof {
            assert(all.take(done + 1).drop_last() =~= all.take(done));
            assert(all.take(done + 1).last() == record.deep_view());
            reveal(Seq::filter);
        }
        if accepted {
            let ghost before = kept.deep_view();
            kept.push(record);
            assert(kept.deep_view() =~= before.push(record.deep_view()));
        } else {
            rejected_future = true;
            assert(is_package_of(account_id_hex@, all[done]));
        }
        proof {
            done = done + 1;
        }
    }
    assert(all.take(all.len() as int) =~= all);
    match latest_key_package_from_records(account_id_hex, kept) {
        Ok(value) => Ok(DirectorySelection { value: Some(value), rejected_future }),
        Err(AppError::MissingKeyPackage(_)) => Ok(
            DirectorySelection { value: None, rejected_future },
        ),
        Err(error) => Err(error),
    }
}

/// The bytes of a cached key package, read from hexadecimal.
pub open spec fn package_from_hex(package: Seq<char>, event_id: Seq<char>) -> Result<
    KeyPackageContent,
    ErrorContent,
> {
    if !is_hex_text(package) {
        Err(ErrorContent::InvalidHex)
    } else if event_id.len() == 0 {
        Ok(
            KeyPackageContent {
                bytes: hex_bytes(package),
                source_event_id: None,
                protocol_profile: ProtocolProfile::Current,
            },
        )
    } else {
        match event_id_bytes(event_id) {
            Ok(id) => Ok(
                KeyPackageContent {
                    bytes: hex_bytes(package),
                    source_event_id: Some(id),
                    protocol_profile: ProtocolProfile::Current,
                },
            ),
            Err(error) => Err(error),
        }
    }
}

/// Reads a cached key package, which is a candidate for the current profile only.
pub fn key_package_from_hex_with_optional_source(key_package_hex: &str, event_id_hex: &str)
    -> (result: Result<KeyPackage, AppError>)
    ensures
        outcome(result) == package_from_hex(key_package_hex@, event_id_hex@),
{
    let bytes = match hex_decode(key_package_hex) {
        Ok(bytes) => bytes,
        Err(_) => return Err(AppError::InvalidHex),
    };
    if event_id_hex.is_empty() {
        return Ok(
            KeyPackage { bytes, source_event_id: None, protocol_profile: ProtocolProfile::Current },
        );
    }
    match key_package_event_id_from_hex(event_id_hex) {
        Ok(id) => Ok(
            KeyPackage {
                bytes,
                source_event_id: Some(id),
                protocol_profile: ProtocolProfile::Current,
            },
        ),
        Err(error) => Err(error),
    }
}

/// A cached key package with its reference, given what decoding it gave.
pub open spec fn cached_package(
    account: Seq<char>,
    package: DirectoryKeyPackageContent,
    metadata: Result<MetadataContent, Seq<char>>,
) -> Result<(KeyPackageContent, Seq<char>), ErrorContent> {
    match package_from_hex(package.key_package_hex, package.key_package_event_id) {
        Err(error) => Err(error),
        Ok(decoded) => match metadata {
            Err(error) => refused(error),
            Ok(metadata) => if metadata.protocol_profile != ProtocolProfile::Current {
                refused("strict cutover rejects legacy KeyPackages for new joins"@)
            } else if metadata.credential_identity_hex != account {
                refused(
                    "cached KeyPackage credential identity does not match directory account"@,
                )
            } else if package.key_package_ref_hex.len() > 0 && package.key_package_ref_hex
                != metadata.key_package_ref_hex {
                refused("cached KeyPackage ref does not match decoded KeyPackageRef"@)
            } else {
                Ok((decoded, metadata.key_package_ref_hex))
            },
        },
    }
}

/// Checks a cached key package, and returns it with its reference.
fn validated_cached_key_package_with_ref(
    account_id_hex: &str,
    key_package: &DirectoryKeyPackage,
    metadata: Result<KeyPackageMetadata, String>,
) -> (result: Result<(KeyPackage, String), AppError>)
    ensures
        cached_package(account_id_hex@, key_package.deep_view(), decoding(metadata)) == (
        match result {
            Ok((package, reference)) => Ok((package.deep_view(), reference@)),
            Err(error) => Err(error.deep_view()),
        }),
{
    let mut decoded = match key_package_from_hex_with_optional_source(
        key_package.key_package_hex.as_str(),
        key_package.key_package_event_id.as_str(),
    ) {
        Ok(decoded) => decoded,
        Err(error) => return Err(error),
    };
    let metadata = match metadata {
        Ok(metadata) => metadata,
        Err(error) => return Err(AppError::InvalidKeyPackageEvent(error)),
    };
    if metadata.protocol_profile != ProtocolProfile::Current {
        return Err(
            AppError::InvalidKeyPackageEvent(
                "strict cutover rejects legacy KeyPackages for new joins".to_owned(),
            ),
        );
    }
    if !metadata.credential_identity_hex.same(&account_id_hex.to_owned()) {
        return Err(
            AppError::InvalidKeyPackageEvent(
                "cached KeyPackage credential identity does not match directory account".to_owned(),
            ),
        );
    }
    if !key_package.key_package_ref_hex.as_str().is_empty()
        && !key_package.key_package_ref_hex.same(&metadata.key_package_ref_hex) {
        return Err(
            AppError::InvalidKeyPackageEvent(
                "cached KeyPackage ref does not match decoded KeyPackageRef".to_owned(),
            ),
        );
    }
    decoded.protocol_profile = metadata.protocol_profile;
    Ok((decoded, metadata.key_package_ref_hex))
}

/// Checks a cached key package, given what decoding it gave.
pub fn validated_cached_key_package(
    account_id_hex: &str,
    key_package: &DirectoryKeyPackage,
    metadata: Result<KeyPackageMetadata, String>,
) -> (result: Result<KeyPackage, AppError>)
    ensures
        outcome(result) == (match cached_package(
            account_id_hex@,
            key_package.deep_view(),
            decoding(metadata),
        ) {
            Ok((package, _)) => Ok(package),
            Err(error) => Err(error),
        }),
{
    match validated_cached_key_package_with_ref(account_id_hex, key_package, metadata) {
        Ok((package, _)) => Ok(package),
        Err(error) => Err(error),
    }
}

/// A directory entry's cached key package, as if it had been fetched.
pub open spec fn package_of_entry(
    entry: EntryContent,
    metadata: Result<MetadataContent, Seq<char>>,
) -> Result<Option<FetchedContent>, ErrorContent> {
    match entry.key_package {
        None => Ok(None),
        Some(package) => match cached_package(entry.account_id_hex, package, metadata) {
            Err(error) => Err(error),
            Ok((decoded, reference)) => Ok(
                Some(
                    FetchedContent {
                        account_id_hex: entry.account_id_hex,
                        key_package: decoded,
                        key_package_id: package.key_package_id,
                        key_package_ref_hex: reference,
                        key_package_event_id: package.key_package_event_id,
                        created_at: package.created_at,
                        source_relays: package.source_relays,
                        relay_lists: entry.relay_lists,
                    },
                ),
            ),
        },
    }
}

/// Reads a directory entry's cached key package, given what decoding it gave.
pub fn cached_key_package_from_entry(
    entry: UserDirectoryRecord,
    metadata: Result<KeyPackageMetadata, String>,
) -> (result: Result<Option<FetchedKeyPackage>, AppError>)
    ensures
        package_of_entry(entry.deep_view(), decoding(metadata)) == (match result {
            Ok(fetched) => Ok(fetched.deep_view()),
            Err(error) => Err(error.deep_view()),
        }),
{
    match entry.key_package {
        None => Ok(None),
        Some(package) => match validated_cached_key_package_with_ref(
            entry.account_id_hex.as_str(),
            &package,
            metadata,
        ) {
            Err(error) => Err(error),
            Ok((key_package, key_package_ref_hex)) => Ok(
                Some(
                    FetchedKeyPackage {
                        account_id_hex: entry.account_id_hex,
                        key_package,
                        key_package_id: package.key_package_id,
                        key_package_ref_hex,
                        key_package_event_id: package.key_package_event_id,
                        created_at: package.created_at,
                        source_relays: package.source_relays,
                        relay_lists: entry.relay_lists,
                    },
                ),
            ),
        },
    }
}

/// The fetched key package, or the cached one where only future ones were found.
pub open spec fn fresh_or_cached(
    account: Seq<char>,
    selection: (Option<FetchedContent>, bool),
    cached: Option<EntryContent>,
    metadata: Result<MetadataContent, Seq<char>>,
) -> Result<FetchedContent, ErrorContent> {
    match selection.0 {
        Some(fetched) => Ok(fetched),
        None => if selection.1 && cached is Some {
            match package_of_entry(cached->0, metadata) {
                Err(error) => Err(error),
                Ok(Some(fetched)) => Ok(fetched),
                Ok(None) => Err(ErrorContent::MissingKeyPackage(account)),
            }
        } else {
            Err(ErrorContent::MissingKeyPackage(account))
        },
    }
}

/// Takes the fetched key package, or falls back to the cached one where only
/// future ones were found. `metadata` is what decoding the cached one gave.
pub fn fresh_or_cached_key_package(
    account_id_hex: &str,
    selection: DirectorySelection<Option<FetchedKeyPackage>>,
    cached_entry: Option<UserDirectoryRecord>,
    metadata: Result<KeyPackageMetadata, String>,
) -> (result: Result<FetchedKeyPackage, AppError>)
    ensures
        outcome(result) == fresh_or_cached(
            account_id_hex@,
            selected(selection),
            cached_entry.deep_view(),
            decoding(metadata),
        ),
{
    match selection.value {
        Some(fetched) => Ok(fetched),
        None => {
            if selection.rejected_future {
                if let Some(entry) = cached_entry {
                    match cached_key_package_from_entry(entry, metadata) {
                        Err(error) => return Err(error),
                        Ok(Some(fetched)) => return Ok(fetched),
                        Ok(None) => {},
                    }
                }
            }
            Err(AppError::MissingKeyPackage(account_id_hex.to_owned()))
        },
    }
}

/// The record of a fetched key package, as its relays know it.
pub fn account_key_package_record_from_fetched(fetched: FetchedKeyPackage) -> (record:
    AccountKeyPackageRecord)
    ensures
        record.deep_view() == (RecordContent {
            account_label: None,
            account_id_hex: fetched.deep_view().account_id_hex,
            key_package_id: fetched.deep_view().key_package_id,
            key_package_ref_hex: fetched.deep_view().key_package_ref_hex,
            key_package_event_id: fetched.deep_view().key_package_event_id,
            published_at: fetched.created_at,
            key_package_bytes: fetched.deep_view().key_package.bytes.len() as usize,
            source_relays: fetched.deep_view().source_relays,
            local: false,
            relay: true,
        }),
{
    AccountKeyPackageRecord {
        account_label: None,
        account_id_hex: fetched.account_id_hex,
        key_package_id: fetched.key_package_id,
        key_package_ref_hex: fetched.key_package_ref_hex,
        key_package_event_id: fetched.key_package_event_id,
        published_at: fetched.created_at,
        key_package_bytes: fetched.key_package.bytes.len(),
        source_relays: fetched.source_relays,
        local: false,
        relay: true,
    }
}

/// Relays for an account that has no lists yet.
#[derive(Debug, PartialEq, Eq)]
pub struct AccountRelayListBootstrap {
    pub default_relays: Vec<String>,
    pub bootstrap_relays: Vec<String>,
}

/// The relays to publish to before any list is known: those to start from, or the
/// default ones.
pub fn publish_endpoints_from_bootstrap(bootstrap: &AccountRelayListBootstrap) -> (endpoints: Vec<
    String,
>)
    ensures
        endpoints.deep_view() == (if bootstrap.bootstrap_relays@.len() == 0 {
            bootstrap.default_relays.deep_view()
        } else {
            bootstrap.bootstrap_relays.deep_view()
        }),
{
    if bootstrap.bootstrap_relays.len() == 0 {
        crate::collections::copy_list(&bootstrap.default_relays)
    } else {
        crate::collections::copy_list(&bootstrap.bootstrap_relays)
    }
}

/// A usable key package is never made for a superseded profile, and always
/// belongs to the account asked for.
pub proof fn law_latest_package_is_current(
    account: Seq<char>,
    sorted: Seq<PackageRecordContent>,
    error: Option<ErrorContent>,
)
    requires
        last_package(account, sorted, error) is Ok,
    ensures
        last_package(account, sorted, error)->Ok_0.key_package.protocol_profile
            == ProtocolProfile::Current,
        last_package(account, sorted, error)->Ok_0.account_id_hex == account,
    decreases sorted.len(),
{
    if sorted.len() > 0 {
        let rest = sorted.drop_last();
        if !is_package_of(account, sorted.last()) {
            law_latest_package_is_current(account, rest, error);
        } else {
            match package_of_record(sorted.last()) {
                Ok(fetched) => {
                    if fetched.key_package.protocol_profile != ProtocolProfile::Current {
                        law_latest_package_is_current(account, rest, error);
                    }
                },
                Err(fault) => {
                    law_latest_package_is_current(
                        account,
                        rest,
                        if error is Some {
                            error
                        } else {
                            Some(fault)
                        },
                    );
                },
            }
        }
    }
}

/// What is accepted from a relay was advertised exactly: the event's tags agree
/// with the decoded package in author, reference, cipher suite and every list.
pub proof fn law_accepted_package_matches_its_tags(
    record: PackageRecordContent,
    content: Result<Seq<u8>, Seq<char>>,
)
    requires
        package_of(record, content) is Ok,
    ensures
        record.metadata is Ok,
        metadata_fault(record.record.event, record.metadata->Ok_0) is None,
        package_of(record, content)->Ok_0.account_id_hex
            == record.metadata->Ok_0.credential_identity_hex,
        Some(package_of(record, content)->Ok_0.key_package_ref_hex) == tag_value(
            record.record.event.tags,
            "i"@,
        ),
        content is Ok,
        package_of(record, content)->Ok_0.key_package.bytes == content->Ok_0,
        content->Ok_0.len() > 0,
{
}

} // verus!
