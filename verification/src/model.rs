//! The data model of the vault and its mathematical view: merchant records,
//! dedup entries and vault records, the well-formedness invariant that ties
//! them together, and the transition relations that the store and delete
//! operations are proved against.

use vstd::prelude::*;
use crate::crypto::{digest_of, decryption_of};

verus! {

/// The error kinds a vault operation can surface.
#[derive(Clone, Copy, Debug, PartialEq, Eq, Structural)]
pub enum VaultError {
    /// A merchant or vault lookup missed; recoverable, often a create path.
    NotFound,
    /// Tamper or wrong key; fatal to the request, deliberately opaque.
    DecryptionFailed,
    /// Payload canonicalization failed; a client-input error.
    EncodingError,
    /// A uniqueness race; recovered internally, never surfaced by this core.
    Conflict,
    /// Pool or connection failure; transient and retryable.
    ResourceExhausted,
}

/// One merchant: unique per (tenant, merchant id), holding its DEK encrypted
/// under the master key.
pub struct MerchantRecord {
    pub tenant_id: String,
    pub merchant_id: String,
    pub encrypted_dek: Vec<u8>,
}

pub ghost struct MerchantModel {
    pub tenant_id: Seq<char>,
    pub merchant_id: Seq<char>,
    pub encrypted_dek: Seq<u8>,
}

impl View for MerchantRecord {
    type V = MerchantModel;

    open spec fn view(&self) -> MerchantModel {
        MerchantModel {
            tenant_id: self.tenant_id@,
            merchant_id: self.merchant_id@,
            encrypted_dek: self.encrypted_dek@,
        }
    }
}

/// One dedup entry: a content fingerprint and its opaque group id, unique per
/// fingerprint, immutable, never deleted.
pub struct DedupEntry {
    pub fingerprint: Vec<u8>,
    pub group_id: u64,
}

pub ghost struct DedupModel {
    pub fingerprint: Seq<u8>,
    pub group_id: u64,
}

impl View for DedupEntry {
    type V = DedupModel;

    open spec fn view(&self) -> DedupModel {
        DedupModel { fingerprint: self.fingerprint@, group_id: self.group_id }
    }
}

/// One vault record: the payload ciphertext under the owning merchant's DEK,
/// addressed by a globally unique card reference and scoped to exactly one
/// (tenant, merchant, customer), linked to its dedup group.
pub struct VaultRecord {
    pub card_reference: u64,
    pub tenant_id: String,
    pub merchant_id: String,
    pub customer_id: String,
    pub group_id: u64,
    pub ciphertext: Vec<u8>,
}

pub ghost struct RecordModel {
    pub card_reference: u64,
    pub tenant_id: Seq<char>,
    pub merchant_id: Seq<char>,
    pub customer_id: Seq<char>,
    pub group_id: u64,
    pub ciphertext: Seq<u8>,
}

impl View for VaultRecord {
    type V = RecordModel;

    open spec fn view(&self) -> RecordModel {
        RecordModel {
            card_reference: self.card_reference,
            tenant_id: self.tenant_id@,
            merchant_id: self.merchant_id@,
            customer_id: self.customer_id@,
            group_id: self.group_id,
            ciphertext: self.ciphertext@,
        }
    }
}

/// The whole vault state: the three relations, the id counters, and the ghost
/// map from card reference to the plaintext it stands for.
pub ghost struct VaultModel {
    pub merchants: Seq<MerchantModel>,
    pub dedup: Seq<DedupModel>,
    pub records: Seq<RecordModel>,
    pub next_group: u64,
    pub next_reference: u64,
    pub contents: Map<u64, Seq<u8>>,
}

pub open spec fn merchant_matches(m: MerchantModel, tenant: Seq<char>, merchant: Seq<char>) -> bool {
    m.tenant_id == tenant && m.merchant_id == merchant
}

pub open spec fn has_merchant(vm: VaultModel, tenant: Seq<char>, merchant: Seq<char>) -> bool {
    exists|i: int|
        0 <= i < vm.merchants.len() && merchant_matches(#[trigger] vm.merchants[i], tenant, merchant)
}

pub open spec fn record_scope_matches(
    r: RecordModel,
    tenant: Seq<char>,
    merchant: Seq<char>,
    customer: Seq<char>,
) -> bool {
    r.tenant_id == tenant && r.merchant_id == merchant && r.customer_id == customer
}

/// Some record is addressed by `reference` in exactly this scope.
pub open spec fn has_scoped_record(
    vm: VaultModel,
    tenant: Seq<char>,
    merchant: Seq<char>,
    customer: Seq<char>,
    reference: u64,
) -> bool {
    exists|i: int|
        0 <= i < vm.records.len()
        && record_scope_matches(#[trigger] vm.records[i], tenant, merchant, customer)
        && vm.records[i].card_reference == reference
}

/// Some record in this scope belongs to dedup group `group`.
pub open spec fn has_group_record(
    vm: VaultModel,
    tenant: Seq<char>,
    merchant: Seq<char>,
    customer: Seq<char>,
    group: u64,
) -> bool {
    exists|i: int|
        0 <= i < vm.records.len()
        && record_scope_matches(#[trigger] vm.records[i], tenant, merchant, customer)
        && vm.records[i].group_id == group
}

pub open spec fn has_group(vm: VaultModel, fp: Seq<u8>) -> bool {
    exists|j: int| 0 <= j < vm.dedup.len() && (#[trigger] vm.dedup[j]).fingerprint == fp
}

/// The record addressed by `reference` sits in this scope and its dedup group
/// carries the fingerprint of `payload`.
pub open spec fn record_linked(
    vm: VaultModel,
    tenant: Seq<char>,
    merchant: Seq<char>,
    customer: Seq<char>,
    payload: Seq<u8>,
    reference: u64,
) -> bool {
    exists|i: int, j: int|
        {
            &&& 0 <= i < vm.records.len()
            &&& 0 <= j < vm.dedup.len()
            &&& record_scope_matches(#[trigger] vm.records[i], tenant, merchant, customer)
            &&& vm.records[i].card_reference == reference
            &&& vm.records[i].group_id == (#[trigger] vm.dedup[j]).group_id
            &&& vm.dedup[j].fingerprint == digest_of(payload)
        }
}

/// This customer already holds a record for content with this payload's
/// fingerprint: the store path returns the existing reference and writes
/// nothing.
pub open spec fn dedup_hit(
    vm: VaultModel,
    tenant: Seq<char>,
    merchant: Seq<char>,
    customer: Seq<char>,
    payload: Seq<u8>,
) -> bool {
    exists|r: u64| record_linked(vm, tenant, merchant, customer, payload, r)
}

pub open spec fn some_or_empty(o: Option<Seq<u8>>) -> Seq<u8> {
    match o {
        Some(s) => s,
        None => Seq::empty(),
    }
}

/// The index of the (unique, under `merchants_unique`) merchant for this
/// tenant and merchant id.
pub open spec fn merchant_index(vm: VaultModel, tenant: Seq<char>, merchant: Seq<char>) -> int {
    choose|i: int|
        0 <= i < vm.merchants.len() && merchant_matches(#[trigger] vm.merchants[i], tenant, merchant)
}

/// The merchant's DEK, as decryption of its stored encrypted DEK under the
/// master key yields it.
pub open spec fn merchant_dek(
    vm: VaultModel,
    master: Seq<u8>,
    tenant: Seq<char>,
    merchant: Seq<char>,
) -> Seq<u8> {
    some_or_empty(decryption_of(master, vm.merchants[merchant_index(vm, tenant, merchant)].encrypted_dek))
}

/// Exactly one merchant record per (tenant, merchant id).
pub open spec fn merchants_unique(vm: VaultModel) -> bool {
    forall|i: int, j: int|
        0 <= i < j < vm.merchants.len()
            ==> !merchant_matches(
                #[trigger] vm.merchants[i],
                (#[trigger] vm.merchants[j]).tenant_id,
                vm.merchants[j].merchant_id,
            )
}

/// Exactly one dedup entry per fingerprint, and group ids never collide.
pub open spec fn dedup_unique(vm: VaultModel) -> bool {
    forall|i: int, j: int|
        0 <= i < j < vm.dedup.len()
            ==> (#[trigger] vm.dedup[i]).fingerprint != (#[trigger] vm.dedup[j]).fingerprint
                && vm.dedup[i].group_id != vm.dedup[j].group_id
}

pub open spec fn dedup_bounded(vm: VaultModel) -> bool {
    forall|i: int| 0 <= i < vm.dedup.len() ==> (#[trigger] vm.dedup[i]).group_id < vm.next_group
}

/// Card references are globally unique, and at most one record exists per
/// (tenant, merchant, customer, group).
pub open spec fn records_unique(vm: VaultModel) -> bool {
    forall|i: int, j: int|
        0 <= i < j < vm.records.len()
            ==> (#[trigger] vm.records[i]).card_reference != (#[trigger] vm.records[j]).card_reference
                && !(record_scope_matches(
                    vm.records[i],
                    vm.records[j].tenant_id,
                    vm.records[j].merchant_id,
                    vm.records[j].customer_id,
                ) && vm.records[i].group_id == vm.records[j].group_id)
}

pub open spec fn records_bounded(vm: VaultModel) -> bool {
    forall|i: int| 0 <= i < vm.records.len() ==> (#[trigger] vm.records[i]).card_reference < vm.next_reference
}

/// No record without its prerequisites: its merchant exists and its group is
/// registered in the dedup index.
pub open spec fn records_grounded(vm: VaultModel) -> bool {
    forall|i: int|
        0 <= i < vm.records.len()
            ==> has_merchant(vm, (#[trigger] vm.records[i]).tenant_id, vm.records[i].merchant_id)
                && exists|j: int|
                    0 <= j < vm.dedup.len()
                    && (#[trigger] vm.dedup[j]).group_id == vm.records[i].group_id
}

/// The ghost contents map is keyed by exactly the stored card references.
pub open spec fn contents_match(vm: VaultModel) -> bool {
    &&& forall|i: int|
        0 <= i < vm.records.len() ==> vm.contents.contains_key((#[trigger] vm.records[i]).card_reference)
    &&& forall|r: u64|
        vm.contents.contains_key(r)
            ==> exists|i: int|
                0 <= i < vm.records.len() && (#[trigger] vm.records[i]).card_reference == r
}

/// Every record's group fingerprint is the digest of the plaintext the record
/// stands for.
pub open spec fn records_fingerprinted(vm: VaultModel) -> bool {
    forall|i: int, j: int|
        0 <= i < vm.records.len() && 0 <= j < vm.dedup.len()
            && (#[trigger] vm.records[i]).group_id == (#[trigger] vm.dedup[j]).group_id
            ==> digest_of(vm.contents[vm.records[i].card_reference]) == vm.dedup[j].fingerprint
}

/// The structural invariant: what the persistence layer's uniqueness
/// constraints enforce, independent of any key material.
pub open spec fn wf_core(vm: VaultModel) -> bool {
    &&& merchants_unique(vm)
    &&& dedup_unique(vm)
    &&& dedup_bounded(vm)
    &&& records_unique(vm)
    &&& records_bounded(vm)
    &&& records_grounded(vm)
    &&& contents_match(vm)
    &&& records_fingerprinted(vm)
}

pub open spec fn merchant_dek_ok(m: MerchantModel, master: Seq<u8>) -> bool {
    &&& m.encrypted_dek.len() >= 12
    &&& decryption_of(master, m.encrypted_dek) matches Some(dek) && dek.len() == 32
}

/// The cryptographic invariant under a given master key: every stored DEK
/// decrypts under it, and every record's ciphertext decrypts under its
/// merchant's DEK to the plaintext the ghost contents map records.
pub open spec fn wf_crypto(vm: VaultModel, master: Seq<u8>) -> bool {
    &&& forall|i: int| 0 <= i < vm.merchants.len() ==> merchant_dek_ok(#[trigger] vm.merchants[i], master)
    &&& forall|i: int|
        0 <= i < vm.records.len()
            ==> {
                let rec = #[trigger] vm.records[i];
                &&& rec.ciphertext.len() >= 12
                &&& decryption_of(merchant_dek(vm, master, rec.tenant_id, rec.merchant_id), rec.ciphertext)
                    == Some(vm.contents[rec.card_reference])
            }
}

/// Full well-formedness under the process-wide master key.
pub open spec fn wf(vm: VaultModel, master: Seq<u8>) -> bool {
    wf_core(vm) && wf_crypto(vm, master)
}

/// How the merchant relation may change on a store: unchanged when the
/// merchant exists, else extended by exactly the new merchant with a DEK
/// encrypted under the master key.
pub open spec fn merchants_extended(
    pre: VaultModel,
    post: VaultModel,
    master: Seq<u8>,
    tenant: Seq<char>,
    merchant: Seq<char>,
) -> bool {
    if has_merchant(pre, tenant, merchant) {
        post.merchants == pre.merchants
    } else {
        &&& post.merchants.len() == pre.merchants.len() + 1
        &&& forall|i: int| 0 <= i < pre.merchants.len() ==> post.merchants[i] == pre.merchants[i]
        &&& merchant_matches(post.merchants[pre.merchants.len() as int], tenant, merchant)
        &&& merchant_dek_ok(post.merchants[pre.merchants.len() as int], master)
    }
}

/// How the dedup index may change on a store: unchanged when the fingerprint
/// is known, else extended by exactly one entry carrying a fresh group id.
pub open spec fn dedup_extended(pre: VaultModel, post: VaultModel, fp: Seq<u8>) -> bool {
    if has_group(pre, fp) {
        post.dedup == pre.dedup && post.next_group == pre.next_group
    } else {
        &&& post.dedup.len() == pre.dedup.len() + 1
        &&& forall|i: int| 0 <= i < pre.dedup.len() ==> post.dedup[i] == pre.dedup[i]
        &&& post.dedup[pre.dedup.len() as int].fingerprint == fp
        &&& post.dedup[pre.dedup.len() as int].group_id == pre.next_group
        &&& post.next_group == pre.next_group + 1
    }
}

/// The one record a fresh store appends: in the request's scope, addressed by
/// `reference`, linked to the payload's dedup group, its ciphertext
/// decrypting under the merchant's DEK to the payload.
pub open spec fn new_record_ok(
    post: VaultModel,
    master: Seq<u8>,
    tenant: Seq<char>,
    merchant: Seq<char>,
    customer: Seq<char>,
    payload: Seq<u8>,
    reference: u64,
) -> bool {
    let rec = post.records[post.records.len() - 1];
    &&& record_scope_matches(rec, tenant, merchant, customer)
    &&& rec.card_reference == reference
    &&& exists|j: int|
        0 <= j < post.dedup.len()
        && (#[trigger] post.dedup[j]).group_id == rec.group_id
        && post.dedup[j].fingerprint == digest_of(payload)
    &&& rec.ciphertext.len() >= 12
    &&& decryption_of(merchant_dek(post, master, tenant, merchant), rec.ciphertext) == Some(payload)
}

/// What a successful store does: on a dedup hit for this customer, nothing
/// changes and the existing reference comes back; otherwise the merchant and
/// dedup relations are extended as needed and exactly one record is created
/// under a fresh reference, the payload recorded for it.
pub open spec fn store_transition(
    pre: VaultModel,
    post: VaultModel,
    master: Seq<u8>,
    tenant: Seq<char>,
    merchant: Seq<char>,
    customer: Seq<char>,
    payload: Seq<u8>,
    reference: u64,
) -> bool {
    if dedup_hit(pre, tenant, merchant, customer, payload) {
        &&& post == pre
        &&& record_linked(pre, tenant, merchant, customer, payload, reference)
    } else {
        &&& merchants_extended(pre, post, master, tenant, merchant)
        &&& dedup_extended(pre, post, digest_of(payload))
        &&& reference == pre.next_reference
        &&& post.next_reference == pre.next_reference + 1
        &&& post.records.len() == pre.records.len() + 1
        &&& forall|i: int| 0 <= i < pre.records.len() ==> post.records[i] == pre.records[i]
        &&& new_record_ok(post, master, tenant, merchant, customer, payload, reference)
        &&& post.contents == pre.contents.insert(reference, payload)
    }
}

/// What a delete does once the merchant is confirmed: the one record in scope
/// under `reference` is removed (count 1), or nothing matched and nothing
/// changes (count 0) — idempotent either way.
pub open spec fn delete_transition(
    pre: VaultModel,
    post: VaultModel,
    tenant: Seq<char>,
    merchant: Seq<char>,
    customer: Seq<char>,
    reference: u64,
    count: usize,
) -> bool {
    if has_scoped_record(pre, tenant, merchant, customer, reference) {
        &&& count == 1
        &&& exists|i: int|
            {
                &&& 0 <= i < pre.records.len()
                &&& record_scope_matches(#[trigger] pre.records[i], tenant, merchant, customer)
                &&& pre.records[i].card_reference == reference
                &&& post.records == pre.records.remove(i)
            }
        &&& post.contents == pre.contents.remove(reference)
        &&& post.merchants == pre.merchants
        &&& post.dedup == pre.dedup
        &&& post.next_group == pre.next_group
        &&& post.next_reference == pre.next_reference
    } else {
        count == 0 && post == pre
    }
}

} // verus!
