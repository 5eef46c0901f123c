//! The laws of the vault, proved from the operation contracts alone:
//! deduplication per customer, isolation across customers and merchants,
//! round-tripping of stored payloads, idempotent deletion, and the
//! at-most-one invariants that resolve concurrent creation races.

use vstd::prelude::*;
use crate::crypto::digest_of;
use crate::model::{
    VaultModel, merchant_matches, record_scope_matches, has_merchant, has_scoped_record,
    has_group, record_linked, dedup_hit, wf_core, wf, store_transition, delete_transition,
};

verus! {

/// At most one merchant record ever exists per (tenant, merchant id): any two
/// matching indices coincide. This is what resolves the merchant-creation
/// race — the losing writer finds the winner's record.
pub proof fn lemma_at_most_one_merchant(
    vm: VaultModel,
    tenant: Seq<char>,
    merchant: Seq<char>,
    i: int,
    j: int,
)
    requires
        wf_core(vm),
        0 <= i < vm.merchants.len(),
        0 <= j < vm.merchants.len(),
        merchant_matches(vm.merchants[i], tenant, merchant),
        merchant_matches(vm.merchants[j], tenant, merchant),
    ensures
        i == j,
{
    if i < j {
        assert(!merchant_matches(vm.merchants[i], vm.merchants[j].tenant_id, vm.merchants[j].merchant_id));
    } else if j < i {
        assert(!merchant_matches(vm.merchants[j], vm.merchants[i].tenant_id, vm.merchants[i].merchant_id));
    }
}

/// At most one dedup entry ever exists per fingerprint: concurrent stores of
/// identical content cannot produce two groups.
pub proof fn lemma_at_most_one_group(vm: VaultModel, i: int, j: int)
    requires
        wf_core(vm),
        0 <= i < vm.dedup.len(),
        0 <= j < vm.dedup.len(),
        vm.dedup[i].fingerprint == vm.dedup[j].fingerprint,
    ensures
        i == j,
{
    if i < j {
        assert(vm.dedup[i].fingerprint != vm.dedup[j].fingerprint);
    } else if j < i {
        assert(vm.dedup[j].fingerprint != vm.dedup[i].fingerprint);
    }
}

/// At most one vault record ever exists per (tenant, merchant, customer,
/// group): concurrent stores of identical content by one customer resolve to
/// a single record.
pub proof fn lemma_at_most_one_customer_record(vm: VaultModel, i: int, j: int)
    requires
        wf_core(vm),
        0 <= i < vm.records.len(),
        0 <= j < vm.records.len(),
        record_scope_matches(
            vm.records[i],
            vm.records[j].tenant_id,
            vm.records[j].merchant_id,
            vm.records[j].customer_id,
        ),
        vm.records[i].group_id == vm.records[j].group_id,
    ensures
        i == j,
{
}

/// Two records linked to the same payload in the same scope are one record:
/// the linked reference is unique.
proof fn lemma_linked_unique(
    vm: VaultModel,
    tenant: Seq<char>,
    merchant: Seq<char>,
    customer: Seq<char>,
    payload: Seq<u8>,
    r1: u64,
    r2: u64,
)
    requires
        wf_core(vm),
        record_linked(vm, tenant, merchant, customer, payload, r1),
        record_linked(vm, tenant, merchant, customer, payload, r2),
    ensures
        r1 == r2,
{
    let (i1, j1): (int, int) = choose|i1: int, j1: int|
        {
            &&& 0 <= i1 < vm.records.len()
            &&& 0 <= j1 < vm.dedup.len()
            &&& record_scope_matches(#[trigger] vm.records[i1], tenant, merchant, customer)
            &&& vm.records[i1].card_reference == r1
            &&& vm.records[i1].group_id == (#[trigger] vm.dedup[j1]).group_id
            &&& vm.dedup[j1].fingerprint == digest_of(payload)
        };
    let (i2, j2): (int, int) = choose|i2: int, j2: int|
        {
            &&& 0 <= i2 < vm.records.len()
            &&& 0 <= j2 < vm.dedup.len()
            &&& record_scope_matches(#[trigger] vm.records[i2], tenant, merchant, customer)
            &&& vm.records[i2].card_reference == r2
            &&& vm.records[i2].group_id == (#[trigger] vm.dedup[j2]).group_id
            &&& vm.dedup[j2].fingerprint == digest_of(payload)
        };
    lemma_at_most_one_group(vm, j1, j2);
    lemma_at_most_one_customer_record(vm, i1, i2);
}

/// A record linked to a payload stays linked across any store: the store
/// operation never removes or rewrites records, dedup entries or merchants.
proof fn lemma_linked_preserved_by_store(
    mid: VaultModel,
    post: VaultModel,
    master: Seq<u8>,
    tenant: Seq<char>,
    merchant: Seq<char>,
    customer: Seq<char>,
    payload: Seq<u8>,
    reference: u64,
    tenant2: Seq<char>,
    merchant2: Seq<char>,
    customer2: Seq<char>,
    payload2: Seq<u8>,
    reference2: u64,
)
    requires
        record_linked(mid, tenant, merchant, customer, payload, reference),
        store_transition(mid, post, master, tenant2, merchant2, customer2, payload2, reference2),
    ensures
        record_linked(post, tenant, merchant, customer, payload, reference),
{
    if dedup_hit(mid, tenant2, merchant2, customer2, payload2) {
    } else {
        let (i1, j1): (int, int) = choose|i1: int, j1: int|
            {
                &&& 0 <= i1 < mid.records.len()
                &&& 0 <= j1 < mid.dedup.len()
                &&& record_scope_matches(#[trigger] mid.records[i1], tenant, merchant, customer)
                &&& mid.records[i1].card_reference == reference
                &&& mid.records[i1].group_id == (#[trigger] mid.dedup[j1]).group_id
                &&& mid.dedup[j1].fingerprint == digest_of(payload)
            };
        assert(post.records[i1] == mid.records[i1]);
        if has_group(mid, digest_of(payload2)) {
            assert(post.dedup[j1] == mid.dedup[j1]);
        } else {
            assert(post.dedup[j1] == mid.dedup[j1]);
        }
    }
}

/// Dedup correctness: storing the same payload twice for the same customer
/// returns the same card reference the second time and changes nothing — no
/// second vault record, dedup entry or merchant is ever created. Chained,
/// this also resolves any number of repeated store requests for identical
/// content to exactly one record.
pub proof fn lemma_store_dedup(
    pre: VaultModel,
    mid: VaultModel,
    post: VaultModel,
    master: Seq<u8>,
    tenant: Seq<char>,
    merchant: Seq<char>,
    customer: Seq<char>,
    payload: Seq<u8>,
    r1: u64,
    r2: u64,
)
    requires
        wf(pre, master),
        wf(mid, master),
        store_transition(pre, mid, master, tenant, merchant, customer, payload, r1),
        store_transition(mid, post, master, tenant, merchant, customer, payload, r2),
    ensures
        r2 == r1,
        post == mid,
{
    assert(record_linked(mid, tenant, merchant, customer, payload, r1)) by {
        if dedup_hit(pre, tenant, merchant, customer, payload) {
        } else {
            let nr = mid.records.len() - 1;
            let j1 = choose|j1: int|
                0 <= j1 < mid.dedup.len()
                && (#[trigger] mid.dedup[j1]).group_id == mid.records[nr].group_id
                && mid.dedup[j1].fingerprint == digest_of(payload);
            assert(record_scope_matches(mid.records[nr], tenant, merchant, customer));
        }
    }
    assert(dedup_hit(mid, tenant, merchant, customer, payload));
    assert(record_linked(mid, tenant, merchant, customer, payload, r2));
    lemma_linked_unique(mid, tenant, merchant, customer, payload, r1, r2);
}

/// Per-customer isolation: storing identical content for two different
/// customers of the same merchant yields two distinct card references, and
/// the two records share one dedup group.
pub proof fn lemma_per_customer_isolation(
    pre: VaultModel,
    mid: VaultModel,
    post: VaultModel,
    master: Seq<u8>,
    tenant: Seq<char>,
    merchant: Seq<char>,
    customer1: Seq<char>,
    customer2: Seq<char>,
    payload: Seq<u8>,
    r1: u64,
    r2: u64,
)
    requires
        wf(pre, master),
        wf(mid, master),
        wf(post, master),
        customer1 != customer2,
        store_transition(pre, mid, master, tenant, merchant, customer1, payload, r1),
        store_transition(mid, post, master, tenant, merchant, customer2, payload, r2),
    ensures
        r1 != r2,
        record_linked(post, tenant, merchant, customer1, payload, r1),
        record_linked(post, tenant, merchant, customer2, payload, r2),
        forall|i1: int, i2: int|
            0 <= i1 < post.records.len() && 0 <= i2 < post.records.len()
                && (#[trigger] post.records[i1]).card_reference == r1
                && (#[trigger] post.records[i2]).card_reference == r2
                ==> post.records[i1].group_id == post.records[i2].group_id,
{
    assert(record_linked(mid, tenant, merchant, customer1, payload, r1)) by {
        if dedup_hit(pre, tenant, merchant, customer1, payload) {
        } else {
            let nr = mid.records.len() - 1;
            let j1 = choose|j1: int|
                0 <= j1 < mid.dedup.len()
                && (#[trigger] mid.dedup[j1]).group_id == mid.records[nr].group_id
                && mid.dedup[j1].fingerprint == digest_of(payload);
            assert(record_scope_matches(mid.records[nr], tenant, merchant, customer1));
        }
    }
    lemma_linked_preserved_by_store(
        mid, post, master, tenant, merchant, customer1, payload, r1,
        tenant, merchant, customer2, payload, r2,
    );
    assert(record_linked(post, tenant, merchant, customer2, payload, r2)) by {
        if dedup_hit(mid, tenant, merchant, customer2, payload) {
        } else {
            let nr = post.records.len() - 1;
            let j1 = choose|j1: int|
                0 <= j1 < post.dedup.len()
                && (#[trigger] post.dedup[j1]).group_id == post.records[nr].group_id
                && post.dedup[j1].fingerprint == digest_of(payload);
            assert(record_scope_matches(post.records[nr], tenant, merchant, customer2));
        }
    }
    let (i1, j1): (int, int) = choose|i1: int, j1: int|
        {
            &&& 0 <= i1 < post.records.len()
            &&& 0 <= j1 < post.dedup.len()
            &&& record_scope_matches(#[trigger] post.records[i1], tenant, merchant, customer1)
            &&& post.records[i1].card_reference == r1
            &&& post.records[i1].group_id == (#[trigger] post.dedup[j1]).group_id
            &&& post.dedup[j1].fingerprint == digest_of(payload)
        };
    let (i2, j2): (int, int) = choose|i2: int, j2: int|
        {
            &&& 0 <= i2 < post.records.len()
            &&& 0 <= j2 < post.dedup.len()
            &&& record_scope_matches(#[trigger] post.records[i2], tenant, merchant, customer2)
            &&& post.records[i2].card_reference == r2
            &&& post.records[i2].group_id == (#[trigger] post.dedup[j2]).group_id
            &&& post.dedup[j2].fingerprint == digest_of(payload)
        };
    lemma_at_most_one_group(post, j1, j2);
    if r1 == r2 {
        if i1 != i2 {
            assert(post.records[i1].card_reference != post.records[i2].card_reference);
        }
    }
    assert forall|a: int, b: int|
        0 <= a < post.records.len() && 0 <= b < post.records.len()
            && (#[trigger] post.records[a]).card_reference == r1
            && (#[trigger] post.records[b]).card_reference == r2
            implies post.records[a].group_id == post.records[b].group_id by {
        if a != i1 {
            assert(post.records[a].card_reference != post.records[i1].card_reference);
        }
        if b != i2 {
            assert(post.records[b].card_reference != post.records[i2].card_reference);
        }
    }
}

/// Tenant/merchant isolation: a card reference held by one merchant's record
/// never resolves in any other merchant's scope — the retrieve contract then
/// answers `NotFound` there, never decrypted data.
pub proof fn lemma_merchant_isolation(
    vm: VaultModel,
    other_merchant: Seq<char>,
    i: int,
    reference: u64,
)
    requires
        wf_core(vm),
        0 <= i < vm.records.len(),
        vm.records[i].card_reference == reference,
        vm.records[i].merchant_id != other_merchant,
    ensures
        forall|t: Seq<char>, c: Seq<char>| !has_scoped_record(vm, t, other_merchant, c, reference),
{
    assert forall|t: Seq<char>, c: Seq<char>| !has_scoped_record(vm, t, other_merchant, c, reference) by {
        if has_scoped_record(vm, t, other_merchant, c, reference) {
            let i2 = choose|i2: int|
                0 <= i2 < vm.records.len()
                && record_scope_matches(#[trigger] vm.records[i2], t, other_merchant, c)
                && vm.records[i2].card_reference == reference;
            if i2 != i {
                if i < i2 {
                    assert(vm.records[i].card_reference != vm.records[i2].card_reference);
                } else {
                    assert(vm.records[i2].card_reference != vm.records[i].card_reference);
                }
            }
        }
    }
}

/// Round trip: after a successful store of `payload`, the returned reference
/// resolves in the very scope it was stored under, and the plaintext it
/// stands for — what retrieve's contract hands back — is `payload`,
/// bit for bit. Payloads whose fingerprint collides with different stored
/// content are excluded: the fingerprint is trusted to be collision-free.
pub proof fn lemma_store_round_trip(
    pre: VaultModel,
    post: VaultModel,
    master: Seq<u8>,
    tenant: Seq<char>,
    merchant: Seq<char>,
    customer: Seq<char>,
    payload: Seq<u8>,
    reference: u64,
)
    requires
        wf(pre, master),
        store_transition(pre, post, master, tenant, merchant, customer, payload, reference),
        forall|r: u64|
            pre.contents.contains_key(r) && digest_of(#[trigger] pre.contents[r]) == digest_of(payload)
                ==> pre.contents[r] == payload,
    ensures
        has_merchant(post, tenant, merchant),
        has_scoped_record(post, tenant, merchant, customer, reference),
        post.contents.contains_key(reference),
        post.contents[reference] == payload,
{
    if dedup_hit(pre, tenant, merchant, customer, payload) {
        let (i1, j1): (int, int) = choose|i1: int, j1: int|
            {
                &&& 0 <= i1 < pre.records.len()
                &&& 0 <= j1 < pre.dedup.len()
                &&& record_scope_matches(#[trigger] pre.records[i1], tenant, merchant, customer)
                &&& pre.records[i1].card_reference == reference
                &&& pre.records[i1].group_id == (#[trigger] pre.dedup[j1]).group_id
                &&& pre.dedup[j1].fingerprint == digest_of(payload)
            };
        assert(pre.contents.contains_key(reference));
        assert(digest_of(pre.contents[reference]) == digest_of(payload));
        assert(has_merchant(pre, pre.records[i1].tenant_id, pre.records[i1].merchant_id));
    } else {
        let nr = post.records.len() - 1;
        assert(record_scope_matches(post.records[nr], tenant, merchant, customer));
        if has_merchant(pre, tenant, merchant) {
            let i0 = choose|i0: int|
                0 <= i0 < pre.merchants.len()
                && merchant_matches(#[trigger] pre.merchants[i0], tenant, merchant);
            assert(merchant_matches(post.merchants[i0], tenant, merchant));
        } else {
            assert(merchant_matches(post.merchants[pre.merchants.len() as int], tenant, merchant));
        }
    }
}

/// Idempotent delete: deleting the same reference twice is safe — the second
/// delete affects zero records and leaves the vault exactly as it was.
pub proof fn lemma_delete_idempotent(
    pre: VaultModel,
    mid: VaultModel,
    post: VaultModel,
    tenant: Seq<char>,
    merchant: Seq<char>,
    customer: Seq<char>,
    reference: u64,
    n1: usize,
    n2: usize,
)
    requires
        wf_core(pre),
        delete_transition(pre, mid, tenant, merchant, customer, reference, n1),
        delete_transition(mid, post, tenant, merchant, customer, reference, n2),
    ensures
        n2 == 0,
        post == mid,
{
    assert(!has_scoped_record(mid, tenant, merchant, customer, reference)) by {
        if has_scoped_record(pre, tenant, merchant, customer, reference) {
            let k = choose|k: int|
                {
                    &&& 0 <= k < pre.records.len()
                    &&& record_scope_matches(#[trigger] pre.records[k], tenant, merchant, customer)
                    &&& pre.records[k].card_reference == reference
                    &&& mid.records == pre.records.remove(k)
                };
            if has_scoped_record(mid, tenant, merchant, customer, reference) {
                let i = choose|i: int|
                    0 <= i < mid.records.len()
                    && record_scope_matches(#[trigger] mid.records[i], tenant, merchant, customer)
                    && mid.records[i].card_reference == reference;
                if i < k {
                    assert(pre.records.remove(k)[i] == pre.records[i]);
                    assert(pre.records[i].card_reference != pre.records[k].card_reference);
                } else {
                    assert(pre.records.remove(k)[i] == pre.records[i + 1]);
                    assert(pre.records[k].card_reference != pre.records[i + 1].card_reference);
                }
            }
        }
    }
}

} // verus!
