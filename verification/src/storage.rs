//! Capability interfaces over the stored state: narrow, contract-bearing
//! views of the merchant directory, the vault records and the dedup index,
//! so a persistence engine can be swapped in behind them without touching
//! the orchestrator.
//! The in-memory vault implements them; their mutating counterparts live as
//! the vault's own operations, whose contracts are tied to its invariant.

use vstd::prelude::*;
use crate::model::{MerchantModel, DedupModel, RecordModel, merchant_matches, record_scope_matches};

verus! {

/// Marker for state that is threaded through the application.
pub trait State {}

/// Lookup capability over the merchant directory: resolve a (merchant id,
/// tenant id) pair to the index of its unique merchant record.
pub trait MerchantInterface {
    spec fn merchants_model(&self) -> Seq<MerchantModel>;

    fn find_by_merchant_id(&self, merchant_id: &str, tenant_id: &str) -> (r: Option<usize>)
        ensures
            match r {
                Some(i) => 0 <= i < self.merchants_model().len() && merchant_matches(
                    self.merchants_model()[i as int],
                    tenant_id@,
                    merchant_id@,
                ),
                None => forall|k: int|
                    0 <= k < self.merchants_model().len() ==> !merchant_matches(
                        #[trigger] self.merchants_model()[k],
                        tenant_id@,
                        merchant_id@,
                    ),
            },
    ;
}

/// Lookup capability over the vault records: resolve a card reference in an
/// exact (tenant, merchant, customer) scope — and only there — to the index
/// of its record. Scoping mismatches resolve to nothing, never to another
/// scope's record.
pub trait LockerInterface {
    spec fn records_model(&self) -> Seq<RecordModel>;

    fn find_by_locker_id_merchant_id_customer_id(
        &self,
        locker_id: u64,
        tenant_id: &str,
        merchant_id: &str,
        customer_id: &str,
    ) -> (r: Option<usize>)
        ensures
            match r {
                Some(k) => 0 <= k < self.records_model().len()
                    && record_scope_matches(
                        self.records_model()[k as int],
                        tenant_id@,
                        merchant_id@,
                        customer_id@,
                    )
                    && self.records_model()[k as int].card_reference == locker_id,
                None => forall|n: int|
                    0 <= n < self.records_model().len() ==> !(record_scope_matches(
                        #[trigger] self.records_model()[n],
                        tenant_id@,
                        merchant_id@,
                        customer_id@,
                    ) && self.records_model()[n].card_reference == locker_id),
            },
    ;
}

/// Lookup capability over the dedup index: resolve a content fingerprint to
/// its group id, if the content was ever stored.
pub trait HashInterface {
    spec fn dedup_model(&self) -> Seq<DedupModel>;

    fn find_by_data_hash(&self, data_hash: &[u8]) -> (r: Option<u64>)
        ensures
            match r {
                Some(g) => exists|j: int|
                    0 <= j < self.dedup_model().len()
                    && (#[trigger] self.dedup_model()[j]).fingerprint == data_hash@
                    && self.dedup_model()[j].group_id == g,
                None => forall|j: int|
                    0 <= j < self.dedup_model().len()
                        ==> (#[trigger] self.dedup_model()[j]).fingerprint != data_hash@,
            },
    ;
}

} // verus!
