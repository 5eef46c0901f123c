//! The vault store and its orchestrator: the three relations held as verified
//! in-memory tables with the same uniqueness and insert-or-get semantics the
//! persistence layer's constraints enforce, and the three user-facing
//! operations (store, retrieve, delete) proved against the model in
//! `crate::model`.

use vstd::prelude::*;
use crate::crypto;
use crate::crypto::{KeyMaterial, digest_of, decryption_of};
use crate::model::{
    VaultError, MerchantRecord, MerchantModel, DedupEntry, DedupModel, VaultRecord, RecordModel,
    VaultModel, merchant_matches, has_merchant, record_scope_matches, has_scoped_record,
    has_group_record, has_group, record_linked, dedup_hit, some_or_empty, merchant_index,
    merchant_dek, merchants_unique, dedup_unique, dedup_bounded, records_unique, records_bounded,
    records_grounded, contents_match, records_fingerprinted, wf_core, merchant_dek_ok, wf_crypto,
    wf, merchants_extended, dedup_extended, new_record_ok, store_transition, delete_transition,
};

verus! {

/// Byte-for-byte equality of two slices.
fn bytes_eq(a: &[u8], b: &[u8]) -> (r: bool)
    ensures
        r == (a@ == b@),
{
    if a.len() != b.len() {
        proof {
            if a@ == b@ {
                assert(a@.len() == b@.len());
            }
        }
        return false;
    }
    let mut i: usize = 0;
    while i < a.len()
        invariant
            a@.len() == b@.len(),
            i <= a@.len(),
            forall|k: int| 0 <= k < i ==> a@[k] == b@[k],
        decreases a@.len() - i,
    {
        if a[i] != b[i] {
            proof {
                if a@ == b@ {
                    assert(a@[i as int] == b@[i as int]);
                }
            }
            return false;
        }
        i = i + 1;
    }
    proof {
        assert(a@ =~= b@);
    }
    true
}

/// The vault: merchants, the dedup index and the vault records, each unique
/// by its key as the persistence layer's constraints demand, plus the ghost
/// record of which plaintext each card reference stands for.
pub struct Vault {
    merchants: Vec<MerchantRecord>,
    dedup: Vec<DedupEntry>,
    records: Vec<VaultRecord>,
    next_group: u64,
    next_reference: u64,
    contents: Ghost<Map<u64, Seq<u8>>>,
}

impl View for Vault {
    type V = VaultModel;

    closed spec fn view(&self) -> VaultModel {
        VaultModel {
            merchants: Seq::new(self.merchants@.len(), |i: int| self.merchants@[i]@),
            dedup: Seq::new(self.dedup@.len(), |i: int| self.dedup@[i]@),
            records: Seq::new(self.records@.len(), |i: int| self.records@[i]@),
            next_group: self.next_group,
            next_reference: self.next_reference,
            contents: self.contents@,
        }
    }
}

/// Under `merchants_unique`, any matching index is the merchant's index, and
/// the merchant's DEK is what its stored encrypted DEK decrypts to.
proof fn lemma_merchant_dek_at(
    vm: VaultModel,
    master: Seq<u8>,
    tenant: Seq<char>,
    merchant: Seq<char>,
    i: int,
)
    requires
        merchants_unique(vm),
        0 <= i < vm.merchants.len(),
        merchant_matches(vm.merchants[i], tenant, merchant),
    ensures
        merchant_index(vm, tenant, merchant) == i,
        merchant_dek(vm, master, tenant, merchant) == some_or_empty(
            decryption_of(master, vm.merchants[i].encrypted_dek),
        ),
{
    assert(has_merchant(vm, tenant, merchant));
    let j = merchant_index(vm, tenant, merchant);
    assert(0 <= j < vm.merchants.len() && merchant_matches(vm.merchants[j], tenant, merchant));
    if i < j {
        assert(!merchant_matches(vm.merchants[i], vm.merchants[j].tenant_id, vm.merchants[j].merchant_id));
    } else if j < i {
        assert(!merchant_matches(vm.merchants[j], vm.merchants[i].tenant_id, vm.merchants[i].merchant_id));
    }
}

impl Vault {
    /// An empty vault: no merchants, no dedup entries, no records.
    pub fn new() -> (r: Vault)
        ensures
            r@.merchants.len() == 0,
            r@.dedup.len() == 0,
            r@.records.len() == 0,
            r@.next_group == 0,
            r@.next_reference == 0,
            r@.contents == Map::<u64, Seq<u8>>::empty(),
            wf_core(r@),
            forall|master: Seq<u8>| wf_crypto(r@, master),
    {
        Vault {
            merchants: Vec::new(),
            dedup: Vec::new(),
            records: Vec::new(),
            next_group: 0,
            next_reference: 0,
            contents: Ghost(Map::empty()),
        }
    }

    fn find_merchant(&self, tenant_id: &str, merchant_id: &str) -> (r: Option<usize>)
        ensures
            match r {
                Some(i) => 0 <= i < self@.merchants.len() && merchant_matches(
                    self@.merchants[i as int],
                    tenant_id@,
                    merchant_id@,
                ),
                None => !has_merchant(self@, tenant_id@, merchant_id@),
            },
    {
        let mut i: usize = 0;
        while i < self.merchants.len()
            invariant
                i <= self.merchants.len(),
                forall|k: int|
                    0 <= k < i ==> !merchant_matches(
                        #[trigger] self@.merchants[k],
                        tenant_id@,
                        merchant_id@,
                    ),
            decreases self.merchants.len() - i,
        {
            let m = &self.merchants[i];
            if crypto::str_eq(m.tenant_id.as_str(), tenant_id)
                && crypto::str_eq(m.merchant_id.as_str(), merchant_id) {
                return Some(i);
            }
            i = i + 1;
        }
        None
    }

    fn find_dedup(&self, fp: &[u8]) -> (r: Option<usize>)
        ensures
            match r {
                Some(j) => 0 <= j < self@.dedup.len() && self@.dedup[j as int].fingerprint == fp@,
                None => !has_group(self@, fp@),
            },
    {
        let mut j: usize = 0;
        while j < self.dedup.len()
            invariant
                j <= self.dedup.len(),
                forall|k: int| 0 <= k < j ==> (#[trigger] self@.dedup[k]).fingerprint != fp@,
            decreases self.dedup.len() - j,
        {
            if bytes_eq(self.dedup[j].fingerprint.as_slice(), fp) {
                return Some(j);
            }
            j = j + 1;
        }
        None
    }

    fn find_record_by_group(
        &self,
        tenant_id: &str,
        merchant_id: &str,
        customer_id: &str,
        group_id: u64,
    ) -> (r: Option<usize>)
        ensures
            match r {
                Some(k) => 0 <= k < self@.records.len()
                    && record_scope_matches(
                        self@.records[k as int],
                        tenant_id@,
                        merchant_id@,
                        customer_id@,
                    )
                    && self@.records[k as int].group_id == group_id,
                None => !has_group_record(self@, tenant_id@, merchant_id@, customer_id@, group_id),
            },
    {
        let mut k: usize = 0;
        while k < self.records.len()
            invariant
                k <= self.records.len(),
                forall|n: int|
                    0 <= n < k ==> !(record_scope_matches(
                        #[trigger] self@.records[n],
                        tenant_id@,
                        merchant_id@,
                        customer_id@,
                    ) && self@.records[n].group_id == group_id),
            decreases self.records.len() - k,
        {
            let rec = &self.records[k];
            if rec.group_id == group_id
                && crypto::str_eq(rec.tenant_id.as_str(), tenant_id)
                && crypto::str_eq(rec.merchant_id.as_str(), merchant_id)
                && crypto::str_eq(rec.customer_id.as_str(), customer_id) {
                return Some(k);
            }
            k = k + 1;
        }
        None
    }

    fn find_record_by_reference(
        &self,
        tenant_id: &str,
        merchant_id: &str,
        customer_id: &str,
        card_reference: u64,
    ) -> (r: Option<usize>)
        ensures
            match r {
                Some(k) => 0 <= k < self@.records.len()
                    && record_scope_matches(
                        self@.records[k as int],
                        tenant_id@,
                        merchant_id@,
                        customer_id@,
                    )
                    && self@.records[k as int].card_reference == card_reference,
                None => !has_scoped_record(
                    self@,
                    tenant_id@,
                    merchant_id@,
                    customer_id@,
                    card_reference,
                ),
            },
    {
        let mut k: usize = 0;
        while k < self.records.len()
            invariant
                k <= self.records.len(),
                forall|n: int|
                    0 <= n < k ==> !(record_scope_matches(
                        #[trigger] self@.records[n],
                        tenant_id@,
                        merchant_id@,
                        customer_id@,
                    ) && self@.records[n].card_reference == card_reference),
            decreases self.records.len() - k,
        {
            let rec = &self.records[k];
            if rec.card_reference == card_reference
                && crypto::str_eq(rec.tenant_id.as_str(), tenant_id)
                && crypto::str_eq(rec.merchant_id.as_str(), merchant_id)
                && crypto::str_eq(rec.customer_id.as_str(), customer_id) {
                return Some(k);
            }
            k = k + 1;
        }
        None
    }

    /// Retrieve: resolve the merchant and its DEK, load the record addressed
    /// by `card_reference` in exactly this (tenant, merchant, customer)
    /// scope, decrypt, return the plaintext. Any scoping mismatch is
    /// `NotFound` — a reference leaked across merchants must not resolve.
    pub fn retrieve(
        &self,
        master: &KeyMaterial,
        tenant_id: &str,
        merchant_id: &str,
        customer_id: &str,
        card_reference: u64,
    ) -> (r: Result<Vec<u8>, VaultError>)
        requires
            wf(self@, master@),
            master@.len() == 32,
        ensures
            match r {
                Ok(p) => has_merchant(self@, tenant_id@, merchant_id@)
                    && has_scoped_record(self@, tenant_id@, merchant_id@, customer_id@, card_reference)
                    && self@.contents.contains_key(card_reference)
                    && p@ == self@.contents[card_reference],
                Err(e) => e == VaultError::NotFound
                    && !(has_merchant(self@, tenant_id@, merchant_id@)
                        && has_scoped_record(self@, tenant_id@, merchant_id@, customer_id@, card_reference)),
            },
    {
        let i = match self.find_merchant(tenant_id, merchant_id) {
            Some(i) => i,
            None => {
                return Err(VaultError::NotFound);
            },
        };
        proof {
            assert(merchant_dek_ok(self@.merchants[i as int], master@));
        }
        let dek_bytes = match crypto::decrypt(master, self.merchants[i].encrypted_dek.as_slice()) {
            Some(d) => d,
            None => {
                proof {
                    assert(false);
                }
                return Err(VaultError::DecryptionFailed);
            },
        };
        let k = match self.find_record_by_reference(tenant_id, merchant_id, customer_id, card_reference) {
            Some(k) => k,
            None => {
                return Err(VaultError::NotFound);
            },
        };
        proof {
            lemma_merchant_dek_at(self@, master@, tenant_id@, merchant_id@, i as int);
            assert(self@.records[k as int].ciphertext.len() >= 12);
            assert(decryption_of(dek_bytes@, self@.records[k as int].ciphertext)
                == Some(self@.contents[card_reference]));
        }
        let dek = KeyMaterial::new(dek_bytes);
        match crypto::decrypt(&dek, self.records[k].ciphertext.as_slice()) {
            Some(p) => Ok(p),
            None => {
                proof {
                    assert(false);
                }
                Err(VaultError::DecryptionFailed)
            },
        }
    }

    /// Resolve the merchant for this (tenant, merchant id) pair, or lazily
    /// create it on first use: a fresh random DEK is minted, encrypted under
    /// the master key and persisted. At most one DEK is ever minted per
    /// merchant — a record created by anyone else is found, never duplicated.
    /// The decrypted DEK is returned only in memory, in a write-only
    /// container; nothing else changes.
    pub fn find_or_create_by_merchant_id(
        &mut self,
        master: &KeyMaterial,
        tenant_id: &str,
        merchant_id: &str,
    ) -> (r: Result<(usize, KeyMaterial), VaultError>)
        requires
            wf(old(self)@, master@),
            master@.len() == 32,
        ensures
            wf(final(self)@, master@),
            merchants_extended(old(self)@, final(self)@, master@, tenant_id@, merchant_id@),
            final(self)@.dedup == old(self)@.dedup,
            final(self)@.records == old(self)@.records,
            final(self)@.contents == old(self)@.contents,
            final(self)@.next_group == old(self)@.next_group,
            final(self)@.next_reference == old(self)@.next_reference,
            r matches Ok(pair) && {
                &&& (pair.0 as int) < final(self)@.merchants.len()
                &&& merchant_matches(final(self)@.merchants[pair.0 as int], tenant_id@, merchant_id@)
                &&& decryption_of(master@, final(self)@.merchants[pair.0 as int].encrypted_dek)
                    == Some(pair.1@)
                &&& pair.1@.len() == 32
            },
    {
        let ghost pre = self@;
        let ghost t = tenant_id@;
        let ghost m = merchant_id@;
        let dek_bytes: Vec<u8>;
        let midx: usize;
        match self.find_merchant(tenant_id, merchant_id) {
            Some(i) => {
                proof {
                    assert(merchant_dek_ok(pre.merchants[i as int], master@));
                }
                match crypto::decrypt(master, self.merchants[i].encrypted_dek.as_slice()) {
                    Some(dk) => {
                        dek_bytes = dk;
                        midx = i;
                    },
                    None => {
                        proof {
                            assert(false);
                        }
                        return Err(VaultError::DecryptionFailed);
                    },
                }
            },
            None => {
                let dk = crypto::generate_key_bytes();
                let enc = crypto::encrypt(master, dk.as_slice());
                midx = self.merchants.len();
                let newm = MerchantRecord {
                    tenant_id: tenant_id.to_owned(),
                    merchant_id: merchant_id.to_owned(),
                    encrypted_dek: enc,
                };
                self.merchants.push(newm);
                dek_bytes = dk;
            },
        }
        proof {
            assert forall|i: int| 0 <= i < pre.merchants.len() implies self@.merchants[i]
                == pre.merchants[i] by {}
            assert((midx as int) < self@.merchants.len());
            assert(merchant_matches(self@.merchants[midx as int], t, m));
            assert(decryption_of(master@, self@.merchants[midx as int].encrypted_dek)
                == Some(dek_bytes@));
            assert(dek_bytes@.len() == 32);
            assert(merchant_dek_ok(self@.merchants[midx as int], master@));
            assert(merchants_unique(self@)) by {
                if !has_merchant(pre, t, m) {
                    assert forall|i: int, j: int| 0 <= i < j < self@.merchants.len() implies
                        !merchant_matches(
                            #[trigger] self@.merchants[i],
                            (#[trigger] self@.merchants[j]).tenant_id,
                            self@.merchants[j].merchant_id,
                        ) by {
                        if j < pre.merchants.len() {
                            assert(!merchant_matches(
                                pre.merchants[i],
                                pre.merchants[j].tenant_id,
                                pre.merchants[j].merchant_id,
                            ));
                        } else {
                            if merchant_matches(self@.merchants[i], t, m) {
                                assert(merchant_matches(pre.merchants[i], t, m));
                                assert(has_merchant(pre, t, m));
                            }
                        }
                    }
                }
            }
            assert forall|i: int| 0 <= i < self@.merchants.len() implies merchant_dek_ok(
                #[trigger] self@.merchants[i],
                master@,
            ) by {
                if i < pre.merchants.len() {
                    assert(merchant_dek_ok(pre.merchants[i], master@));
                }
            }
            assert(merchants_extended(pre, self@, master@, t, m));
            // The structural invariant survives: nothing but the merchant
            // table changed, and merchants only grew.
            assert(records_grounded(self@)) by {
                assert forall|i: int| 0 <= i < self@.records.len() implies has_merchant(
                    self@,
                    (#[trigger] self@.records[i]).tenant_id,
                    self@.records[i].merchant_id,
                ) && exists|j: int|
                    0 <= j < self@.dedup.len()
                    && (#[trigger] self@.dedup[j]).group_id == self@.records[i].group_id by {
                    assert(self@.records[i] == pre.records[i]);
                    assert(has_merchant(pre, pre.records[i].tenant_id, pre.records[i].merchant_id));
                    let i0 = choose|i0: int|
                        0 <= i0 < pre.merchants.len() && merchant_matches(
                            #[trigger] pre.merchants[i0],
                            pre.records[i].tenant_id,
                            pre.records[i].merchant_id,
                        );
                    assert(merchant_matches(self@.merchants[i0], self@.records[i].tenant_id, self@.records[i].merchant_id));
                    let j0 = choose|j0: int|
                        0 <= j0 < pre.dedup.len()
                        && (#[trigger] pre.dedup[j0]).group_id == pre.records[i].group_id;
                    assert(0 <= j0 < self@.dedup.len()
                        && self@.dedup[j0].group_id == self@.records[i].group_id);
                }
            }
            assert(self@.dedup =~= pre.dedup);
            assert(self@.records =~= pre.records);
            assert(self@.contents =~= pre.contents);
            assert(dedup_unique(self@));
            assert(dedup_bounded(self@));
            assert(records_unique(self@));
            assert(records_bounded(self@));
            assert(contents_match(self@));
            assert(records_fingerprinted(self@));
            // Every record still decrypts to the plaintext it stands for:
            // its merchant kept both its place and its encrypted DEK.
            assert(wf_crypto(self@, master@)) by {
                assert forall|i: int| 0 <= i < self@.records.len() implies {
                    let rec = #[trigger] self@.records[i];
                    &&& rec.ciphertext.len() >= 12
                    &&& decryption_of(merchant_dek(self@, master@, rec.tenant_id, rec.merchant_id), rec.ciphertext)
                        == Some(self@.contents[rec.card_reference])
                } by {
                    assert(self@.records[i] == pre.records[i]);
                    let rec = pre.records[i];
                    assert(rec.ciphertext.len() >= 12
                        && decryption_of(merchant_dek(pre, master@, rec.tenant_id, rec.merchant_id), rec.ciphertext)
                            == Some(pre.contents[rec.card_reference]));
                    assert(has_merchant(pre, rec.tenant_id, rec.merchant_id));
                    let i0 = choose|i0: int|
                        0 <= i0 < pre.merchants.len() && merchant_matches(
                            #[trigger] pre.merchants[i0],
                            rec.tenant_id,
                            rec.merchant_id,
                        );
                    lemma_merchant_dek_at(pre, master@, rec.tenant_id, rec.merchant_id, i0);
                    lemma_merchant_dek_at(self@, master@, rec.tenant_id, rec.merchant_id, i0);
                }
            }
        }
        Ok((midx, KeyMaterial::new(dek_bytes)))
    }

    /// Store: resolve or lazily create the merchant and its DEK, fingerprint
    /// the canonical payload bytes, look the fingerprint up in the dedup
    /// index (creating the group if new), and — when this customer already
    /// holds a record for that group — return the existing reference without
    /// writing anything. Otherwise encrypt the payload under the merchant's
    /// DEK and create one record under a fresh, globally unique reference.
    pub fn store(
        &mut self,
        master: &KeyMaterial,
        tenant_id: &str,
        merchant_id: &str,
        customer_id: &str,
        payload: &[u8],
    ) -> (r: Result<u64, VaultError>)
        requires
            wf(old(self)@, master@),
            master@.len() == 32,
            payload@.len() <= 0xFFFF_FFFF,
            old(self)@.next_group < u64::MAX,
            old(self)@.next_reference < u64::MAX,
        ensures
            wf(final(self)@, master@),
            r matches Ok(reference) && store_transition(
                old(self)@,
                final(self)@,
                master@,
                tenant_id@,
                merchant_id@,
                customer_id@,
                payload@,
                reference,
            ),
    {
        let ghost pre = self@;
        let ghost t = tenant_id@;
        let ghost m = merchant_id@;
        let ghost c = customer_id@;
        let ghost d = digest_of(payload@);

        // Fingerprint and dedup lookup first: on a hit for this customer the
        // store writes nothing at all.
        let fp = crypto::fingerprint(payload);
        let mut known_group: Option<u64> = None;
        match self.find_dedup(fp.as_slice()) {
            Some(j) => {
                let gid0 = self.dedup[j].group_id;
                known_group = Some(gid0);
                match self.find_record_by_group(tenant_id, merchant_id, customer_id, gid0) {
                    Some(kk) => {
                        let reference = self.records[kk].card_reference;
                        proof {
                            assert(record_linked(pre, t, m, c, payload@, reference)) by {
                                assert(0 <= kk < pre.records.len() && 0 <= j < pre.dedup.len()
                                    && record_scope_matches(pre.records[kk as int], t, m, c)
                                    && pre.records[kk as int].card_reference == reference
                                    && pre.records[kk as int].group_id == pre.dedup[j as int].group_id
                                    && pre.dedup[j as int].fingerprint == d);
                            }
                        }
                        return Ok(reference);
                    },
                    None => {},
                }
            },
            None => {},
        }
        proof {
            // No dedup hit: a linked record would name a dedup entry with the
            // payload's fingerprint — by uniqueness the very group we just
            // looked up — and a scoped record in it, which the lookups ruled
            // out.
            assert(!dedup_hit(pre, t, m, c, payload@)) by {
                if dedup_hit(pre, t, m, c, payload@) {
                    let reference = choose|reference: u64| record_linked(pre, t, m, c, payload@, reference);
                    let (i0, j0): (int, int) = choose|i0: int, j0: int|
                        {
                            &&& 0 <= i0 < pre.records.len()
                            &&& 0 <= j0 < pre.dedup.len()
                            &&& record_scope_matches(#[trigger] pre.records[i0], t, m, c)
                            &&& pre.records[i0].card_reference == reference
                            &&& pre.records[i0].group_id == (#[trigger] pre.dedup[j0]).group_id
                            &&& pre.dedup[j0].fingerprint == d
                        };
                    assert(has_group(pre, d));
                    match known_group {
                        Some(gid0) => {
                            let j1 = choose|j1: int|
                                0 <= j1 < pre.dedup.len()
                                && (#[trigger] pre.dedup[j1]).fingerprint == d
                                && pre.dedup[j1].group_id == gid0;
                            if j0 < j1 {
                                assert(pre.dedup[j0].fingerprint != pre.dedup[j1].fingerprint);
                            } else if j1 < j0 {
                                assert(pre.dedup[j1].fingerprint != pre.dedup[j0].fingerprint);
                            }
                            assert(has_group_record(pre, t, m, c, gid0));
                        },
                        None => {},
                    }
                }
            }
        }

        // Resolve or create the merchant and expose its DEK in memory.
        let (midx, dek) = match self.find_or_create_by_merchant_id(master, tenant_id, merchant_id) {
            Ok(pair) => pair,
            Err(_) => {
                proof {
                    assert(false);
                }
                return Err(VaultError::DecryptionFailed);
            },
        };
        proof {
            assert(merchant_matches(self@.merchants[midx as int], t, m));
            assert(has_merchant(self@, t, m));
        }
        let ghost m1 = self@;

        // Look up or create the dedup group for this fingerprint.
        let gid: u64;
        match known_group {
            Some(g) => {
                gid = g;
            },
            None => {
                gid = self.next_group;
                self.dedup.push(DedupEntry { fingerprint: fp, group_id: gid });
                self.next_group = self.next_group + 1;
            },
        }
        proof {
            assert(self@.merchants == m1.merchants);
            assert forall|j: int| 0 <= j < pre.dedup.len() implies self@.dedup[j] == pre.dedup[j] by {}
            assert(exists|j: int|
                0 <= j < self@.dedup.len()
                && (#[trigger] self@.dedup[j]).group_id == gid
                && self@.dedup[j].fingerprint == d) by {
                match known_group {
                    Some(g) => {
                        let j1 = choose|j1: int|
                            0 <= j1 < pre.dedup.len()
                            && (#[trigger] pre.dedup[j1]).fingerprint == d
                            && pre.dedup[j1].group_id == gid;
                        assert(self@.dedup[j1].group_id == gid && self@.dedup[j1].fingerprint == d);
                    },
                    None => {
                        let j1 = pre.dedup.len() as int;
                        assert(self@.dedup[j1].group_id == gid && self@.dedup[j1].fingerprint == d);
                    },
                }
            }
            assert(dedup_unique(self@)) by {
                if known_group is None {
                    assert forall|i: int, j: int| 0 <= i < j < self@.dedup.len() implies
                        (#[trigger] self@.dedup[i]).fingerprint != (#[trigger] self@.dedup[j]).fingerprint
                        && self@.dedup[i].group_id != self@.dedup[j].group_id by {
                        if j < pre.dedup.len() {
                            assert(pre.dedup[i].fingerprint != pre.dedup[j].fingerprint);
                        } else {
                            if self@.dedup[i].fingerprint == d {
                                assert(pre.dedup[i].fingerprint == d);
                                assert(has_group(pre, d));
                            }
                            assert(pre.dedup[i].group_id < pre.next_group);
                        }
                    }
                }
            }
            assert(dedup_bounded(self@)) by {
                assert forall|i: int| 0 <= i < self@.dedup.len() implies (#[trigger] self@.dedup[i]).group_id
                    < self@.next_group by {
                    if i < pre.dedup.len() {
                        assert(pre.dedup[i].group_id < pre.next_group);
                    }
                }
            }
            assert(dedup_extended(pre, self@, d));
            // No record of this customer sits in the group already.
            assert(!has_group_record(pre, t, m, c, gid)) by {
                match known_group {
                    Some(g) => {},
                    None => {
                        if has_group_record(pre, t, m, c, gid) {
                            let i0 = choose|i0: int|
                                0 <= i0 < pre.records.len()
                                && record_scope_matches(#[trigger] pre.records[i0], t, m, c)
                                && pre.records[i0].group_id == gid;
                            let j0 = choose|j0: int|
                                0 <= j0 < pre.dedup.len()
                                && (#[trigger] pre.dedup[j0]).group_id == pre.records[i0].group_id;
                            assert(pre.dedup[j0].group_id < pre.next_group);
                        }
                    },
                }
            }
            // Every stored record's group is strictly below the fresh counter.
            assert forall|i: int| 0 <= i < pre.records.len() implies (#[trigger] pre.records[i]).group_id
                < pre.next_group by {
                let j0 = choose|j0: int|
                    0 <= j0 < pre.dedup.len()
                    && (#[trigger] pre.dedup[j0]).group_id == pre.records[i].group_id;
                assert(pre.dedup[j0].group_id < pre.next_group);
            }
        }
        let ghost m2 = self@;

        // Encrypt under the merchant DEK and create the record under a
        // fresh reference.
        let ct = crypto::encrypt(&dek, payload);
        let reference = self.next_reference;
        self.next_reference = self.next_reference + 1;
        let newrec = VaultRecord {
            card_reference: reference,
            tenant_id: tenant_id.to_owned(),
            merchant_id: merchant_id.to_owned(),
            customer_id: customer_id.to_owned(),
            group_id: gid,
            ciphertext: ct,
        };
        self.records.push(newrec);
        proof {
            self.contents@ = self.contents@.insert(reference, payload@);
        }
        proof {
            let post = self@;
            let nr = post.records.len() - 1;
            assert(post.merchants == m2.merchants && post.dedup == m2.dedup
                && post.next_group == m2.next_group);
            assert forall|i: int| 0 <= i < pre.records.len() implies post.records[i]
                == pre.records[i] by {}
            assert(record_scope_matches(post.records[nr], t, m, c));
            assert(post.records[nr].card_reference == reference);
            assert(post.records[nr].group_id == gid);
            assert(post.records[nr].ciphertext.len() == payload@.len() + 28);
            assert(!pre.contents.contains_key(reference)) by {
                if pre.contents.contains_key(reference) {
                    let i0 = choose|i0: int|
                        0 <= i0 < pre.records.len()
                        && (#[trigger] pre.records[i0]).card_reference == reference;
                    assert(pre.records[i0].card_reference < pre.next_reference);
                }
            }
            assert(merchants_unique(post)) by {
                assert(post.merchants == m1.merchants);
            }
            assert forall|i: int| 0 <= i < post.merchants.len() implies merchant_dek_ok(
                #[trigger] post.merchants[i],
                master@,
            ) by {
                assert(post.merchants[i] == m1.merchants[i]);
                assert(merchant_dek_ok(m1.merchants[i], master@));
            }
            assert(merchants_extended(pre, post, master@, t, m)) by {
                assert(post.merchants == m1.merchants);
            }
            assert(decryption_of(master@, post.merchants[midx as int].encrypted_dek) == Some(dek@));
            lemma_merchant_dek_at(post, master@, t, m, midx as int);
            assert(decryption_of(merchant_dek(post, master@, t, m), post.records[nr].ciphertext)
                == Some(payload@));
            assert(new_record_ok(post, master@, t, m, c, payload@, reference));
            assert(store_transition(pre, post, master@, t, m, c, payload@, reference));
            lemma_store_fresh_wf(pre, post, master@, t, m, c, payload@, gid, reference);
        }
        Ok(reference)
    }

    /// Delete: confirm the merchant exists (no DEK is needed — deletion never
    /// decrypts), then remove the record addressed by `card_reference` in
    /// exactly this scope. Returns how many records went away; zero is
    /// success, not an error — delete is idempotent. The structural invariant
    /// is kept, and the cryptographic invariant is kept under every master
    /// key it held under.
    pub fn delete(
        &mut self,
        tenant_id: &str,
        merchant_id: &str,
        customer_id: &str,
        card_reference: u64,
    ) -> (r: Result<usize, VaultError>)
        requires
            wf_core(old(self)@),
        ensures
            wf_core(final(self)@),
            forall|master: Seq<u8>|
                wf_crypto(old(self)@, master) ==> wf_crypto(#[trigger] final(self)@, master),
            match r {
                Ok(n) => has_merchant(old(self)@, tenant_id@, merchant_id@) && delete_transition(
                    old(self)@,
                    final(self)@,
                    tenant_id@,
                    merchant_id@,
                    customer_id@,
                    card_reference,
                    n,
                ),
                Err(e) => e == VaultError::NotFound
                    && !has_merchant(old(self)@, tenant_id@, merchant_id@)
                    && final(self)@ == old(self)@,
            },
    {
        let ghost pre = self@;
        if self.find_merchant(tenant_id, merchant_id).is_none() {
            return Err(VaultError::NotFound);
        }
        let k = match self.find_record_by_reference(tenant_id, merchant_id, customer_id, card_reference) {
            Some(k) => k,
            None => {
                return Ok(0);
            },
        };
        self.records.remove(k);
        proof {
            self.contents@ = pre.contents.remove(card_reference);
        }
        proof {
            let post = self@;
            assert(post.records =~= pre.records.remove(k as int));
            lemma_delete_preserves(pre, post, tenant_id@, merchant_id@, customer_id@, card_reference, k as int);
        }
        Ok(1)
    }
}

impl crate::storage::State for Vault {}

impl crate::storage::MerchantInterface for Vault {
    open spec fn merchants_model(&self) -> Seq<MerchantModel> {
        self@.merchants
    }

    fn find_by_merchant_id(&self, merchant_id: &str, tenant_id: &str) -> (r: Option<usize>) {
        self.find_merchant(tenant_id, merchant_id)
    }
}

impl crate::storage::LockerInterface for Vault {
    open spec fn records_model(&self) -> Seq<RecordModel> {
        self@.records
    }

    fn find_by_locker_id_merchant_id_customer_id(
        &self,
        locker_id: u64,
        tenant_id: &str,
        merchant_id: &str,
        customer_id: &str,
    ) -> (r: Option<usize>) {
        self.find_record_by_reference(tenant_id, merchant_id, customer_id, locker_id)
    }
}

impl crate::storage::HashInterface for Vault {
    open spec fn dedup_model(&self) -> Seq<DedupModel> {
        self@.dedup
    }

    fn find_by_data_hash(&self, data_hash: &[u8]) -> (r: Option<u64>) {
        match self.find_dedup(data_hash) {
            Some(j) => {
                let g = self.dedup[j].group_id;
                proof {
                    assert(crate::storage::HashInterface::dedup_model(self)[j as int].fingerprint
                        == data_hash@
                        && crate::storage::HashInterface::dedup_model(self)[j as int].group_id == g);
                }
                Some(g)
            },
            None => None,
        }
    }
}

/// A fresh store — merchant resolved or created, dedup group resolved or
/// created, one record appended under a fresh reference — keeps the whole
/// invariant.
proof fn lemma_store_fresh_wf(
    pre: VaultModel,
    post: VaultModel,
    master: Seq<u8>,
    tenant: Seq<char>,
    merchant: Seq<char>,
    customer: Seq<char>,
    payload: Seq<u8>,
    gid: u64,
    reference: u64,
)
    requires
        wf(pre, master),
        merchants_unique(post),
        forall|i: int| 0 <= i < post.merchants.len() ==> merchant_dek_ok(#[trigger] post.merchants[i], master),
        merchants_extended(pre, post, master, tenant, merchant),
        has_merchant(post, tenant, merchant),
        dedup_unique(post),
        dedup_bounded(post),
        dedup_extended(pre, post, digest_of(payload)),
        post.records.len() == pre.records.len() + 1,
        forall|i: int| 0 <= i < pre.records.len() ==> post.records[i] == pre.records[i],
        new_record_ok(post, master, tenant, merchant, customer, payload, reference),
        post.records[post.records.len() - 1].group_id == gid,
        !has_group_record(pre, tenant, merchant, customer, gid),
        forall|i: int| 0 <= i < pre.records.len() ==> (#[trigger] pre.records[i]).group_id < pre.next_group,
        reference == pre.next_reference,
        pre.next_reference < u64::MAX,
        post.next_reference == pre.next_reference + 1,
        post.contents == pre.contents.insert(reference, payload),
    ensures
        wf(post, master),
{
    let nr = post.records.len() - 1;
    let d = digest_of(payload);
    // Old merchants keep their places whether or not one was appended.
    assert forall|i: int| 0 <= i < pre.merchants.len() implies post.merchants[i]
        == pre.merchants[i] by {
        if has_merchant(pre, tenant, merchant) {
        }
    }
    assert forall|j: int| 0 <= j < pre.dedup.len() implies post.dedup[j] == pre.dedup[j] by {
        if has_group(pre, d) {
        }
    }
    assert(pre.dedup.len() <= post.dedup.len());
    assert(records_unique(post)) by {
        assert forall|i: int, j: int| 0 <= i < j < post.records.len() implies {
            &&& (#[trigger] post.records[i]).card_reference != (#[trigger] post.records[j]).card_reference
            &&& !(record_scope_matches(
                post.records[i],
                post.records[j].tenant_id,
                post.records[j].merchant_id,
                post.records[j].customer_id,
            ) && post.records[i].group_id == post.records[j].group_id)
        } by {
            if j < nr {
                assert(pre.records[i].card_reference != pre.records[j].card_reference);
                assert(records_unique(pre));
            } else {
                assert(post.records[i] == pre.records[i]);
                assert(pre.records[i].card_reference < pre.next_reference);
                if record_scope_matches(post.records[i], tenant, merchant, customer)
                    && post.records[i].group_id == gid {
                    assert(has_group_record(pre, tenant, merchant, customer, gid));
                }
            }
        }
    }
    assert(records_bounded(post)) by {
        assert forall|i: int| 0 <= i < post.records.len() implies (#[trigger] post.records[i]).card_reference
            < post.next_reference by {
            if i < nr {
                assert(pre.records[i].card_reference < pre.next_reference);
            }
        }
    }
    assert(records_grounded(post)) by {
        assert forall|i: int| 0 <= i < post.records.len() implies has_merchant(
            post,
            (#[trigger] post.records[i]).tenant_id,
            post.records[i].merchant_id,
        ) && exists|j: int|
            0 <= j < post.dedup.len() && (#[trigger] post.dedup[j]).group_id == post.records[i].group_id by {
            if i < nr {
                assert(post.records[i] == pre.records[i]);
                assert(has_merchant(pre, pre.records[i].tenant_id, pre.records[i].merchant_id));
                let i0 = choose|i0: int|
                    0 <= i0 < pre.merchants.len() && merchant_matches(
                        #[trigger] pre.merchants[i0],
                        pre.records[i].tenant_id,
                        pre.records[i].merchant_id,
                    );
                assert(merchant_matches(post.merchants[i0], post.records[i].tenant_id, post.records[i].merchant_id));
                let j0 = choose|j0: int|
                    0 <= j0 < pre.dedup.len() && (#[trigger] pre.dedup[j0]).group_id == pre.records[i].group_id;
                assert(post.dedup[j0].group_id == post.records[i].group_id);
            } else {
                assert(record_scope_matches(post.records[nr], tenant, merchant, customer));
            }
        }
    }
    assert(contents_match(post)) by {
        assert forall|i: int| 0 <= i < post.records.len() implies post.contents.contains_key(
            (#[trigger] post.records[i]).card_reference,
        ) by {
            if i < nr {
                assert(pre.contents.contains_key(pre.records[i].card_reference));
            }
        }
        assert forall|r: u64| post.contents.contains_key(r) implies exists|i: int|
            0 <= i < post.records.len() && (#[trigger] post.records[i]).card_reference == r by {
            if r == reference {
                assert(post.records[nr].card_reference == r);
            } else {
                assert(pre.contents.contains_key(r));
                let i0 = choose|i0: int|
                    0 <= i0 < pre.records.len() && (#[trigger] pre.records[i0]).card_reference == r;
                assert(post.records[i0].card_reference == r);
            }
        }
    }
    assert(records_fingerprinted(post)) by {
        assert forall|i: int, j: int|
            0 <= i < post.records.len() && 0 <= j < post.dedup.len()
            && (#[trigger] post.records[i]).group_id == (#[trigger] post.dedup[j]).group_id implies digest_of(
            post.contents[post.records[i].card_reference],
        ) == post.dedup[j].fingerprint by {
            if i < nr {
                assert(post.records[i] == pre.records[i]);
                assert(pre.records[i].card_reference < pre.next_reference);
                assert(post.contents[pre.records[i].card_reference]
                    == pre.contents[pre.records[i].card_reference]);
                if j < pre.dedup.len() {
                    assert(records_fingerprinted(pre));
                    assert(digest_of(pre.contents[pre.records[i].card_reference])
                        == pre.dedup[j].fingerprint);
                } else {
                    // A fresh group: no old record can sit in it.
                    assert(!has_group(pre, d));
                    assert(post.dedup[j].group_id == pre.next_group);
                    assert(pre.records[i].group_id < pre.next_group);
                }
            } else {
                // The new record: its group's one entry carries the payload's
                // fingerprint.
                let j1 = choose|j1: int|
                    0 <= j1 < post.dedup.len()
                    && (#[trigger] post.dedup[j1]).group_id == post.records[nr].group_id
                    && post.dedup[j1].fingerprint == d;
                if j < j1 {
                    assert(post.dedup[j].group_id != post.dedup[j1].group_id);
                } else if j1 < j {
                    assert(post.dedup[j1].group_id != post.dedup[j].group_id);
                }
                assert(post.contents[reference] == payload);
            }
        }
    }
    assert(wf_crypto(post, master)) by {
        assert forall|i: int| 0 <= i < post.records.len() implies {
            let rec = #[trigger] post.records[i];
            &&& rec.ciphertext.len() >= 12
            &&& decryption_of(merchant_dek(post, master, rec.tenant_id, rec.merchant_id), rec.ciphertext)
                == Some(post.contents[rec.card_reference])
        } by {
            if i < nr {
                assert(post.records[i] == pre.records[i]);
                let rec = pre.records[i];
                assert(rec.ciphertext.len() >= 12
                    && decryption_of(merchant_dek(pre, master, rec.tenant_id, rec.merchant_id), rec.ciphertext)
                        == Some(pre.contents[rec.card_reference]));
                assert(has_merchant(pre, rec.tenant_id, rec.merchant_id));
                let i0 = choose|i0: int|
                    0 <= i0 < pre.merchants.len() && merchant_matches(
                        #[trigger] pre.merchants[i0],
                        rec.tenant_id,
                        rec.merchant_id,
                    );
                lemma_merchant_dek_at(pre, master, rec.tenant_id, rec.merchant_id, i0);
                lemma_merchant_dek_at(post, master, rec.tenant_id, rec.merchant_id, i0);
                assert(rec.card_reference < pre.next_reference);
                assert(post.contents[rec.card_reference] == pre.contents[rec.card_reference]);
            }
        }
    }
}

/// Removing the one scoped record at index `k` keeps every invariant and is
/// exactly the delete transition.
proof fn lemma_delete_preserves(
    pre: VaultModel,
    post: VaultModel,
    tenant: Seq<char>,
    merchant: Seq<char>,
    customer: Seq<char>,
    reference: u64,
    k: int,
)
    requires
        wf_core(pre),
        0 <= k < pre.records.len(),
        record_scope_matches(pre.records[k], tenant, merchant, customer),
        pre.records[k].card_reference == reference,
        post.records == pre.records.remove(k),
        post.contents == pre.contents.remove(reference),
        post.merchants == pre.merchants,
        post.dedup == pre.dedup,
        post.next_group == pre.next_group,
        post.next_reference == pre.next_reference,
    ensures
        wf_core(post),
        delete_transition(pre, post, tenant, merchant, customer, reference, 1),
        forall|master: Seq<u8>| wf_crypto(pre, master) ==> #[trigger] wf_crypto(post, master),
{
    assert(has_scoped_record(pre, tenant, merchant, customer, reference));
    assert forall|i: int| 0 <= i < post.records.len() && i < k implies post.records[i]
        == pre.records[i] by {
        assert(pre.records.remove(k)[i] == pre.records[i]);
    }
    assert forall|i: int| k <= i < post.records.len() implies post.records[i]
        == pre.records[i + 1] by {
        assert(pre.records.remove(k)[i] == pre.records[i + 1]);
    }
    // Structural invariant: every pair and every element of the shorter
    // record table maps back to one of the old table.
    assert forall|i: int, j: int| 0 <= i < j < post.records.len() implies {
        &&& (#[trigger] post.records[i]).card_reference != (#[trigger] post.records[j]).card_reference
        &&& !(record_scope_matches(
            post.records[i],
            post.records[j].tenant_id,
            post.records[j].merchant_id,
            post.records[j].customer_id,
        ) && post.records[i].group_id == post.records[j].group_id)
    } by {
        let i0 = if i < k { i } else { i + 1 };
        let j0 = if j < k { j } else { j + 1 };
        assert(post.records[i] == pre.records[i0]);
        assert(post.records[j] == pre.records[j0]);
        assert(records_unique(pre));
    }
    assert(records_unique(post));
    assert forall|i: int| 0 <= i < post.records.len() implies (#[trigger] post.records[i]).card_reference
        < post.next_reference by {
        let i0 = if i < k { i } else { i + 1 };
        assert(post.records[i] == pre.records[i0]);
    }
    assert forall|i: int| 0 <= i < post.records.len() implies has_merchant(
        post,
        (#[trigger] post.records[i]).tenant_id,
        post.records[i].merchant_id,
    ) && exists|j: int|
        0 <= j < post.dedup.len() && (#[trigger] post.dedup[j]).group_id == post.records[i].group_id by {
        let i0 = if i < k { i } else { i + 1 };
        assert(post.records[i] == pre.records[i0]);
        assert(has_merchant(pre, pre.records[i0].tenant_id, pre.records[i0].merchant_id));
        let j = choose|j: int|
            0 <= j < pre.dedup.len() && (#[trigger] pre.dedup[j]).group_id == pre.records[i0].group_id;
        assert(0 <= j < post.dedup.len() && post.dedup[j].group_id == post.records[i].group_id);
    }
    // The removed reference keys no remaining record (references are unique),
    // so the contents map stays in step.
    assert forall|i: int| 0 <= i < post.records.len() implies post.contents.contains_key(
        (#[trigger] post.records[i]).card_reference,
    ) by {
        let i0 = if i < k { i } else { i + 1 };
        assert(post.records[i] == pre.records[i0]);
        assert(pre.contents.contains_key(pre.records[i0].card_reference));
        if i0 < k {
            assert(pre.records[i0].card_reference != pre.records[k].card_reference);
        } else {
            assert(pre.records[k].card_reference != pre.records[i0].card_reference);
        }
    }
    assert forall|r: u64| post.contents.contains_key(r) implies exists|i: int|
        0 <= i < post.records.len() && (#[trigger] post.records[i]).card_reference == r by {
        assert(pre.contents.contains_key(r));
        let i0 = choose|i: int|
            0 <= i < pre.records.len() && (#[trigger] pre.records[i]).card_reference == r;
        assert(r != reference);
        assert(i0 != k);
        let i = if i0 < k { i0 } else { i0 - 1 };
        assert(post.records[i] == pre.records[i0]);
    }
    assert forall|i: int, j: int|
        0 <= i < post.records.len() && 0 <= j < post.dedup.len()
        && (#[trigger] post.records[i]).group_id == (#[trigger] post.dedup[j]).group_id implies digest_of(
        post.contents[post.records[i].card_reference],
    ) == post.dedup[j].fingerprint by {
        let i0 = if i < k { i } else { i + 1 };
        assert(post.records[i] == pre.records[i0]);
        assert(digest_of(pre.contents[pre.records[i0].card_reference]) == pre.dedup[j].fingerprint);
        if i0 < k {
            assert(pre.records[i0].card_reference != pre.records[k].card_reference);
        } else {
            assert(pre.records[k].card_reference != pre.records[i0].card_reference);
        }
    }
    assert(wf_core(post));
    assert(delete_transition(pre, post, tenant, merchant, customer, reference, 1));
    assert forall|master: Seq<u8>| wf_crypto(pre, master) implies #[trigger] wf_crypto(post, master) by {
        assert forall|i: int| 0 <= i < post.records.len() implies {
            let rec = #[trigger] post.records[i];
            &&& rec.ciphertext.len() >= 12
            &&& decryption_of(merchant_dek(post, master, rec.tenant_id, rec.merchant_id), rec.ciphertext)
                == Some(post.contents[rec.card_reference])
        } by {
            let i0 = if i < k { i } else { i + 1 };
            assert(post.records[i] == pre.records[i0]);
            let rec = pre.records[i0];
            assert(rec.ciphertext.len() >= 12
                && decryption_of(merchant_dek(pre, master, rec.tenant_id, rec.merchant_id), rec.ciphertext)
                    == Some(pre.contents[rec.card_reference]));
            assert(merchant_dek(pre, master, rec.tenant_id, rec.merchant_id)
                == merchant_dek(post, master, rec.tenant_id, rec.merchant_id));
            if i0 < k {
                assert(pre.records[i0].card_reference != pre.records[k].card_reference);
            } else {
                assert(pre.records[k].card_reference != pre.records[i0].card_reference);
            }
        }
    }
}

} // verus!
