//! Multi-signature configurations, governed wallets with transfer velocity
//! policies, committee authorities derived from the governance key, and the
//! genesis distribution.
use vstd::prelude::*;
use crate::account::Pubkey;
use crate::bytes::append_bytes;
use crate::crypto::sha256_spec;

verus! {

/// Base units per whole token.
pub const SPORES_PER_LICN: u64 = 1_000_000_000;

/// Signature threshold over a list of authorized signers.
#[derive(Debug, Clone)]
pub struct MultiSigConfig {
    pub threshold: u8,
    pub signers: Vec<Pubkey>,
    pub is_genesis: bool,
    pub is_treasury: bool,
}

/// `s` without repeats, first occurrences kept in order.
pub open spec fn dedup_keys(s: Seq<Pubkey>) -> Seq<Pubkey>
    decreases s.len(),
{
    if s.len() == 0 {
        Seq::empty()
    } else {
        let d = dedup_keys(s.drop_last());
        if d.contains(s.last()) { d } else { d.push(s.last()) }
    }
}

proof fn lemma_dedup_keys(s: Seq<Pubkey>)
    ensures
        dedup_keys(s).no_duplicates(),
        dedup_keys(s).to_set() == s.to_set(),
    decreases s.len(),
{
    if s.len() > 0 {
        lemma_dedup_keys(s.drop_last());
        let d = dedup_keys(s.drop_last());
        assert(s.to_set() =~= s.drop_last().to_set().insert(s.last())) by {
            assert forall|x: Pubkey| s.to_set().contains(x) <==> s.drop_last().to_set().insert(s.last()).contains(x) by {
                if s.to_set().contains(x) {
                    let i = choose|i: int| 0 <= i < s.len() && s[i] == x;
                    if i < s.len() - 1 {
                        assert(s.drop_last()[i] == x);
                    }
                }
                if s.drop_last().to_set().contains(x) {
                    let i = choose|i: int| 0 <= i < s.drop_last().len() && s.drop_last()[i] == x;
                    assert(s[i] == x);
                }
            }
        }
        if !d.contains(s.last()) {
            assert(d.push(s.last()).to_set() =~= d.to_set().insert(s.last())) by {
                assert forall|x: Pubkey| d.push(s.last()).to_set().contains(x) <==> d.to_set().insert(s.last()).contains(x) by {
                    if d.push(s.last()).to_set().contains(x) {
                        let i = choose|i: int| 0 <= i < d.push(s.last()).len() && d.push(s.last())[i] == x;
                        if i < d.len() {
                            assert(d[i] == x);
                        }
                    }
                    if d.to_set().contains(x) {
                        let i = choose|i: int| 0 <= i < d.len() && d[i] == x;
                        assert(d.push(s.last())[i] == x);
                    }
                    if x == s.last() {
                        assert(d.push(s.last())[d.len() as int] == x);
                    }
                }
            }
            assert forall|i: int, j: int| 0 <= i < d.push(s.last()).len() && 0 <= j < d.push(s.last()).len() && i != j
                implies d.push(s.last())[i] != d.push(s.last())[j] by {
                if i < d.len() && j < d.len() {
                } else if i < d.len() {
                    assert(d.contains(d[i]));
                } else {
                    assert(d.contains(d[j]));
                }
            }
        } else {
            assert(d.to_set() =~= d.to_set().insert(s.last())) by {
                let i = choose|i: int| 0 <= i < d.len() && d[i] == s.last();
            }
        }
    }
}

fn contains_key(v: &Vec<Pubkey>, k: &Pubkey) -> (r: bool)
    ensures
        r == v@.contains(*k),
{
    let mut i: usize = 0;
    while i < v.len()
        invariant
            i <= v@.len(),
            forall|j: int| 0 <= j < i ==> v@[j] != *k,
        decreases v@.len() - i,
    {
        if v[i] == *k {
            assert(v@[i as int] == *k);
            return true;
        }
        i += 1;
    }
    false
}

fn dedup_vec(s: &[Pubkey]) -> (r: Vec<Pubkey>)
    ensures
        r@ == dedup_keys(s@),
{
    let mut out: Vec<Pubkey> = Vec::new();
    let mut i: usize = 0;
    while i < s.len()
        invariant
            i <= s@.len(),
            out@ == dedup_keys(s@.subrange(0, i as int)),
        decreases s@.len() - i,
    {
        proof {
            assert(s@.subrange(0, i + 1).drop_last() =~= s@.subrange(0, i as int));
        }
        if !contains_key(&out, &s[i]) {
            out.push(s[i]);
        }
        i += 1;
    }
    proof {
        assert(s@.subrange(0, s@.len() as int) =~= s@);
    }
    out
}

impl MultiSigConfig {
    /// A plain multi-signature configuration.
    pub fn new(threshold: u8, signers: Vec<Pubkey>) -> (r: MultiSigConfig)
        ensures
            r.threshold == threshold,
            r.signers@ == signers@,
            !r.is_genesis,
            !r.is_treasury,
    {
        MultiSigConfig { threshold, signers, is_genesis: false, is_treasury: false }
    }

    /// The genesis treasury's configuration.
    pub fn genesis_treasury(threshold: u8, signers: Vec<Pubkey>) -> (r: MultiSigConfig)
        ensures
            r.threshold == threshold,
            r.signers@ == signers@,
            r.is_genesis,
            r.is_treasury,
    {
        MultiSigConfig { threshold, signers, is_genesis: true, is_treasury: true }
    }

    /// Whether the distinct keys of `signed_by` reach the threshold and are
    /// all authorized signers.
    pub fn verify_threshold(&self, signed_by: &[Pubkey]) -> (r: bool)
        ensures
            r == (signed_by@.to_set().len() >= self.threshold
                && forall|k: Pubkey| signed_by@.to_set().contains(k) ==> self.signers@.contains(k)),
    {
        let unique = dedup_vec(signed_by);
        proof {
            lemma_dedup_keys(signed_by@);
            unique@.unique_seq_to_set();
        }
        if unique.len() < self.threshold as usize {
            return false;
        }
        let mut i: usize = 0;
        while i < unique.len()
            invariant
                i <= unique@.len(),
                unique@.to_set() == signed_by@.to_set(),
                forall|j: int| 0 <= j < i ==> self.signers@.contains(#[trigger] unique@[j]),
            decreases unique@.len() - i,
        {
            if !contains_key(&self.signers, &unique[i]) {
                proof {
                    assert(unique@.to_set().contains(unique@[i as int]));
                }
                return false;
            }
            i += 1;
        }
        proof {
            assert forall|k: Pubkey| signed_by@.to_set().contains(k) implies self.signers@.contains(k) by {
                assert(unique@.to_set().contains(k));
                let j = choose|j: int| 0 <= j < unique@.len() && unique@[j] == k;
            }
        }
        true
    }
}

/// Velocity tier of a governed transfer.
#[derive(Debug, Clone, Copy, PartialEq, Eq, Structural)]
pub enum GovernedTransferVelocityTier {
    Standard,
    Elevated,
    Extraordinary,
}

impl Default for GovernedTransferVelocityTier {
    fn default() -> (r: GovernedTransferVelocityTier)
        ensures
            r == GovernedTransferVelocityTier::Standard,
    {
        GovernedTransferVelocityTier::Standard
    }
}

impl GovernedTransferVelocityTier {
    /// The tier's name in snake case.
    pub fn as_str(self) -> (r: &'static str)
        ensures
            r@ == match self {
                GovernedTransferVelocityTier::Standard => "standard"@,
                GovernedTransferVelocityTier::Elevated => "elevated"@,
                GovernedTransferVelocityTier::Extraordinary => "extraordinary"@,
            },
    {
        match self {
            GovernedTransferVelocityTier::Standard => "standard",
            GovernedTransferVelocityTier::Elevated => "elevated",
            GovernedTransferVelocityTier::Extraordinary => "extraordinary",
        }
    }
}

/// Caps and tier thresholds for governed transfers (in base units).
#[derive(Debug, Clone, Copy)]
pub struct GovernedTransferVelocityPolicy {
    pub per_transfer_cap_spores: u64,
    pub daily_cap_spores: u64,
    pub elevated_threshold_spores: u64,
    pub extraordinary_threshold_spores: u64,
    pub elevated_additional_timelock_epochs: u32,
    pub extraordinary_additional_timelock_epochs: u32,
}

/// Tier of a transfer of `amount` under policy `p`.
pub open spec fn spec_tier_for_amount(p: GovernedTransferVelocityPolicy, amount: u64) -> GovernedTransferVelocityTier {
    if p.extraordinary_threshold_spores > 0 && amount >= p.extraordinary_threshold_spores {
        GovernedTransferVelocityTier::Extraordinary
    } else if p.elevated_threshold_spores > 0 && amount >= p.elevated_threshold_spores {
        GovernedTransferVelocityTier::Elevated
    } else {
        GovernedTransferVelocityTier::Standard
    }
}

/// Approvals a tier requires: the base (capped at the signer count, itself
/// capped at 255), one more for elevated, all signers for extraordinary.
pub open spec fn spec_required_threshold(base: u8, signer_count: usize, tier: GovernedTransferVelocityTier) -> u8 {
    let max: u8 = if signer_count <= 255 { signer_count as u8 } else { 255 };
    let b: u8 = if base < max { base } else { max };
    match tier {
        GovernedTransferVelocityTier::Standard => b,
        GovernedTransferVelocityTier::Elevated => {
            let plus: u8 = if b < 255 { (b + 1) as u8 } else { 255 };
            if plus < max { plus } else { max }
        },
        GovernedTransferVelocityTier::Extraordinary => max,
    }
}

impl GovernedTransferVelocityPolicy {
    /// A policy with the given caps, thresholds and extra timelocks.
    pub fn new(
        per_transfer_cap_spores: u64,
        daily_cap_spores: u64,
        elevated_threshold_spores: u64,
        extraordinary_threshold_spores: u64,
        elevated_additional_timelock_epochs: u32,
        extraordinary_additional_timelock_epochs: u32,
    ) -> (r: GovernedTransferVelocityPolicy)
        ensures
            r == (GovernedTransferVelocityPolicy {
                per_transfer_cap_spores,
                daily_cap_spores,
                elevated_threshold_spores,
                extraordinary_threshold_spores,
                elevated_additional_timelock_epochs,
                extraordinary_additional_timelock_epochs,
            }),
    {
        GovernedTransferVelocityPolicy {
            per_transfer_cap_spores,
            daily_cap_spores,
            elevated_threshold_spores,
            extraordinary_threshold_spores,
            elevated_additional_timelock_epochs,
            extraordinary_additional_timelock_epochs,
        }
    }

    /// Community treasury: 5M per transfer, 10M daily, tiers at 1M and 2.5M, timelocks +1/+3.
    pub fn community_treasury_defaults() -> (r: GovernedTransferVelocityPolicy)
        ensures
            r == (GovernedTransferVelocityPolicy {
                per_transfer_cap_spores: (5_000_000 * SPORES_PER_LICN) as u64,
                daily_cap_spores: (10_000_000 * SPORES_PER_LICN) as u64,
                elevated_threshold_spores: (1_000_000 * SPORES_PER_LICN) as u64,
                extraordinary_threshold_spores: (2_500_000 * SPORES_PER_LICN) as u64,
                elevated_additional_timelock_epochs: 1,
                extraordinary_additional_timelock_epochs: 3,
            }),
    {
        Self::new(5_000_000 * SPORES_PER_LICN, 10_000_000 * SPORES_PER_LICN, 1_000_000 * SPORES_PER_LICN,
            2_500_000 * SPORES_PER_LICN, 1, 3)
    }

    /// Ecosystem partnerships: 1M per transfer, 2M daily, tiers at 250K and 500K, timelocks +1/+2.
    pub fn ecosystem_partnerships_defaults() -> (r: GovernedTransferVelocityPolicy)
        ensures
            r == (GovernedTransferVelocityPolicy {
                per_transfer_cap_spores: (1_000_000 * SPORES_PER_LICN) as u64,
                daily_cap_spores: (2_000_000 * SPORES_PER_LICN) as u64,
                elevated_threshold_spores: (250_000 * SPORES_PER_LICN) as u64,
                extraordinary_threshold_spores: (500_000 * SPORES_PER_LICN) as u64,
                elevated_additional_timelock_epochs: 1,
                extraordinary_additional_timelock_epochs: 2,
            }),
    {
        Self::new(1_000_000 * SPORES_PER_LICN, 2_000_000 * SPORES_PER_LICN, 250_000 * SPORES_PER_LICN,
            500_000 * SPORES_PER_LICN, 1, 2)
    }

    /// Reserve pool: 2M per transfer, 4M daily, tiers at 500K and 1M, timelocks +1/+2.
    pub fn reserve_pool_defaults() -> (r: GovernedTransferVelocityPolicy)
        ensures
            r == (GovernedTransferVelocityPolicy {
                per_transfer_cap_spores: (2_000_000 * SPORES_PER_LICN) as u64,
                daily_cap_spores: (4_000_000 * SPORES_PER_LICN) as u64,
                elevated_threshold_spores: (500_000 * SPORES_PER_LICN) as u64,
                extraordinary_threshold_spores: (1_000_000 * SPORES_PER_LICN) as u64,
                elevated_additional_timelock_epochs: 1,
                extraordinary_additional_timelock_epochs: 2,
            }),
    {
        Self::new(2_000_000 * SPORES_PER_LICN, 4_000_000 * SPORES_PER_LICN, 500_000 * SPORES_PER_LICN,
            1_000_000 * SPORES_PER_LICN, 1, 2)
    }

    /// The tier of a transfer of `amount`.
    pub fn tier_for_amount(&self, amount: u64) -> (r: GovernedTransferVelocityTier)
        ensures
            r == spec_tier_for_amount(*self, amount),
    {
        if self.extraordinary_threshold_spores > 0 && amount >= self.extraordinary_threshold_spores {
            GovernedTransferVelocityTier::Extraordinary
        } else if self.elevated_threshold_spores > 0 && amount >= self.elevated_threshold_spores {
            GovernedTransferVelocityTier::Elevated
        } else {
            GovernedTransferVelocityTier::Standard
        }
    }

    /// Approvals required at `tier` (see `spec_required_threshold`).
    pub fn required_threshold(&self, base_threshold: u8, signer_count: usize, tier: GovernedTransferVelocityTier) -> (r: u8)
        ensures
            r == spec_required_threshold(base_threshold, signer_count, tier),
    {
        let max: u8 = if signer_count <= 255 { signer_count as u8 } else { 255 };
        let b = if base_threshold < max { base_threshold } else { max };
        match tier {
            GovernedTransferVelocityTier::Standard => b,
            GovernedTransferVelocityTier::Elevated => {
                let plus = if b < 255 { b + 1 } else { 255 };
                if plus < max { plus } else { max }
            },
            GovernedTransferVelocityTier::Extraordinary => max,
        }
    }

    /// Extra timelock epochs at `tier`.
    pub fn additional_timelock_epochs(&self, tier: GovernedTransferVelocityTier) -> (r: u32)
        ensures
            r == match tier {
                GovernedTransferVelocityTier::Standard => 0,
                GovernedTransferVelocityTier::Elevated => self.elevated_additional_timelock_epochs,
                GovernedTransferVelocityTier::Extraordinary => self.extraordinary_additional_timelock_epochs,
            },
    {
        match tier {
            GovernedTransferVelocityTier::Standard => 0,
            GovernedTransferVelocityTier::Elevated => self.elevated_additional_timelock_epochs,
            GovernedTransferVelocityTier::Extraordinary => self.extraordinary_additional_timelock_epochs,
        }
    }
}

/// The required approvals never exceed the signer count (capped at 255), and
/// grow with the tier.
pub proof fn lemma_required_threshold_bounded(base: u8, signer_count: usize)
    ensures
        spec_required_threshold(base, signer_count, GovernedTransferVelocityTier::Standard)
            <= spec_required_threshold(base, signer_count, GovernedTransferVelocityTier::Elevated),
        spec_required_threshold(base, signer_count, GovernedTransferVelocityTier::Elevated)
            <= spec_required_threshold(base, signer_count, GovernedTransferVelocityTier::Extraordinary),
        spec_required_threshold(base, signer_count, GovernedTransferVelocityTier::Extraordinary) <= signer_count,
{
}

/// A governed wallet's approval rules.
#[derive(Debug, Clone)]
pub struct GovernedWalletConfig {
    pub threshold: u8,
    pub signers: Vec<Pubkey>,
    pub label: String,
    pub timelock_epochs: u32,
    pub transfer_velocity_policy: Option<GovernedTransferVelocityPolicy>,
}

impl GovernedWalletConfig {
    /// A configuration with no timelock and no velocity policy.
    pub fn new(threshold: u8, signers: Vec<Pubkey>, label: &str) -> (r: GovernedWalletConfig)
        ensures
            r.threshold == threshold,
            r.signers@ == signers@,
            r.label@ == label@,
            r.timelock_epochs == 0,
            r.transfer_velocity_policy is None,
    {
        GovernedWalletConfig {
            threshold,
            signers,
            label: String::from_str(label),
            timelock_epochs: 0,
            transfer_velocity_policy: None,
        }
    }

    /// The same configuration with the given timelock.
    pub fn with_timelock(self, timelock_epochs: u32) -> (r: GovernedWalletConfig)
        ensures
            r.threshold == self.threshold,
            r.signers@ == self.signers@,
            r.label@ == self.label@,
            r.timelock_epochs == timelock_epochs,
            r.transfer_velocity_policy == self.transfer_velocity_policy,
    {
        let mut c = self;
        c.timelock_epochs = timelock_epochs;
        c
    }

    /// The same configuration with the given velocity policy.
    pub fn with_transfer_velocity_policy(self, transfer_velocity_policy: GovernedTransferVelocityPolicy) -> (r: GovernedWalletConfig)
        ensures
            r.threshold == self.threshold,
            r.signers@ == self.signers@,
            r.label@ == self.label@,
            r.timelock_epochs == self.timelock_epochs,
            r.transfer_velocity_policy == Some(transfer_velocity_policy),
    {
        let mut c = self;
        c.transfer_velocity_policy = Some(transfer_velocity_policy);
        c
    }

    /// Whether `signer` is authorized.
    pub fn is_authorized(&self, signer: &Pubkey) -> (r: bool)
        ensures
            r == self.signers@.contains(*signer),
    {
        contains_key(&self.signers, signer)
    }
}

/// An on-chain transfer proposal of a governed wallet.
#[derive(Debug, Clone)]
pub struct GovernedProposal {
    pub id: u64,
    pub source: Pubkey,
    pub recipient: Pubkey,
    pub amount: u64,
    pub approvals: Vec<Pubkey>,
    pub threshold: u8,
    pub execute_after_epoch: u64,
    pub velocity_tier: GovernedTransferVelocityTier,
    pub daily_cap_spores: u64,
    pub executed: bool,
    pub cancelled: bool,
}

pub const INCIDENT_GUARDIAN_LABEL: &'static str = "incident_guardian";
pub const BRIDGE_COMMITTEE_ADMIN_LABEL: &'static str = "bridge_committee_admin";
pub const ORACLE_COMMITTEE_ADMIN_LABEL: &'static str = "oracle_committee_admin";
pub const UPGRADE_PROPOSER_LABEL: &'static str = "upgrade_proposer";
pub const UPGRADE_VETO_GUARDIAN_LABEL: &'static str = "upgrade_veto_guardian";
pub const TREASURY_EXECUTOR_LABEL: &'static str = "treasury_executor";

/// Bytes hashed to derive a committee authority: `lichen:<label>:v1` then the governance key.
pub open spec fn committee_seed(label: &str, governance_authority: Pubkey) -> Seq<u8> {
    vstd::utf8::encode_utf8("lichen:"@) + vstd::utf8::encode_utf8(label@) + vstd::utf8::encode_utf8(":v1"@)
        + governance_authority.0@
}

fn derive_governed_committee_authority(label: &str, governance_authority: &Pubkey) -> (r: Pubkey)
    ensures
        r.0@ == sha256_spec(committee_seed(label, *governance_authority)),
{
    let mut data: Vec<u8> = Vec::new();
    append_bytes(&mut data, "lichen:".as_bytes());
    append_bytes(&mut data, label.as_bytes());
    append_bytes(&mut data, ":v1".as_bytes());
    append_bytes(&mut data, &governance_authority.0);
    let h = crate::hash::Hash::hash(data.as_slice());
    Pubkey::new(h.0)
}

/// Incident guardian authority of `governance_authority`.
pub fn derive_incident_guardian_authority(governance_authority: &Pubkey) -> (r: Pubkey)
    ensures
        r.0@ == sha256_spec(committee_seed(INCIDENT_GUARDIAN_LABEL, *governance_authority)),
{
    derive_governed_committee_authority(INCIDENT_GUARDIAN_LABEL, governance_authority)
}

/// Bridge committee admin authority of `governance_authority`.
pub fn derive_bridge_committee_admin_authority(governance_authority: &Pubkey) -> (r: Pubkey)
    ensures
        r.0@ == sha256_spec(committee_seed(BRIDGE_COMMITTEE_ADMIN_LABEL, *governance_authority)),
{
    derive_governed_committee_authority(BRIDGE_COMMITTEE_ADMIN_LABEL, governance_authority)
}

/// Oracle committee admin authority of `governance_authority`.
pub fn derive_oracle_committee_admin_authority(governance_authority: &Pubkey) -> (r: Pubkey)
    ensures
        r.0@ == sha256_spec(committee_seed(ORACLE_COMMITTEE_ADMIN_LABEL, *governance_authority)),
{
    derive_governed_committee_authority(ORACLE_COMMITTEE_ADMIN_LABEL, governance_authority)
}

/// Upgrade proposer authority of `governance_authority`.
pub fn derive_upgrade_proposer_authority(governance_authority: &Pubkey) -> (r: Pubkey)
    ensures
        r.0@ == sha256_spec(committee_seed(UPGRADE_PROPOSER_LABEL, *governance_authority)),
{
    derive_governed_committee_authority(UPGRADE_PROPOSER_LABEL, governance_authority)
}

/// Upgrade veto guardian authority of `governance_authority`.
pub fn derive_upgrade_veto_guardian_authority(governance_authority: &Pubkey) -> (r: Pubkey)
    ensures
        r.0@ == sha256_spec(committee_seed(UPGRADE_VETO_GUARDIAN_LABEL, *governance_authority)),
{
    derive_governed_committee_authority(UPGRADE_VETO_GUARDIAN_LABEL, governance_authority)
}

/// Treasury executor authority of `governance_authority`.
pub fn derive_treasury_executor_authority(governance_authority: &Pubkey) -> (r: Pubkey)
    ensures
        r.0@ == sha256_spec(committee_seed(TREASURY_EXECUTOR_LABEL, *governance_authority)),
{
    derive_governed_committee_authority(TREASURY_EXECUTOR_LABEL, governance_authority)
}

/// The key of the first entry with role `role`, if any.
pub open spec fn role_key(rp: Seq<(String, Pubkey)>, role: Seq<char>) -> Option<Pubkey>
    decreases rp.len(),
{
    if rp.len() == 0 {
        None
    } else if rp[0].0@ == role {
        Some(rp[0].1)
    } else {
        role_key(rp.drop_first(), role)
    }
}

/// The keys of the required roles, in order, or None when one is missing.
pub open spec fn role_keys(rp: Seq<(String, Pubkey)>, roles: Seq<Seq<char>>) -> Option<Seq<Pubkey>>
    decreases roles.len(),
{
    if roles.len() == 0 {
        Some(Seq::empty())
    } else {
        match (role_keys(rp, roles.drop_last()), role_key(rp, roles.last())) {
            (Some(ks), Some(k)) => Some(ks.push(k)),
            _ => None,
        }
    }
}

/// The committee of `label`: the distinct keys of the required roles, two
/// approvals (one for a single member), and the given timelock.
pub open spec fn committee_ok(c: GovernedWalletConfig, keys: Seq<Pubkey>, label: &str, timelock_epochs: u32) -> bool {
    &&& c.signers@ == dedup_keys(keys)
    &&& c.threshold == (if dedup_keys(keys).len() == 1 { 1u8 } else { 2u8 })
    &&& c.label@ == label@
    &&& c.timelock_epochs == timelock_epochs
    &&& c.transfer_velocity_policy is None
}

fn find_role(rp: &[(String, Pubkey)], role: &str) -> (r: Option<Pubkey>)
    ensures
        r == role_key(rp@, role@),
{
    let target = String::from_str(role);
    let mut i: usize = 0;
    assert(rp@.subrange(0, rp@.len() as int) =~= rp@);
    while i < rp.len()
        invariant
            i <= rp@.len(),
            target@ == role@,
            role_key(rp@, role@) == role_key(rp@.subrange(i as int, rp@.len() as int), role@),
        decreases rp@.len() - i,
    {
        proof {
            assert(rp@.subrange(i as int, rp@.len() as int).drop_first() =~= rp@.subrange(i + 1, rp@.len() as int));
        }
        if rp[i].0 == target {
            return Some(rp[i].1);
        }
        i += 1;
    }
    None
}

fn governed_committee_config_for_roles(
    role_pubkeys: &[(String, Pubkey)],
    governance_authority: &Pubkey,
    label: &str,
    required_roles: &[&str],
    timelock_epochs: u32,
) -> (r: Result<(Pubkey, GovernedWalletConfig), String>)
    ensures
        r is Ok <==> role_keys(role_pubkeys@, required_roles@.map_values(|s: &str| s@)) is Some,
        r matches Ok((a, c)) ==> a.0@ == sha256_spec(committee_seed(label, *governance_authority))
            && committee_ok(c, role_keys(role_pubkeys@, required_roles@.map_values(|s: &str| s@)).unwrap(), label, timelock_epochs),
{
    let ghost roles = required_roles@.map_values(|s: &str| s@);
    let mut keys: Vec<Pubkey> = Vec::new();
    let mut i: usize = 0;
    while i < required_roles.len()
        invariant
            i <= required_roles@.len(),
            roles == required_roles@.map_values(|s: &str| s@),
            role_keys(role_pubkeys@, roles.subrange(0, i as int)) == Some(keys@),
        decreases required_roles@.len() - i,
    {
        proof {
            assert(roles.subrange(0, i + 1).drop_last() =~= roles.subrange(0, i as int));
        }
        match find_role(role_pubkeys, required_roles[i]) {
            Some(k) => {
                keys.push(k);
            },
            None => {
                proof {
                    lemma_role_keys_none(role_pubkeys@, roles, i as int);
                }
                let mut e = String::from_str(label);
                e.append(" requires genesis role '");
                e.append(required_roles[i]);
                e.append("' to be present");
                return Err(e);
            },
        }
        i += 1;
    }
    proof {
        assert(roles.subrange(0, roles.len() as int) =~= roles);
    }
    let signers = dedup_vec(keys.as_slice());
    let threshold: u8 = if signers.len() == 1 { 1 } else { 2 };
    let mut config = GovernedWalletConfig::new(threshold, signers, label);
    if timelock_epochs > 0 {
        config = config.with_timelock(timelock_epochs);
    }
    Ok((derive_governed_committee_authority(label, governance_authority), config))
}

proof fn lemma_role_keys_none(rp: Seq<(String, Pubkey)>, roles: Seq<Seq<char>>, i: int)
    requires
        0 <= i < roles.len(),
        role_key(rp, roles[i]) is None,
    ensures
        role_keys(rp, roles) is None,
    decreases roles.len(),
{
    if i < roles.len() - 1 {
        assert(roles.drop_last()[i] == roles[i]);
        lemma_role_keys_none(rp, roles.drop_last(), i);
    }
}

/// Roles of the incident guardian committee.
pub open spec fn incident_guardian_roles() -> Seq<Seq<char>> {
    seq!["community_treasury"@, "reserve_pool"@, "validator_rewards"@]
}

/// Roles of the bridge committee admin.
pub open spec fn bridge_committee_admin_roles() -> Seq<Seq<char>> {
    seq!["validator_rewards"@, "reserve_pool"@, "founding_symbionts"@]
}

/// Roles of the oracle committee admin.
pub open spec fn oracle_committee_admin_roles() -> Seq<Seq<char>> {
    seq!["validator_rewards"@, "ecosystem_partnerships"@, "builder_grants"@]
}

/// Roles of the upgrade proposer committee.
pub open spec fn upgrade_proposer_roles() -> Seq<Seq<char>> {
    seq!["community_treasury"@, "founding_symbionts"@, "builder_grants"@]
}

/// Roles of the upgrade veto guardian committee.
pub open spec fn upgrade_veto_guardian_roles() -> Seq<Seq<char>> {
    seq!["validator_rewards"@, "reserve_pool"@, "ecosystem_partnerships"@]
}

/// Roles of the treasury executor committee.
pub open spec fn treasury_executor_roles() -> Seq<Seq<char>> {
    seq!["community_treasury"@, "ecosystem_partnerships"@, "reserve_pool"@]
}

fn roles3(a: &'static str, b: &'static str, c: &'static str) -> (r: Vec<&'static str>)
    ensures
        r@.map_values(|s: &str| s@) == seq![a@, b@, c@],
{
    let mut v: Vec<&'static str> = Vec::new();
    v.push(a);
    v.push(b);
    v.push(c);
    proof {
        assert(v@.map_values(|s: &str| s@) =~= seq![a@, b@, c@]);
    }
    v
}

/// The incident guardian committee (no timelock) and its authority.
pub fn incident_guardian_config_for_roles(role_pubkeys: &[(String, Pubkey)], governance_authority: &Pubkey)
    -> (r: Result<(Pubkey, GovernedWalletConfig), String>)
    ensures
        r is Ok <==> role_keys(role_pubkeys@, incident_guardian_roles()) is Some,
        r matches Ok((a, c)) ==> a.0@ == sha256_spec(committee_seed(INCIDENT_GUARDIAN_LABEL, *governance_authority))
            && committee_ok(c, role_keys(role_pubkeys@, incident_guardian_roles()).unwrap(), INCIDENT_GUARDIAN_LABEL, 0),
{
    let roles = roles3("community_treasury", "reserve_pool", "validator_rewards");
    governed_committee_config_for_roles(role_pubkeys, governance_authority, INCIDENT_GUARDIAN_LABEL, roles.as_slice(), 0)
}

/// The bridge committee admin (timelock 1) and its authority.
pub fn bridge_committee_admin_config_for_roles(role_pubkeys: &[(String, Pubkey)], governance_authority: &Pubkey)
    -> (r: Result<(Pubkey, GovernedWalletConfig), String>)
    ensures
        r is Ok <==> role_keys(role_pubkeys@, bridge_committee_admin_roles()) is Some,
        r matches Ok((a, c)) ==> a.0@ == sha256_spec(committee_seed(BRIDGE_COMMITTEE_ADMIN_LABEL, *governance_authority))
            && committee_ok(c, role_keys(role_pubkeys@, bridge_committee_admin_roles()).unwrap(), BRIDGE_COMMITTEE_ADMIN_LABEL, 1),
{
    let roles = roles3("validator_rewards", "reserve_pool", "founding_symbionts");
    governed_committee_config_for_roles(role_pubkeys, governance_authority, BRIDGE_COMMITTEE_ADMIN_LABEL, roles.as_slice(), 1)
}

/// The oracle committee admin (timelock 1) and its authority.
pub fn oracle_committee_admin_config_for_roles(role_pubkeys: &[(String, Pubkey)], governance_authority: &Pubkey)
    -> (r: Result<(Pubkey, GovernedWalletConfig), String>)
    ensures
        r is Ok <==> role_keys(role_pubkeys@, oracle_committee_admin_roles()) is Some,
        r matches Ok((a, c)) ==> a.0@ == sha256_spec(committee_seed(ORACLE_COMMITTEE_ADMIN_LABEL, *governance_authority))
            && committee_ok(c, role_keys(role_pubkeys@, oracle_committee_admin_roles()).unwrap(), ORACLE_COMMITTEE_ADMIN_LABEL, 1),
{
    let roles = roles3("validator_rewards", "ecosystem_partnerships", "builder_grants");
    governed_committee_config_for_roles(role_pubkeys, governance_authority, ORACLE_COMMITTEE_ADMIN_LABEL, roles.as_slice(), 1)
}

/// The upgrade proposer committee (timelock 1) and its authority.
pub fn upgrade_proposer_config_for_roles(role_pubkeys: &[(String, Pubkey)], governance_authority: &Pubkey)
    -> (r: Result<(Pubkey, GovernedWalletConfig), String>)
    ensures
        r is Ok <==> role_keys(role_pubkeys@, upgrade_proposer_roles()) is Some,
        r matches Ok((a, c)) ==> a.0@ == sha256_spec(committee_seed(UPGRADE_PROPOSER_LABEL, *governance_authority))
            && committee_ok(c, role_keys(role_pubkeys@, upgrade_proposer_roles()).unwrap(), UPGRADE_PROPOSER_LABEL, 1),
{
    let roles = roles3("community_treasury", "founding_symbionts", "builder_grants");
    governed_committee_config_for_roles(role_pubkeys, governance_authority, UPGRADE_PROPOSER_LABEL, roles.as_slice(), 1)
}

/// The upgrade veto guardian committee (no timelock) and its authority.
pub fn upgrade_veto_guardian_config_for_roles(role_pubkeys: &[(String, Pubkey)], governance_authority: &Pubkey)
    -> (r: Result<(Pubkey, GovernedWalletConfig), String>)
    ensures
        r is Ok <==> role_keys(role_pubkeys@, upgrade_veto_guardian_roles()) is Some,
        r matches Ok((a, c)) ==> a.0@ == sha256_spec(committee_seed(UPGRADE_VETO_GUARDIAN_LABEL, *governance_authority))
            && committee_ok(c, role_keys(role_pubkeys@, upgrade_veto_guardian_roles()).unwrap(), UPGRADE_VETO_GUARDIAN_LABEL, 0),
{
    let roles = roles3("validator_rewards", "reserve_pool", "ecosystem_partnerships");
    governed_committee_config_for_roles(role_pubkeys, governance_authority, UPGRADE_VETO_GUARDIAN_LABEL, roles.as_slice(), 0)
}

/// The treasury executor committee (timelock 1) and its authority.
pub fn treasury_executor_config_for_roles(role_pubkeys: &[(String, Pubkey)], governance_authority: &Pubkey)
    -> (r: Result<(Pubkey, GovernedWalletConfig), String>)
    ensures
        r is Ok <==> role_keys(role_pubkeys@, treasury_executor_roles()) is Some,
        r matches Ok((a, c)) ==> a.0@ == sha256_spec(committee_seed(TREASURY_EXECUTOR_LABEL, *governance_authority))
            && committee_ok(c, role_keys(role_pubkeys@, treasury_executor_roles()).unwrap(), TREASURY_EXECUTOR_LABEL, 1),
{
    let roles = roles3("community_treasury", "ecosystem_partnerships", "reserve_pool");
    governed_committee_config_for_roles(role_pubkeys, governance_authority, TREASURY_EXECUTOR_LABEL, roles.as_slice(), 1)
}

/// The governed wallet of `role`: the community treasury (majority
/// threshold, timelock 1), ecosystem partnerships (2 approvals) and the
/// reserve pool (3 approvals), each with its velocity policy; None for
/// other roles.
pub fn governed_wallet_config_for_role(role: &str, all_signers: &[Pubkey]) -> (r: Option<GovernedWalletConfig>)
    ensures
        role@ == "community_treasury"@ ==> (r matches Some(c) && c.signers@ == all_signers@
            && c.threshold == (if all_signers@.len() / 2 + 1 <= 255 { (all_signers@.len() / 2 + 1) as u8 } else { 255u8 })
            && c.label@ == "community_treasury"@ && c.timelock_epochs == 1
            && c.transfer_velocity_policy == Some(GovernedTransferVelocityPolicy {
                per_transfer_cap_spores: (5_000_000 * SPORES_PER_LICN) as u64,
                daily_cap_spores: (10_000_000 * SPORES_PER_LICN) as u64,
                elevated_threshold_spores: (1_000_000 * SPORES_PER_LICN) as u64,
                extraordinary_threshold_spores: (2_500_000 * SPORES_PER_LICN) as u64,
                elevated_additional_timelock_epochs: 1,
                extraordinary_additional_timelock_epochs: 3,
            })),
        role@ == "ecosystem_partnerships"@ ==> (r matches Some(c) && c.signers@ == all_signers@ && c.threshold == 2
            && c.label@ == "ecosystem_partnerships"@ && c.timelock_epochs == 0
            && c.transfer_velocity_policy is Some),
        role@ == "reserve_pool"@ ==> (r matches Some(c) && c.signers@ == all_signers@ && c.threshold == 3
            && c.label@ == "reserve_pool"@ && c.timelock_epochs == 0
            && c.transfer_velocity_policy is Some),
        role@ != "community_treasury"@ && role@ != "ecosystem_partnerships"@ && role@ != "reserve_pool"@ ==> r is None,
{
    proof {
        reveal_strlit("community_treasury");
        reveal_strlit("ecosystem_partnerships");
        reveal_strlit("reserve_pool");
    }
    let mut signers: Vec<Pubkey> = Vec::new();
    let mut i: usize = 0;
    while i < all_signers.len()
        invariant
            i <= all_signers@.len(),
            signers@ == all_signers@.subrange(0, i as int),
        decreases all_signers@.len() - i,
    {
        signers.push(all_signers[i]);
        proof {
            assert(all_signers@.subrange(0, i + 1) =~= all_signers@.subrange(0, i as int).push(all_signers@[i as int]));
        }
        i += 1;
    }
    proof {
        assert(all_signers@.subrange(0, all_signers@.len() as int) =~= all_signers@);
    }
    let half = all_signers.len() / 2 + 1;
    let governance_threshold: u8 = if half <= 255 { half as u8 } else { 255 };
    let r = String::from_str(role);
    proof {
        assert("community_treasury"@.len() == 18);
        assert("ecosystem_partnerships"@.len() == 22);
        assert("reserve_pool"@.len() == 12);
        assert("ecosystem_partnerships"@ != "community_treasury"@);
        assert("reserve_pool"@ != "community_treasury"@);
        assert("reserve_pool"@ != "ecosystem_partnerships"@);
    }
    if r == String::from_str("community_treasury") {
        Some(GovernedWalletConfig::new(governance_threshold, signers, "community_treasury")
            .with_timelock(1)
            .with_transfer_velocity_policy(GovernedTransferVelocityPolicy::community_treasury_defaults()))
    } else if r == String::from_str("ecosystem_partnerships") {
        Some(GovernedWalletConfig::new(2, signers, "ecosystem_partnerships")
            .with_transfer_velocity_policy(GovernedTransferVelocityPolicy::ecosystem_partnerships_defaults()))
    } else if r == String::from_str("reserve_pool") {
        Some(GovernedWalletConfig::new(3, signers, "reserve_pool")
            .with_transfer_velocity_policy(GovernedTransferVelocityPolicy::reserve_pool_defaults()))
    } else {
        None
    }
}

/// A distribution wallet of the genesis allocation.
#[derive(Debug, Clone)]
pub struct DistributionWallet {
    pub role: String,
    pub pubkey: Pubkey,
    pub amount_licn: u64,
    pub percentage: u8,
    pub keypair_path: Option<String>,
}

/// The genesis allocation: (role, amount in whole tokens, percent), validator
/// rewards first.
pub const GENESIS_DISTRIBUTION: [(&'static str, u64, u8); 6] = [
    ("validator_rewards", 50_000_000, 10),
    ("community_treasury", 125_000_000, 25),
    ("builder_grants", 175_000_000, 35),
    ("founding_symbionts", 50_000_000, 10),
    ("ecosystem_partnerships", 50_000_000, 10),
    ("reserve_pool", 50_000_000, 10),
];

/// The genesis treasury wallet record.
#[derive(Debug, Clone)]
pub struct GenesisWallet {
    pub pubkey: Pubkey,
    pub keypair_path: String,
    pub treasury_pubkey: Option<Pubkey>,
    pub treasury_keypair_path: Option<String>,
    pub multisig: Option<MultiSigConfig>,
    pub distribution_wallets: Option<Vec<DistributionWallet>>,
    pub created_at: String,
    pub chain_id: String,
}

/// Threshold of the genesis multi-signature: 60% rounded up (at least 3) on
/// the main network; 2 of 3 or more, else 1, on a test network.
pub open spec fn spec_genesis_threshold(is_mainnet: bool, signer_count: usize) -> u8 {
    if is_mainnet {
        let t = (signer_count * 3 + 4) / 5;
        let c: u8 = if t <= 255 { t as u8 } else { 255 };
        if c >= 3 { c } else { 3 }
    } else if signer_count >= 3 {
        2
    } else {
        1
    }
}

/// Genesis multi-signature threshold (see `spec_genesis_threshold`).
pub fn genesis_threshold(is_mainnet: bool, signer_count: usize) -> (r: u8)
    ensures
        r == spec_genesis_threshold(is_mainnet, signer_count),
{
    if is_mainnet {
        let t = ((signer_count as u128) * 3 + 4) / 5;
        let c: u8 = if t <= 255 { t as u8 } else { 255 };
        if c >= 3 { c } else { 3 }
    } else if signer_count >= 3 {
        2
    } else {
        1
    }
}

/// The genesis wallet of the given keys: the primary key, the signer keys
/// and one key per distribution role, in `GENESIS_DISTRIBUTION` order. A
/// multi-signature configuration is made when there is more than one signer;
/// the treasury is the first distribution wallet.
pub fn assemble_genesis_wallet(chain_id: &str, is_mainnet: bool, signer_pubkeys: Vec<Pubkey>,
    distribution_pubkeys: &[Pubkey], created_at: String) -> (r: GenesisWallet)
    requires
        signer_pubkeys@.len() >= 1,
        distribution_pubkeys@.len() == 6,
    ensures
        r.pubkey == signer_pubkeys@[0],
        r.chain_id@ == chain_id@,
        r.created_at@ == created_at@,
        signer_pubkeys@.len() > 1 ==> (r.multisig matches Some(m) && m.threshold == spec_genesis_threshold(is_mainnet, signer_pubkeys@.len() as usize)
            && m.signers@ == signer_pubkeys@ && m.is_genesis && m.is_treasury),
        signer_pubkeys@.len() == 1 ==> r.multisig is None,
        r.treasury_pubkey == Some(distribution_pubkeys@[0]),
        r.distribution_wallets matches Some(d) && d@.len() == 6
            && forall|i: int| 0 <= i < 6 ==> (#[trigger] d@[i]).pubkey == distribution_pubkeys@[i]
                && d@[i].amount_licn == GENESIS_DISTRIBUTION[i].1 && d@[i].percentage == GENESIS_DISTRIBUTION[i].2
                && d@[i].role@ == GENESIS_DISTRIBUTION[i].0@,
{
    let pubkey = signer_pubkeys[0];
    let n = signer_pubkeys.len();
    let multisig = if n > 1 {
        let t = genesis_threshold(is_mainnet, n);
        Some(MultiSigConfig::genesis_treasury(t, signer_pubkeys))
    } else {
        None
    };
    let mut dist: Vec<DistributionWallet> = Vec::new();
    let table = GENESIS_DISTRIBUTION;
    let mut i: usize = 0;
    while i < 6
        invariant
            i <= 6,
            distribution_pubkeys@.len() == 6,
            table == GENESIS_DISTRIBUTION,
            dist@.len() == i,
            forall|j: int| 0 <= j < i ==> (#[trigger] dist@[j]).pubkey == distribution_pubkeys@[j]
                && dist@[j].amount_licn == GENESIS_DISTRIBUTION[j].1 && dist@[j].percentage == GENESIS_DISTRIBUTION[j].2
                && dist@[j].role@ == GENESIS_DISTRIBUTION[j].0@,
        decreases 6 - i,
    {
        let (role, amount, pct) = table[i];
        dist.push(DistributionWallet {
            role: String::from_str(role),
            pubkey: distribution_pubkeys[i],
            amount_licn: amount,
            percentage: pct,
            keypair_path: None,
        });
        i += 1;
    }
    let treasury = distribution_pubkeys[0];
    let mut kp_path = String::from_str("genesis-keys/genesis-primary-");
    kp_path.append(chain_id);
    kp_path.append(".json");
    let mut t_path = String::from_str("genesis-keys/treasury-");
    t_path.append(chain_id);
    t_path.append(".json");
    GenesisWallet {
        pubkey,
        keypair_path: kp_path,
        treasury_pubkey: Some(treasury),
        treasury_keypair_path: Some(t_path),
        multisig,
        distribution_wallets: Some(dist),
        created_at,
        chain_id: String::from_str(chain_id),
    }
}

} // verus!
