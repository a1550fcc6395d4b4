//! Governance actions and proposals: what an action is called, the text that
//! describes it, and when a proposal may be executed.
use vstd::prelude::*;
use crate::account::Pubkey;
use crate::contract::ContractAbi;
use crate::crypto::bs58_encode_spec;
use crate::multisig::GovernedTransferVelocityTier;
use crate::text::{decimal, u64_to_decimal};

verus! {

/// A JSON document, carried through unread.
#[verifier::external_type_specification]
#[verifier::external_body]
pub struct ExJsonValue(serde_json::Value);

/// An action a governance proposal executes.
#[derive(Debug, Clone)]
pub enum GovernanceAction {
    TreasuryTransfer { recipient: Pubkey, amount: u64 },
    ParamChange { param_id: u8, value: u64 },
    ContractUpgrade { contract: Pubkey, code: Vec<u8> },
    SetContractUpgradeTimelock { contract: Pubkey, epochs: u32 },
    ExecuteContractUpgrade { contract: Pubkey },
    VetoContractUpgrade { contract: Pubkey },
    ContractClose { contract: Pubkey, destination: Pubkey },
    ContractCall { contract: Pubkey, function: String, args: Vec<u8>, value: u64 },
    RegisterContractSymbol {
        contract: Pubkey,
        symbol: String,
        name: Option<String>,
        template: Option<String>,
        metadata: Option<serde_json::Value>,
        decimals: Option<u8>,
    },
    SetContractAbi { contract: Pubkey, abi: ContractAbi },
}

/// Base58 text of a key.
pub open spec fn b58(k: Pubkey) -> Seq<char> {
    bs58_encode_spec(k.0@)
}

/// The text of an optional value, empty when absent.
pub open spec fn opt_text(o: Option<String>) -> Seq<char> {
    match o {
        Some(s) => s@,
        None => Seq::empty(),
    }
}

/// `true` or `false`.
pub open spec fn bool_text(b: bool) -> Seq<char> {
    if b { "true"@ } else { "false"@ }
}

/// The description of an action: `key=value` pairs separated by spaces.
pub open spec fn spec_metadata(a: GovernanceAction) -> Seq<char> {
    match a {
        GovernanceAction::TreasuryTransfer { recipient, amount } =>
            "recipient="@ + b58(recipient) + " amount_spores="@ + decimal(amount as nat),
        GovernanceAction::ParamChange { param_id, value } =>
            "param_id="@ + decimal(param_id as nat) + " value="@ + decimal(value as nat),
        GovernanceAction::ContractUpgrade { contract, code } =>
            "contract="@ + b58(contract) + " code_len="@ + decimal(code@.len()),
        GovernanceAction::SetContractUpgradeTimelock { contract, epochs } =>
            "contract="@ + b58(contract) + " epochs="@ + decimal(epochs as nat),
        GovernanceAction::ExecuteContractUpgrade { contract } => "contract="@ + b58(contract),
        GovernanceAction::VetoContractUpgrade { contract } => "contract="@ + b58(contract),
        GovernanceAction::ContractClose { contract, destination } =>
            "contract="@ + b58(contract) + " destination="@ + b58(destination),
        GovernanceAction::ContractCall { contract, function, args, value } =>
            "contract="@ + b58(contract) + " function="@ + function@ + " args_len="@ + decimal(args@.len())
                + " value_spores="@ + decimal(value as nat),
        GovernanceAction::RegisterContractSymbol { contract, symbol, name, template, metadata, decimals } =>
            "contract="@ + b58(contract) + " symbol="@ + symbol@ + " name="@ + opt_text(name)
                + " template="@ + opt_text(template) + " decimals="@
                + (match decimals { Some(d) => decimal(d as nat), None => Seq::empty() })
                + " has_metadata="@ + bool_text(metadata is Some),
        GovernanceAction::SetContractAbi { contract, abi } =>
            "contract="@ + b58(contract) + " abi_name="@ + abi.name@ + " abi_version="@ + abi.version@
                + " functions="@ + decimal(abi.functions@.len()),
    }
}

fn push_str(out: &mut String, s: &str)
    ensures
        final(out)@ == old(out)@ + s@,
{
    out.append(s);
}

impl GovernanceAction {
    /// The action's label.
    pub fn label(&self) -> (r: &'static str)
        ensures
            r@ == match self {
                GovernanceAction::TreasuryTransfer { .. } => "treasury_transfer"@,
                GovernanceAction::ParamChange { .. } => "governance_param_change"@,
                GovernanceAction::ContractUpgrade { .. } => "contract_upgrade"@,
                GovernanceAction::SetContractUpgradeTimelock { .. } => "set_contract_upgrade_timelock"@,
                GovernanceAction::ExecuteContractUpgrade { .. } => "execute_contract_upgrade"@,
                GovernanceAction::VetoContractUpgrade { .. } => "veto_contract_upgrade"@,
                GovernanceAction::ContractClose { .. } => "contract_close"@,
                GovernanceAction::ContractCall { .. } => "contract_call"@,
                GovernanceAction::RegisterContractSymbol { .. } => "register_contract_symbol"@,
                GovernanceAction::SetContractAbi { .. } => "set_contract_abi"@,
            },
    {
        match self {
            GovernanceAction::TreasuryTransfer { .. } => "treasury_transfer",
            GovernanceAction::ParamChange { .. } => "governance_param_change",
            GovernanceAction::ContractUpgrade { .. } => "contract_upgrade",
            GovernanceAction::SetContractUpgradeTimelock { .. } => "set_contract_upgrade_timelock",
            GovernanceAction::ExecuteContractUpgrade { .. } => "execute_contract_upgrade",
            GovernanceAction::VetoContractUpgrade { .. } => "veto_contract_upgrade",
            GovernanceAction::ContractClose { .. } => "contract_close",
            GovernanceAction::ContractCall { .. } => "contract_call",
            GovernanceAction::RegisterContractSymbol { .. } => "register_contract_symbol",
            GovernanceAction::SetContractAbi { .. } => "set_contract_abi",
        }
    }

    /// Extra event fields: the target, function, argument length and value
    /// of a contract call; none for other actions.
    pub fn event_fields(&self) -> (r: Vec<(&'static str, String)>)
        ensures
            match self {
                GovernanceAction::ContractCall { contract, function, args, value } => {
                    &&& r@.len() == 4
                    &&& r@[0].0@ == "target_contract"@ && r@[0].1@ == b58(*contract)
                    &&& r@[1].0@ == "target_function"@ && r@[1].1@ == function@
                    &&& r@[2].0@ == "call_args_len"@ && r@[2].1@ == decimal(args@.len())
                    &&& r@[3].0@ == "call_value_spores"@ && r@[3].1@ == decimal(*value as nat)
                },
                _ => r@.len() == 0,
            },
    {
        match self {
            GovernanceAction::ContractCall { contract, function, args, value } => {
                let mut v: Vec<(&'static str, String)> = Vec::new();
                v.push(("target_contract", contract.to_base58()));
                v.push(("target_function", function.clone()));
                v.push(("call_args_len", u64_to_decimal(args.len() as u64)));
                v.push(("call_value_spores", u64_to_decimal(*value)));
                v
            },
            _ => Vec::new(),
        }
    }

    /// The action described as `key=value` pairs (see `spec_metadata`).
    pub fn metadata(&self) -> (r: String)
        ensures
            r@ == spec_metadata(*self),
    {
        proof {
            reveal_strlit("recipient=");
            reveal_strlit(" amount_spores=");
            reveal_strlit("param_id=");
            reveal_strlit(" value=");
            reveal_strlit("contract=");
            reveal_strlit(" code_len=");
            reveal_strlit(" epochs=");
            reveal_strlit(" destination=");
            reveal_strlit(" function=");
            reveal_strlit(" args_len=");
            reveal_strlit(" value_spores=");
            reveal_strlit(" symbol=");
            reveal_strlit(" name=");
            reveal_strlit(" template=");
            reveal_strlit(" decimals=");
            reveal_strlit(" has_metadata=");
            reveal_strlit("true");
            reveal_strlit("false");
            reveal_strlit(" abi_name=");
            reveal_strlit(" abi_version=");
            reveal_strlit(" functions=");
        }
        let mut out = String::new();
        match self {
            GovernanceAction::TreasuryTransfer { recipient, amount } => {
                push_str(&mut out, "recipient=");
                push_str(&mut out, recipient.to_base58().as_str());
                push_str(&mut out, " amount_spores=");
                push_str(&mut out, u64_to_decimal(*amount).as_str());
            },
            GovernanceAction::ParamChange { param_id, value } => {
                push_str(&mut out, "param_id=");
                push_str(&mut out, u64_to_decimal(*param_id as u64).as_str());
                push_str(&mut out, " value=");
                push_str(&mut out, u64_to_decimal(*value).as_str());
            },
            GovernanceAction::ContractUpgrade { contract, code } => {
                push_str(&mut out, "contract=");
                push_str(&mut out, contract.to_base58().as_str());
                push_str(&mut out, " code_len=");
                push_str(&mut out, u64_to_decimal(code.len() as u64).as_str());
            },
            GovernanceAction::SetContractUpgradeTimelock { contract, epochs } => {
                push_str(&mut out, "contract=");
                push_str(&mut out, contract.to_base58().as_str());
                push_str(&mut out, " epochs=");
                push_str(&mut out, u64_to_decimal(*epochs as u64).as_str());
            },
            GovernanceAction::ExecuteContractUpgrade { contract } => {
                push_str(&mut out, "contract=");
                push_str(&mut out, contract.to_base58().as_str());
            },
            GovernanceAction::VetoContractUpgrade { contract } => {
                push_str(&mut out, "contract=");
                push_str(&mut out, contract.to_base58().as_str());
            },
            GovernanceAction::ContractClose { contract, destination } => {
                push_str(&mut out, "contract=");
                push_str(&mut out, contract.to_base58().as_str());
                push_str(&mut out, " destination=");
                push_str(&mut out, destination.to_base58().as_str());
            },
            GovernanceAction::ContractCall { contract, function, args, value } => {
                push_str(&mut out, "contract=");
                push_str(&mut out, contract.to_base58().as_str());
                push_str(&mut out, " function=");
                push_str(&mut out, function.as_str());
                push_str(&mut out, " args_len=");
                push_str(&mut out, u64_to_decimal(args.len() as u64).as_str());
                push_str(&mut out, " value_spores=");
                push_str(&mut out, u64_to_decimal(*value).as_str());
            },
            GovernanceAction::RegisterContractSymbol { contract, symbol, name, template, metadata, decimals } => {
                push_str(&mut out, "contract=");
                push_str(&mut out, contract.to_base58().as_str());
                push_str(&mut out, " symbol=");
                push_str(&mut out, symbol.as_str());
                push_str(&mut out, " name=");
                match name {
                    Some(n) => push_str(&mut out, n.as_str()),
                    None => {},
                }
                push_str(&mut out, " template=");
                match template {
                    Some(t) => push_str(&mut out, t.as_str()),
                    None => {},
                }
                push_str(&mut out, " decimals=");
                match decimals {
                    Some(d) => push_str(&mut out, u64_to_decimal(*d as u64).as_str()),
                    None => {},
                }
                push_str(&mut out, " has_metadata=");
                if metadata.is_some() {
                    push_str(&mut out, "true");
                } else {
                    push_str(&mut out, "false");
                }
            },
            GovernanceAction::SetContractAbi { contract, abi } => {
                push_str(&mut out, "contract=");
                push_str(&mut out, contract.to_base58().as_str());
                push_str(&mut out, " abi_name=");
                push_str(&mut out, abi.name.as_str());
                push_str(&mut out, " abi_version=");
                push_str(&mut out, abi.version.as_str());
                push_str(&mut out, " functions=");
                push_str(&mut out, u64_to_decimal(abi.functions.len() as u64).as_str());
            },
        }
        assert(out@ =~= spec_metadata(*self));
        out
    }
}

/// A governance proposal and its approval state.
#[derive(Debug, Clone)]
pub struct GovernanceProposal {
    pub id: u64,
    pub authority: Pubkey,
    pub approval_authority: Option<Pubkey>,
    pub proposer: Pubkey,
    pub action: GovernanceAction,
    pub action_label: String,
    pub metadata: String,
    pub approvals: Vec<Pubkey>,
    pub threshold: u8,
    pub execute_after_epoch: u64,
    pub velocity_tier: GovernedTransferVelocityTier,
    pub daily_cap_spores: u64,
    pub executed: bool,
    pub cancelled: bool,
}

impl GovernanceProposal {
    /// The key whose approvals count: the approval authority if set, else the authority.
    pub fn approval_authority(&self) -> (r: Pubkey)
        ensures
            r == match self.approval_authority {
                Some(a) => a,
                None => self.authority,
            },
    {
        match self.approval_authority {
            Some(a) => a,
            None => self.authority,
        }
    }

    /// Executable at `current_epoch` (see `proposal_ready`).
    pub fn is_ready(&self, current_epoch: u64) -> (r: bool)
        ensures
            r == proposal_ready(*self, current_epoch),
    {
        !self.executed && !self.cancelled && self.approvals.len() >= self.threshold as usize
            && current_epoch >= self.execute_after_epoch
    }
}

/// A proposal is ready at `epoch` when it is neither executed nor
/// cancelled, has as many approvals as its threshold, and its timelock has
/// passed.
pub open spec fn proposal_ready(p: GovernanceProposal, epoch: u64) -> bool {
    !p.executed && !p.cancelled && p.approvals@.len() >= p.threshold && epoch >= p.execute_after_epoch
}

/// Once ready, a proposal stays ready as epochs pass.
pub proof fn lemma_ready_stays_ready(p: GovernanceProposal, epoch: u64, later: u64)
    requires
        proposal_ready(p, epoch),
        later >= epoch,
    ensures
        proposal_ready(p, later),
{
}

} // verus!
