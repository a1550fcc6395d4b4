//! Smart-contract instructions: deploy, call, upgrade (with timelock and
//! veto) and close.
use vstd::prelude::*;

verus! {

/// A smart-contract instruction.
#[derive(Debug, Clone, PartialEq, Eq)]
pub enum ContractInstruction {
    /// Deploy a contract: its WASM code and initial storage data.
    Deploy { code: Vec<u8>, init_data: Vec<u8> },
    /// Call `function` with serialized `args`, transferring `value`.
    Call { function: String, args: Vec<u8>, value: u64 },
    /// Replace the code (owner only).
    Upgrade { code: Vec<u8> },
    /// Close the contract and withdraw its balance.
    Close,
    /// Set the upgrade timelock in epochs (0 removes it).
    SetUpgradeTimelock { epochs: u32 },
    /// Execute a staged upgrade after its timelock.
    ExecuteUpgrade,
    /// Cancel a staged upgrade (governance only).
    VetoUpgrade,
}

impl ContractInstruction {
    /// A deploy instruction.
    pub fn deploy(code: Vec<u8>, init_data: Vec<u8>) -> (r: ContractInstruction)
        ensures
            r == (ContractInstruction::Deploy { code, init_data }),
    {
        ContractInstruction::Deploy { code, init_data }
    }

    /// A call instruction.
    pub fn call(function: String, args: Vec<u8>, value: u64) -> (r: ContractInstruction)
        ensures
            r == (ContractInstruction::Call { function, args, value }),
    {
        ContractInstruction::Call { function, args, value }
    }

    /// An upgrade instruction.
    pub fn upgrade(code: Vec<u8>) -> (r: ContractInstruction)
        ensures
            r == (ContractInstruction::Upgrade { code }),
    {
        ContractInstruction::Upgrade { code }
    }

    /// A close instruction.
    pub fn close() -> (r: ContractInstruction)
        ensures
            r == ContractInstruction::Close,
    {
        ContractInstruction::Close
    }

    /// An instruction setting the upgrade timelock to `epochs`.
    pub fn set_upgrade_timelock(epochs: u32) -> (r: ContractInstruction)
        ensures
            r == (ContractInstruction::SetUpgradeTimelock { epochs }),
    {
        ContractInstruction::SetUpgradeTimelock { epochs }
    }

    /// An instruction executing a staged upgrade.
    pub fn execute_upgrade() -> (r: ContractInstruction)
        ensures
            r == ContractInstruction::ExecuteUpgrade,
    {
        ContractInstruction::ExecuteUpgrade
    }

    /// An instruction vetoing a staged upgrade.
    pub fn veto_upgrade() -> (r: ContractInstruction)
        ensures
            r == ContractInstruction::VetoUpgrade,
    {
        ContractInstruction::VetoUpgrade
    }
}

} // verus!
