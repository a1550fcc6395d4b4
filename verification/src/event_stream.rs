//! Typed chain events, buffered per block for indexers and UIs.
use vstd::prelude::*;

verus! {

/// An event of chain activity.
#[derive(Clone, Debug)]
pub enum ChainEvent {
    Transfer { from: [u8; 32], to: [u8; 32], amount: u64 },
    ContractDeploy { deployer: [u8; 32], contract: [u8; 32], code_hash: [u8; 32] },
    ContractCall { caller: [u8; 32], contract: [u8; 32], method: String },
    StakeDeposit { staker: [u8; 32], amount: u64 },
    StakeWithdraw { staker: [u8; 32], amount: u64 },
    GovernanceVote { voter: [u8; 32], proposal_id: u64, vote: bool },
    BridgeLock { sender: [u8; 32], recipient: [u8; 32], amount: u64, asset: String, dest_chain: String },
    BridgeMint { recipient: [u8; 32], amount: u64, asset: String, source_chain: String, tx_hash: String },
    IdentityRegistered { address: [u8; 32], agent_type: u8 },
    SkillAttested { identity: [u8; 32], skill: String, attester: [u8; 32] },
}

/// The events emitted while one block is processed.
pub struct EventBuffer {
    events: Vec<ChainEvent>,
    slot: u64,
}

impl EventBuffer {
    /// The events, in emission order.
    pub closed spec fn events_view(&self) -> Seq<ChainEvent> {
        self.events@
    }

    /// The slot of the block.
    pub closed spec fn slot_view(&self) -> u64 {
        self.slot
    }

    /// An empty buffer for `slot`.
    pub fn new(slot: u64) -> (r: EventBuffer)
        ensures
            r.events_view().len() == 0,
            r.slot_view() == slot,
    {
        EventBuffer { events: Vec::new(), slot }
    }

    /// Appends `event`.
    pub fn emit(&mut self, event: ChainEvent)
        ensures
            final(self).events_view() == old(self).events_view().push(event),
            final(self).slot_view() == old(self).slot_view(),
    {
        self.events.push(event);
    }

    /// Takes all events, in order, leaving the buffer empty.
    pub fn drain(&mut self) -> (r: Vec<ChainEvent>)
        ensures
            r@ == old(self).events_view(),
            final(self).events_view().len() == 0,
            final(self).slot_view() == old(self).slot_view(),
    {
        let mut out: Vec<ChainEvent> = Vec::new();
        std::mem::swap(&mut out, &mut self.events);
        out
    }

    /// Number of buffered events.
    pub fn len(&self) -> (r: usize)
        ensures
            r == self.events_view().len(),
    {
        self.events.len()
    }

    /// Whether no event is buffered.
    pub fn is_empty(&self) -> (r: bool)
        ensures
            r == (self.events_view().len() == 0),
    {
        self.events.len() == 0
    }

    /// The slot of the block.
    pub fn slot(&self) -> (r: u64)
        ensures
            r == self.slot_view(),
    {
        self.slot
    }
}

} // verus!
