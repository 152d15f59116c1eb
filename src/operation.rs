//! The operator's operations: block commitments and verifications.
use vstd::prelude::*;
use crate::account_map::AccountMap;
use crate::blob::copy_blob;

verus! {

pub type BlockNumber = u32;

pub type Nonce = u32;

pub type BatchNumber = u32;

/// A validity proof, as bytes.
pub type EncodedProof = Vec<u8>;

/// What a block carries.
pub enum BlockData {
    Deposit { batch_number: BatchNumber, transactions: serde_json::Value },
    Exit { batch_number: BatchNumber, transactions: serde_json::Value },
    Transfer { total_fees: serde_json::Value, transactions: serde_json::Value },
}

/// A rollup block.
pub struct Block {
    pub block_number: BlockNumber,
    pub new_root_hash: serde_json::Value,
    pub block_data: BlockData,
}

/// What an operation does to its block.
pub enum Action {
    Commit,
    Verify { proof: EncodedProof },
}

/// The signer address and nonce under which an operation is relayed.
pub struct TxMeta {
    pub addr: String,
    pub nonce: Nonce,
}

/// An operation on a block, with the account updates of a commitment.
pub struct Operation {
    pub action: Action,
    pub block: Block,
    pub accounts_updated: Option<AccountMap>,
    pub tx_meta: Option<TxMeta>,
}

/// The two actions are alike, proof bytes included.
pub open spec fn same_action(a: Action, b: Action) -> bool {
    match (a, b) {
        (Action::Commit, Action::Commit) => true,
        (Action::Verify { proof: p }, Action::Verify { proof: q }) => p@ == q@,
        _ => false,
    }
}

/// The two optional account maps hold the same pairs.
pub open spec fn same_accounts(a: Option<AccountMap>, b: Option<AccountMap>) -> bool {
    match (a, b) {
        (None, None) => true,
        (Some(x), Some(y)) => x.pairs() == y.pairs(),
        _ => false,
    }
}

/// The two operations are alike in every field.
pub open spec fn same_op(a: Operation, b: Operation) -> bool {
    &&& same_action(a.action, b.action)
    &&& a.block == b.block
    &&& same_accounts(a.accounts_updated, b.accounts_updated)
    &&& a.tx_meta == b.tx_meta
}

impl Action {
    /// The action commits its block.
    pub open spec fn is_commit(&self) -> bool {
        self is Commit
    }

    /// The name under which the action is persisted.
    pub fn name(&self) -> (r: &'static str)
        ensures
            self is Commit ==> r@ == "Commit"@,
            self is Verify ==> r@ == "Verify"@,
    {
        proof {
            reveal_strlit("Commit");
            reveal_strlit("Verify");
        }
        match self {
            Action::Commit => "Commit",
            Action::Verify { .. } => "Verify",
        }
    }

    /// An alike copy.
    pub fn duplicate(&self) -> (r: Action)
        ensures
            same_action(r, *self),
    {
        match self {
            Action::Commit => Action::Commit,
            Action::Verify { proof } => {
                let p = proof.clone();
                assert(p@ =~= proof@);
                Action::Verify { proof: p }
            },
        }
    }
}

impl BlockData {
    /// An equal copy.
    pub fn duplicate(&self) -> (r: BlockData)
        ensures
            r == *self,
    {
        match self {
            BlockData::Deposit { batch_number, transactions } => BlockData::Deposit {
                batch_number: *batch_number,
                transactions: copy_blob(transactions),
            },
            BlockData::Exit { batch_number, transactions } => BlockData::Exit {
                batch_number: *batch_number,
                transactions: copy_blob(transactions),
            },
            BlockData::Transfer { total_fees, transactions } => BlockData::Transfer {
                total_fees: copy_blob(total_fees),
                transactions: copy_blob(transactions),
            },
        }
    }
}

impl Block {
    /// An equal copy.
    pub fn duplicate(&self) -> (r: Block)
        ensures
            r == *self,
    {
        Block {
            block_number: self.block_number,
            new_root_hash: copy_blob(&self.new_root_hash),
            block_data: self.block_data.duplicate(),
        }
    }
}

impl TxMeta {
    /// An equal copy.
    pub fn duplicate(&self) -> (r: TxMeta)
        ensures
            r == *self,
    {
        TxMeta { addr: self.addr.clone(), nonce: self.nonce }
    }
}

impl Operation {
    /// An alike copy.
    pub fn duplicate(&self) -> (r: Operation)
        ensures
            same_op(r, *self),
    {
        let accounts_updated = match &self.accounts_updated {
            Some(m) => Some(m.duplicate()),
            None => None,
        };
        let tx_meta = match &self.tx_meta {
            Some(t) => Some(t.duplicate()),
            None => None,
        };
        Operation {
            action: self.action.duplicate(),
            block: self.block.duplicate(),
            accounts_updated,
            tx_meta,
        }
    }
}

} // verus!
