//! The client as the import pipelines see it: the chain, the state store,
//! the key-value store, the parameters, and the log of what subscribers are
//! to be told.

use vstd::prelude::*;
use crate::batch::Database;
use crate::chain::BlockChain;
use crate::chain_view::{BodyView, ChainView};
use crate::engine::CommonParams;
use crate::hash::H256;
use crate::header::Header;
use crate::state::{StateDB, StateView};

verus! {

/// Which subscriber a notification is for, and of what.
#[derive(Clone, Copy, Debug, PartialEq, Eq, Structural)]
pub enum NotifyKind {
    /// To the client's subscribers: headers were imported.
    NewHeaders,
    /// To the miner: blocks were imported.
    ChainNewBlocks,
    /// To the client's subscribers: blocks were imported.
    NewBlocks,
}

/// What subscribers are told after an import pass.
#[derive(Debug, PartialEq, Eq)]
pub struct Notification {
    pub kind: NotifyKind,
    pub imported: Vec<H256>,
    pub invalid: Vec<H256>,
    pub enacted: Vec<H256>,
    pub retracted: Vec<H256>,
    pub sealed: Vec<H256>,
    /// The new best proposal header, where a header pass moved it.
    pub best_proposal_header_changed: Option<H256>,
}

/// The mathematical content of a [`Notification`].
pub struct NotificationView {
    pub kind: NotifyKind,
    pub imported: Seq<H256>,
    pub invalid: Seq<H256>,
    pub enacted: Seq<H256>,
    pub retracted: Seq<H256>,
    pub sealed: Seq<H256>,
    pub best_proposal_header_changed: Option<H256>,
}

impl View for Notification {
    type V = NotificationView;

    open spec fn view(&self) -> NotificationView {
        NotificationView {
            kind: self.kind,
            imported: self.imported@,
            invalid: self.invalid@,
            enacted: self.enacted@,
            retracted: self.retracted@,
            sealed: self.sealed@,
            best_proposal_header_changed: self.best_proposal_header_changed,
        }
    }
}

/// The chain client.
pub struct Client {
    pub chain: BlockChain,
    pub state_db: StateDB,
    pub db: Database,
    /// The parameters that hold for every block of this chain.
    pub params: CommonParams,
    /// The notifications that wait to be delivered, oldest first.
    pub notifications: Vec<Notification>,
}

impl Client {
    /// The chain is well formed and nothing in it waits for a commit.
    pub open spec fn wf(&self) -> bool {
        self.chain.wf() && self.chain.is_committed()
    }

    /// The notifications that wait to be delivered, oldest first.
    pub open spec fn notes(&self) -> Seq<NotificationView> {
        Seq::new(self.notifications@.len(), |i: int| self.notifications@[i]@)
    }

    /// A client whose chain holds the genesis block alone.
    pub fn new(genesis: Header, genesis_bytes: Vec<u8>, params: CommonParams) -> (client: Client)
        ensures
            client.wf(),
            client.chain.published() == (ChainView {
                headers: seq![genesis],
                bodies: seq![
                    BodyView { hash: genesis.hash, bytes: genesis_bytes@, invoices: Seq::empty() },
                ],
                best_header: genesis.hash,
                best_block: genesis.hash,
            }),
            client.state_db@ == (StateView { roots: seq![genesis.state_root], hot: None }),
            client.db.buffered@.len() == 0,
            client.db.durable@.len() == 0,
            client.params == params,
            client.notes().len() == 0,
    {
        Client {
            chain: BlockChain::new(genesis, genesis_bytes),
            state_db: StateDB::new(genesis.state_root),
            db: Database::new(),
            params,
            notifications: Vec::new(),
        }
    }

    /// The header with this hash, as readers see the chain.
    pub fn block_header(&self, hash: &H256) -> (found: Option<Header>)
        requires
            self.wf(),
        ensures
            found is Some <==> self.chain.published().contains(*hash),
            found is Some ==> found->Some_0 == self.chain.published().header(*hash),
    {
        self.chain.block_header(hash)
    }

    /// The parameters that hold for the children of the block with this
    /// hash; `None` where the block is not known.
    pub fn common_params(&self, hash: &H256) -> (params: Option<CommonParams>)
        requires
            self.wf(),
        ensures
            params == if self.chain.published().contains(*hash) {
                Some(self.params)
            } else {
                None
            },
    {
        if self.chain.is_known_header(hash) {
            Some(self.params)
        } else {
            None
        }
    }

    /// Adds a notification to the log.
    pub fn notify(&mut self, notification: Notification)
        ensures
            final(self).notes() == old(self).notes().push(notification@),
            final(self).chain == old(self).chain,
            final(self).state_db == old(self).state_db,
            final(self).db == old(self).db,
            final(self).params == old(self).params,
    {
        self.notifications.push(notification);
        proof {
            assert(self.notes() =~= old(self).notes().push(notification@));
        }
    }
}

} // verus!
