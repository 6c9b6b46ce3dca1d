use block_import::batch::Database;
use block_import::chain::{BlockChain, COL_BODIES, COL_EXTRA, COL_HEADERS, COL_INVOICES};
use block_import::engine::{CodeChainEngine, TransitionError};
use block_import::hash::{H160, H256};
use block_import::header::{Header, Invoice, Transaction};
use block_import::queue::{BlockQueue, HeaderQueue};
use block_import::route::ImportRoute;
use block_import::state::{StateDB, TopLevelState, COL_STATE};
use kvdb::{DBOp, DBTransaction};

fn h(n: u64) -> H256 {
    H256::from_low_u64(n)
}

struct Open;

impl CodeChainEngine for Open {
    fn family_rule(&self, _header: Header, _parent: Header) -> bool {
        true
    }

    fn external_rule(&self, _header: Header) -> bool {
        true
    }

    fn may_lead(&self, _header: Header) -> bool {
        true
    }

    fn transition(&self, root: H256, _tx: Transaction) -> Result<(H256, Invoice), TransitionError> {
        Ok((root, Invoice::Success))
    }

    fn verify_block_family(&self, _header: &Header, _parent: &Header) -> bool {
        true
    }

    fn verify_block_external(&self, _header: &Header) -> bool {
        true
    }

    fn can_change_canon_chain(&self, _header: &Header) -> bool {
        true
    }

    fn execute(&self, root: &H256, _tx: &Transaction) -> Result<(H256, Invoice), TransitionError> {
        Ok((*root, Invoice::Success))
    }
}

fn genesis() -> Header {
    Header {
        hash: h(1),
        parent_hash: h(0),
        number: 0,
        timestamp: 0,
        author: H160([0u8; 20]),
        state_root: h(7),
        transactions_root: h(0),
        score: 1,
        seal_fields: [0; 4],
        extra: [0u8; 32],
    }
}

fn child(hash: u64, parent: &Header, score: u64) -> Header {
    Header {
        hash: h(hash),
        parent_hash: parent.hash,
        number: parent.number + 1,
        timestamp: parent.timestamp + 1,
        score,
        ..*parent
    }
}

/// Writes the batch and commits, as the write protocol asks.
fn write_and_commit(chain: &mut BlockChain, batch: DBTransaction) {
    let mut db = Database::new();
    let written = db.write_buffered(batch);
    chain.commit(written);
}

fn insert(value: (u32, Vec<u8>, Vec<u8>)) -> DBOp {
    DBOp::Insert { col: value.0, key: value.1.as_slice().into(), value: value.2 }
}

fn rlp_of_header(header: &Header) -> Vec<u8> {
    let mut seal = Vec::new();
    for word in header.seal_fields {
        seal.extend_from_slice(&word.to_be_bytes());
    }
    let items: Vec<Vec<u8>> = vec![
        header.parent_hash.to_bytes(),
        header.author.0.to_vec(),
        header.state_root.to_bytes(),
        header.transactions_root.to_bytes(),
        header.score.to_be_bytes().to_vec(),
        header.number.to_be_bytes().to_vec(),
        header.timestamp.to_be_bytes().to_vec(),
        header.extra.to_vec(),
        seal,
    ];
    let mut payload = Vec::new();
    for item in &items {
        payload.push(0x80 + item.len() as u8);
        payload.extend_from_slice(item);
    }
    assert_eq!(payload.len(), 213);
    let mut out = vec![0xf8, 213];
    out.extend_from_slice(&payload);
    out
}

#[test]
fn hash_bytes_are_big_endian() {
    let hash = H256(0x0102030405060708, 0, 0, 0xff);
    let bytes = hash.to_bytes();
    assert_eq!(bytes.len(), 32);
    assert_eq!(&bytes[..8], &[1, 2, 3, 4, 5, 6, 7, 8]);
    assert_eq!(bytes[31], 0xff);
    assert_eq!(H256::zero().to_bytes(), vec![0u8; 32]);
}

#[test]
fn insert_header_is_pending_until_commit() {
    let mut chain = BlockChain::new(genesis(), vec![]);
    let a = child(2, &genesis(), 1);
    let mut batch = DBTransaction::new();
    let route = chain.insert_header(&mut batch, &a);
    assert_eq!(route, ImportRoute { enacted: vec![a.hash], retracted: vec![], omitted: vec![] });
    assert!(!chain.is_known_header(&a.hash));
    assert_eq!(chain.best_proposal_header().hash, genesis().hash);
    write_and_commit(&mut chain, batch.clone());
    assert!(chain.is_known_header(&a.hash));
    assert_eq!(chain.block_header(&a.hash), Some(a));
    assert_eq!(chain.best_proposal_header(), a);
    assert_eq!(chain.best_block_hash(), genesis().hash);
}

#[test]
fn insert_header_writes_the_header_and_the_pointer() {
    let mut chain = BlockChain::new(genesis(), vec![]);
    let mut a = child(2, &genesis(), 1);
    a.seal_fields = [1, 2, 3, 4];
    a.extra[0] = 0xee;
    let mut batch = DBTransaction::new();
    chain.insert_header(&mut batch, &a);
    let expected = vec![
        insert((COL_HEADERS, a.hash.to_bytes(), rlp_of_header(&a))),
        insert((COL_EXTRA, vec![0x68], a.hash.to_bytes())),
    ];
    assert!(batch.ops == expected);

    // A header that does not lead writes no pointer.
    let b = child(3, &genesis(), 1);
    let mut batch = DBTransaction::new();
    let route = chain.insert_header(&mut batch, &b);
    assert_eq!(route, ImportRoute { enacted: vec![], retracted: vec![], omitted: vec![b.hash] });
    assert!(batch.ops == vec![insert((COL_HEADERS, b.hash.to_bytes(), rlp_of_header(&b)))]);
}

#[test]
fn insert_header_ignores_known_and_orphan_headers() {
    let mut chain = BlockChain::new(genesis(), vec![]);
    let a = child(2, &genesis(), 1);
    let mut batch = DBTransaction::new();
    chain.insert_header(&mut batch, &a);
    let mut again = DBTransaction::new();
    assert_eq!(chain.insert_header(&mut again, &a), ImportRoute::none());
    assert!(again.ops.is_empty());
    let orphan = child(9, &child(8, &genesis(), 1), 50);
    assert_eq!(chain.insert_header(&mut again, &orphan), ImportRoute::none());
    assert!(again.ops.is_empty());
    write_and_commit(&mut chain, batch.clone());
    assert!(!chain.is_known_header(&orphan.hash));
    assert_eq!(chain.best_proposal_header().hash, a.hash);
}

#[test]
fn header_reorg_route_runs_from_the_fork() {
    let mut chain = BlockChain::new(genesis(), vec![]);
    let a = child(2, &genesis(), 1);
    let b = child(3, &a, 1);
    let c = child(4, &b, 1);
    let x = child(12, &a, 1);
    let y = child(13, &x, 5);
    let mut batch = DBTransaction::new();
    for header in [a, b, c, x] {
        chain.insert_header(&mut batch, &header);
    }
    let route = chain.insert_header(&mut batch, &y);
    assert_eq!(
        route,
        ImportRoute {
            enacted: vec![x.hash, y.hash],
            retracted: vec![b.hash, c.hash],
            omitted: vec![]
        }
    );
    write_and_commit(&mut chain, batch.clone());
    assert_eq!(chain.best_proposal_header().hash, y.hash);
}

#[test]
fn equal_score_does_not_move_the_head() {
    let mut chain = BlockChain::new(genesis(), vec![]);
    let a = child(2, &genesis(), 3);
    let b = child(3, &genesis(), 3);
    let mut batch = DBTransaction::new();
    chain.insert_header(&mut batch, &a);
    let route = chain.insert_header(&mut batch, &b);
    assert_eq!(route.omitted, vec![b.hash]);
    write_and_commit(&mut chain, batch.clone());
    assert_eq!(chain.best_proposal_header().hash, a.hash);
}

#[test]
fn insert_block_brings_its_header_and_waits_for_the_parent_body() {
    let mut chain = BlockChain::new(genesis(), vec![0x67]);
    let a = child(2, &genesis(), 1);
    let b = child(3, &a, 1);
    let mut batch = DBTransaction::new();
    // The parent has no body yet: the header is taken, the body is not.
    let route = chain.insert_block(&mut batch, &b, &vec![0xbb], vec![], &Open);
    assert_eq!(route, ImportRoute::none());
    assert!(batch.ops.is_empty());
    let route = chain.insert_block(&mut batch, &a, &vec![0xaa], vec![Invoice::Success], &Open);
    assert_eq!(route, ImportRoute { enacted: vec![a.hash], retracted: vec![], omitted: vec![] });
    let route =
        chain.insert_block(&mut batch, &b, &vec![0xbb], vec![Invoice::Failure, Invoice::Success], &Open);
    assert_eq!(route, ImportRoute { enacted: vec![b.hash], retracted: vec![], omitted: vec![] });
    write_and_commit(&mut chain, batch.clone());
    assert_eq!(chain.best_block_hash(), b.hash);
    assert_eq!(chain.block_body(&a.hash), Some(vec![0xaa]));
    assert_eq!(chain.block_body(&genesis().hash), Some(vec![0x67]));
    assert!(chain.is_known_body(&b.hash));
    let tail: Vec<DBOp> = batch.ops[batch.ops.len() - 3..].to_vec();
    let expected = vec![
        insert((COL_BODIES, b.hash.to_bytes(), vec![0xbb])),
        insert((COL_INVOICES, b.hash.to_bytes(), vec![0, 1])),
        insert((COL_EXTRA, vec![0x62], b.hash.to_bytes())),
    ];
    assert!(tail == expected);
    // A second insert of the same block changes nothing.
    let mut again = DBTransaction::new();
    assert_eq!(chain.insert_block(&mut again, &b, &vec![0xbb], vec![], &Open), ImportRoute::none());
    assert!(again.ops.is_empty());
}

#[test]
fn state_journal_rows() {
    let mut db = StateDB::new(h(7));
    assert!(db.contains(&h(7)));
    assert!(db.clone_at(&h(8)).is_none());
    let mut state = db.clone_at(&h(7)).unwrap();
    assert_eq!(state.root(), h(7));
    state.apply(&Open, &Transaction { seq: 0, fee: 1, payload: h(0) }).unwrap();
    let state = TopLevelState { base: h(7), changes: vec![h(8), h(9)] };
    assert_eq!(state.root(), h(9));
    let mut batch = DBTransaction::new();
    db.journal_under(&mut batch, &state, 5);
    let key = |root: u64| {
        let mut k = 5u64.to_be_bytes().to_vec();
        k.extend_from_slice(&h(root).to_bytes());
        k
    };
    let expected = vec![
        insert((COL_STATE, key(8), h(7).to_bytes())),
        insert((COL_STATE, key(9), h(8).to_bytes())),
    ];
    assert!(batch.ops == expected);
    assert!(db.contains(&h(9)));
    assert!(!db.contains(&h(8)));
    assert_eq!(db.hot_root(), None);
    db.override_state(&state);
    assert_eq!(db.hot_root(), Some(h(9)));
}

#[test]
fn database_buffers_until_flush() {
    let mut db = Database::new();
    let mut one = DBTransaction::new();
    one.put(0, b"k", b"v");
    db.write_buffered(one.clone());
    db.write_buffered(DBTransaction::new());
    assert_eq!(db.buffered.len(), 2);
    assert!(db.durable.is_empty());
    db.flush();
    assert!(db.buffered.is_empty());
    assert_eq!(db.durable.len(), 2);
    assert!(db.durable[0] == one);
}

#[test]
fn queue_drains_in_order_and_tracks_marks() {
    let mut queue = HeaderQueue::new();
    let a = child(2, &genesis(), 1);
    let b = child(3, &a, 1);
    let c = child(4, &b, 1);
    for header in [a, b, c] {
        queue.push(header);
    }
    assert_eq!(queue.drain(2), vec![a, b]);
    assert_eq!(queue.verified, vec![c]);
    assert_eq!(queue.processing, vec![a.hash, b.hash]);
    queue.mark_as_bad(&vec![b.hash]);
    assert_eq!(queue.bad, vec![b.hash]);
    assert_eq!(queue.processing, vec![a.hash]);
    assert!(!queue.mark_as_good(&vec![a.hash]));
    assert_eq!(queue.drain(10), vec![c]);
    assert!(queue.mark_as_good(&vec![c.hash]));
    assert_eq!(queue.drain(10), vec![]);

    let mut blocks = BlockQueue::new();
    assert!(blocks.drain(5).is_empty());
    assert!(blocks.mark_as_good(&vec![]));
}

#[test]
fn block_hash_by_number_follows_the_canonical_chain() {
    let mut chain = BlockChain::new(genesis(), vec![]);
    let a = child(2, &genesis(), 1);
    let b = child(3, &a, 1);
    let x = child(12, &a, 5);
    let mut batch = DBTransaction::new();
    for header in [a, b] {
        chain.insert_header(&mut batch, &header);
    }
    write_and_commit(&mut chain, batch.clone());
    assert_eq!(chain.block_hash(0), Some(genesis().hash));
    assert_eq!(chain.block_hash(1), Some(a.hash));
    assert_eq!(chain.block_hash(2), Some(b.hash));
    assert_eq!(chain.block_hash(3), None);
    chain.insert_header(&mut batch, &x);
    // Not before the commit.
    assert_eq!(chain.block_hash(2), Some(b.hash));
    write_and_commit(&mut chain, batch.clone());
    assert_eq!(chain.block_hash(2), Some(x.hash));
    assert_eq!(chain.block_hash(u64::MAX), None);
}
