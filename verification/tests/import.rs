use std::cell::RefCell;

use block_import::block::{enact, EnactError, LockedBlock};
use block_import::client::{Client, Notification, NotifyKind};
use block_import::engine::{CodeChainEngine, CommonParams, TransitionError};
use block_import::hash::{H160, H256};
use block_import::header::{Header, Invoice, PreverifiedBlock, Transaction};
use block_import::importer::Importer;
use block_import::pass::{BlockError, ImportError};
use block_import::route::ImportRoute;
use block_import::state::TopLevelState;
use block_import::verification::{FamilyError, FinalError, Verifier};

fn h(n: u64) -> H256 {
    H256::from_low_u64(n)
}

/// An engine for the scenarios: it refuses the headers it was told to
/// refuse, and it moves the state root by the fee of each transaction.
struct ScenarioEngine {
    refuse_family: Vec<H256>,
    refuse_external: Vec<H256>,
    refuse_lead: Vec<H256>,
    family_calls: RefCell<Vec<H256>>,
}

impl ScenarioEngine {
    fn new() -> Self {
        ScenarioEngine {
            refuse_family: vec![],
            refuse_external: vec![],
            refuse_lead: vec![],
            family_calls: RefCell::new(vec![]),
        }
    }
}

fn step(root: H256, tx: Transaction) -> Result<(H256, Invoice), TransitionError> {
    if tx.fee == 0 {
        Err(TransitionError::Fault)
    } else if tx.seq >= 100 {
        Err(TransitionError::LimitReached)
    } else {
        let invoice = if tx.fee % 2 == 0 { Invoice::Success } else { Invoice::Failure };
        Ok((H256(root.0, root.1, root.2, root.3.wrapping_add(tx.fee)), invoice))
    }
}

impl CodeChainEngine for ScenarioEngine {
    fn family_rule(&self, header: Header, _parent: Header) -> bool {
        !self.refuse_family.contains(&header.hash)
    }

    fn external_rule(&self, header: Header) -> bool {
        !self.refuse_external.contains(&header.hash)
    }

    fn may_lead(&self, header: Header) -> bool {
        !self.refuse_lead.contains(&header.hash)
    }

    fn transition(&self, state_root: H256, tx: Transaction) -> Result<(H256, Invoice), TransitionError> {
        step(state_root, tx)
    }

    fn verify_block_family(&self, header: &Header, _parent: &Header) -> bool {
        self.family_calls.borrow_mut().push(header.hash);
        !self.refuse_family.contains(&header.hash)
    }

    fn verify_block_external(&self, header: &Header) -> bool {
        !self.refuse_external.contains(&header.hash)
    }

    fn can_change_canon_chain(&self, header: &Header) -> bool {
        !self.refuse_lead.contains(&header.hash)
    }

    fn execute(&self, state_root: &H256, tx: &Transaction) -> Result<(H256, Invoice), TransitionError> {
        step(*state_root, *tx)
    }
}

const GENESIS_ROOT: u64 = 1_000;

fn header(hash: u64, parent: &Header, score: u64) -> Header {
    Header {
        hash: h(hash),
        parent_hash: parent.hash,
        number: parent.number + 1,
        timestamp: parent.timestamp + 10,
        author: H160([0u8; 20]),
        state_root: parent.state_root,
        transactions_root: h(0),
        score,
        seal_fields: [0; 4],
        extra: [0u8; 32],
    }
}

fn genesis() -> Header {
    Header {
        hash: h(1),
        parent_hash: h(0),
        number: 0,
        timestamp: 0,
        author: H160([0u8; 20]),
        state_root: h(GENESIS_ROOT),
        transactions_root: h(0),
        score: 1,
        seal_fields: [0; 4],
        extra: [0u8; 32],
    }
}

fn block(header: Header) -> PreverifiedBlock {
    PreverifiedBlock { header, transactions: vec![], bytes: vec![0xb1, header.hash.3 as u8] }
}

fn block_with(header: Header, fees: &[u64]) -> PreverifiedBlock {
    let transactions: Vec<Transaction> = fees
        .iter()
        .enumerate()
        .map(|(i, fee)| Transaction { seq: i as u64, fee: *fee, payload: h(0) })
        .collect();
    let mut header = header;
    let mut root = header.state_root;
    for tx in &transactions {
        root = H256(root.0, root.1, root.2, root.3.wrapping_add(tx.fee));
    }
    header.state_root = root;
    PreverifiedBlock { header, transactions, bytes: vec![0xb2, header.hash.3 as u8] }
}

fn params() -> CommonParams {
    CommonParams { max_body_size: 1_000, max_transactions: 10 }
}

fn setup(engine: ScenarioEngine) -> (Importer<ScenarioEngine>, Client) {
    let importer = Importer::try_new(engine).unwrap();
    let client = Client::new(genesis(), vec![0x67], params());
    (importer, client)
}

fn import_blocks(
    importer: &mut Importer<ScenarioEngine>,
    client: &mut Client,
    blocks: Vec<PreverifiedBlock>,
) -> Result<usize, ImportError> {
    for b in blocks {
        importer.block_queue.push(b);
    }
    importer.import_verified_blocks(client)
}

fn import_headers(
    importer: &mut Importer<ScenarioEngine>,
    client: &mut Client,
    headers: Vec<Header>,
) -> Result<usize, ImportError> {
    for header in headers {
        importer.header_queue.push(header);
    }
    importer.import_verified_headers_from_queue(client)
}

fn last_of(client: &Client, kind: NotifyKind) -> Option<&Notification> {
    client.notifications.iter().rev().find(|n| n.kind == kind)
}

#[test]
fn linear_extension() {
    let (mut importer, mut client) = setup(ScenarioEngine::new());
    let a = header(2, &genesis(), 1);
    assert_eq!(import_blocks(&mut importer, &mut client, vec![block(a)]), Ok(1));

    let note = last_of(&client, NotifyKind::NewBlocks).unwrap();
    assert_eq!(note.imported, vec![a.hash]);
    assert_eq!(note.invalid, Vec::<H256>::new());
    assert_eq!(note.enacted, vec![a.hash]);
    assert_eq!(note.retracted, Vec::<H256>::new());
    assert_eq!(note.sealed, Vec::<H256>::new());
    assert_eq!(client.chain.best_block_hash(), a.hash);
    assert_eq!(client.chain.best_proposal_header().hash, a.hash);

    let miner = last_of(&client, NotifyKind::ChainNewBlocks).unwrap();
    assert_eq!(miner.imported, note.imported);
    assert_eq!(miner.enacted, note.enacted);
    // The header pass came first, then the miner, then the subscribers.
    let kinds: Vec<NotifyKind> = client.notifications.iter().map(|n| n.kind).collect();
    assert_eq!(
        kinds,
        vec![NotifyKind::NewHeaders, NotifyKind::ChainNewBlocks, NotifyKind::NewBlocks]
    );
    assert!(!importer.import_lock.held());
    assert!(client.db.buffered.is_empty());
    assert_eq!(client.db.durable.len(), 2);
    assert_eq!(importer.block_queue.processing, Vec::<H256>::new());
}

#[test]
fn reorg_in_one_pass() {
    let (mut importer, mut client) = setup(ScenarioEngine::new());
    let a = header(2, &genesis(), 1);
    let b = header(3, &a, 1);
    assert_eq!(import_blocks(&mut importer, &mut client, vec![block(a), block(b)]), Ok(2));
    assert_eq!(client.chain.best_block_hash(), b.hash);

    let a2 = header(12, &genesis(), 5);
    let b2 = header(13, &a2, 1);
    assert_eq!(import_blocks(&mut importer, &mut client, vec![block(a2), block(b2)]), Ok(2));

    let note = last_of(&client, NotifyKind::NewBlocks).unwrap();
    assert_eq!(note.imported, vec![a2.hash, b2.hash]);
    assert_eq!(note.enacted, vec![a2.hash, b2.hash]);
    assert_eq!(note.retracted, vec![a.hash, b.hash]);
    assert_eq!(client.chain.best_block_hash(), b2.hash);
}

#[test]
fn reorg_over_two_passes() {
    let (mut importer, mut client) = setup(ScenarioEngine::new());
    let a = header(2, &genesis(), 2);
    let b = header(3, &a, 2);
    assert_eq!(import_blocks(&mut importer, &mut client, vec![block(a), block(b)]), Ok(2));

    // The first block of the other branch does not outweigh the chain.
    let a2 = header(12, &genesis(), 3);
    assert_eq!(import_blocks(&mut importer, &mut client, vec![block(a2)]), Ok(1));
    let first = last_of(&client, NotifyKind::NewBlocks).unwrap();
    assert_eq!(first.imported, vec![a2.hash]);
    assert_eq!(first.enacted, Vec::<H256>::new());
    assert_eq!(first.retracted, Vec::<H256>::new());
    assert_eq!(client.chain.best_block_hash(), b.hash);

    // The second one does.
    let b2 = header(13, &a2, 3);
    assert_eq!(import_blocks(&mut importer, &mut client, vec![block(b2)]), Ok(1));
    let second = last_of(&client, NotifyKind::NewBlocks).unwrap();
    assert_eq!(second.enacted, vec![a2.hash, b2.hash]);
    assert_eq!(second.retracted, vec![a.hash, b.hash]);
    assert_eq!(client.chain.best_block_hash(), b2.hash);
}

#[test]
fn bad_descendant() {
    let mut engine = ScenarioEngine::new();
    let x = header(2, &genesis(), 1);
    let y = header(3, &x, 1);
    engine.refuse_family = vec![x.hash];
    let (mut importer, mut client) = setup(engine);
    assert_eq!(import_blocks(&mut importer, &mut client, vec![block(x), block(y)]), Ok(0));

    assert_eq!(importer.block_queue.bad, vec![x.hash, y.hash]);
    assert_eq!(importer.header_queue.bad, vec![x.hash, y.hash]);
    assert_eq!(client.chain.best_block_hash(), genesis().hash);
    assert!(last_of(&client, NotifyKind::NewBlocks).is_none());
    let headers = last_of(&client, NotifyKind::NewHeaders).unwrap();
    assert_eq!(headers.imported, Vec::<H256>::new());
    assert_eq!(headers.invalid, vec![x.hash, y.hash]);
    // The family rule was never asked about the descendant.
    assert!(!importer.engine.family_calls.borrow().contains(&y.hash));
    assert!(importer.engine.family_calls.borrow().contains(&x.hash));
}

#[test]
fn duplicate_header() {
    let (mut importer, mut client) = setup(ScenarioEngine::new());
    let a = header(2, &genesis(), 1);
    assert_eq!(import_headers(&mut importer, &mut client, vec![a]), Ok(1));
    let c = header(3, &a, 1);
    assert_eq!(import_headers(&mut importer, &mut client, vec![a, c]), Ok(1));

    let note = last_of(&client, NotifyKind::NewHeaders).unwrap();
    assert_eq!(note.imported, vec![c.hash]);
    assert_eq!(note.invalid, Vec::<H256>::new());
    assert_eq!(note.enacted, vec![c.hash]);
    assert_eq!(note.retracted, Vec::<H256>::new());
    assert_eq!(note.best_proposal_header_changed, Some(c.hash));
}

#[test]
fn same_headers_twice_change_nothing() {
    let (mut importer, mut client) = setup(ScenarioEngine::new());
    let a = header(2, &genesis(), 1);
    let b = header(3, &a, 1);
    assert_eq!(import_headers(&mut importer, &mut client, vec![a, b, a, b]), Ok(2));
    let best = client.chain.best_proposal_header().hash;
    assert_eq!(import_headers(&mut importer, &mut client, vec![a, b]), Ok(0));
    assert_eq!(client.chain.best_proposal_header().hash, best);
    let note = last_of(&client, NotifyKind::NewHeaders).unwrap();
    assert_eq!(note.imported, Vec::<H256>::new());
    assert_eq!(note.best_proposal_header_changed, None);
}

#[test]
fn header_pipeline_overtakes_blocks() {
    let (mut importer, mut client) = setup(ScenarioEngine::new());
    let h1 = header(2, &genesis(), 1);
    let h2 = header(3, &h1, 1);
    let h3 = header(4, &h2, 1);
    assert_eq!(import_headers(&mut importer, &mut client, vec![h1, h2, h3]), Ok(3));

    assert_eq!(client.chain.best_proposal_header().hash, h3.hash);
    assert_eq!(client.chain.best_block_hash(), genesis().hash);
    let note = last_of(&client, NotifyKind::NewHeaders).unwrap();
    assert_eq!(note.best_proposal_header_changed, Some(h3.hash));
    assert_eq!(note.imported, vec![h1.hash, h2.hash, h3.hash]);
    assert_eq!(note.enacted, vec![h1.hash, h2.hash, h3.hash]);
    assert!(client.chain.is_known_header(&h3.hash));
    assert!(!client.chain.is_known_body(&h3.hash));
}

#[test]
fn state_root_mismatch() {
    let (mut importer, mut client) = setup(ScenarioEngine::new());
    let mut a = block_with(header(2, &genesis(), 1), &[4, 6]);
    assert_eq!(a.header.state_root, h(GENESIS_ROOT + 10));
    a.header.state_root = h(77);
    let verdict = importer.check_and_close_block(&a, &client);
    assert_eq!(verdict.unwrap_err(), BlockError::Final(FinalError::StateRootMismatch));

    let hash = a.header.hash;
    assert_eq!(import_blocks(&mut importer, &mut client, vec![a]), Ok(0));
    assert_eq!(importer.block_queue.bad, vec![hash]);
    assert!(last_of(&client, NotifyKind::NewBlocks).is_none());
    assert!(last_of(&client, NotifyKind::ChainNewBlocks).is_none());
    assert_eq!(client.chain.best_block_hash(), genesis().hash);
    assert!(client.state_db.contains(&h(GENESIS_ROOT)));
    assert!(!client.state_db.contains(&h(GENESIS_ROOT + 10)));
    assert!(!client.state_db.contains(&h(77)));
    assert_eq!(client.state_db.hot_root(), None);
}

#[test]
fn executed_block_is_committed_with_its_state() {
    let (mut importer, mut client) = setup(ScenarioEngine::new());
    let a = block_with(header(2, &genesis(), 1), &[4, 5]);
    let locked = importer.check_and_close_block(&a, &client).unwrap();
    assert_eq!(locked.invoices, vec![Invoice::Success, Invoice::Failure]);
    assert_eq!(locked.header.state_root, h(GENESIS_ROOT + 9));
    assert_eq!(locked.state.changes, vec![h(GENESIS_ROOT + 4), h(GENESIS_ROOT + 9)]);

    let hash = a.header.hash;
    assert_eq!(import_blocks(&mut importer, &mut client, vec![a]), Ok(1));
    assert!(client.state_db.contains(&h(GENESIS_ROOT + 9)));
    assert_eq!(client.state_db.hot_root(), Some(h(GENESIS_ROOT + 9)));
    assert_eq!(client.chain.best_block_hash(), hash);

    // A child executes on the state of its parent.
    let parent = *client.chain.block_header(&hash).as_ref().unwrap();
    let b = block_with(header(3, &parent, 1), &[2]);
    assert_eq!(b.header.state_root, h(GENESIS_ROOT + 11));
    assert_eq!(import_blocks(&mut importer, &mut client, vec![b]), Ok(1));
    assert_eq!(client.state_db.hot_root(), Some(h(GENESIS_ROOT + 11)));
}

#[test]
fn every_stage_has_its_error() {
    let mut engine = ScenarioEngine::new();
    let g = genesis();
    engine.refuse_family = vec![h(20)];
    engine.refuse_external = vec![h(21)];
    let (mut importer, mut client) = setup(engine);

    let orphan = header(30, &header(29, &g, 1), 1);
    assert_eq!(
        importer.check_and_close_block(&block(orphan), &client).unwrap_err(),
        BlockError::ParentMissing
    );

    let a = header(2, &g, 1);
    assert_eq!(import_headers(&mut importer, &mut client, vec![a]), Ok(1));
    let child = header(3, &a, 1);
    assert_eq!(
        importer.check_and_close_block(&block(child), &client).unwrap_err(),
        BlockError::ParentBodyMissing
    );

    let mut wrong_number = header(4, &g, 1);
    wrong_number.number = 7;
    assert_eq!(
        importer.check_and_close_block(&block(wrong_number), &client).unwrap_err(),
        BlockError::Family(FamilyError::InvalidNumber)
    );
    let mut late = header(5, &g, 1);
    late.timestamp = 0;
    assert_eq!(
        importer.check_and_close_block(&block(late), &client).unwrap_err(),
        BlockError::Family(FamilyError::InvalidTimestamp)
    );
    let mut large = block(header(6, &g, 1));
    large.bytes = vec![0; 1_001];
    assert_eq!(
        importer.check_and_close_block(&large, &client).unwrap_err(),
        BlockError::Family(FamilyError::BodyTooLarge)
    );
    let crowded = block_with(header(7, &g, 1), &[2; 11]);
    assert_eq!(
        importer.check_and_close_block(&crowded, &client).unwrap_err(),
        BlockError::Family(FamilyError::TooManyTransactions)
    );
    assert_eq!(
        importer.check_and_close_block(&block(header(20, &g, 1)), &client).unwrap_err(),
        BlockError::Family(FamilyError::Engine)
    );
    assert_eq!(
        importer.check_and_close_block(&block(header(21, &g, 1)), &client).unwrap_err(),
        BlockError::External
    );
    // A chain whose state store does not know the state of the genesis.
    let mut stray = g;
    stray.hash = h(40);
    let mut lonely = Client::new(stray, vec![], params());
    lonely.state_db = block_import::state::StateDB::new(h(99));
    let one = Importer::try_new(ScenarioEngine::new()).unwrap();
    assert_eq!(
        one.check_and_close_block(&block(header(41, &stray, 1)), &lonely).unwrap_err(),
        BlockError::StateMissing
    );

    let faulty = block_with(header(9, &g, 1), &[2, 0, 2]);
    assert_eq!(
        importer.check_and_close_block(&faulty, &client).unwrap_err(),
        BlockError::Execution(EnactError::Execution { index: 1 })
    );
    let mut limited = block_with(header(10, &g, 1), &[2, 2]);
    limited.transactions[1].seq = 100;
    assert_eq!(
        importer.check_and_close_block(&limited, &client).unwrap_err(),
        BlockError::Execution(EnactError::ResourceLimit { index: 1 })
    );
    let mut other_root = block(header(11, &g, 1));
    other_root.header.state_root = h(3);
    assert_eq!(
        importer.check_and_close_block(&other_root, &client).unwrap_err(),
        BlockError::Final(FinalError::StateRootMismatch)
    );
}

#[test]
fn final_check_compares_the_observed_fields() {
    let verifier = Verifier::new();
    let a = header(2, &genesis(), 1);
    assert_eq!(verifier.verify_block_final(&a, &a), Ok(()));
    let mut resealed = a;
    resealed.seal_fields = [1, 2, 3, 4];
    resealed.hash = h(50);
    assert_eq!(verifier.verify_block_final(&a, &resealed), Ok(()));
    let mut b = a;
    b.transactions_root = h(9);
    assert_eq!(verifier.verify_block_final(&a, &b), Err(FinalError::TransactionsRootMismatch));
    b.state_root = h(9);
    assert_eq!(verifier.verify_block_final(&a, &b), Err(FinalError::StateRootMismatch));
    let mut c = a;
    c.extra[31] = 1;
    assert_eq!(verifier.verify_block_final(&a, &c), Err(FinalError::HeaderMismatch));
    let mut d = a;
    d.author = H160([1u8; 20]);
    assert_eq!(verifier.verify_block_final(&a, &d), Err(FinalError::HeaderMismatch));
}

#[test]
fn header_family_check_asks_the_engine_alone() {
    let (importer, _client) = setup(ScenarioEngine::new());
    let g = genesis();
    let mut odd = header(2, &g, 1);
    odd.number = 9;
    assert!(importer.check_header(&odd, &g));
    assert_eq!(
        importer.verifier.verify_block_family(&odd, &g, &importer.engine, None, &params()),
        Err(FamilyError::InvalidNumber)
    );
    let fine = header(3, &g, 1);
    assert_eq!(
        importer.verifier.verify_block_family(&fine, &g, &importer.engine, None, &params()),
        Ok(())
    );
}

#[test]
fn missing_parent_ends_the_header_pass() {
    let (mut importer, mut client) = setup(ScenarioEngine::new());
    let a = header(2, &genesis(), 1);
    let b = header(3, &a, 1);
    let c = header(4, &b, 1);
    let notes = client.notifications.len();
    assert_eq!(
        import_headers(&mut importer, &mut client, vec![a, c, b]),
        Err(ImportError::MissingParent { header: c.hash, parent: b.hash })
    );
    // What was committed before stays; nobody is told.
    assert!(client.chain.is_known_header(&a.hash));
    assert!(!client.chain.is_known_header(&b.hash));
    assert_eq!(client.notifications.len(), notes);
    assert!(!importer.import_lock.held());
}

#[test]
fn empty_queue_is_a_no_op() {
    let (mut importer, mut client) = setup(ScenarioEngine::new());
    assert_eq!(importer.import_verified_blocks(&mut client), Ok(0));
    assert!(client.notifications.is_empty());
    assert!(client.db.durable.is_empty() && client.db.buffered.is_empty());
    assert_eq!(importer.import_verified_headers_from_queue(&mut client), Ok(0));
    assert_eq!(client.notifications.len(), 1);
}

#[test]
fn pass_takes_at_most_a_thousand() {
    let (mut importer, mut client) = setup(ScenarioEngine::new());
    let mut parent = genesis();
    for i in 0..1_003u64 {
        let next = header(100 + i, &parent, 1);
        importer.header_queue.push(next);
        parent = next;
    }
    assert_eq!(importer.import_verified_headers_from_queue(&mut client), Ok(1_000));
    assert_eq!(importer.header_queue.verified.len(), 3);
    assert_eq!(importer.import_verified_headers_from_queue(&mut client), Ok(3));
    assert_eq!(client.chain.best_proposal_header().hash, parent.hash);
}

#[test]
fn engine_may_keep_a_block_from_leading() {
    let mut engine = ScenarioEngine::new();
    let a = header(2, &genesis(), 9);
    engine.refuse_lead = vec![a.hash];
    let (mut importer, mut client) = setup(engine);
    assert_eq!(import_blocks(&mut importer, &mut client, vec![block(a)]), Ok(1));
    assert_eq!(client.chain.best_block_hash(), genesis().hash);
    assert_eq!(client.chain.best_proposal_header().hash, a.hash);
    let note = last_of(&client, NotifyKind::NewBlocks).unwrap();
    assert_eq!(note.enacted, Vec::<H256>::new());
    assert_eq!(client.state_db.hot_root(), None);
}

#[test]
fn commit_block_returns_the_route_and_writes_one_batch() {
    let (importer, mut client) = setup(ScenarioEngine::new());
    let a = block_with(header(2, &genesis(), 1), &[2, 4]);
    let locked: LockedBlock = importer.check_and_close_block(&a, &client).unwrap();
    let route = importer.commit_block(&locked, &a.header, &a.bytes, &mut client);
    assert_eq!(
        route,
        ImportRoute { enacted: vec![a.header.hash], retracted: vec![], omitted: vec![] }
    );
    assert_eq!(client.db.buffered.len(), 1);
    // Two journal rows, the header and its pointer, the body, the invoices
    // and the pointer to the best block.
    assert_eq!(client.db.buffered[0].ops.len(), 7);
    assert_eq!(client.chain.block_body(&a.header.hash), Some(a.bytes.clone()));
}

#[test]
fn enact_stops_at_the_first_fault() {
    let engine = ScenarioEngine::new();
    let head = header(2, &genesis(), 1);
    let txs = vec![
        Transaction { seq: 0, fee: 3, payload: h(0) },
        Transaction { seq: 1, fee: 0, payload: h(0) },
        Transaction { seq: 200, fee: 1, payload: h(0) },
    ];
    let state = TopLevelState { base: h(10), changes: vec![] };
    assert_eq!(enact(&head, &txs, &engine, state).unwrap_err(), EnactError::Execution { index: 1 });
    let state = TopLevelState { base: h(10), changes: vec![h(11)] };
    let locked = enact(&head, &txs[..1].to_vec(), &engine, state).unwrap();
    assert_eq!(locked.state.changes, vec![h(11), h(14)]);
    assert_eq!(locked.header.state_root, h(14));
    assert_eq!(locked.invoices, vec![Invoice::Failure]);
}

#[test]
fn imported_block_has_its_header() {
    let (mut importer, mut client) = setup(ScenarioEngine::new());
    let a = header(2, &genesis(), 1);
    let b = header(3, &a, 1);
    assert_eq!(import_blocks(&mut importer, &mut client, vec![block(a), block(b)]), Ok(2));
    let note = last_of(&client, NotifyKind::NewBlocks).unwrap();
    for hash in &note.imported {
        assert!(client.chain.is_known_header(hash));
        assert!(client.chain.is_known_body(hash));
    }
    // The headers were told first, and all of them.
    let headers = last_of(&client, NotifyKind::NewHeaders).unwrap();
    assert_eq!(headers.imported, vec![a.hash, b.hash]);
    assert_eq!(client.chain.block_hash(2), Some(b.hash));
}

#[test]
fn present_block_leaves_the_chain_alone() {
    let (mut importer, mut client) = setup(ScenarioEngine::new());
    let a = header(2, &genesis(), 1);
    assert_eq!(import_blocks(&mut importer, &mut client, vec![block(a)]), Ok(1));
    let locked = importer.check_and_close_block(&block(a), &client).unwrap();
    let route = importer.commit_block(&locked, &a, &block(a).bytes, &mut client);
    assert_eq!(route, ImportRoute::none());
    assert_eq!(client.chain.best_block_hash(), a.hash);
    assert_eq!(client.chain.block_hash(1), Some(a.hash));
    assert_eq!(client.chain.block_hash(2), None);
}

#[test]
fn parent_after_child_is_a_bad_child() {
    let (mut importer, mut client) = setup(ScenarioEngine::new());
    let p = header(2, &genesis(), 1);
    let x = header(3, &p, 1);
    assert_eq!(import_headers(&mut importer, &mut client, vec![p, x]), Ok(2));
    assert_eq!(import_blocks(&mut importer, &mut client, vec![block(x), block(p)]), Ok(1));
    let note = last_of(&client, NotifyKind::NewBlocks).unwrap();
    assert_eq!(note.imported, vec![p.hash]);
    assert_eq!(note.invalid, vec![x.hash]);
    assert_eq!(importer.block_queue.bad, vec![x.hash]);
}
