use solana_notepad::addr;
use solana_notepad::codec;
use solana_notepad::error::NoteError;
use solana_notepad::store::{Account, Store};

const PROGRAM: [u8; 32] = [7u8; 32];
const OWNER_A: [u8; 32] = [1u8; 32];
const OWNER_B: [u8; 32] = [2u8; 32];

fn derived(owner: &[u8; 32], id: u64) -> ([u8; 32], u8) {
    let tag = addr::note_tag();
    addr::derive_address(&tag, owner, id, &PROGRAM).unwrap()
}

#[test]
fn derivation_is_deterministic() {
    let first = derived(&OWNER_A, 1);
    let second = derived(&OWNER_A, 1);
    assert_eq!(first, second);
}

#[test]
fn derivation_matches_host_search() {
    let id: u64 = 42;
    let (address, bump) = derived(&OWNER_A, id);
    let program_key = solana_pubkey::Pubkey::new_from_array(PROGRAM);
    let (expected, expected_bump) = solana_pubkey::Pubkey::find_program_address(
        &[b"note", &OWNER_A, &id.to_le_bytes()],
        &program_key,
    );
    assert_eq!(address, expected.to_bytes());
    assert_eq!(bump, expected_bump);
}

#[test]
fn derivation_distinguishes_inputs() {
    let (a1, _) = derived(&OWNER_A, 1);
    let (a2, _) = derived(&OWNER_A, 2);
    let (b1, _) = derived(&OWNER_B, 1);
    assert_ne!(a1, a2);
    assert_ne!(a1, b1);
}

#[test]
fn scenario_create() {
    let mut store = Store::new(PROGRAM, 1);
    let (address, _bump) = derived(&OWNER_A, 1);
    let mut payer: u64 = 1_000_000;
    let r = store.create_note(OWNER_A, 1, b"hi".to_vec(), address, &mut payer);
    assert_eq!(r, Ok(()));
    assert_eq!(store.accounts.len(), 1);
    assert_eq!(store.accounts[0].address, address);
    assert_eq!(store.accounts[0].data.len(), 54);
    assert_eq!(store.accounts[0].lamports, 54);
    assert_eq!(payer, 1_000_000 - 54);
    let note = codec::decode_note(&store.accounts[0].data).unwrap();
    assert_eq!(note.author, OWNER_A);
    assert_eq!(note.id, 1);
    assert_eq!(note.content, b"hi".to_vec());
}

#[test]
fn scenario_grow() {
    let mut store = Store::new(PROGRAM, 1);
    let (address, _bump) = derived(&OWNER_A, 1);
    let mut payer: u64 = 1_000_000;
    store
        .create_note(OWNER_A, 1, b"hi".to_vec(), address, &mut payer)
        .unwrap();
    let r = store.update_note(OWNER_A, address, b"hello world".to_vec(), &mut payer);
    assert_eq!(r, Ok(()));
    assert_eq!(store.accounts[0].data.len(), 63);
    assert_eq!(store.accounts[0].lamports, 63);
    assert_eq!(payer, 1_000_000 - 63);
    let note = codec::decode_note(&store.accounts[0].data).unwrap();
    assert_eq!(note.author, OWNER_A);
    assert_eq!(note.id, 1);
    assert_eq!(note.content, b"hello world".to_vec());
}

#[test]
fn scenario_shrink() {
    let mut store = Store::new(PROGRAM, 1);
    let (address, _bump) = derived(&OWNER_A, 1);
    let mut payer: u64 = 1_000_000;
    store
        .create_note(OWNER_A, 1, b"hello world".to_vec(), address, &mut payer)
        .unwrap();
    let paid = payer;
    let r = store.update_note(OWNER_A, address, b"hi".to_vec(), &mut payer);
    assert_eq!(r, Ok(()));
    // storage strictly decreases to match the new length
    assert_eq!(store.accounts[0].data.len(), 54);
    // growth is paid, shrinkage is not refunded
    assert_eq!(store.accounts[0].lamports, 63);
    assert_eq!(payer, paid);
    let note = codec::decode_note(&store.accounts[0].data).unwrap();
    assert_eq!(note.content, b"hi".to_vec());
}

#[test]
fn scenario_unauthorized() {
    let mut store = Store::new(PROGRAM, 1);
    let (address, _bump) = derived(&OWNER_A, 1);
    let mut payer: u64 = 1_000_000;
    store
        .create_note(OWNER_A, 1, b"hi".to_vec(), address, &mut payer)
        .unwrap();
    let before = store.accounts[0].data.clone();
    let balance_before = payer;
    let r = store.update_note(OWNER_B, address, b"stolen".to_vec(), &mut payer);
    assert_eq!(r, Err(NoteError::Unauthorized));
    assert_eq!(store.accounts[0].data, before);
    assert_eq!(payer, balance_before);
}

#[test]
fn scenario_duplicate_create() {
    let mut store = Store::new(PROGRAM, 1);
    let (address, _bump) = derived(&OWNER_A, 1);
    let mut payer: u64 = 1_000_000;
    store
        .create_note(OWNER_A, 1, b"hi".to_vec(), address, &mut payer)
        .unwrap();
    let before = store.accounts[0].data.clone();
    let balance_before = payer;
    let r = store.create_note(OWNER_A, 1, b"again".to_vec(), address, &mut payer);
    assert_eq!(r, Err(NoteError::AlreadyExists));
    assert_eq!(store.accounts.len(), 1);
    assert_eq!(store.accounts[0].data, before);
    assert_eq!(payer, balance_before);
}

#[test]
fn create_rejects_spoofed_address() {
    let mut store = Store::new(PROGRAM, 1);
    let mut payer: u64 = 1_000_000;
    let wrong = [9u8; 32];
    let r = store.create_note(OWNER_A, 1, b"hi".to_vec(), wrong, &mut payer);
    assert_eq!(r, Err(NoteError::AddressMismatch));
    assert_eq!(store.accounts.len(), 0);
    assert_eq!(payer, 1_000_000);
}

#[test]
fn update_rejects_misplaced_record() {
    let mut store = Store::new(PROGRAM, 1);
    let (address, _bump) = derived(&OWNER_A, 1);
    let mut payer: u64 = 1_000_000;
    store
        .create_note(OWNER_A, 1, b"hi".to_vec(), address, &mut payer)
        .unwrap();
    // the same record bytes placed at an address the seeds do not derive
    let wrong = [9u8; 32];
    let mut moved = Store {
        program_id: PROGRAM,
        rent_per_byte: 1,
        accounts: vec![Account {
            address: wrong,
            lamports: store.accounts[0].lamports,
            data: store.accounts[0].data.clone(),
        }],
    };
    let before = moved.accounts[0].data.clone();
    let balance_before = payer;
    let r = moved.update_note(OWNER_A, wrong, b"hello".to_vec(), &mut payer);
    assert_eq!(r, Err(NoteError::AddressMismatch));
    assert_eq!(moved.accounts[0].data, before);
    assert_eq!(payer, balance_before);
}

#[test]
fn create_insufficient_funds() {
    let mut store = Store::new(PROGRAM, 1);
    let (address, _bump) = derived(&OWNER_A, 1);
    let mut payer: u64 = 10;
    let r = store.create_note(OWNER_A, 1, b"hi".to_vec(), address, &mut payer);
    assert_eq!(r, Err(NoteError::InsufficientFunds));
    assert_eq!(store.accounts.len(), 0);
    assert_eq!(payer, 10);
}

#[test]
fn update_insufficient_funds_on_grow() {
    let mut store = Store::new(PROGRAM, 1);
    let (address, _bump) = derived(&OWNER_A, 1);
    let mut payer: u64 = 54;
    store
        .create_note(OWNER_A, 1, b"hi".to_vec(), address, &mut payer)
        .unwrap();
    assert_eq!(payer, 0);
    let before = store.accounts[0].data.clone();
    let r = store.update_note(OWNER_A, address, b"hello world".to_vec(), &mut payer);
    assert_eq!(r, Err(NoteError::InsufficientFunds));
    assert_eq!(store.accounts[0].data, before);
    assert_eq!(payer, 0);
}

#[test]
fn create_cost_scales_with_rent() {
    let mut store = Store::new(PROGRAM, 2);
    let (address, _bump) = derived(&OWNER_A, 1);
    let mut payer: u64 = 1_000;
    let r = store.create_note(OWNER_A, 1, b"hi".to_vec(), address, &mut payer);
    assert_eq!(r, Ok(()));
    // 54 bytes at 2 lamports a byte
    assert_eq!(store.accounts[0].lamports, 108);
    assert_eq!(payer, 1_000 - 108);
}

#[test]
fn update_shrink_needs_no_funds() {
    let mut store = Store::new(PROGRAM, 1);
    let (address, _bump) = derived(&OWNER_A, 1);
    let mut payer: u64 = 63;
    store
        .create_note(OWNER_A, 1, b"hello world".to_vec(), address, &mut payer)
        .unwrap();
    assert_eq!(payer, 0);
    let r = store.update_note(OWNER_A, address, b"hi".to_vec(), &mut payer);
    assert_eq!(r, Ok(()));
    assert_eq!(store.accounts[0].data.len(), 54);
    assert_eq!(payer, 0);
}
