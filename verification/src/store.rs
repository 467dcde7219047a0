use crate::addr;
use crate::codec;
use crate::codec::Note;
use crate::error::NoteError;
use vstd::prelude::*;

verus! {

/// One allocated storage cell: the address it sits at, the balance that
/// was paid in for its allocation, and the persisted bytes.
pub struct Account {
    pub address: [u8; 32],
    pub lamports: u64,
    pub data: Vec<u8>,
}

/// The mathematical image of an account: the same three fields as plain
/// sequences and integers.
#[verifier::ext_equal]
pub struct AccountView {
    pub address: Seq<u8>,
    pub lamports: u64,
    pub data: Seq<u8>,
}

impl View for Account {
    type V = AccountView;

    open spec fn view(&self) -> AccountView {
        AccountView { address: self.address@, lamports: self.lamports, data: self.data@ }
    }
}

/// Whether some account in `s` sits at `address`.
pub open spec fn has_account(s: Seq<AccountView>, address: Seq<u8>) -> bool {
    exists|i: int| 0 <= i < s.len() && s[i].address == address
}

/// The index of the account at `address`; meaningful only where
/// `has_account` holds and the addresses in `s` are unique.
pub open spec fn account_index(s: Seq<AccountView>, address: Seq<u8>) -> int {
    choose|i: int| 0 <= i < s.len() && s[i].address == address
}

/// Every account's bytes are a valid persisted note.
pub open spec fn valid_accounts(s: Seq<AccountView>) -> bool {
    forall|i: int| 0 <= i < s.len() ==> codec::is_valid_encoding((#[trigger] s[i]).data)
}

/// No two accounts share an address.
pub open spec fn unique_addresses(s: Seq<AccountView>) -> bool {
    forall|i: int, j: int|
        0 <= i < j < s.len() ==> (#[trigger] s[i]).address != (#[trigger] s[j]).address
}

/// With unique addresses, any index holding `address` is the one that
/// `account_index` picks: lookups are unambiguous.
pub proof fn lemma_index_unique(s: Seq<AccountView>, address: Seq<u8>, i: int)
    requires
        unique_addresses(s),
        0 <= i < s.len(),
        s[i].address == address,
    ensures
        has_account(s, address),
        account_index(s, address) == i,
{
    assert(has_account(s, address));
    let j = account_index(s, address);
    if i < j {
        assert(s[i].address != s[j].address);
    } else if j < i {
        assert(s[j].address != s[i].address);
    }
}

/// The record store: every note account created so far, the program id
/// that addresses are derived under, and the price of storage.
pub struct Store {
    pub program_id: [u8; 32],
    pub rent_per_byte: u64,
    pub accounts: Vec<Account>,
}

impl View for Store {
    type V = Seq<AccountView>;

    open spec fn view(&self) -> Seq<AccountView> {
        self.accounts@.map_values(|a: Account| a@)
    }
}

impl Store {
    /// Internal invariant: every stored byte string is a valid note
    /// encoding, and no address is allocated twice.
    pub open spec fn wf(self) -> bool {
        &&& valid_accounts(self@)
        &&& unique_addresses(self@)
    }

    /// Allocation cost of `size` bytes of storage.
    pub open spec fn spec_cost(self, size: nat) -> int {
        size * self.rent_per_byte
    }

    /// An empty store for the given program id and storage price.
    pub fn new(program_id: [u8; 32], rent_per_byte: u64) -> (r: Store)
        ensures
            r.wf(),
            r@ == Seq::<AccountView>::empty(),
            r.program_id == program_id,
            r.rent_per_byte == rent_per_byte,
    {
        let r = Store { program_id, rent_per_byte, accounts: Vec::new() };
        proof {
            assert(r@ =~= Seq::<AccountView>::empty());
        }
        r
    }

    /// Look up the account sitting at `address`, if any.
    pub fn find_account(&self, address: &[u8; 32]) -> (r: Option<usize>)
        ensures
            match r {
                Some(i) => i < self@.len() && self@[i as int].address == address@,
                None => !has_account(self@, address@),
            },
    {
        let mut i: usize = 0;
        while i < self.accounts.len()
            invariant
                i <= self.accounts@.len(),
                self@.len() == self.accounts@.len(),
                forall|j: int| 0 <= j < i ==> self@[j].address != address@,
            decreases self.accounts@.len() - i,
        {
            if key_eq(&self.accounts[i].address, address) {
                return Some(i);
            }
            i += 1;
        }
        None
    }
    /// Create a note owned by `author` under the caller-chosen `id`.
    ///
    /// The storage address is re-derived here and checked against the
    /// caller-supplied `note_address`: a caller cannot be trusted to
    /// address the record correctly. Storage is allocated sized exactly
    /// to the content, the payer is debited the full allocation cost, and
    /// every check runs before any state is touched, so a failing call
    /// leaves the store and the payer exactly as they were.
    pub fn create_note(
        &mut self,
        author: [u8; 32],
        id: u64,
        content: Vec<u8>,
        note_address: [u8; 32],
        payer_balance: &mut u64,
    ) -> (r: Result<(), NoteError>)
        requires
            old(self).wf(),
            content@.len() + 52 <= u32::MAX,
            old(self).spec_cost(codec::note_space(content@.len())) <= u64::MAX,
        ensures
            final(self).wf(),
            final(self).program_id == old(self).program_id,
            final(self).rent_per_byte == old(self).rent_per_byte,
            r is Err ==> final(self)@ == old(self)@ && *final(payer_balance) == *old(
                payer_balance,
            ),
            ({
                let derivation = addr::spec_derive(
                    addr::spec_note_tag(),
                    author@,
                    id,
                    old(self).program_id@,
                );
                let cost: u64 = old(self).spec_cost(codec::note_space(content@.len())) as u64;
                match derivation {
                    None => r == Err::<(), NoteError>(NoteError::DerivationExhausted),
                    Some((derived, bump)) => {
                        if derived != note_address@ {
                            r == Err::<(), NoteError>(NoteError::AddressMismatch)
                        } else if has_account(old(self)@, derived) {
                            r == Err::<(), NoteError>(NoteError::AlreadyExists)
                        } else if cost > *old(payer_balance) {
                            r == Err::<(), NoteError>(NoteError::InsufficientFunds)
                        } else {
                            &&& r == Ok::<(), NoteError>(())
                            &&& final(self)@ == old(self)@.push(
                                (AccountView {
                                    address: derived,
                                    lamports: cost,
                                    data: codec::spec_encode(author@, id, content@),
                                }),
                            )
                            &&& *final(payer_balance) == *old(payer_balance) - cost
                            &&& final(self)@.last().data.len() == codec::note_space(
                                content@.len(),
                            )
                            &&& has_account(final(self)@, derived)
                        }
                    },
                }
            }),
    {
        let tag = addr::note_tag();
        let derived = addr::derive_address(&tag, &author, id, &self.program_id);
        let pda = match derived {
            Ok(p) => p.0,
            Err(e) => {
                return Err(e);
            },
        };
        if !key_eq(&pda, &note_address) {
            return Err(NoteError::AddressMismatch);
        }
        match self.find_account(&note_address) {
            Some(i) => {
                proof {
                    lemma_index_unique(self@, note_address@, i as int);
                }
                return Err(NoteError::AlreadyExists);
            },
            None => {},
        }
        let size: u64 = 52u64 + (content.len() as u64);
        let cost: u64 = size * self.rent_per_byte;
        if cost > *payer_balance {
            return Err(NoteError::InsufficientFunds);
        }
        *payer_balance = *payer_balance - cost;
        let note = Note { author, id, content };
        let data = codec::encode_note(&note);
        let ghost pre = self@;
        let account = Account { address: note_address, lamports: cost, data };
        let ghost new_view = account@;
        self.accounts.push(account);
        proof {
            codec::lemma_encode_extractors(note.author@, note.id, note.content@);
            assert(self@ =~= pre.push(new_view));
            assert forall|i: int| 0 <= i < self@.len() implies codec::is_valid_encoding(
                (#[trigger] self@[i]).data,
            ) by {
                if i < pre.len() {
                    assert(self@[i] == pre[i]);
                }
            }
            assert forall|i: int, j: int| 0 <= i < j < self@.len() implies (
            #[trigger] self@[i]).address != (#[trigger] self@[j]).address by {
                if j == pre.len() {
                    assert(!has_account(pre, note_address@));
                    assert(pre[i].address != note_address@);
                }
            }
            assert(self@[pre.len() as int].address == note_address@);
        }
        Ok(())
    }

    /// Replace the content of the note at `note_address` with
    /// `new_content`, resizing its storage exactly to fit.
    ///
    /// The storage address is re-derived from the *stored* author and id —
    /// never from caller-supplied ones — and checked against the record's
    /// actual location, and the caller must equal the stored author.
    /// Growth is paid for by the payer (only the missing difference);
    /// shrinkage is not refunded. The author and id bytes are left
    /// bit-identical, and a failing call leaves the store and the payer
    /// exactly as they were.
    pub fn update_note(
        &mut self,
        caller: [u8; 32],
        note_address: [u8; 32],
        new_content: Vec<u8>,
        payer_balance: &mut u64,
    ) -> (r: Result<(), NoteError>)
        requires
            old(self).wf(),
            has_account(old(self)@, note_address@),
            new_content@.len() + 52 <= u32::MAX,
            old(self).spec_cost(codec::note_space(new_content@.len())) <= u64::MAX,
        ensures
            final(self).wf(),
            final(self).program_id == old(self).program_id,
            final(self).rent_per_byte == old(self).rent_per_byte,
            r is Err ==> final(self)@ == old(self)@ && *final(payer_balance) == *old(
                payer_balance,
            ),
            ({
                let k = account_index(old(self)@, note_address@);
                let stored = old(self)@[k];
                let author = codec::enc_author(stored.data);
                let id = codec::enc_id(stored.data);
                let derivation = addr::spec_derive(
                    addr::spec_note_tag(),
                    author,
                    id,
                    old(self).program_id@,
                );
                let cost: u64 = old(self).spec_cost(codec::note_space(new_content@.len())) as u64;
                let delta: u64 = if cost > stored.lamports {
                    (cost - stored.lamports) as u64
                } else {
                    0u64
                };
                match derivation {
                    None => r == Err::<(), NoteError>(NoteError::DerivationExhausted),
                    Some((derived, bump)) => {
                        if derived != note_address@ {
                            r == Err::<(), NoteError>(NoteError::AddressMismatch)
                        } else if caller@ != author {
                            r == Err::<(), NoteError>(NoteError::Unauthorized)
                        } else if delta > *old(payer_balance) {
                            r == Err::<(), NoteError>(NoteError::InsufficientFunds)
                        } else {
                            &&& r == Ok::<(), NoteError>(())
                            &&& final(self)@ == old(self)@.update(
                                k,
                                (AccountView {
                                    address: note_address@,
                                    lamports: (stored.lamports + delta) as u64,
                                    data: codec::spec_encode(author, id, new_content@),
                                }),
                            )
                            &&& *final(payer_balance) == *old(payer_balance) - delta
                            &&& codec::enc_author(final(self)@[k].data) == author
                            &&& codec::enc_id(final(self)@[k].data) == id
                            &&& codec::enc_content(final(self)@[k].data) == new_content@
                            &&& final(self)@[k].data.len() == codec::note_space(new_content@.len())
                        }
                    },
                }
            }),
    {
        let found = self.find_account(&note_address);
        if found.is_none() {
            proof {
                assert(false);
            }
            return Err(NoteError::AddressMismatch);
        }
        let idx = found.unwrap();
        proof {
            lemma_index_unique(self@, note_address@, idx as int);
            assert(self@[idx as int] == self.accounts@[idx as int]@);
        }
        let decoded = codec::decode_note(&self.accounts[idx].data);
        let stored_note = match decoded {
            Some(n) => n,
            None => {
                proof {
                    assert(false);
                }
                return Err(NoteError::AddressMismatch);
            },
        };
        let tag = addr::note_tag();
        let derived = addr::derive_address(
            &tag,
            &stored_note.author,
            stored_note.id,
            &self.program_id,
        );
        let pda = match derived {
            Ok(p) => p.0,
            Err(e) => {
                return Err(e);
            },
        };
        if !key_eq(&pda, &note_address) {
            return Err(NoteError::AddressMismatch);
        }
        if !key_eq(&caller, &stored_note.author) {
            return Err(NoteError::Unauthorized);
        }
        let size: u64 = 52u64 + (new_content.len() as u64);
        let cost: u64 = size * self.rent_per_byte;
        let lamports = self.accounts[idx].lamports;
        let delta: u64 = if cost > lamports {
            cost - lamports
        } else {
            0
        };
        if delta > *payer_balance {
            return Err(NoteError::InsufficientFunds);
        }
        *payer_balance = *payer_balance - delta;
        let new_note = Note {
            author: stored_note.author,
            id: stored_note.id,
            content: new_content,
        };
        let data = codec::encode_note(&new_note);
        let ghost pre = self@;
        let account = Account { address: note_address, lamports: lamports + delta, data };
        let ghost new_view = account@;
        self.accounts[idx] = account;
        proof {
            codec::lemma_encode_extractors(new_note.author@, new_note.id, new_note.content@);
            assert(self@ =~= pre.update(idx as int, new_view));
            assert forall|i: int| 0 <= i < self@.len() implies codec::is_valid_encoding(
                (#[trigger] self@[i]).data,
            ) by {
                if i != idx as int {
                    assert(self@[i] == pre[i]);
                }
            }
            assert(self@[idx as int].address == pre[idx as int].address);
            assert forall|i: int, j: int| 0 <= i < j < self@.len() implies (
            #[trigger] self@[i]).address != (#[trigger] self@[j]).address by {
                assert(self@[i].address == pre[i].address);
                assert(self@[j].address == pre[j].address);
                assert(pre[i].address != pre[j].address);
            }
        }
        Ok(())
    }
}

/// Size invariant: in a well-formed store — and `create_note` and
/// `update_note` keep every store they touch well-formed — each account's
/// allocated size is exactly the 52-byte fixed overhead plus the length
/// of the content stored in it. No slack, no shrink-only policy.
pub proof fn lemma_size_invariant(s: Seq<AccountView>, i: int)
    requires
        valid_accounts(s),
        0 <= i < s.len(),
    ensures
        s[i].data.len() == codec::note_space(codec::enc_content(s[i].data).len()),
{
    assert(codec::is_valid_encoding(s[i].data));
}

/// Byte-for-byte equality of two 32-byte keys.
pub fn key_eq(a: &[u8; 32], b: &[u8; 32]) -> (r: bool)
    ensures
        r == (a@ == b@),
{
    let mut i: usize = 0;
    while i < 32
        invariant
            i <= 32,
            forall|j: int| 0 <= j < i ==> a@[j] == b@[j],
        decreases 32 - i,
    {
        if a[i] != b[i] {
            return false;
        }
        i += 1;
    }
    proof {
        assert(a@ =~= b@);
    }
    true
}

} // verus!
