//! The record lifecycle over a ledger: accounts held at derived addresses,
//! the reward mint with its program-controlled authority, and the token
//! accounts that receive rewards. Every operation either commits all of its
//! effects or leaves the ledger as it was.

use crate::address::{
    derive_mint_authority, derive_record_address, derived_view, mint_authority_address,
    record_address, DerivedAddress,
};
use crate::layout::{account_data, discriminator_spec, encode_account, ACCOUNT_SPACE};
use crate::state::{
    check_lengths, text_len, utf8_len, validate_lengths, RecordView, StudentAccountState,
    StudentIntroError, MAX_NAME_LENGTH, REWARD_AMOUNT,
};
use vstd::prelude::*;

verus! {

/// A record account: its address, the bump seed that derived it, the record
/// it holds, and that record's bytes as stored.
pub struct IntroAccount {
    pub address: [u8; 32],
    pub bump: u8,
    pub state: StudentAccountState,
    pub data: Vec<u8>,
}

/// A stored record as plain values, with the bump seed of its address.
pub struct StoredView {
    pub bump: u8,
    pub record: RecordView,
}

impl View for IntroAccount {
    type V = StoredView;

    open spec fn view(&self) -> StoredView {
        StoredView { bump: self.bump, record: self.state@ }
    }
}

/// The token account associated with `owner` for the reward mint.
pub struct TokenAccount {
    pub owner: [u8; 32],
    pub amount: u64,
}

/// Decimal places of the reward token.
pub const MINT_DECIMALS: u8 = 6;

/// The reward mint: the authority allowed to issue it, its decimal places,
/// and its supply.
pub struct MintAccount {
    pub authority: DerivedAddress,
    pub decimals: u8,
    pub supply: u64,
}

/// The ledger as plain values.
pub struct LedgerView {
    pub program_id: Seq<u8>,
    /// The minting authority, once the mint is initialized.
    pub mint_authority: Option<(Seq<u8>, u8)>,
    /// Decimal places of the reward token; 0 before the mint is initialized.
    pub decimals: u8,
    pub supply: u64,
    /// Record accounts by address.
    pub records: Map<Seq<u8>, StoredView>,
    /// Reward-token balances by owner.
    pub balances: Map<Seq<u8>, u64>,
}

/// The reward-token balance of `owner`; an account not yet created holds
/// nothing.
pub open spec fn balance_of(l: LedgerView, owner: Seq<u8>) -> u64 {
    if l.balances.contains_key(owner) {
        l.balances[owner]
    } else {
        0
    }
}

/// What reading the record `name` of `owner` gives.
pub open spec fn read_spec(l: LedgerView, owner: Seq<u8>, name: Seq<char>) -> Option<RecordView> {
    match record_address(name, owner, l.program_id) {
        Some((addr, _)) => if l.records.contains_key(addr) {
            Some(l.records[addr].record)
        } else {
            None
        },
        None => None,
    }
}

/// Initializing the mint: its authority is derived from the program alone.
pub open spec fn initialize_mint_outcome(l: LedgerView) -> (LedgerView, Result<(), StudentIntroError>) {
    if l.mint_authority is Some {
        (l, Err(StudentIntroError::AddressAlreadyActive))
    } else {
        match mint_authority_address(l.program_id) {
            None => (l, Err(StudentIntroError::AddressDerivationExhausted)),
            Some(auth) => (
                LedgerView { mint_authority: Some(auth), decimals: MINT_DECIMALS, supply: 0, ..l },
                Ok(()),
            ),
        }
    }
}

/// Creating the record `name` of `caller`: the size checks, a mint to issue
/// from, a derivable and unused address, and room for the reward; then the
/// record is written and the reward issued together.
pub open spec fn add_outcome(l: LedgerView, caller: Seq<u8>, name: Seq<char>, message: Seq<char>) -> (
    LedgerView,
    Result<(), StudentIntroError>,
) {
    if check_lengths(name, message) is Err {
        (l, check_lengths(name, message))
    } else if l.mint_authority is None {
        (l, Err(StudentIntroError::MintNotInitialized))
    } else {
        match record_address(name, caller, l.program_id) {
            None => (l, Err(StudentIntroError::AddressDerivationExhausted)),
            Some((addr, bump)) => if l.records.contains_key(addr) {
                (l, Err(StudentIntroError::AddressAlreadyActive))
            } else if balance_of(l, caller) + REWARD_AMOUNT > u64::MAX || l.supply + REWARD_AMOUNT
                > u64::MAX {
                (l, Err(StudentIntroError::MintOverflow))
            } else {
                (
                    LedgerView {
                        records: l.records.insert(
                            addr,
                            StoredView {
                                bump,
                                record: RecordView { owner: caller, name, message },
                            },
                        ),
                        balances: l.balances.insert(
                            caller,
                            (balance_of(l, caller) + REWARD_AMOUNT) as u64,
                        ),
                        supply: (l.supply + REWARD_AMOUNT) as u64,
                        ..l
                    },
                    Ok(()),
                )
            },
        }
    }
}

/// The checks shared by update and delete: a record written by `caller`
/// lives at the address of `name`. Where no address can be derived for a
/// name over its limit, that name names no record and is not found.
pub open spec fn locate_owned(l: LedgerView, caller: Seq<u8>, name: Seq<char>) -> Result<Seq<u8>, StudentIntroError> {
    match record_address(name, caller, l.program_id) {
        None => if utf8_len(name) > MAX_NAME_LENGTH {
            Err(StudentIntroError::RecordNotFound)
        } else {
            Err(StudentIntroError::AddressDerivationExhausted)
        },
        Some((addr, _)) => if !l.records.contains_key(addr) {
            Err(StudentIntroError::RecordNotFound)
        } else if l.records[addr].record.owner != caller {
            Err(StudentIntroError::NotOwner)
        } else {
            Ok(addr)
        },
    }
}

/// Updating the record `name` of `caller`: the record must exist and be
/// `caller`'s, then the size checks; then only its message is replaced.
pub open spec fn update_outcome(l: LedgerView, caller: Seq<u8>, name: Seq<char>, message: Seq<char>) -> (
    LedgerView,
    Result<(), StudentIntroError>,
) {
    match locate_owned(l, caller, name) {
        Err(e) => (l, Err(e)),
        Ok(addr) => if check_lengths(name, message) is Err {
            (l, check_lengths(name, message))
        } else {
            let old = l.records[addr];
            (
                LedgerView {
                    records: l.records.insert(
                        addr,
                        StoredView { record: RecordView { message, ..old.record }, ..old },
                    ),
                    ..l
                },
                Ok(()),
            )
        },
    }
}

/// Deleting the record `name` of `caller`: its account is closed.
pub open spec fn delete_outcome(l: LedgerView, caller: Seq<u8>, name: Seq<char>) -> (
    LedgerView,
    Result<(), StudentIntroError>,
) {
    match locate_owned(l, caller, name) {
        Err(e) => (l, Err(e)),
        Ok(addr) => (LedgerView { records: l.records.remove(addr), ..l }, Ok(())),
    }
}

/// Compares two keys byte by byte.
pub fn same_key(a: &[u8; 32], b: &[u8; 32]) -> (r: bool)
    ensures
        r == (a@ == b@),
{
    let mut i: usize = 0;
    while i < 32
        invariant
            i <= 32,
            forall|k: int| 0 <= k < i ==> a@[k] == b@[k],
        decreases 32 - i,
    {
        if a[i] != b[i] {
            return false;
        }
        i = i + 1;
    }
    assert(a@ =~= b@);
    true
}

/// The record accounts are the record map: one account per address.
pub closed spec fn intros_match(intros: Seq<IntroAccount>, records: Map<Seq<u8>, StoredView>) -> bool {
    &&& forall|i: int|
        0 <= i < intros.len() ==> {
            &&& records.contains_key(#[trigger] intros[i].address@)
            &&& records[intros[i].address@] == intros[i]@
        }
    &&& forall|a: Seq<u8>|
        #[trigger] records.contains_key(a) ==> exists|i: int|
            0 <= i < intros.len() && #[trigger] intros[i].address@ == a
    &&& forall|i: int, j: int|
        0 <= i < intros.len() && 0 <= j < intros.len() && i != j
            ==> #[trigger] intros[i].address@ != #[trigger] intros[j].address@
    &&& forall|i: int|
        0 <= i < intros.len() ==> {
            &&& (#[trigger] intros[i]).state.within_limits()
            &&& intros[i].data@ == account_data(discriminator_spec(), intros[i].state@)
            &&& intros[i].data@.len() == ACCOUNT_SPACE
        }
}

/// The token accounts are the balance map: one account per owner.
pub closed spec fn tokens_match(tokens: Seq<TokenAccount>, balances: Map<Seq<u8>, u64>) -> bool {
    &&& forall|i: int|
        0 <= i < tokens.len() ==> {
            &&& balances.contains_key(#[trigger] tokens[i].owner@)
            &&& balances[tokens[i].owner@] == tokens[i].amount
        }
    &&& forall|a: Seq<u8>|
        #[trigger] balances.contains_key(a) ==> exists|i: int|
            0 <= i < tokens.len() && #[trigger] tokens[i].owner@ == a
    &&& forall|i: int, j: int|
        0 <= i < tokens.len() && 0 <= j < tokens.len() && i != j
            ==> #[trigger] tokens[i].owner@ != #[trigger] tokens[j].owner@
}

/// The record accounts, the reward mint and the token accounts of one program.
pub struct Ledger {
    program_id: [u8; 32],
    mint: Option<MintAccount>,
    intros: Vec<IntroAccount>,
    tokens: Vec<TokenAccount>,
    records: Ghost<Map<Seq<u8>, StoredView>>,
    balances: Ghost<Map<Seq<u8>, u64>>,
}

impl View for Ledger {
    type V = LedgerView;

    closed spec fn view(&self) -> LedgerView {
        LedgerView {
            program_id: self.program_id@,
            mint_authority: match self.mint {
                Some(m) => Some(m.authority@),
                None => None,
            },
            decimals: match self.mint {
                Some(m) => m.decimals,
                None => 0,
            },
            supply: match self.mint {
                Some(m) => m.supply,
                None => 0,
            },
            records: self.records@,
            balances: self.balances@,
        }
    }
}

impl Ledger {
    /// The accounts agree with the maps of the view.
    pub closed spec fn wf(&self) -> bool {
        intros_match(self.intros@, self.records@) && tokens_match(self.tokens@, self.balances@)
    }

    /// An empty ledger for the program `program_id`: no mint, no records, no
    /// token accounts.
    pub fn new(program_id: [u8; 32]) -> (l: Ledger)
        ensures
            l.wf(),
            l@.program_id == program_id@,
            l@.mint_authority is None,
            l@.decimals == 0,
            l@.supply == 0,
            l@.records == Map::<Seq<u8>, StoredView>::empty(),
            l@.balances == Map::<Seq<u8>, u64>::empty(),
    {
        Ledger {
            program_id,
            mint: None,
            intros: Vec::new(),
            tokens: Vec::new(),
            records: Ghost(Map::empty()),
            balances: Ghost(Map::empty()),
        }
    }

    fn find_intro(&self, addr: &[u8; 32]) -> (r: Option<usize>)
        requires
            self.wf(),
        ensures
            match r {
                Some(i) => i < self.intros@.len() && self.intros@[i as int].address@ == addr@,
                None => !self.records@.contains_key(addr@),
            },
    {
        let mut i: usize = 0;
        while i < self.intros.len()
            invariant
                i <= self.intros@.len(),
                forall|k: int| 0 <= k < i ==> self.intros@[k].address@ != addr@,
            decreases self.intros@.len() - i,
        {
            if same_key(&self.intros[i].address, addr) {
                return Some(i);
            }
            i = i + 1;
        }
        None
    }

    fn find_token(&self, owner: &[u8; 32]) -> (r: Option<usize>)
        requires
            self.wf(),
        ensures
            match r {
                Some(i) => i < self.tokens@.len() && self.tokens@[i as int].owner@ == owner@,
                None => !self.balances@.contains_key(owner@),
            },
    {
        let mut i: usize = 0;
        while i < self.tokens.len()
            invariant
                i <= self.tokens@.len(),
                forall|k: int| 0 <= k < i ==> self.tokens@[k].owner@ != owner@,
            decreases self.tokens@.len() - i,
        {
            if same_key(&self.tokens[i].owner, owner) {
                return Some(i);
            }
            i = i + 1;
        }
        None
    }

    /// Gives the mint its authority, derived from the seed `"mint"` and the
    /// program alone, and `MINT_DECIMALS` decimal places, with nothing issued
    /// yet.
    pub fn initialize_token_mint(&mut self) -> (r: Result<(), StudentIntroError>)
        requires
            old(self).wf(),
        ensures
            final(self).wf(),
            (final(self)@, r) == initialize_mint_outcome(old(self)@),
    {
        if self.mint.is_some() {
            return Err(StudentIntroError::AddressAlreadyActive);
        }
        match derive_mint_authority(&self.program_id) {
            None => Err(StudentIntroError::AddressDerivationExhausted),
            Some(authority) => {
                self.mint = Some(MintAccount { authority, decimals: MINT_DECIMALS, supply: 0 });
                Ok(())
            },
        }
    }

    /// Issues the reward to the token account of `owner`, creating that
    /// account first where it does not exist. The mint accepts only its own
    /// authority; on overflow of a balance or of the supply nothing changes.
    fn issue_reward(&mut self, owner: &[u8; 32], authority: DerivedAddress) -> (r: Result<(), StudentIntroError>)
        requires
            old(self).wf(),
            old(self)@.mint_authority == Some(authority@),
        ensures
            final(self).wf(),
            r is Ok <==> balance_of(old(self)@, owner@) + REWARD_AMOUNT <= u64::MAX
                && old(self)@.supply + REWARD_AMOUNT <= u64::MAX,
            r is Ok ==> final(self)@ == (LedgerView {
                balances: old(self)@.balances.insert(
                    owner@,
                    (balance_of(old(self)@, owner@) + REWARD_AMOUNT) as u64,
                ),
                supply: (old(self)@.supply + REWARD_AMOUNT) as u64,
                ..old(self)@
            }),
            r is Err ==> r == Err::<(), StudentIntroError>(StudentIntroError::MintOverflow)
                && final(self)@ == old(self)@,
    {
        let (supply, decimals): (u64, u8) = match &self.mint {
            Some(m) => (m.supply, m.decimals),
            None => (0, 0),
        };
        if supply > u64::MAX - REWARD_AMOUNT {
            return Err(StudentIntroError::MintOverflow);
        }
        match self.find_token(owner) {
            Some(i) => {
                let current = self.tokens[i].amount;
                if current > u64::MAX - REWARD_AMOUNT {
                    return Err(StudentIntroError::MintOverflow);
                }
                let ghost old_tokens = self.tokens@;
                let updated: u64 = current + REWARD_AMOUNT;
                self.tokens[i].amount = updated;
                self.balances = Ghost(self.balances@.insert(owner@, updated));
                proof {
                    assert forall|a: Seq<u8>| #[trigger] self.balances@.contains_key(a) implies exists|k: int|
                        0 <= k < self.tokens@.len() && #[trigger] self.tokens@[k].owner@ == a by {
                        if a != owner@ {
                            let k = choose|k: int| 0 <= k < old_tokens.len() && #[trigger] old_tokens[k].owner@ == a;
                            assert(self.tokens@[k].owner@ == a);
                        } else {
                            assert(self.tokens@[i as int].owner@ == a);
                        }
                    }
                }
            },
            None => {
                let ghost old_tokens = self.tokens@;
                self.tokens.push(TokenAccount { owner: *owner, amount: REWARD_AMOUNT });
                self.balances = Ghost(self.balances@.insert(owner@, REWARD_AMOUNT));
                proof {
                    let n = old_tokens.len() as int;
                    assert(self.tokens@[n].owner@ == owner@);
                    assert forall|k: int| 0 <= k < n implies #[trigger] old_tokens[k].owner@ != owner@ by {
                        assert(old_tokens[k] == self.tokens@[k]);
                    }
                    assert forall|a: Seq<u8>| #[trigger] self.balances@.contains_key(a) implies exists|k: int|
                        0 <= k < self.tokens@.len() && #[trigger] self.tokens@[k].owner@ == a by {
                        if a != owner@ {
                            let k = choose|k: int| 0 <= k < old_tokens.len() && #[trigger] old_tokens[k].owner@ == a;
                            assert(self.tokens@[k].owner@ == a);
                        }
                    }
                }
            },
        }
        self.mint = Some(MintAccount { authority, decimals, supply: supply + REWARD_AMOUNT });
        Ok(())
    }

    /// Creates the record `name` of `caller` holding `message`, and issues
    /// the reward to `caller`. Refused, with nothing changed, when the name or
    /// the message is over its limit, the mint is not initialized, no address
    /// can be derived, a record already lives at the address, or the reward
    /// would overflow.
    pub fn add_student_intro(&mut self, caller: [u8; 32], name: String, message: String) -> (r: Result<(), StudentIntroError>)
        requires
            old(self).wf(),
        ensures
            final(self).wf(),
            (final(self)@, r) == add_outcome(old(self)@, caller@, name@, message@),
    {
        match validate_lengths(&name, &message) {
            Ok(()) => {},
            Err(e) => return Err(e),
        }
        let authority = match &self.mint {
            Some(m) => m.authority,
            None => return Err(StudentIntroError::MintNotInitialized),
        };
        let derived = match derive_record_address(&name, &caller, &self.program_id) {
            Some(d) => d,
            None => return Err(StudentIntroError::AddressDerivationExhausted),
        };
        if self.find_intro(&derived.address).is_some() {
            return Err(StudentIntroError::AddressAlreadyActive);
        }
        match self.issue_reward(&caller, authority) {
            Ok(()) => {},
            Err(e) => return Err(e),
        }
        let ghost old_intros = self.intros@;
        let ghost addr = derived.address@;
        let state = StudentAccountState { owner: caller, name, message };
        let data = encode_account(&state);
        let account = IntroAccount { address: derived.address, bump: derived.bump, state, data };
        let ghost entry = account@;
        self.intros.push(account);
        self.records = Ghost(self.records@.insert(addr, entry));
        proof {
            let n = old_intros.len() as int;
            assert(self.intros@[n].address@ == addr);
            assert forall|k: int| 0 <= k < n implies #[trigger] old_intros[k].address@ != addr by {
                assert(old_intros[k] == self.intros@[k]);
            }
            assert forall|a: Seq<u8>| #[trigger] self.records@.contains_key(a) implies exists|k: int|
                0 <= k < self.intros@.len() && #[trigger] self.intros@[k].address@ == a by {
                if a != addr {
                    let k = choose|k: int| 0 <= k < old_intros.len() && #[trigger] old_intros[k].address@ == a;
                    assert(self.intros@[k].address@ == a);
                }
            }
        }
        Ok(())
    }

    /// Finds the record `name` of `caller`, which must exist and have been
    /// written by `caller`.
    fn locate(&self, caller: &[u8; 32], name: &String) -> (r: Result<usize, StudentIntroError>)
        requires
            self.wf(),
        ensures
            match r {
                Ok(i) => i < self.intros@.len() && locate_owned(self@, caller@, name@) == Ok::<
                    Seq<u8>,
                    StudentIntroError,
                >(self.intros@[i as int].address@),
                Err(e) => locate_owned(self@, caller@, name@) == Err::<Seq<u8>, StudentIntroError>(e),
            },
    {
        let derived = match derive_record_address(name, caller, &self.program_id) {
            Some(d) => d,
            None => {
                if text_len(name) > MAX_NAME_LENGTH {
                    return Err(StudentIntroError::RecordNotFound);
                }
                return Err(StudentIntroError::AddressDerivationExhausted);
            },
        };
        match self.find_intro(&derived.address) {
            None => Err(StudentIntroError::RecordNotFound),
            Some(i) => {
                assert(self.records@[self.intros@[i as int].address@] == self.intros@[i as int]@);
                if same_key(&self.intros[i].state.owner, caller) {
                    Ok(i)
                } else {
                    Err(StudentIntroError::NotOwner)
                }
            },
        }
    }

    /// Replaces the message of the record `name` of `caller`; its name and
    /// owner stay. Refused, with nothing changed, when the name or the message
    /// is over its limit, no address can be derived, no record lives at the
    /// address, or another owner wrote it.
    pub fn update_student_intro(&mut self, caller: [u8; 32], name: String, message: String) -> (r: Result<(), StudentIntroError>)
        requires
            old(self).wf(),
        ensures
            final(self).wf(),
            (final(self)@, r) == update_outcome(old(self)@, caller@, name@, message@),
    {
        let i = match self.locate(&caller, &name) {
            Ok(i) => i,
            Err(e) => return Err(e),
        };
        match validate_lengths(&name, &message) {
            Ok(()) => {},
            Err(e) => return Err(e),
        }
        let ghost old_intros = self.intros@;
        let ghost addr = self.intros@[i as int].address@;
        assert(self.intros@[i as int].state.within_limits());
        self.intros[i].state.message = message;
        let data = encode_account(&self.intros[i].state);
        self.intros[i].data = data;
        let ghost entry = self.intros@[i as int]@;
        self.records = Ghost(self.records@.insert(addr, entry));
        proof {
            assert forall|k: int| 0 <= k < self.intros@.len() && k != i implies #[trigger] self.intros@[k]
                == old_intros[k] by {}
            assert forall|a: Seq<u8>| #[trigger] self.records@.contains_key(a) implies exists|k: int|
                0 <= k < self.intros@.len() && #[trigger] self.intros@[k].address@ == a by {
                let k = choose|k: int| 0 <= k < old_intros.len() && #[trigger] old_intros[k].address@ == a;
                assert(self.intros@[k].address@ == a);
            }
        }
        Ok(())
    }

    /// Closes the record `name` of `caller`. Refused, with nothing changed,
    /// when no address can be derived, no record lives at the address, or
    /// another owner wrote it.
    pub fn delete_student_intro(&mut self, caller: [u8; 32], name: String) -> (r: Result<(), StudentIntroError>)
        requires
            old(self).wf(),
        ensures
            final(self).wf(),
            (final(self)@, r) == delete_outcome(old(self)@, caller@, name@),
    {
        let i = match self.locate(&caller, &name) {
            Ok(i) => i,
            Err(e) => return Err(e),
        };
        let ghost old_intros = self.intros@;
        let ghost addr = self.intros@[i as int].address@;
        self.intros.remove(i);
        self.records = Ghost(self.records@.remove(addr));
        proof {
            let n = self.intros@.len() as int;
            assert forall|k: int| 0 <= k < n implies #[trigger] self.intros@[k] == (if k < i {
                old_intros[k]
            } else {
                old_intros[k + 1]
            }) by {}
            assert forall|k: int| 0 <= k < n implies #[trigger] self.intros@[k].address@ != addr by {
                if k < i {
                    assert(old_intros[k].address@ != old_intros[i as int].address@);
                } else {
                    assert(old_intros[k + 1].address@ != old_intros[i as int].address@);
                }
            }
            assert forall|a: Seq<u8>| #[trigger] self.records@.contains_key(a) implies exists|k: int|
                0 <= k < self.intros@.len() && #[trigger] self.intros@[k].address@ == a by {
                let k = choose|k: int| 0 <= k < old_intros.len() && #[trigger] old_intros[k].address@ == a;
                if k < i {
                    assert(self.intros@[k].address@ == a);
                } else {
                    assert(k != i);
                    assert(self.intros@[k - 1].address@ == a);
                }
            }
            assert forall|x: int, y: int|
                0 <= x < n && 0 <= y < n && x != y implies #[trigger] self.intros@[x].address@
                != #[trigger] self.intros@[y].address@ by {
                let ox = if x < i { x } else { x + 1 };
                let oy = if y < i { y } else { y + 1 };
                assert(old_intros[ox].address@ != old_intros[oy].address@);
            }
        }
        Ok(())
    }

    /// Reads the record `name` of `owner`, if one lives at its address.
    pub fn read_student_intro(&self, owner: &[u8; 32], name: &String) -> (r: Option<StudentAccountState>)
        requires
            self.wf(),
        ensures
            match r {
                Some(s) => read_spec(self@, owner@, name@) == Some(s@) && s.within_limits(),
                None => read_spec(self@, owner@, name@) is None,
            },
    {
        let derived = match derive_record_address(name, owner, &self.program_id) {
            Some(d) => d,
            None => return None,
        };
        match self.find_intro(&derived.address) {
            None => None,
            Some(i) => {
                assert(self.records@[self.intros@[i as int].address@] == self.intros@[i as int]@);
                Some(self.intros[i].state.duplicate())
            },
        }
    }

    /// The stored bytes of the record `name` of `owner`, if one lives at its
    /// address.
    pub fn read_account_data(&self, owner: &[u8; 32], name: &String) -> (r: Option<Vec<u8>>)
        requires
            self.wf(),
        ensures
            match r {
                Some(d) => read_spec(self@, owner@, name@) is Some && d@ == account_data(
                    discriminator_spec(),
                    read_spec(self@, owner@, name@).unwrap(),
                ) && d@.len() == ACCOUNT_SPACE,
                None => read_spec(self@, owner@, name@) is None,
            },
    {
        let derived = match derive_record_address(name, owner, &self.program_id) {
            Some(d) => d,
            None => return None,
        };
        match self.find_intro(&derived.address) {
            None => None,
            Some(i) => {
                assert(self.records@[self.intros@[i as int].address@] == self.intros@[i as int]@);
                Some(self.intros[i].data.clone())
            },
        }
    }

    /// The reward-token balance of `owner`.
    pub fn token_balance(&self, owner: &[u8; 32]) -> (n: u64)
        requires
            self.wf(),
        ensures
            n == balance_of(self@, owner@),
    {
        match self.find_token(owner) {
            Some(i) => self.tokens[i].amount,
            None => 0,
        }
    }

    /// The reward tokens issued so far.
    pub fn mint_supply(&self) -> (n: u64)
        ensures
            n == self@.supply,
    {
        match &self.mint {
            Some(m) => m.supply,
            None => 0,
        }
    }

    /// Decimal places of the reward token; 0 before the mint is initialized.
    pub fn mint_decimals(&self) -> (n: u8)
        ensures
            n == self@.decimals,
    {
        match &self.mint {
            Some(m) => m.decimals,
            None => 0,
        }
    }

    /// The minting authority, once the mint is initialized.
    pub fn mint_authority(&self) -> (r: Option<DerivedAddress>)
        ensures
            derived_view(r) == self@.mint_authority,
    {
        match &self.mint {
            Some(m) => Some(m.authority),
            None => None,
        }
    }
}

} // verus!
