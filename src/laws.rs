//! Laws of the record lifecycle, stated over the ledger's plain-value model.

use crate::address::record_address;
use crate::program::{
    add_outcome, balance_of, delete_outcome, read_spec, update_outcome, LedgerView,
};
use crate::state::{
    check_lengths, utf8_len, RecordView, StudentIntroError, MAX_MESSAGE_LENGTH, MAX_NAME_LENGTH,
    REWARD_AMOUNT,
};
use vstd::prelude::*;

verus! {

/// A record that was created reads back with exactly the owner, name and
/// message it was created with.
pub proof fn lemma_add_then_read(l: LedgerView, caller: Seq<u8>, name: Seq<char>, message: Seq<char>)
    ensures
        add_outcome(l, caller, name, message).1 is Ok ==> read_spec(
            add_outcome(l, caller, name, message).0,
            caller,
            name,
        ) == Some((RecordView { owner: caller, name, message })),
{
}

/// A name over its limit is refused with `NameTooLong`, and the ledger is
/// left as it was: in particular no record appears at the derived address.
pub proof fn lemma_add_name_too_long(l: LedgerView, caller: Seq<u8>, name: Seq<char>, message: Seq<char>)
    requires
        utf8_len(name) > MAX_NAME_LENGTH,
    ensures
        add_outcome(l, caller, name, message) == (l, Err::<(), StudentIntroError>(StudentIntroError::NameTooLong)),
        read_spec(add_outcome(l, caller, name, message).0, caller, name) == read_spec(l, caller, name),
{
}

/// A message over its limit, under a name within its own, is refused with
/// `MessageTooLong`, and the ledger is left as it was.
pub proof fn lemma_add_message_too_long(l: LedgerView, caller: Seq<u8>, name: Seq<char>, message: Seq<char>)
    requires
        utf8_len(name) <= MAX_NAME_LENGTH,
        utf8_len(message) > MAX_MESSAGE_LENGTH,
    ensures
        add_outcome(l, caller, name, message) == (l, Err::<(), StudentIntroError>(StudentIntroError::MessageTooLong)),
{
}

/// An update replaces the message of the record and nothing else: its name
/// and owner, every other record, and all balances stay.
pub proof fn lemma_update_changes_only_message(l: LedgerView, caller: Seq<u8>, name: Seq<char>, message: Seq<char>)
    ensures
        update_outcome(l, caller, name, message).1 is Ok ==> {
            let after = update_outcome(l, caller, name, message).0;
            let addr = record_address(name, caller, l.program_id).unwrap().0;
            &&& read_spec(l, caller, name) is Some
            &&& read_spec(after, caller, name) == Some(
                (RecordView { message, ..read_spec(l, caller, name).unwrap() }),
            )
            &&& after.records.dom() == l.records.dom()
            &&& forall|a: Seq<u8>| a != addr ==> #[trigger] after.records[a] == l.records[a]
            &&& after.balances == l.balances
            &&& after.supply == l.supply
        },
{
    if update_outcome(l, caller, name, message).1 is Ok {
        assert(update_outcome(l, caller, name, message).0.records.dom() =~= l.records.dom());
    }
}

/// An update of a record that does not exist is refused with
/// `RecordNotFound` and changes nothing, whatever the message.
pub proof fn lemma_update_missing(l: LedgerView, caller: Seq<u8>, name: Seq<char>, message: Seq<char>)
    requires
        record_address(name, caller, l.program_id) is Some,
        read_spec(l, caller, name) is None,
    ensures
        update_outcome(l, caller, name, message) == (l, Err::<(), StudentIntroError>(StudentIntroError::RecordNotFound)),
{
}

/// An update of `caller`'s own existing record with a name or message over
/// its limit is refused by the size checks, name first, and changes nothing;
/// another owner's record is refused with `NotOwner`.
pub proof fn lemma_update_existing_refused(l: LedgerView, caller: Seq<u8>, name: Seq<char>, message: Seq<char>)
    requires
        read_spec(l, caller, name) is Some,
    ensures
        read_spec(l, caller, name).unwrap().owner == caller && check_lengths(name, message) is Err
            ==> update_outcome(l, caller, name, message) == (l, check_lengths(name, message)),
        read_spec(l, caller, name).unwrap().owner != caller ==> update_outcome(l, caller, name, message)
            == (l, Err::<(), StudentIntroError>(StudentIntroError::NotOwner)),
{
}

/// Deleting `caller`'s own existing record succeeds whatever the length of
/// its name, and the record is gone afterwards.
pub proof fn lemma_delete_own(l: LedgerView, caller: Seq<u8>, name: Seq<char>)
    requires
        read_spec(l, caller, name) is Some,
        read_spec(l, caller, name).unwrap().owner == caller,
    ensures
        delete_outcome(l, caller, name).1 is Ok,
        read_spec(delete_outcome(l, caller, name).0, caller, name) is None,
{
}

/// After a record is deleted it reads as absent, and creating it again
/// succeeds as on a fresh address: it is refused only for the size checks, a
/// missing mint or an overflowing reward, and then reads back as created.
pub proof fn lemma_delete_then_add(
    l: LedgerView,
    caller: Seq<u8>,
    name: Seq<char>,
    message: Seq<char>,
)
    ensures
        delete_outcome(l, caller, name).1 is Ok ==> {
            let d = delete_outcome(l, caller, name).0;
            &&& read_spec(d, caller, name) is None
            &&& add_outcome(d, caller, name, message).1 != Err::<(), StudentIntroError>(
                StudentIntroError::AddressAlreadyActive,
            )
            &&& (check_lengths(name, message) is Ok && d.mint_authority is Some && balance_of(d, caller)
                + REWARD_AMOUNT <= u64::MAX && d.supply + REWARD_AMOUNT <= u64::MAX) ==> {
                &&& add_outcome(d, caller, name, message).1 is Ok
                &&& read_spec(add_outcome(d, caller, name, message).0, caller, name) == Some(
                    (RecordView { owner: caller, name, message }),
                )
            }
        },
{
}

/// Creation succeeds exactly when the name and the message are within their
/// limits, the mint is initialized, the address can be derived and holds no
/// record, and the reward fits in the creator's balance and in the supply;
/// then the record is written and the reward issued once.
pub proof fn lemma_add_succeeds(l: LedgerView, caller: Seq<u8>, name: Seq<char>, message: Seq<char>)
    ensures
        add_outcome(l, caller, name, message).1 is Ok <==> {
            &&& check_lengths(name, message) is Ok
            &&& l.mint_authority is Some
            &&& record_address(name, caller, l.program_id) is Some
            &&& !l.records.contains_key(record_address(name, caller, l.program_id).unwrap().0)
            &&& balance_of(l, caller) + REWARD_AMOUNT <= u64::MAX
            &&& l.supply + REWARD_AMOUNT <= u64::MAX
        },
        add_outcome(l, caller, name, message).1 is Ok ==> {
            let after = add_outcome(l, caller, name, message).0;
            &&& read_spec(after, caller, name) == Some((RecordView { owner: caller, name, message }))
            &&& balance_of(after, caller) == balance_of(l, caller) + REWARD_AMOUNT
            &&& after.supply == l.supply + REWARD_AMOUNT
        },
{
}

/// A successful creation issues the reward exactly once: the creator's
/// balance and the supply each grow by `REWARD_AMOUNT`, and no other balance
/// moves.
pub proof fn lemma_add_rewards_once(l: LedgerView, caller: Seq<u8>, name: Seq<char>, message: Seq<char>)
    ensures
        add_outcome(l, caller, name, message).1 is Ok ==> {
            let after = add_outcome(l, caller, name, message).0;
            &&& balance_of(after, caller) == balance_of(l, caller) + REWARD_AMOUNT
            &&& after.supply == l.supply + REWARD_AMOUNT
            &&& forall|o: Seq<u8>| o != caller ==> #[trigger] balance_of(after, o) == balance_of(l, o)
        },
{
}

/// Creation is all or nothing: a refused creation, a failed issuance of the
/// reward included, leaves neither a record nor a reward behind.
pub proof fn lemma_add_atomic(l: LedgerView, caller: Seq<u8>, name: Seq<char>, message: Seq<char>)
    ensures
        add_outcome(l, caller, name, message).1 is Err ==> add_outcome(l, caller, name, message).0 == l,
        add_outcome(l, caller, name, message).1 == Err::<(), StudentIntroError>(
            StudentIntroError::MintOverflow,
        ) ==> read_spec(add_outcome(l, caller, name, message).0, caller, name) is None,
{
}

} // verus!
