//! The stored record, its size limits, and the errors of the lifecycle.

use vstd::prelude::*;
use vstd::utf8::encode_utf8;

verus! {

/// Longest name, in UTF-8 bytes.
pub const MAX_NAME_LENGTH: usize = 20;

/// Longest message, in UTF-8 bytes.
pub const MAX_MESSAGE_LENGTH: usize = 50;

/// Base units of the reward token issued for each record created.
pub const REWARD_AMOUNT: u64 = 10000000;

/// Why an operation was refused; none leaves a partial effect.
#[derive(Clone, Copy, Debug, PartialEq, Eq, Structural)]
pub enum StudentIntroError {
    NameTooLong,
    MessageTooLong,
    AddressAlreadyActive,
    RecordNotFound,
    NotOwner,
    AddressDerivationExhausted,
    MintNotInitialized,
    MintOverflow,
}

/// Length of a text in UTF-8 bytes.
pub open spec fn utf8_len(s: Seq<char>) -> nat {
    encode_utf8(s).len()
}

/// Length of `s` in UTF-8 bytes.
pub fn text_len(s: &String) -> (n: usize)
    ensures
        n == utf8_len(s@),
{
    s.as_str().as_bytes().len()
}

/// One introduction record: who wrote it, under which name, and what it says.
#[derive(Debug)]
pub struct StudentAccountState {
    pub owner: [u8; 32],
    pub name: String,
    pub message: String,
}

/// A record as plain values.
pub struct RecordView {
    pub owner: Seq<u8>,
    pub name: Seq<char>,
    pub message: Seq<char>,
}

impl View for StudentAccountState {
    type V = RecordView;

    open spec fn view(&self) -> RecordView {
        RecordView { owner: self.owner@, name: self.name@, message: self.message@ }
    }
}

impl StudentAccountState {
    /// A record that keeps within the size limits.
    pub open spec fn within_limits(&self) -> bool {
        &&& utf8_len(self.name@) <= MAX_NAME_LENGTH
        &&& utf8_len(self.message@) <= MAX_MESSAGE_LENGTH
    }

    /// A copy with the same contents.
    pub fn duplicate(&self) -> (r: StudentAccountState)
        ensures
            r@ == self@,
    {
        StudentAccountState {
            owner: self.owner,
            name: self.name.clone(),
            message: self.message.clone(),
        }
    }
}

/// The size checks shared by creation and update: the name first, then the
/// message.
pub open spec fn check_lengths(name: Seq<char>, message: Seq<char>) -> Result<(), StudentIntroError> {
    if utf8_len(name) > MAX_NAME_LENGTH {
        Err(StudentIntroError::NameTooLong)
    } else if utf8_len(message) > MAX_MESSAGE_LENGTH {
        Err(StudentIntroError::MessageTooLong)
    } else {
        Ok(())
    }
}

/// Refuses a name or message over its limit.
pub fn validate_lengths(name: &String, message: &String) -> (r: Result<(), StudentIntroError>)
    ensures
        r == check_lengths(name@, message@),
{
    if text_len(name) > MAX_NAME_LENGTH {
        return Err(StudentIntroError::NameTooLong);
    }
    if text_len(message) > MAX_MESSAGE_LENGTH {
        return Err(StudentIntroError::MessageTooLong);
    }
    Ok(())
}

} // verus!
