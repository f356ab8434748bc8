//! The bytes of a record account: an 8-byte discriminator naming the account
//! type, the owner, then the name and the message each as a 4-byte
//! little-endian length and its UTF-8 bytes, zero-padded to a fixed size.

use crate::address::array_to_vec;
use crate::state::{utf8_len, RecordView, StudentAccountState, MAX_MESSAGE_LENGTH, MAX_NAME_LENGTH};
use anchor_lang::solana_program::hash::hash;
use vstd::prelude::*;
use vstd::string::*;
use vstd::utf8::encode_utf8;

verus! {

/// Bytes of the discriminator in front of every record account.
pub const DISCRIMINATOR: usize = 8;

/// Bytes of a record at its largest: owner, then each text with its length.
pub const INIT_SPACE: usize = 110;

/// Bytes allocated for a record account: discriminator and largest record.
pub const ACCOUNT_SPACE: usize = 118;

/// The SHA-256 digest of `data`.
pub uninterp spec fn sha256_of(data: Seq<u8>) -> Seq<u8>;

/// Relies on `solana_program::hash::hash` (re-exported by anchor-lang): the
/// SHA-256 digest of the bytes.
#[verifier::external_body]
fn sha256(data: &[u8]) -> (r: [u8; 32])
    ensures
        r@ == sha256_of(data@),
{
    hash(data).to_bytes()
}

/// The bytes of `"account:StudentAccountState"`, which name the account type.
pub open spec fn account_type_name() -> Seq<u8> {
    seq![
        97u8, 99u8, 99u8, 111u8, 117u8, 110u8, 116u8, 58u8, 83u8, 116u8, 117u8, 100u8, 101u8,
        110u8, 116u8, 65u8, 99u8, 99u8, 111u8, 117u8, 110u8, 116u8, 83u8, 116u8, 97u8, 116u8, 101u8,
    ]
}

/// The discriminator of record accounts: the first 8 bytes of the digest of
/// the account type's name.
pub open spec fn discriminator_spec() -> Seq<u8> {
    sha256_of(account_type_name()).take(DISCRIMINATOR as int)
}

/// Computes the discriminator of record accounts.
pub fn account_discriminator() -> (d: Vec<u8>)
    ensures
        d@ == discriminator_spec(),
        d@.len() == DISCRIMINATOR,
{
    let label: Vec<u8> = vec![
        97u8, 99u8, 99u8, 111u8, 117u8, 110u8, 116u8, 58u8, 83u8, 116u8, 117u8, 100u8, 101u8,
        110u8, 116u8, 65u8, 99u8, 99u8, 111u8, 117u8, 110u8, 116u8, 83u8, 116u8, 97u8, 116u8, 101u8,
    ];
    assert(label@ =~= account_type_name());
    let digest = sha256(label.as_slice());
    let mut d: Vec<u8> = Vec::new();
    let mut i: usize = 0;
    while i < DISCRIMINATOR
        invariant
            i <= DISCRIMINATOR,
            digest@.len() == 32,
            d@ == digest@.take(i as int),
        decreases DISCRIMINATOR - i,
    {
        d.push(digest[i]);
        i = i + 1;
        assert(d@ =~= digest@.take(i as int));
    }
    d
}

/// `n` as 4 little-endian bytes.
pub open spec fn u32_le(n: nat) -> Seq<u8> {
    seq![
        (n % 256) as u8,
        ((n / 256) % 256) as u8,
        ((n / 65536) % 256) as u8,
        ((n / 16777216) % 256) as u8,
    ]
}

/// The number that 4 little-endian bytes hold.
pub open spec fn le_value(b: Seq<u8>) -> nat {
    (b[0] + 256 * b[1] + 65536 * b[2] + 16777216 * b[3]) as nat
}

/// A text as its length and its UTF-8 bytes.
pub open spec fn text_field(s: Seq<char>) -> Seq<u8> {
    u32_le(utf8_len(s)) + encode_utf8(s)
}

/// The record's bytes after the discriminator.
pub open spec fn record_bytes(r: RecordView) -> Seq<u8> {
    r.owner + text_field(r.name) + text_field(r.message)
}

/// The account's bytes: discriminator and record, then zeros up to
/// `ACCOUNT_SPACE`.
pub open spec fn account_data(disc: Seq<u8>, r: RecordView) -> Seq<u8> {
    let body = disc + record_bytes(r);
    body + Seq::new((ACCOUNT_SPACE - body.len()) as nat, |i: int| 0u8)
}

/// What a record account holds, as bytes: the owner, and the UTF-8 bytes of
/// the name and of the message.
pub struct DecodedAccount {
    pub owner: Vec<u8>,
    pub name: Vec<u8>,
    pub message: Vec<u8>,
}

/// A decoded account as plain values.
pub struct DecodedView {
    pub owner: Seq<u8>,
    pub name: Seq<u8>,
    pub message: Seq<u8>,
}

impl View for DecodedAccount {
    type V = DecodedView;

    open spec fn view(&self) -> DecodedView {
        DecodedView { owner: self.owner@, name: self.name@, message: self.message@ }
    }
}

/// Reads account bytes: the discriminator `disc` in front, an owner of 32
/// bytes, then a name of at most `MAX_NAME_LENGTH` bytes and a message of at
/// most `MAX_MESSAGE_LENGTH` bytes, each after its length; what follows is
/// not read.
pub open spec fn parse_account(disc: Seq<u8>, data: Seq<u8>) -> Option<DecodedView> {
    if data.len() < 44 || data.take(8) != disc {
        None
    } else {
        let name_len = le_value(data.subrange(40, 44)) as int;
        if name_len > MAX_NAME_LENGTH || data.len() < 48 + name_len {
            None
        } else {
            let message_len = le_value(data.subrange(44 + name_len, 48 + name_len)) as int;
            if message_len > MAX_MESSAGE_LENGTH || data.len() < 48 + name_len + message_len {
                None
            } else {
                Some(
                    DecodedView {
                        owner: data.subrange(8, 40),
                        name: data.subrange(44, 44 + name_len),
                        message: data.subrange(48 + name_len, 48 + name_len + message_len),
                    },
                )
            }
        }
    }
}

fn append_bytes(out: &mut Vec<u8>, src: &[u8])
    ensures
        final(out)@ == old(out)@ + src@,
{
    let mut i: usize = 0;
    while i < src.len()
        invariant
            i <= src@.len(),
            out@ == old(out)@ + src@.take(i as int),
        decreases src@.len() - i,
    {
        out.push(src[i]);
        i = i + 1;
        assert(out@ =~= old(out)@ + src@.take(i as int));
    }
    assert(src@.take(src@.len() as int) =~= src@);
}

fn append_u32_le(out: &mut Vec<u8>, n: usize)
    requires
        n < 256,
    ensures
        final(out)@ == old(out)@ + u32_le(n as nat),
{
    out.push(n as u8);
    out.push(0u8);
    out.push(0u8);
    out.push(0u8);
    assert(final(out)@ =~= old(out)@ + u32_le(n as nat));
}

fn append_text(out: &mut Vec<u8>, s: &String)
    requires
        utf8_len(s@) < 256,
    ensures
        final(out)@ == old(out)@ + text_field(s@),
{
    let bytes = s.as_str().as_bytes();
    append_u32_le(out, bytes.len());
    append_bytes(out, bytes);
    assert(final(out)@ =~= old(out)@ + text_field(s@));
}

/// Writes `state` over `data`: the account is resized to `ACCOUNT_SPACE`
/// bytes, every byte cleared, then the discriminator and the record written,
/// so nothing of what it held before is left.
pub fn write_account_data(data: &mut Vec<u8>, state: &StudentAccountState)
    requires
        state.within_limits(),
    ensures
        final(data)@ == account_data(discriminator_spec(), state@),
        final(data)@.len() == ACCOUNT_SPACE,
{
    data.clear();
    let disc = account_discriminator();
    append_bytes(data, disc.as_slice());
    let owner = array_to_vec(&state.owner);
    append_bytes(data, owner.as_slice());
    append_text(data, &state.name);
    append_text(data, &state.message);
    let ghost body = data@;
    assert(body =~= discriminator_spec() + record_bytes(state@));
    while data.len() < ACCOUNT_SPACE
        invariant
            body.len() <= data@.len() <= ACCOUNT_SPACE,
            data@ =~= body + Seq::new((data@.len() - body.len()) as nat, |i: int| 0u8),
        decreases ACCOUNT_SPACE - data@.len(),
    {
        data.push(0u8);
    }
}

/// The bytes of a new account holding `state`.
pub fn encode_account(state: &StudentAccountState) -> (data: Vec<u8>)
    requires
        state.within_limits(),
    ensures
        data@ == account_data(discriminator_spec(), state@),
        data@.len() == ACCOUNT_SPACE,
{
    let mut data: Vec<u8> = Vec::new();
    write_account_data(&mut data, state);
    data
}

fn copy_range(data: &Vec<u8>, start: usize, end: usize) -> (r: Vec<u8>)
    requires
        start <= end <= data@.len(),
    ensures
        r@ == data@.subrange(start as int, end as int),
{
    let mut r: Vec<u8> = Vec::new();
    let mut i: usize = start;
    while i < end
        invariant
            start <= i <= end,
            end <= data@.len(),
            r@ == data@.subrange(start as int, i as int),
        decreases end - i,
    {
        r.push(data[i]);
        i = i + 1;
        assert(r@ =~= data@.subrange(start as int, i as int));
    }
    r
}

fn read_le(data: &Vec<u8>, at: usize) -> (n: u64)
    requires
        at + 4 <= data@.len(),
    ensures
        n == le_value(data@.subrange(at as int, at + 4)),
{
    let len = data.len();
    assert(at + 4 <= len);
    let b0 = data[at] as u64;
    let b1 = data[at + 1] as u64;
    let b2 = data[at + 2] as u64;
    let b3 = data[at + 3] as u64;
    b0 + 256 * b1 + 65536 * b2 + 16777216 * b3
}

/// Reads the record out of account bytes, checking the discriminator and the
/// size limits.
pub fn decode_account(data: &Vec<u8>) -> (r: Option<DecodedAccount>)
    ensures
        match r {
            Some(d) => parse_account(discriminator_spec(), data@) == Some(d@),
            None => parse_account(discriminator_spec(), data@) is None,
        },
{
    if data.len() < 44 {
        return None;
    }
    let disc = account_discriminator();
    let mut i: usize = 0;
    while i < DISCRIMINATOR
        invariant
            i <= DISCRIMINATOR,
            data@.len() >= 44,
            disc@.len() == DISCRIMINATOR,
            disc@ == discriminator_spec(),
            forall|k: int| 0 <= k < i ==> data@[k] == disc@[k],
        decreases DISCRIMINATOR - i,
    {
        if data[i] != disc[i] {
            assert(data@.take(8)[i as int] != disc@[i as int]);
            return None;
        }
        i = i + 1;
    }
    assert(data@.take(8) =~= disc@);
    let name_len = read_le(data, 40);
    if name_len > MAX_NAME_LENGTH as u64 || (data.len() as u64) < 48 + name_len {
        return None;
    }
    let name_end = 44 + name_len as usize;
    let message_len = read_le(data, name_end);
    if message_len > MAX_MESSAGE_LENGTH as u64 || (data.len() as u64) < 48 + name_len + message_len {
        return None;
    }
    let message_start = name_end + 4;
    let message_end = message_start + message_len as usize;
    Some(
        DecodedAccount {
            owner: copy_range(data, 8, 40),
            name: copy_range(data, 44, name_end),
            message: copy_range(data, message_start, message_end),
        },
    )
}

/// Reading back the bytes written for a record gives its owner and the UTF-8
/// bytes of its name and of its message.
pub proof fn lemma_decode_encode(disc: Seq<u8>, r: RecordView)
    requires
        disc.len() == DISCRIMINATOR,
        r.owner.len() == 32,
        utf8_len(r.name) <= MAX_NAME_LENGTH,
        utf8_len(r.message) <= MAX_MESSAGE_LENGTH,
    ensures
        parse_account(disc, account_data(disc, r)) == Some(
            (DecodedView {
                owner: r.owner,
                name: encode_utf8(r.name),
                message: encode_utf8(r.message),
            }),
        ),
{
    let data = account_data(disc, r);
    let nl = utf8_len(r.name) as int;
    let ml = utf8_len(r.message) as int;
    let body = disc + record_bytes(r);
    assert(body =~= disc + r.owner + u32_le(nl as nat) + encode_utf8(r.name) + u32_le(ml as nat)
        + encode_utf8(r.message));
    assert(body.len() == 48 + nl + ml);
    assert(data.take(8) =~= disc);
    assert(data.subrange(8, 40) =~= r.owner);
    assert(data.subrange(40, 44) =~= u32_le(nl as nat));
    assert(le_value(u32_le(nl as nat)) == nl);
    assert(data.subrange(44, 44 + nl) =~= encode_utf8(r.name));
    assert(data.subrange(44 + nl, 48 + nl) =~= u32_le(ml as nat));
    assert(le_value(u32_le(ml as nat)) == ml);
    assert(data.subrange(48 + nl, 48 + nl + ml) =~= encode_utf8(r.message));
}

} // verus!
