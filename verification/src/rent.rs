//! The host's rent rule, which decides whether an account is funded well
//! enough to stay in storage. The rule is the host's own: it is read from
//! the rent sysvar account of a call and asked, never looked into.

use solana_program::account_info::AccountInfo;
use solana_program::program_error::ProgramError;
use solana_program::pubkey::Pubkey;
use solana_program::sysvar::rent::Rent;
use solana_program::sysvar::Sysvar;
use vstd::prelude::*;

verus! {

/// solana_program's `Rent`: a rent rule of the host, carried from the
/// account it is read from to the question it is asked.
#[verifier::external_type_specification]
#[verifier::external_body]
pub struct ExRent(Rent);

/// solana_program's `ProgramError`: why the host could not read a rent
/// rule.
#[verifier::external_type_specification]
#[verifier::external_body]
pub struct ExProgramError(ProgramError);

/// Bytes that the host adds to the data length of an account when it
/// computes the account's rent.
pub const ACCOUNT_STORAGE_OVERHEAD: u64 = 128;

/// The rent rule that the host reads from an account with reference `key`
/// and data `data`; `None` where it reads none.
pub uninterp spec fn rent_sysvar(key: Seq<u8>, data: Seq<u8>) -> Option<Rent>;

/// The rate of a rent rule, in lamports for a byte and a year.
pub uninterp spec fn rent_rate(rent: Rent) -> u64;

/// Whether, under `rent`, a balance of `lamports` exempts an account with
/// `data_len` bytes of data from rent.
pub uninterp spec fn rent_exempt(rent: Rent, lamports: u64, data_len: usize) -> bool;

/// The host can compute the rent-exemption minimum of an account with
/// `data_len` bytes of data: its size with overhead fits 64 bits, and so
/// does that size times the rate.
pub open spec fn rent_computable(rent: Rent, data_len: usize) -> bool {
    &&& ACCOUNT_STORAGE_OVERHEAD + data_len <= u64::MAX
    &&& (ACCOUNT_STORAGE_OVERHEAD + data_len) * rent_rate(rent) <= u64::MAX
}

/// The host's answer on an account: whether it is rent exempt, or `None`
/// where the minimum cannot be computed.
pub open spec fn rent_check(rent: Rent, lamports: u64, data_len: usize) -> Option<bool> {
    if rent_computable(rent, data_len) {
        Some(rent_exempt(rent, lamports, data_len))
    } else {
        None
    }
}

/// `Rent::from_account_info` of solana_program, on an account made of the
/// given reference and a copy of the given data. The result depends on
/// these two alone: it is `Ok` with the rule named `rent_sysvar`, or an
/// error where there is none.
#[verifier::external_body]
pub(crate) fn rent_from_account(key: &[u8; 32], data: &[u8]) -> (r: Result<Rent, ProgramError>)
    ensures
        r.is_ok() == rent_sysvar(key@, data@).is_some(),
        r matches Ok(rent) ==> rent_sysvar(key@, data@) == Some(rent),
{
    let key = Pubkey::new_from_array(*key);
    let mut lamports = 0u64;
    let mut data = data.to_vec();
    let info = AccountInfo::new(&key, false, false, &mut lamports, &mut data, &key, false, 0);
    Rent::from_account_info(&info)
}

/// The field `lamports_per_byte_year` of solana_program's `Rent`.
#[verifier::external_body]
pub(crate) fn rent_lamports_per_byte_year(rent: &Rent) -> (rate: u64)
    ensures
        rate == rent_rate(*rent),
{
    rent.lamports_per_byte_year
}

/// `Rent::is_exempt` of solana_program. It adds the overhead to the data
/// length and multiplies the sum by the rate, both in 64 bits, so both
/// must fit; the answer depends on the rule, the balance and the length
/// alone.
#[verifier::external_body]
pub(crate) fn rent_is_exempt(rent: &Rent, lamports: u64, data_len: usize) -> (exempt: bool)
    requires
        rent_computable(*rent, data_len),
    ensures
        exempt == rent_exempt(*rent, lamports, data_len),
{
    rent.is_exempt(lamports, data_len)
}

/// Asks the rent rule whether `lamports` exempt an account with `data_len`
/// bytes of data; `None` where the rule's minimum for that size does not
/// fit 64 bits.
pub fn check_rent(rent: &Rent, lamports: u64, data_len: usize) -> (r: Option<bool>)
    ensures
        r == rent_check(*rent, lamports, data_len),
{
    let rate: u64 = rent_lamports_per_byte_year(rent);
    let bytes: u64 = data_len as u64;
    if bytes > u64::MAX - ACCOUNT_STORAGE_OVERHEAD {
        return None;
    }
    match (ACCOUNT_STORAGE_OVERHEAD + bytes).checked_mul(rate) {
        Some(_) => Some(rent_is_exempt(rent, lamports, data_len)),
        None => None,
    }
}

} // verus!
