use announce::rent::{check_rent, ACCOUNT_STORAGE_OVERHEAD};
use solana_program::sysvar::rent::Rent;

#[test]
fn overhead_is_that_of_the_host() {
    assert_eq!(ACCOUNT_STORAGE_OVERHEAD, solana_program::rent::ACCOUNT_STORAGE_OVERHEAD);
    assert_eq!(ACCOUNT_STORAGE_OVERHEAD, 128);
}

#[test]
fn check_rent_under_the_default_rule() {
    let rent = Rent::default();
    assert_eq!(check_rent(&rent, 1_176_240, 41), Some(true));
    assert_eq!(check_rent(&rent, 1_176_239, 41), Some(false));
    assert_eq!(check_rent(&rent, 0, 41), Some(false));
    assert_eq!(check_rent(&rent, u64::MAX, 41), Some(true));
    assert_eq!(check_rent(&rent, 890_880, 0), Some(true));
    assert_eq!(check_rent(&rent, 890_879, 0), Some(false));
}

#[test]
fn check_rent_agrees_with_the_host() {
    let rules = [
        Rent::default(),
        Rent::free(),
        Rent { lamports_per_byte_year: 1, exemption_threshold: 0.5, burn_percent: 0 },
        Rent { lamports_per_byte_year: 1_000_000, exemption_threshold: 3.25, burn_percent: 100 },
    ];
    for rent in rules {
        for data_len in [0usize, 1, 41, 85, 10_000] {
            for lamports in [0u64, 1, 64, 1_000, 1_176_240, 1 << 40] {
                assert_eq!(
                    check_rent(&rent, lamports, data_len),
                    Some(rent.is_exempt(lamports, data_len))
                );
            }
        }
    }
}

#[test]
fn check_rent_under_a_free_rule() {
    assert_eq!(check_rent(&Rent::free(), 0, 1_000_000), Some(true));
}

#[test]
fn check_rent_has_no_answer_where_the_minimum_overflows() {
    let steep = Rent { lamports_per_byte_year: u64::MAX, ..Rent::default() };
    assert_eq!(check_rent(&steep, u64::MAX, 0), None);
    let edge = Rent { lamports_per_byte_year: u64::MAX / 128, ..Rent::default() };
    assert_eq!(check_rent(&edge, 0, 0), Some(false));
    assert_eq!(check_rent(&edge, 0, 1), None);
}

#[test]
fn check_rent_has_no_answer_where_the_size_overflows() {
    let free = Rent::free();
    assert_eq!(check_rent(&free, 0, usize::MAX - 128), Some(true));
    if usize::BITS == 64 {
        assert_eq!(check_rent(&free, 0, usize::MAX - 127), None);
        assert_eq!(check_rent(&free, 0, usize::MAX), None);
    }
}
