use relifo::error::Error;
use relifo::token::{
    from_display_amount, to_display_amount, validate_approve, validate_transfer,
    validate_transfer_from,
};

#[test]
fn test_amount_conversion() {
    // 100 USDC display = 1_000_000_000 contract units
    assert_eq!(from_display_amount(100), 1_000_000_000);

    // 1_000_000_000 contract units = 100 USDC display
    assert_eq!(to_display_amount(1_000_000_000), 100);
}

#[test]
fn amount_conversion_zero_and_negative() {
    assert_eq!(from_display_amount(0), 0);
    assert_eq!(to_display_amount(0), 0);
    assert_eq!(from_display_amount(-3), -30_000_000);
    assert_eq!(to_display_amount(-30_000_000), -3);
}

#[test]
fn amount_conversion_truncates_fractions() {
    assert_eq!(to_display_amount(19_999_999), 1);
    assert_eq!(to_display_amount(-19_999_999), -1);
    assert_eq!(to_display_amount(9_999_999), 0);
}

#[test]
fn amount_conversion_round_trip() {
    for v in [0i128, 1, 100, -100, 123_456_789, -987_654_321] {
        assert_eq!(to_display_amount(from_display_amount(v)), v);
    }
}

#[test]
fn transfer_validation() {
    assert_eq!(validate_transfer(100, 500), Ok(()));
    assert_eq!(validate_transfer(0, 500), Err(Error::InvalidAmount));
    assert_eq!(validate_transfer(-1, 500), Err(Error::InvalidAmount));
    assert_eq!(validate_transfer(501, 500), Err(Error::InsufficientBalance));
    assert_eq!(validate_transfer(500, 500), Ok(()));
}

#[test]
fn approve_validation() {
    assert_eq!(validate_approve(0), Ok(()));
    assert_eq!(validate_approve(7), Ok(()));
    assert_eq!(validate_approve(-7), Err(Error::InvalidAmount));
}

#[test]
fn transfer_from_validation() {
    assert_eq!(validate_transfer_from(100, 200, 300), Ok(()));
    assert_eq!(validate_transfer_from(0, 200, 300), Err(Error::InvalidAmount));
    assert_eq!(validate_transfer_from(250, 200, 300), Err(Error::Unauthorized));
    assert_eq!(validate_transfer_from(150, 200, 100), Err(Error::InsufficientBalance));
}

#[test]
fn error_codes_are_stable() {
    assert_eq!(Error::Unauthorized.code(), 1);
    assert_eq!(Error::CampaignNotFound.code(), 2);
    assert_eq!(Error::InsufficientBalance.code(), 3);
    assert_eq!(Error::BeneficiaryNotWhitelisted.code(), 4);
    assert_eq!(Error::CategoryLimitExceeded.code(), 5);
    assert_eq!(Error::MerchantNotApproved.code(), 6);
    assert_eq!(Error::InvalidAmount.code(), 7);
    assert_eq!(Error::AuthorizationNotFound.code(), 8);
    assert_eq!(Error::AlreadyInitialized.code(), 9);
    assert_eq!(Error::NGONotRegistered.code(), 10);
    assert_eq!(Error::NGONotVerified.code(), 11);
    assert_eq!(Error::InvalidControlMode.code(), 12);
    assert_eq!(Error::BeneficiaryExists.code(), 13);
    assert_eq!(Error::MerchantExists.code(), 14);
    assert_eq!(Error::CampaignExists.code(), 15);
}
