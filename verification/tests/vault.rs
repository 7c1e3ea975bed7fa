use relifo::beneficiary::CategoryLimit;
use relifo::error::Error;
use relifo::vault::{ControlMode, ReliefVault};

fn fresh_vault() -> ReliefVault {
    ReliefVault::initialize("admin".to_string(), "usdc".to_string())
}

fn s(x: &str) -> String {
    x.to_string()
}

/// A vault with campaign "c1" (target 1000, controlled), 500 donated, and
/// 300 allocated to beneficiary "ben1" with "food" limited to 300.
fn vault_with_allocation() -> ReliefVault {
    let mut vault = fresh_vault();
    vault
        .create_campaign(&s("ngo1"), &s("c1"), 1000, ControlMode::Controlled, 7)
        .unwrap();
    vault.validate_donation(&s("c1"), 500).unwrap();
    vault.donate(&s("donor"), &s("c1"), 500).unwrap();
    let cats = vec![s("food")];
    let limits = vec![CategoryLimit { category: s("food"), limit: 300, spent: 0 }];
    vault
        .allocate_to_beneficiary(
            &s("ngo1"),
            &s("c1"),
            &s("ben1"),
            300,
            ControlMode::Controlled,
            &cats,
            &limits,
        )
        .unwrap();
    vault
}

#[test]
fn scenario_create_and_donate() {
    let mut vault = fresh_vault();
    let r = vault.create_campaign(&s("ngo1"), &s("c1"), 1000, ControlMode::Controlled, 7);
    assert_eq!(r, Ok(()));
    assert_eq!(vault.get_campaign_balance(&s("c1")), 0);
    assert_eq!(vault.validate_donation(&s("c1"), 500), Ok(()));
    assert_eq!(vault.donate(&s("donor"), &s("c1"), 500), Ok(()));
    assert_eq!(vault.get_campaign_balance(&s("c1")), 500);
}

#[test]
fn scenario_authorize_and_execute() {
    let mut vault = vault_with_allocation();
    let auth = vault.authorize_spending(&s("ben1"), &s("m1"), 100, &s("food"), 9);
    assert_eq!(auth, Ok(1));
    let order = vault.prepare_execution(1);
    assert_eq!(order, Ok((s("m1"), 100)));
    assert_eq!(vault.execute_spending(1), Ok(()));
    assert_eq!(vault.get_category_spent(&s("ben1"), &s("food")), 100);
    assert_eq!(vault.get_beneficiary_balance(&s("ben1")), 200);
}

#[test]
fn scenario_category_limit_blocks_authorization() {
    // an allocation of 1000 with "food" capped at 300: the category ceiling,
    // not the total, is what blocks
    let mut vault = fresh_vault();
    vault
        .create_campaign(&s("ngo1"), &s("c1"), 2000, ControlMode::Controlled, 7)
        .unwrap();
    vault.donate(&s("donor"), &s("c1"), 1000).unwrap();
    let cats = vec![s("food")];
    let limits = vec![CategoryLimit { category: s("food"), limit: 300, spent: 0 }];
    vault
        .allocate_to_beneficiary(
            &s("ngo1"),
            &s("c1"),
            &s("ben1"),
            1000,
            ControlMode::Controlled,
            &cats,
            &limits,
        )
        .unwrap();
    // spend 100 of the 300 "food" ceiling first
    assert_eq!(vault.authorize_spending(&s("ben1"), &s("m1"), 100, &s("food"), 9), Ok(1));
    assert_eq!(vault.execute_spending(1), Ok(()));
    // 100 + 250 would exceed the 300 ceiling
    let r = vault.authorize_spending(&s("ben1"), &s("m1"), 250, &s("food"), 10);
    assert_eq!(r, Err(Error::CategoryLimitExceeded));
    // spent counters unchanged
    assert_eq!(vault.get_category_spent(&s("ben1"), &s("food")), 100);
    assert_eq!(vault.get_beneficiary_balance(&s("ben1")), 900);
}

#[test]
fn scenario_execute_twice_rejected() {
    let mut vault = vault_with_allocation();
    assert_eq!(vault.authorize_spending(&s("ben1"), &s("m1"), 100, &s("food"), 9), Ok(1));
    assert_eq!(vault.execute_spending(1), Ok(()));
    assert_eq!(vault.get_authorization_status(1), 1);
    // the second settlement of the same authorization is rejected
    assert_eq!(vault.execute_spending(1), Err(Error::Unauthorized));
    // spent counters incremented only once
    assert_eq!(vault.get_category_spent(&s("ben1"), &s("food")), 100);
    assert_eq!(vault.get_beneficiary_balance(&s("ben1")), 200);
}

#[test]
fn scenario_overlapping_authorizations_cannot_both_settle() {
    let mut vault = vault_with_allocation();
    // two authorizations of 200 each against a remaining balance of 300:
    // both may be issued, but only one can settle
    assert_eq!(vault.authorize_spending(&s("ben1"), &s("m1"), 200, &s("food"), 9), Ok(1));
    assert_eq!(vault.authorize_spending(&s("ben1"), &s("m2"), 200, &s("food"), 9), Ok(2));
    assert_eq!(vault.execute_spending(1), Ok(()));
    assert_eq!(vault.prepare_execution(2), Err(Error::InsufficientBalance));
    assert_eq!(vault.execute_spending(2), Err(Error::InsufficientBalance));
    // no over-spend: the ceiling of 300 holds
    assert_eq!(vault.get_beneficiary_balance(&s("ben1")), 100);
    assert_eq!(vault.get_category_spent(&s("ben1"), &s("food")), 200);
    // the blocked authorization stays pending
    assert_eq!(vault.get_authorization_status(2), 0);
}

#[test]
fn repeated_reads_return_identical_values() {
    let vault = vault_with_allocation();
    assert_eq!(vault.get_campaign_balance(&s("c1")), vault.get_campaign_balance(&s("c1")));
    assert_eq!(
        vault.get_beneficiary_balance(&s("ben1")),
        vault.get_beneficiary_balance(&s("ben1"))
    );
    assert_eq!(
        vault.get_category_spent(&s("ben1"), &s("food")),
        vault.get_category_spent(&s("ben1"), &s("food"))
    );
}

#[test]
fn create_campaign_rejects_bad_inputs() {
    let mut vault = fresh_vault();
    assert_eq!(
        vault.create_campaign(&s("ngo1"), &s("c1"), 0, ControlMode::Direct, 7),
        Err(Error::InvalidAmount)
    );
    assert_eq!(
        vault.create_campaign(&s("ngo1"), &s("c1"), -5, ControlMode::Direct, 7),
        Err(Error::InvalidAmount)
    );
    assert_eq!(vault.create_campaign(&s("ngo1"), &s("c1"), 10, ControlMode::Direct, 7), Ok(()));
    assert_eq!(
        vault.create_campaign(&s("ngo2"), &s("c1"), 10, ControlMode::Direct, 8),
        Err(Error::CampaignExists)
    );
}

#[test]
fn donate_rejects_bad_inputs() {
    let mut vault = fresh_vault();
    vault.create_campaign(&s("ngo1"), &s("c1"), 1000, ControlMode::Direct, 7).unwrap();
    assert_eq!(vault.donate(&s("donor"), &s("c1"), 0), Err(Error::InvalidAmount));
    assert_eq!(vault.donate(&s("donor"), &s("nope"), 5), Err(Error::CampaignNotFound));
    assert_eq!(vault.validate_donation(&s("nope"), 5), Err(Error::CampaignNotFound));
    assert_eq!(vault.get_campaign_balance(&s("c1")), 0);
}

#[test]
fn unknown_campaign_balance_reads_zero() {
    let vault = fresh_vault();
    assert_eq!(vault.get_campaign_balance(&s("missing")), 0);
    assert_eq!(vault.get_beneficiary_balance(&s("missing")), 0);
    assert_eq!(vault.get_category_spent(&s("missing"), &s("food")), 0);
}

#[test]
fn allocation_requires_owner_and_funds() {
    let mut vault = fresh_vault();
    vault.create_campaign(&s("ngo1"), &s("c1"), 1000, ControlMode::Controlled, 7).unwrap();
    vault.donate(&s("donor"), &s("c1"), 200).unwrap();
    let cats = vec![s("food")];
    let limits = vec![CategoryLimit { category: s("food"), limit: 300, spent: 0 }];
    assert_eq!(
        vault.allocate_to_beneficiary(
            &s("ngo1"),
            &s("c1"),
            &s("ben1"),
            0,
            ControlMode::Controlled,
            &cats,
            &limits
        ),
        Err(Error::InvalidAmount)
    );
    assert_eq!(
        vault.allocate_to_beneficiary(
            &s("ngo1"),
            &s("nope"),
            &s("ben1"),
            100,
            ControlMode::Controlled,
            &cats,
            &limits
        ),
        Err(Error::CampaignNotFound)
    );
    assert_eq!(
        vault.allocate_to_beneficiary(
            &s("intruder"),
            &s("c1"),
            &s("ben1"),
            100,
            ControlMode::Controlled,
            &cats,
            &limits
        ),
        Err(Error::Unauthorized)
    );
    assert_eq!(
        vault.allocate_to_beneficiary(
            &s("ngo1"),
            &s("c1"),
            &s("ben1"),
            300,
            ControlMode::Controlled,
            &cats,
            &limits
        ),
        Err(Error::InsufficientBalance)
    );
    assert_eq!(
        vault.allocate_to_beneficiary(
            &s("ngo1"),
            &s("c1"),
            &s("ben1"),
            200,
            ControlMode::Controlled,
            &cats,
            &limits
        ),
        Ok(())
    );
    assert_eq!(vault.get_beneficiary_balance(&s("ben1")), 200);
    // the campaign balance is checked, not deducted
    assert_eq!(vault.get_campaign_balance(&s("c1")), 200);
}

#[test]
fn reallocation_overwrites_spend_history() {
    let mut vault = vault_with_allocation();
    assert_eq!(vault.authorize_spending(&s("ben1"), &s("m1"), 100, &s("food"), 9), Ok(1));
    assert_eq!(vault.execute_spending(1), Ok(()));
    assert_eq!(vault.get_category_spent(&s("ben1"), &s("food")), 100);
    // re-allocating the same beneficiary replaces the record wholesale
    let cats = vec![s("food")];
    let limits = vec![CategoryLimit { category: s("food"), limit: 50, spent: 0 }];
    assert_eq!(
        vault.allocate_to_beneficiary(
            &s("ngo1"),
            &s("c1"),
            &s("ben1"),
            120,
            ControlMode::Controlled,
            &cats,
            &limits
        ),
        Ok(())
    );
    assert_eq!(vault.get_category_spent(&s("ben1"), &s("food")), 0);
    assert_eq!(vault.get_beneficiary_balance(&s("ben1")), 120);
}

#[test]
fn authorize_rejects_bad_inputs() {
    let mut vault = vault_with_allocation();
    assert_eq!(
        vault.authorize_spending(&s("ben1"), &s("m1"), 0, &s("food"), 9),
        Err(Error::InvalidAmount)
    );
    assert_eq!(
        vault.authorize_spending(&s("ben1"), &s("m1"), -5, &s("food"), 9),
        Err(Error::InvalidAmount)
    );
    assert_eq!(
        vault.authorize_spending(&s("ghost"), &s("m1"), 10, &s("food"), 9),
        Err(Error::BeneficiaryNotWhitelisted)
    );
    assert_eq!(
        vault.authorize_spending(&s("ben1"), &s("m1"), 301, &s("food"), 9),
        Err(Error::InsufficientBalance)
    );
    assert_eq!(
        vault.authorize_spending(&s("ben1"), &s("m1"), 10, &s("fuel"), 9),
        Err(Error::CategoryLimitExceeded)
    );
}

#[test]
fn authorize_rejects_direct_mode() {
    let mut vault = fresh_vault();
    vault.create_campaign(&s("ngo1"), &s("c1"), 1000, ControlMode::Direct, 7).unwrap();
    vault.donate(&s("donor"), &s("c1"), 500).unwrap();
    let cats: Vec<String> = Vec::new();
    let limits: Vec<CategoryLimit> = Vec::new();
    vault
        .allocate_to_beneficiary(
            &s("ngo1"),
            &s("c1"),
            &s("ben1"),
            100,
            ControlMode::Direct,
            &cats,
            &limits,
        )
        .unwrap();
    assert_eq!(
        vault.authorize_spending(&s("ben1"), &s("m1"), 10, &s("food"), 9),
        Err(Error::InvalidControlMode)
    );
}

#[test]
fn execute_rejects_unknown_authorization() {
    let mut vault = vault_with_allocation();
    assert_eq!(vault.execute_spending(99), Err(Error::AuthorizationNotFound));
    assert_eq!(vault.prepare_execution(0), Err(Error::AuthorizationNotFound));
    assert_eq!(vault.get_authorization_status(99), 3);
}

#[test]
fn authorization_ids_are_sequential() {
    let mut vault = vault_with_allocation();
    assert_eq!(vault.authorize_spending(&s("ben1"), &s("m1"), 10, &s("food"), 9), Ok(1));
    assert_eq!(vault.authorize_spending(&s("ben1"), &s("m2"), 10, &s("food"), 9), Ok(2));
    assert_eq!(vault.authorize_spending(&s("ben1"), &s("m3"), 10, &s("food"), 9), Ok(3));
    assert_eq!(vault.get_authorization_status(1), 0);
    assert_eq!(vault.get_authorization_status(2), 0);
    assert_eq!(vault.get_authorization_status(3), 0);
}
