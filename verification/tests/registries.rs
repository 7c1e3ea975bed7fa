use relifo::beneficiary::{BeneficiaryRegistry, BeneficiaryStatus};
use relifo::error::Error;
use relifo::merchant::{MerchantRegistry, MerchantStatus};
use relifo::ngo::{NGORegistry, NGOStatus};

fn s(x: &str) -> String {
    x.to_string()
}

#[test]
fn ngo_registration_and_verification() {
    let mut reg = NGORegistry::initialize(s("admin"));
    assert_eq!(
        reg.register_ngo_with_address(&s("ngo1"), &s("Relief Works"), &s("RW-1"), &s("KE"), 5),
        Ok(())
    );
    assert_eq!(
        reg.register_ngo_with_address(&s("ngo1"), &s("Relief Works"), &s("RW-1"), &s("KE"), 6),
        Err(Error::AlreadyInitialized)
    );
    assert!(!reg.is_verified(&s("ngo1")));
    assert_eq!(reg.get_status(&s("ngo1")), 0);
    // only the admin may verify
    assert_eq!(reg.verify_ngo(&s("intruder"), &s("ngo1"), 9), Err(Error::Unauthorized));
    assert_eq!(reg.verify_ngo(&s("admin"), &s("ghost"), 9), Err(Error::NGONotRegistered));
    assert_eq!(reg.verify_ngo(&s("admin"), &s("ngo1"), 9), Ok(()));
    assert!(reg.is_verified(&s("ngo1")));
    assert_eq!(reg.get_status(&s("ngo1")), 1);
    let info = reg.get_ngo_info(&s("ngo1")).unwrap();
    assert_eq!(info.verified_at, 9);
    assert_eq!(info.registered_at, 5);
    assert!(matches!(info.status, NGOStatus::Verified));
}

#[test]
fn ngo_suspension_and_revocation() {
    let mut reg = NGORegistry::initialize(s("admin"));
    reg.register_ngo(&s("ngo1"), &s("A"), &s("1"), &s("KE"), 5).unwrap();
    assert_eq!(reg.suspend_ngo(&s("admin"), &s("ngo1")), Ok(()));
    assert_eq!(reg.get_status(&s("ngo1")), 2);
    assert_eq!(reg.revoke_ngo(&s("admin"), &s("ngo1")), Ok(()));
    assert_eq!(reg.get_status(&s("ngo1")), 3);
    assert!(!reg.is_verified(&s("ngo1")));
}

#[test]
fn ngo_campaign_counting_and_listing() {
    let mut reg = NGORegistry::initialize(s("admin"));
    reg.register_ngo(&s("ngo1"), &s("A"), &s("1"), &s("KE"), 5).unwrap();
    reg.register_ngo(&s("ngo2"), &s("B"), &s("2"), &s("TZ"), 6).unwrap();
    assert_eq!(reg.increment_campaign_count(&s("ngo1")), Ok(()));
    assert_eq!(reg.increment_campaign_count(&s("ngo1")), Ok(()));
    assert_eq!(reg.increment_campaign_count(&s("ghost")), Err(Error::NGONotRegistered));
    assert_eq!(reg.get_ngo_info(&s("ngo1")).unwrap().total_campaigns, 2);
    assert_eq!(reg.get_all_ngos().len(), 2);
    // verifying one NGO removes it from the pending listing
    reg.verify_ngo(&s("admin"), &s("ngo1"), 9).unwrap();
    let pending = reg.get_pending_ngos();
    assert_eq!(pending.len(), 1);
    assert_eq!(pending[0].address, s("ngo2"));
}

#[test]
fn merchant_registration_and_categories() {
    let mut reg = MerchantRegistry::initialize(s("admin"));
    assert_eq!(
        reg.register_merchant(&s("intruder"), &s("m1"), &s("Shop"), &vec![s("food")], 5),
        Err(Error::Unauthorized)
    );
    assert_eq!(
        reg.register_merchant(&s("admin"), &s("m1"), &s("Shop"), &vec![s("food")], 5),
        Ok(())
    );
    assert_eq!(
        reg.register_merchant(&s("admin"), &s("m1"), &s("Shop"), &vec![s("food")], 6),
        Err(Error::AlreadyInitialized)
    );
    assert!(reg.is_approved(&s("m1")));
    assert!(reg.is_approved_for_category(&s("m1"), &s("food")));
    assert!(!reg.is_approved_for_category(&s("m1"), &s("fuel")));
    assert_eq!(reg.approve_for_category(&s("admin"), &s("m1"), &s("fuel")), Ok(()));
    assert!(reg.is_approved_for_category(&s("m1"), &s("fuel")));
    // approving a category twice changes nothing
    assert_eq!(reg.approve_for_category(&s("admin"), &s("m1"), &s("fuel")), Ok(()));
    assert_eq!(reg.get_merchant_info(&s("m1")).unwrap().approved_categories.len(), 2);
    assert_eq!(reg.remove_category(&s("admin"), &s("m1"), &s("food")), Ok(()));
    assert!(!reg.is_approved_for_category(&s("m1"), &s("food")));
    assert!(reg.is_approved_for_category(&s("m1"), &s("fuel")));
}

#[test]
fn merchant_lifecycle_and_totals() {
    let mut reg = MerchantRegistry::initialize(s("admin"));
    assert_eq!(
        reg.register_merchant_pending(&s("m1"), &s("Shop"), &vec![s("food")], 5),
        Ok(())
    );
    assert!(!reg.is_approved(&s("m1")));
    assert!(!reg.is_approved_for_category(&s("m1"), &s("food")));
    assert_eq!(reg.get_pending_merchants().len(), 1);
    assert_eq!(reg.approve_merchant(&s("admin"), &s("ghost")), Err(Error::MerchantNotApproved));
    assert_eq!(reg.approve_merchant(&s("admin"), &s("m1")), Ok(()));
    assert!(reg.is_approved(&s("m1")));
    assert_eq!(reg.get_pending_merchants().len(), 0);
    assert_eq!(reg.update_received(&s("m1"), 250), Ok(()));
    assert_eq!(reg.update_received(&s("m1"), 50), Ok(()));
    assert_eq!(reg.update_received(&s("ghost"), 50), Err(Error::MerchantNotApproved));
    let info = reg.get_merchant_info(&s("m1")).unwrap();
    assert_eq!(info.total_received, 300);
    assert_eq!(info.transaction_count, 2);
    assert_eq!(reg.suspend_merchant(&s("admin"), &s("m1")), Ok(()));
    assert!(!reg.is_approved(&s("m1")));
    assert!(matches!(
        reg.get_merchant_info(&s("m1")).unwrap().status,
        MerchantStatus::Suspended
    ));
    assert_eq!(reg.revoke_merchant(&s("admin"), &s("m1")), Ok(()));
    assert!(matches!(reg.get_merchant_info(&s("m1")).unwrap().status, MerchantStatus::Revoked));
}

#[test]
fn merchants_listed_by_category() {
    let mut reg = MerchantRegistry::initialize(s("admin"));
    reg.register_merchant(&s("admin"), &s("m1"), &s("A"), &vec![s("food")], 5).unwrap();
    reg.register_merchant(&s("admin"), &s("m2"), &s("B"), &vec![s("fuel")], 5).unwrap();
    reg.register_merchant_pending(&s("m3"), &s("C"), &vec![s("food")], 5).unwrap();
    let by_food = reg.get_merchants_by_category(&s("food"));
    // only approved merchants carrying the category are listed
    assert_eq!(by_food.len(), 1);
    assert_eq!(by_food[0].address, s("m1"));
    assert_eq!(reg.get_all_merchants().len(), 3);
}

#[test]
fn beneficiary_application_and_approval() {
    let mut reg = BeneficiaryRegistry::initialize(s("admin"));
    assert_eq!(reg.register_for_campaign(&s("ben1"), &s("c1"), &s("doc-1"), 5), Ok(()));
    assert_eq!(
        reg.register_for_campaign(&s("ben1"), &s("c1"), &s("doc-1"), 6),
        Err(Error::AlreadyInitialized)
    );
    assert!(!reg.is_approved(&s("ben1")));
    assert!(!reg.is_whitelisted(&s("ben1")));
    assert_eq!(reg.get_pending_applications(&s("c1")).len(), 1);
    // approval grants ceilings and totals them
    let total = reg.approve_beneficiary(
        &s("ngo1"),
        &s("ben1"),
        &vec![s("food"), s("medicine")],
        &vec![300, 200],
        9,
    );
    assert_eq!(total, Ok(500));
    assert!(reg.is_approved(&s("ben1")));
    let info = reg.get_application_status(&s("ben1")).unwrap();
    assert_eq!(info.total_allocation, 500);
    assert_eq!(info.approved_at, 9);
    assert!(matches!(info.status, BeneficiaryStatus::Approved));
    assert_eq!(reg.get_category_limit(&s("ben1"), &s("food")), 300);
    assert_eq!(reg.get_category_limit(&s("ben1"), &s("medicine")), 200);
    assert_eq!(reg.get_category_spent(&s("ben1"), &s("food")), 0);
    assert_eq!(reg.get_category_balance(&s("ben1"), &s("food")), 300);
    assert_eq!(reg.get_all_category_limits(&s("ben1")).len(), 2);
    // the approved applicant left the pending list
    assert_eq!(reg.get_pending_applications(&s("c1")).len(), 0);
    assert_eq!(reg.get_approved_beneficiaries(&s("c1")), vec![s("ben1")]);
    // an approved application cannot be reviewed again
    assert_eq!(
        reg.approve_beneficiary(&s("ngo1"), &s("ben1"), &vec![s("food")], &vec![10], 11),
        Err(Error::InvalidControlMode)
    );
}

#[test]
fn beneficiary_rejection_and_revocation() {
    let mut reg = BeneficiaryRegistry::initialize(s("admin"));
    reg.register_for_campaign(&s("ben1"), &s("c1"), &s("doc-1"), 5).unwrap();
    reg.register_for_campaign(&s("ben2"), &s("c1"), &s("doc-2"), 5).unwrap();
    assert_eq!(
        reg.reject_beneficiary(&s("ngo1"), &s("ghost"), &s("no papers")),
        Err(Error::BeneficiaryNotWhitelisted)
    );
    assert_eq!(reg.reject_beneficiary(&s("ngo1"), &s("ben1"), &s("no papers")), Ok(()));
    let info = reg.get_application_status(&s("ben1")).unwrap();
    assert!(matches!(info.status, BeneficiaryStatus::Rejected));
    assert_eq!(info.rejection_reason, s("no papers"));
    // only the rejected applicant left the pending list
    let still_pending = reg.get_pending_applications(&s("c1"));
    assert_eq!(still_pending.len(), 1);
    assert_eq!(still_pending[0].address, s("ben2"));
    assert_eq!(reg.revoke_beneficiary(&s("ngo1"), &s("ben2")), Ok(()));
    assert!(matches!(
        reg.get_application_status(&s("ben2")).unwrap().status,
        BeneficiaryStatus::Suspended
    ));
}

#[test]
fn beneficiary_spending_enforcement() {
    let mut reg = BeneficiaryRegistry::initialize(s("admin"));
    reg.register_for_campaign(&s("ben1"), &s("c1"), &s("doc-1"), 5).unwrap();
    reg.approve_beneficiary(&s("ngo1"), &s("ben1"), &vec![s("food")], &vec![300], 9).unwrap();
    assert_eq!(reg.enforce_category_spending(&s("ben1"), &s("food"), 100), Ok(()));
    assert_eq!(
        reg.enforce_category_spending(&s("ben1"), &s("food"), 301),
        Err(Error::CategoryLimitExceeded)
    );
    assert_eq!(
        reg.enforce_category_spending(&s("ben1"), &s("fuel"), 1),
        Err(Error::CategoryLimitExceeded)
    );
    assert_eq!(
        reg.enforce_category_spending(&s("ghost"), &s("food"), 1),
        Err(Error::BeneficiaryNotWhitelisted)
    );
    assert_eq!(reg.update_spending(&s("ben1"), &s("food"), 100), Ok(()));
    assert_eq!(reg.get_category_spent(&s("ben1"), &s("food")), 100);
    assert_eq!(reg.get_category_balance(&s("ben1"), &s("food")), 200);
    assert_eq!(reg.get_application_status(&s("ben1")).unwrap().spent, 100);
    assert_eq!(
        reg.update_spending(&s("ben1"), &s("food"), 250),
        Err(Error::CategoryLimitExceeded)
    );
    assert_eq!(reg.get_category_spent(&s("ben1"), &s("food")), 100);
    assert_eq!(
        reg.update_spending(&s("ghost"), &s("food"), 1),
        Err(Error::BeneficiaryNotWhitelisted)
    );
}

#[test]
fn beneficiary_limit_updates_move_totals() {
    let mut reg = BeneficiaryRegistry::initialize(s("admin"));
    reg.register_for_campaign(&s("ben1"), &s("c1"), &s("doc-1"), 5).unwrap();
    reg.approve_beneficiary(&s("ngo1"), &s("ben1"), &vec![s("food")], &vec![300], 9).unwrap();
    assert_eq!(reg.update_category_limit(&s("ngo1"), &s("ben1"), &s("food"), 450), Ok(()));
    assert_eq!(reg.get_category_limit(&s("ben1"), &s("food")), 450);
    assert_eq!(reg.get_application_status(&s("ben1")).unwrap().total_allocation, 450);
    assert_eq!(
        reg.update_category_limit(&s("ngo1"), &s("ben1"), &s("fuel"), 10),
        Err(Error::CategoryLimitExceeded)
    );
    assert_eq!(
        reg.update_category_limit(&s("ngo1"), &s("ghost"), &s("food"), 10),
        Err(Error::BeneficiaryNotWhitelisted)
    );
}

#[test]
fn beneficiary_unknown_reads_default_to_zero() {
    let reg = BeneficiaryRegistry::initialize(s("admin"));
    assert_eq!(reg.get_category_limit(&s("ghost"), &s("food")), 0);
    assert_eq!(reg.get_category_spent(&s("ghost"), &s("food")), 0);
    assert_eq!(reg.get_category_balance(&s("ghost"), &s("food")), 0);
    assert!(reg.get_application_status(&s("ghost")).is_none());
    assert_eq!(reg.get_all_category_limits(&s("ghost")).len(), 0);
    assert_eq!(reg.get_pending_applications(&s("c1")).len(), 0);
    assert_eq!(reg.get_approved_beneficiaries(&s("c1")).len(), 0);
}

#[test]
fn approval_with_fewer_limits_than_categories() {
    let mut reg = BeneficiaryRegistry::initialize(s("admin"));
    reg.register_for_campaign(&s("ben1"), &s("c1"), &s("doc-1"), 5).unwrap();
    // a category without a matching ceiling is granted zero
    let total = reg.approve_beneficiary(
        &s("ngo1"),
        &s("ben1"),
        &vec![s("food"), s("medicine")],
        &vec![120],
        9,
    );
    assert_eq!(total, Ok(120));
    assert_eq!(reg.get_category_limit(&s("ben1"), &s("food")), 120);
    assert_eq!(reg.get_category_limit(&s("ben1"), &s("medicine")), 0);
}
