use crowdloan_rewards::registry::{Payout, Registry};
use crowdloan_rewards::signature::KeyPair;
use crowdloan_rewards::types::{Error, Origin};
use crowdloan_rewards::vesting::{Ratio, RewardRecord};

const ALICE: [u8; 32] = [1u8; 32];
const BOB: [u8; 32] = [2u8; 32];
const CAROL: [u8; 32] = [3u8; 32];

fn registry(ceiling: u128) -> Registry {
    Registry::new(ceiling, Ratio::from_percent(20), 100, b"test-".to_vec())
}

fn associated(ceiling: u128, reward: u128, met: bool, account: u64, block: u64) -> Registry {
    let mut registry = registry(ceiling);
    registry.register_contributor(&ALICE, reward, met).unwrap();
    registry.associate_checked(&ALICE, account, block, true).unwrap();
    registry
}

#[test]
fn new_registry_is_empty() {
    let registry = registry(2500);
    assert_eq!(registry.ceiling(), 2500);
    assert_eq!(registry.total_promised(), 0);
    assert_eq!(registry.len(), 0);
    assert_eq!(registry.vesting_period(), 100);
    assert_eq!(registry.initialization_ratio(), Ratio::from_percent(20));
    assert_eq!(registry.network_id(), b"test-");
    assert_eq!(registry.record(&ALICE), None);
    assert_eq!(registry.remote_id_at(0), None);
}

#[test]
fn registration_creates_an_unassociated_record() {
    let mut registry = registry(2500);
    assert_eq!(registry.register_contributor(&ALICE, 1000, true), Ok(()));
    assert_eq!(registry.total_promised(), 1000);
    assert_eq!(registry.len(), 1);
    assert_eq!(registry.remote_id_at(0), Some(ALICE));
    assert_eq!(registry.remote_id_at(1), None);
    assert_eq!(
        registry.record(&ALICE),
        Some(RewardRecord {
            total_reward: 1000,
            claimed: 0,
            payout_address: None,
            vote_threshold_met: true,
            vesting_start: 0,
            vesting_end: 0,
        })
    );
    assert_eq!(registry.record(&BOB), None);
}

#[test]
fn registrations_keep_their_order() {
    let mut registry = registry(2500);
    registry.register_contributor(&CAROL, 1, true).unwrap();
    registry.register_contributor(&ALICE, 2, false).unwrap();
    registry.register_contributor(&BOB, 3, true).unwrap();
    registry.register_contributor(&ALICE, 4, true).unwrap();
    assert_eq!(registry.len(), 3);
    assert_eq!(registry.remote_id_at(0), Some(CAROL));
    assert_eq!(registry.remote_id_at(1), Some(ALICE));
    assert_eq!(registry.remote_id_at(2), Some(BOB));
    assert_eq!(registry.total_promised(), 10);
}

#[test]
fn registering_a_known_identity_adds_to_its_reward() {
    let mut registry = registry(2500);
    registry.register_contributor(&ALICE, 1000, true).unwrap();
    assert_eq!(registry.register_contributor(&ALICE, 500, false), Ok(()));
    assert_eq!(registry.len(), 1);
    assert_eq!(registry.total_promised(), 1500);
    let record = registry.record(&ALICE).unwrap();
    assert_eq!(record.total_reward, 1500);
    assert!(!record.vote_threshold_met);
    assert_eq!(record.claimed, 0);
    assert_eq!(record.payout_address, None);
}

#[test]
fn registration_up_to_the_ceiling_is_accepted() {
    let mut registry = registry(2500);
    assert_eq!(registry.register_contributor(&ALICE, 1500, true), Ok(()));
    assert_eq!(registry.register_contributor(&BOB, 1000, true), Ok(()));
    assert_eq!(registry.total_promised(), 2500);
    assert_eq!(registry.register_contributor(&CAROL, 0, true), Ok(()));
    assert_eq!(registry.total_promised(), 2500);
    assert_eq!(registry.len(), 3);
}

#[test]
fn registration_beyond_the_ceiling_is_rejected_and_changes_nothing() {
    let mut registry = registry(2500);
    registry.register_contributor(&ALICE, 1500, true).unwrap();
    assert_eq!(
        registry.register_contributor(&BOB, 1001, true),
        Err(Error::AllocationExceeded)
    );
    assert_eq!(registry.total_promised(), 1500);
    assert_eq!(registry.len(), 1);
    assert_eq!(registry.record(&BOB), None);
    assert_eq!(
        registry.register_contributor(&ALICE, 1001, false),
        Err(Error::AllocationExceeded)
    );
    let record = registry.record(&ALICE).unwrap();
    assert_eq!(record.total_reward, 1500);
    assert!(record.vote_threshold_met);
}

#[test]
fn reward_that_overflows_the_total_is_an_exceeded_allocation() {
    let mut registry = registry(u128::MAX);
    registry.register_contributor(&ALICE, 1, true).unwrap();
    assert_eq!(
        registry.register_contributor(&BOB, u128::MAX, true),
        Err(Error::AllocationExceeded)
    );
    assert_eq!(registry.total_promised(), 1);
    assert_eq!(registry.register_contributor(&BOB, u128::MAX - 1, true), Ok(()));
    assert_eq!(registry.total_promised(), u128::MAX);
}

#[test]
fn reward_of_an_associated_identity_is_fixed() {
    let mut registry = associated(2500, 1000, true, 7, 10);
    let before = registry.record(&ALICE);
    assert_eq!(
        registry.register_contributor(&ALICE, 100, true),
        Err(Error::AlreadyAssociated)
    );
    assert_eq!(registry.record(&ALICE), before);
    assert_eq!(registry.total_promised(), 1000);
    assert_eq!(
        registry.register_contributor(&ALICE, 5000, true),
        Err(Error::AllocationExceeded)
    );
}

#[test]
fn association_of_an_unknown_identity_fails() {
    let mut registry = registry(2500);
    assert_eq!(
        registry.associate_checked(&ALICE, 7, 10, true),
        Err(Error::UnknownContributor)
    );
    assert_eq!(
        registry.associate_checked(&ALICE, 7, 10, false),
        Err(Error::UnknownContributor)
    );
    assert_eq!(registry.len(), 0);
}

#[test]
fn association_without_an_accepted_proof_fails_and_changes_nothing() {
    let mut registry = registry(2500);
    registry.register_contributor(&ALICE, 1000, true).unwrap();
    let before = registry.record(&ALICE);
    assert_eq!(
        registry.associate_checked(&ALICE, 7, 10, false),
        Err(Error::InvalidProof)
    );
    assert_eq!(registry.record(&ALICE), before);
}

#[test]
fn association_sets_the_address_and_the_schedule() {
    let registry = associated(2500, 1000, true, 7, 10);
    assert_eq!(
        registry.record(&ALICE),
        Some(RewardRecord {
            total_reward: 1000,
            claimed: 0,
            payout_address: Some(7),
            vote_threshold_met: true,
            vesting_start: 10,
            vesting_end: 110,
        })
    );
    assert_eq!(registry.total_promised(), 1000);
}

#[test]
fn schedule_ends_at_the_last_block_where_the_period_would_pass_it() {
    let registry = associated(2500, 1000, true, 7, u64::MAX - 5);
    let record = registry.record(&ALICE).unwrap();
    assert_eq!(record.vesting_start, u64::MAX - 5);
    assert_eq!(record.vesting_end, u64::MAX);
    let edge = associated(2500, 1000, true, 7, u64::MAX - 100);
    assert_eq!(edge.record(&ALICE).unwrap().vesting_end, u64::MAX);
    let inside = associated(2500, 1000, true, 7, u64::MAX - 101);
    assert_eq!(inside.record(&ALICE).unwrap().vesting_end, u64::MAX - 1);
}

#[test]
fn association_happens_exactly_once() {
    let mut registry = associated(2500, 1000, true, 7, 10);
    let before = registry.record(&ALICE);
    assert_eq!(
        registry.associate_checked(&ALICE, 8, 20, true),
        Err(Error::AlreadyAssociated)
    );
    assert_eq!(
        registry.associate_checked(&ALICE, 7, 10, true),
        Err(Error::AlreadyAssociated)
    );
    assert_eq!(
        registry.associate_checked(&ALICE, 8, 20, false),
        Err(Error::AlreadyAssociated)
    );
    assert_eq!(registry.record(&ALICE), before);
}

#[test]
fn association_with_a_signature_checks_it_against_the_challenge() {
    let pair = KeyPair::from_seed([9u8; 32]);
    let remote_id = pair.public();
    let mut registry = registry(2500);
    registry.register_contributor(&remote_id, 1000, true).unwrap();
    let signature = pair.sign_challenge(b"test-", 7);
    assert_eq!(
        registry.associate(&remote_id, &signature, 8, 10),
        Err(Error::InvalidProof)
    );
    assert_eq!(registry.record(&remote_id).unwrap().payout_address, None);
    assert_eq!(registry.associate(&remote_id, &signature, 7, 10), Ok(()));
    assert_eq!(registry.record(&remote_id).unwrap().payout_address, Some(7));
    assert_eq!(
        registry.associate(&remote_id, &signature, 7, 10),
        Err(Error::AlreadyAssociated)
    );
}

#[test]
fn signature_made_for_another_network_is_no_proof_here() {
    let pair = KeyPair::from_seed([9u8; 32]);
    let remote_id = pair.public();
    let signature = pair.sign_challenge(b"test-", 7);
    let mut elsewhere =
        Registry::new(2500, Ratio::from_percent(20), 100, b"live-".to_vec());
    elsewhere.register_contributor(&remote_id, 1000, true).unwrap();
    assert_eq!(
        elsewhere.associate(&remote_id, &signature, 7, 10),
        Err(Error::InvalidProof)
    );
    let own = pair.sign_challenge(b"live-", 7);
    assert_eq!(elsewhere.associate(&remote_id, &own, 7, 10), Ok(()));
}

#[test]
fn signature_of_another_identity_is_no_proof() {
    let pair = KeyPair::from_seed([9u8; 32]);
    let thief = KeyPair::from_seed([10u8; 32]);
    let mut registry = registry(2500);
    registry.register_contributor(&pair.public(), 1000, true).unwrap();
    let forged = thief.sign_challenge(b"test-", 7);
    assert_eq!(
        registry.associate(&pair.public(), &forged, 7, 10),
        Err(Error::InvalidProof)
    );
    assert_eq!(
        registry.associate(&thief.public(), &forged, 7, 10),
        Err(Error::UnknownContributor)
    );
}

#[test]
fn address_of_an_unassociated_identity_cannot_be_changed() {
    let mut registry = registry(2500);
    assert_eq!(
        registry.change_reward_address(&ALICE, 8, Origin::Root),
        Err(Error::NotAssociated)
    );
    registry.register_contributor(&ALICE, 1000, true).unwrap();
    assert_eq!(
        registry.change_reward_address(&ALICE, 8, Origin::Root),
        Err(Error::NotAssociated)
    );
    assert_eq!(
        registry.change_reward_address(&ALICE, 8, Origin::Signed(8)),
        Err(Error::NotAssociated)
    );
    assert_eq!(registry.record(&ALICE).unwrap().payout_address, None);
}

#[test]
fn stranger_cannot_change_the_address() {
    let mut registry = associated(2500, 1000, true, 7, 10);
    let before = registry.record(&ALICE);
    assert_eq!(
        registry.change_reward_address(&ALICE, 8, Origin::Signed(8)),
        Err(Error::Unauthorized)
    );
    assert_eq!(registry.record(&ALICE), before);
}

#[test]
fn holder_changes_the_address_and_keeps_schedule_and_claims() {
    let mut registry = associated(2500, 1000, true, 7, 10);
    assert_eq!(registry.settle_claim(&ALICE, 60, true), Ok(600));
    assert_eq!(
        registry.change_reward_address(&ALICE, 8, Origin::Signed(7)),
        Ok(())
    );
    assert_eq!(
        registry.record(&ALICE),
        Some(RewardRecord {
            total_reward: 1000,
            claimed: 600,
            payout_address: Some(8),
            vote_threshold_met: true,
            vesting_start: 10,
            vesting_end: 110,
        })
    );
    assert_eq!(
        registry.change_reward_address(&ALICE, 9, Origin::Signed(7)),
        Err(Error::Unauthorized)
    );
    assert_eq!(
        registry.claim_due(&ALICE, 110),
        Ok(Payout { to: 8, amount: 400 })
    );
}

#[test]
fn privileged_origin_changes_the_address() {
    let mut registry = associated(2500, 1000, true, 7, 10);
    assert_eq!(registry.change_reward_address(&ALICE, 8, Origin::Root), Ok(()));
    assert_eq!(registry.record(&ALICE).unwrap().payout_address, Some(8));
    assert_eq!(registry.change_reward_address(&ALICE, 8, Origin::Root), Ok(()));
    assert_eq!(registry.record(&ALICE).unwrap().payout_address, Some(8));
}

#[test]
fn claim_of_an_unassociated_identity_fails() {
    let mut registry = registry(2500);
    assert_eq!(registry.claim_due(&ALICE, 10), Err(Error::NotAssociated));
    assert_eq!(registry.settle_claim(&ALICE, 10, true), Err(Error::NotAssociated));
    registry.register_contributor(&ALICE, 1000, true).unwrap();
    assert_eq!(registry.claim_due(&ALICE, 10), Err(Error::NotAssociated));
    assert_eq!(registry.settle_claim(&ALICE, 10, true), Err(Error::NotAssociated));
    assert_eq!(registry.settle_claim(&ALICE, 10, false), Err(Error::NotAssociated));
    assert_eq!(registry.record(&ALICE).unwrap().claimed, 0);
}

#[test]
fn claim_is_due_what_has_unlocked() {
    let registry = associated(2500, 1000, true, 7, 100);
    assert_eq!(registry.claim_due(&ALICE, 100), Ok(Payout { to: 7, amount: 200 }));
    assert_eq!(registry.claim_due(&ALICE, 50), Ok(Payout { to: 7, amount: 200 }));
    assert_eq!(registry.claim_due(&ALICE, 150), Ok(Payout { to: 7, amount: 600 }));
    assert_eq!(registry.claim_due(&ALICE, 200), Ok(Payout { to: 7, amount: 1000 }));
    assert_eq!(registry.claim_due(&ALICE, 999), Ok(Payout { to: 7, amount: 1000 }));
}

#[test]
fn settled_claims_add_up_to_the_whole_reward() {
    let mut registry = associated(2500, 1000, true, 7, 100);
    assert_eq!(registry.settle_claim(&ALICE, 100, true), Ok(200));
    assert_eq!(registry.record(&ALICE).unwrap().claimed, 200);
    assert_eq!(registry.settle_claim(&ALICE, 133, true), Ok(264));
    assert_eq!(registry.record(&ALICE).unwrap().claimed, 464);
    assert_eq!(registry.settle_claim(&ALICE, 150, true), Ok(136));
    assert_eq!(registry.settle_claim(&ALICE, 200, true), Ok(400));
    assert_eq!(registry.record(&ALICE).unwrap().claimed, 1000);
    assert_eq!(registry.settle_claim(&ALICE, 300, true), Ok(0));
    assert_eq!(registry.record(&ALICE).unwrap().claimed, 1000);
    assert_eq!(registry.total_promised(), 1000);
}

#[test]
fn second_claim_in_a_block_is_a_success_of_nothing() {
    let mut registry = associated(2500, 1000, true, 7, 100);
    assert_eq!(registry.settle_claim(&ALICE, 150, true), Ok(600));
    let after = registry.record(&ALICE);
    assert_eq!(registry.claim_due(&ALICE, 150), Ok(Payout { to: 7, amount: 0 }));
    assert_eq!(registry.settle_claim(&ALICE, 150, true), Ok(0));
    assert_eq!(registry.settle_claim(&ALICE, 150, false), Ok(0));
    assert_eq!(registry.record(&ALICE), after);
}

#[test]
fn refused_transfer_fails_the_claim_and_counts_nothing() {
    let mut registry = associated(2500, 1000, true, 7, 100);
    let before = registry.record(&ALICE);
    assert_eq!(
        registry.settle_claim(&ALICE, 150, false),
        Err(Error::TransferFailed)
    );
    assert_eq!(registry.record(&ALICE), before);
    assert_eq!(registry.claim_due(&ALICE, 150), Ok(Payout { to: 7, amount: 600 }));
    assert_eq!(registry.settle_claim(&ALICE, 150, true), Ok(600));
}

#[test]
fn unmet_threshold_pays_the_immediate_portion_and_no_more() {
    let mut registry = associated(2500, 1000, false, 7, 100);
    assert_eq!(registry.claim_due(&ALICE, 150), Ok(Payout { to: 7, amount: 200 }));
    assert_eq!(registry.settle_claim(&ALICE, 100, true), Ok(200));
    assert_eq!(registry.settle_claim(&ALICE, 150, true), Ok(0));
    assert_eq!(registry.settle_claim(&ALICE, 200, true), Ok(0));
    assert_eq!(registry.settle_claim(&ALICE, u64::MAX, true), Ok(0));
    assert_eq!(registry.record(&ALICE).unwrap().claimed, 200);
}

#[test]
fn genesis_registers_the_whole_list() {
    let list = vec![(ALICE, 1000, true), (BOB, 700, false), (CAROL, 800, true)];
    let registry =
        Registry::initialize(2500, Ratio::from_percent(20), 100, b"test-".to_vec(), &list)
            .unwrap();
    assert_eq!(registry.ceiling(), 2500);
    assert_eq!(registry.total_promised(), 2500);
    assert_eq!(registry.len(), 3);
    assert_eq!(registry.remote_id_at(0), Some(ALICE));
    assert_eq!(registry.remote_id_at(2), Some(CAROL));
    assert_eq!(registry.record(&ALICE), Some(RewardRecord::new(1000, true)));
    assert_eq!(registry.record(&BOB), Some(RewardRecord::new(700, false)));
    assert_eq!(registry.record(&CAROL), Some(RewardRecord::new(800, true)));
}

#[test]
fn genesis_beyond_the_ceiling_fails_as_a_whole() {
    let list = vec![(ALICE, 1000, true), (BOB, 700, false), (CAROL, 801, true)];
    let result =
        Registry::initialize(2500, Ratio::from_percent(20), 100, b"test-".to_vec(), &list);
    assert!(matches!(result, Err(Error::AllocationExceeded)));
    let early = vec![(ALICE, 2501, true), (BOB, 0, false)];
    let result =
        Registry::initialize(2500, Ratio::from_percent(20), 100, b"test-".to_vec(), &early);
    assert!(matches!(result, Err(Error::AllocationExceeded)));
}

#[test]
fn genesis_whose_rewards_overflow_fails() {
    let list = vec![(ALICE, u128::MAX, true), (BOB, 1, false)];
    let result =
        Registry::initialize(u128::MAX, Ratio::from_percent(20), 100, b"test-".to_vec(), &list);
    assert!(matches!(result, Err(Error::AllocationExceeded)));
}

#[test]
fn genesis_of_an_empty_list_is_an_empty_registry() {
    let registry =
        Registry::initialize(0, Ratio::from_percent(20), 100, b"test-".to_vec(), &Vec::new())
            .unwrap();
    assert_eq!(registry.len(), 0);
    assert_eq!(registry.total_promised(), 0);
    assert_eq!(registry.ceiling(), 0);
}

#[test]
fn genesis_lines_of_one_identity_add_up() {
    let list = vec![(ALICE, 1000, true), (BOB, 700, false), (ALICE, 300, false)];
    let registry =
        Registry::initialize(2500, Ratio::from_percent(20), 100, b"test-".to_vec(), &list)
            .unwrap();
    assert_eq!(registry.len(), 2);
    assert_eq!(registry.total_promised(), 2000);
    assert_eq!(registry.record(&ALICE), Some(RewardRecord::new(1300, false)));
}
