//! Confirmations and locks.

use discord_management::confirmation::{ConfirmationError, ConfirmationStore};
use discord_management::guild_lock::GuildApplyLock;
use discord_management::ids::GuildId;

#[test]
fn confirmation_is_owner_only_expires_after_five_minutes_and_is_consumed_once() {
    let mut confirmations = ConfirmationStore::default();
    let now = 1_000;
    let token = confirmations.issue(1, 10, "payload", now);

    assert_eq!(confirmations.consume(&token, 11, now), Err(ConfirmationError::WrongOwner));
    assert_eq!(confirmations.consume(&token, 10, now), Ok("payload"));
    assert_eq!(confirmations.consume(&token, 10, now), Err(ConfirmationError::AlreadyConsumed));

    let expired = confirmations.issue(2, 10, "expired", now);
    assert_eq!(confirmations.consume(&expired, 10, now + 300_000), Err(ConfirmationError::Expired));
}

#[test]
fn a_confirmation_can_be_given_until_it_expires() {
    let mut confirmations = ConfirmationStore::default();
    let token = confirmations.issue(1, 10, 7_u64, 0);
    assert_eq!(token.custom_id(), "discord-management:role-apply:1");
    assert_eq!(confirmations.consume(&token, 10, 299_999), Ok(7));
}

#[test]
fn a_token_of_another_store_is_unknown() {
    let mut numbers = 1_u64..;
    let mut draw = || numbers.next().unwrap();
    let mut first: ConfirmationStore<u64> = ConfirmationStore::default();
    let mut second: ConfirmationStore<u64> = ConfirmationStore::default();
    let one = first.issue(draw(), 10, 1, 0);
    let two = second.issue(draw(), 10, 2, 0);
    let three = first.issue(draw(), 10, 3, 0);
    assert_ne!(one.custom_id(), two.custom_id());
    assert_eq!(three.custom_id(), "discord-management:role-apply:3");
    assert_eq!(second.consume(&one, 10, 0), Err(ConfirmationError::Unknown));
    assert_eq!(second.consume(&three, 10, 0), Err(ConfirmationError::Unknown));
    assert_eq!(first.consume(&two, 10, 0), Err(ConfirmationError::Unknown));
    assert_eq!(first.consume(&one, 10, 0), Ok(1));
    assert_eq!(second.consume(&two, 10, 0), Ok(2));
    assert_eq!(first.consume(&three, 10, 0), Ok(3));
}

#[test]
fn refusals_take_precedence_in_order() {
    let mut confirmations = ConfirmationStore::default();
    let token = confirmations.issue(18_446_744_073_709_551_615, 10, "payload", 0);
    assert_eq!(token.custom_id(), "discord-management:role-apply:18446744073709551615");
    assert_eq!(confirmations.consume(&token, 10, 0), Ok("payload"));
    assert_eq!(confirmations.consume(&token, 11, 300_000), Err(ConfirmationError::WrongOwner));
    assert_eq!(confirmations.consume(&token, 10, 300_000), Err(ConfirmationError::Expired));
    assert_eq!(confirmations.consume(&token, 10, 299_999), Err(ConfirmationError::AlreadyConsumed));
    confirmations.issue(7, 11, "other", 0);
    assert_eq!(confirmations.consume(&token, 10, 0), Err(ConfirmationError::AlreadyConsumed));
}

#[test]
fn of_two_clicks_one_wins() {
    let mut confirmations = ConfirmationStore::default();
    let token = confirmations.issue(1, 10, "payload", 5);
    let results = [confirmations.consume(&token, 10, 5), confirmations.consume(&token, 10, 5)];
    assert_eq!(results.iter().filter(|result| result.is_ok()).count(), 1);
    assert_eq!(results.iter().filter(|result| **result == Err(ConfirmationError::AlreadyConsumed)).count(), 1);
}

#[test]
fn same_guild_is_locked_until_the_permit_is_dropped() {
    let mut lock = GuildApplyLock::default();
    let guild_id = GuildId::new(100);
    let permit = lock.try_acquire(guild_id).unwrap();
    assert!(lock.try_acquire(guild_id).is_none());
    lock.release(permit);
    assert!(lock.try_acquire(guild_id).is_some());
}

#[test]
fn different_guilds_can_be_acquired_at_the_same_time() {
    let mut lock = GuildApplyLock::default();
    let _first = lock.try_acquire(GuildId::new(100)).unwrap();
    assert!(lock.try_acquire(GuildId::new(200)).is_some());
}
