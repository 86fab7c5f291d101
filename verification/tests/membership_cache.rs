use relay::auth::Role;
use relay::http::membership_cache::{MembershipCache, MEMBERSHIP_CAP, MEMBERSHIP_TTL};
use relay::ids::{OrgId, UserId};

const SECOND: u64 = 1_000_000_000;

#[test]
fn hit_then_miss_after_ttl() {
    let mut now: u64 = 7 * SECOND;
    let mut cache = MembershipCache::with_params(8, 5 * SECOND);
    let user = UserId::new();
    let org = OrgId::new();
    assert!(cache.lookup(user, org, now).is_none());
    cache.insert(user, org, Role::Owner, now);
    assert_eq!(cache.lookup(user, org, now), Some(Role::Owner));
    now += 6 * SECOND;
    assert!(
        cache.lookup(user, org, now).is_none(),
        "entry should be expired past TTL"
    );
}

#[test]
fn cap_evicts_when_exceeded() {
    let now: u64 = 0;
    let mut cache = MembershipCache::with_params(2, 60 * SECOND);
    let user = UserId::new();
    let org_a = OrgId::new();
    let org_b = OrgId::new();
    let org_c = OrgId::new();
    cache.insert(user, org_a, Role::Member, now);
    cache.insert(user, org_b, Role::Member, now);
    cache.insert(user, org_c, Role::Owner, now);
    assert_eq!(cache.lookup(user, org_c, now), Some(Role::Owner));
    assert!(cache.lookup(user, org_a, now).is_none());
    assert!(cache.lookup(user, org_b, now).is_none());
}

#[test]
fn an_entry_counts_up_to_its_last_moment() {
    let mut cache = MembershipCache::new();
    let (user, org) = (UserId::new(), OrgId::new());
    cache.insert(user, org, Role::Admin, 5);
    assert_eq!(cache.lookup(user, org, 5 + MEMBERSHIP_TTL - 1), Some(Role::Admin));
    assert_eq!(cache.lookup(user, org, 5 + MEMBERSHIP_TTL), None);
}

#[test]
fn other_members_stay_while_there_is_room() {
    let mut cache = MembershipCache::with_params(2, SECOND);
    let org = OrgId::new();
    let (a, b) = (UserId::new(), UserId::new());
    cache.insert(a, org, Role::Member, 0);
    cache.insert(b, org, Role::Owner, 0);
    assert_eq!(cache.lookup(a, org, 0), Some(Role::Member));
    assert_eq!(cache.lookup(b, org, 0), Some(Role::Owner));
    assert_eq!(cache.lookup(a, OrgId::new(), 0), None);
}

#[test]
fn the_last_role_counts() {
    let mut cache = MembershipCache::with_params(4, SECOND);
    let (user, org) = (UserId::new(), OrgId::new());
    cache.insert(user, org, Role::Owner, 0);
    cache.insert(UserId::new(), org, Role::Admin, 1);
    cache.insert(user, org, Role::Member, 5);
    assert_eq!(cache.lookup(user, org, 4 + SECOND), Some(Role::Member));
    assert_eq!(cache.lookup(user, org, 5 + SECOND), None);
}

#[test]
fn the_first_pairs_all_stay() {
    let mut cache = MembershipCache::new();
    let org = OrgId::new();
    for i in 0..MEMBERSHIP_CAP {
        cache.insert(UserId(i as u128), org, Role::Member, 0);
    }
    for i in 0..MEMBERSHIP_CAP {
        assert_eq!(cache.lookup(UserId(i as u128), org, 0), Some(Role::Member));
    }
    cache.insert(UserId(0), org, Role::Owner, 0);
    assert_eq!(cache.lookup(UserId(0), org, 0), Some(Role::Owner));
    assert_eq!(cache.lookup(UserId(1), org, 0), None);
}
