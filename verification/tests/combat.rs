use infinite_flux::fleet::Fleet;
use infinite_flux::item::ItemType;
use infinite_flux::loot::{LootContainer, DEFAULT_LOOT_LIFETIME_TICKS};

#[test]
fn new_fleet_has_no_members() {
    let f = Fleet::new(7, "Alpha");
    assert_eq!(f.id, 7);
    assert_eq!(f.name, "Alpha");
    assert_eq!(f.size(), 0);
    assert!(f.commander.is_none());
}

#[test]
fn add_and_remove_members_is_idempotent() {
    let mut f = Fleet::new(1, "Test");
    let e1: u64 = 1;
    let e2: u64 = 2;
    f.add_member(e1);
    f.add_member(e1);
    f.add_member(e2);
    assert_eq!(f.size(), 2);
    assert!(f.contains(e1));
    assert!(f.remove_member(e1));
    assert!(!f.remove_member(e1));
    assert!(!f.contains(e1));
    assert_eq!(f.size(), 1);
}

#[test]
fn loot_container_decays_over_lifetime() {
    // One `decay` call per simulation tick; the wreck is removed on the tick
    // that finds its lifetime already at zero.
    let mut wreck = LootContainer::new(vec![(ItemType::IronOre, 10)], 3);
    assert!(!wreck.decay());
    assert!(!wreck.decay());
    assert!(!wreck.decay());
    assert_eq!(wreck.lifetime, 0);
    assert!(wreck.decay());
    assert_eq!(wreck.items, vec![(ItemType::IronOre, 10)]);
}

#[test]
fn fleet_members_keep_join_order() {
    let mut f = Fleet::new(3, "Order");
    f.add_member(30);
    f.add_member(10);
    f.add_member(20);
    f.add_member(10);
    assert_eq!(f.members, vec![30, 10, 20]);
    assert!(f.remove_member(10));
    assert_eq!(f.members, vec![30, 20]);
}

#[test]
fn default_wreck_lifetime_is_half_a_minute_of_ticks() {
    let mut wreck = LootContainer::new(Vec::new(), DEFAULT_LOOT_LIFETIME_TICKS);
    let mut ticks: u32 = 0;
    while !wreck.decay() {
        ticks += 1;
    }
    assert_eq!(ticks, 1800);
}
