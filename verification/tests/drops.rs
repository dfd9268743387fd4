use shape_battle::drops::{
    drops_lifetime, within_reach, DropKind, Drops, COIN_VALUE, DROP_LAYER, HEAL_AMOUNT,
    PICKUP_RADIUS,
};
use shape_battle::player::Player;
use shape_battle::units::{clamped_add, Point, UNIT};
use shape_battle::Money;

fn at(x: i64, y: i64) -> Point {
    Point { x, y }
}

fn drop_at(x: i64, y: i64, drop_type: DropKind) -> Drops {
    Drops { position: at(x, y), layer: DROP_LAYER, drop_type }
}

fn player_at(x: i64, y: i64) -> Player {
    Player { position: at(x, y), speed: 100, health: 50 }
}

#[test]
fn the_pickup_constants() {
    assert_eq!(PICKUP_RADIUS, 10 * UNIT);
    assert_eq!(COIN_VALUE, 10);
    assert_eq!(HEAL_AMOUNT, 10);
    assert_eq!(DROP_LAYER, -1);
}

#[test]
fn a_coin_adds_ten_to_the_money() {
    let mut drops = vec![drop_at(1_000, 1_000, DropKind::Coin)];
    let mut player = player_at(0, 0);
    let mut money = Money(100);
    drops_lifetime(&mut drops, &mut player, &mut money);
    assert_eq!(money, Money(110));
    assert_eq!(player, player_at(0, 0));
    assert!(drops.is_empty());
}

#[test]
fn a_health_drop_heals_ten_and_leaves_the_money() {
    let mut drops = vec![drop_at(-3_000, 2_000, DropKind::Health)];
    let mut player = player_at(0, 0);
    let mut money = Money(100);
    drops_lifetime(&mut drops, &mut player, &mut money);
    assert_eq!(money, Money(100));
    assert_eq!(player, Player { position: at(0, 0), speed: 100, health: 60 });
    assert!(drops.is_empty());
}

#[test]
fn a_damage_up_drop_is_taken_without_effect() {
    let mut drops = vec![drop_at(0, 0, DropKind::DamageUp)];
    let mut player = player_at(0, 0);
    let mut money = Money(100);
    drops_lifetime(&mut drops, &mut player, &mut money);
    assert_eq!(money, Money(100));
    assert_eq!(player, player_at(0, 0));
    assert!(drops.is_empty());
}

#[test]
fn a_drop_at_the_pickup_radius_is_out_of_reach() {
    assert!(within_reach(&drop_at(9_999, 0, DropKind::Coin), at(0, 0)));
    assert!(!within_reach(&drop_at(10_000, 0, DropKind::Coin), at(0, 0)));
    assert!(within_reach(&drop_at(6_000, 7_999, DropKind::Coin), at(0, 0)));
    assert!(!within_reach(&drop_at(6_000, 8_000, DropKind::Coin), at(0, 0)));
    assert!(within_reach(&drop_at(-7_071, -7_071, DropKind::Coin), at(0, 0)));
    assert!(!within_reach(&drop_at(-7_072, -7_071, DropKind::Coin), at(0, 0)));
    assert!(within_reach(&drop_at(105_000, -50_000, DropKind::Coin), at(100_000, -45_000)));
}

#[test]
fn only_the_drops_within_reach_are_taken() {
    let far_coin = drop_at(10_000, 0, DropKind::Coin);
    let far_heart = drop_at(0, -20_000, DropKind::Health);
    let mut drops = vec![
        drop_at(1_000, 0, DropKind::Coin),
        far_coin,
        drop_at(0, 2_000, DropKind::Health),
        drop_at(0, 3_000, DropKind::Coin),
        far_heart,
        drop_at(5_000, 5_000, DropKind::DamageUp),
        drop_at(-1, -1, DropKind::Coin),
    ];
    let mut player = player_at(0, 0);
    let mut money = Money(100);
    drops_lifetime(&mut drops, &mut player, &mut money);
    assert_eq!(money, Money(130));
    assert_eq!(player.health, 60);
    assert_eq!(drops, vec![far_coin, far_heart]);
}

#[test]
fn a_drop_is_picked_up_only_once() {
    let far = drop_at(50_000, 0, DropKind::Coin);
    let mut drops = vec![drop_at(1_000, 0, DropKind::Coin), far, drop_at(0, 1, DropKind::Health)];
    let mut player = player_at(0, 0);
    let mut money = Money(100);
    drops_lifetime(&mut drops, &mut player, &mut money);
    assert_eq!((money, player.health), (Money(110), 60));
    for _ in 0..5 {
        drops_lifetime(&mut drops, &mut player, &mut money);
        assert_eq!((money, player.health), (Money(110), 60));
        assert_eq!(drops, vec![far]);
    }
}

#[test]
fn nothing_to_pick_up_changes_nothing() {
    let mut drops = Vec::new();
    let mut player = player_at(3, 4);
    let mut money = Money(-7);
    drops_lifetime(&mut drops, &mut player, &mut money);
    assert_eq!((money, player), (Money(-7), player_at(3, 4)));
    assert!(drops.is_empty());
}

#[test]
fn money_and_health_stop_at_the_top_of_their_range() {
    let mut drops = vec![
        drop_at(0, 0, DropKind::Coin),
        drop_at(0, 0, DropKind::Coin),
        drop_at(0, 0, DropKind::Health),
    ];
    let mut player = Player { position: at(0, 0), speed: 1, health: i64::MAX - 3 };
    let mut money = Money(i64::MAX - 15);
    drops_lifetime(&mut drops, &mut player, &mut money);
    assert_eq!(money, Money(i64::MAX));
    assert_eq!(player.health, i64::MAX);
    assert_eq!(clamped_add(i64::MIN, -1), i64::MIN);
    assert_eq!(clamped_add(i64::MAX, 1), i64::MAX);
    assert_eq!(clamped_add(-5, 12), 7);
}
