use dungeonsim::combat::apply_damage;
use dungeonsim::combat::attack;
use dungeonsim::combat::resolve_attack;
use dungeonsim::combat::total_armour_class;
use dungeonsim::combat::Aggression;
use dungeonsim::combat::Death;
use dungeonsim::combat::Hp;
use dungeonsim::components::Severity;
use dungeonsim::components::SeverityLevel;
use dungeonsim::creature::CreatureType;
use dungeonsim::equipment::Armour;
use dungeonsim::equipment::Shield;
use dungeonsim::equipment::Weapon;
use dungeonsim::rng::DiceRng;

#[test]
fn creature_base_stats() {
    assert_eq!(CreatureType::Human.get_stats().armour_class, 10);
    assert_eq!(CreatureType::Goblin.get_stats().armour_class, 10);
    assert_eq!(CreatureType::Orc.get_stats().armour_class, 18);
    assert_eq!(CreatureType::Human.get_stats().attack_bonus, 0);
    assert_eq!(CreatureType::Goblin.get_stats().attack_bonus, 0);
    assert_eq!(CreatureType::Orc.get_stats().attack_bonus, 0);
}

#[test]
fn attack_roll_meets_or_exceeds_armour_class() {
    assert!(resolve_attack(10, 0, 10));
    assert!(!resolve_attack(9, 0, 10));
    assert!(resolve_attack(9, 1, 10));
    assert!(resolve_attack(20, 0, 18));
    assert!(!resolve_attack(17, 0, 18));
}

#[test]
fn total_armour_class_adds_gear_bonuses() {
    assert_eq!(
        total_armour_class(&CreatureType::Human, &Armour::Unarmoured, &Shield::Unshielded),
        10
    );
    assert_eq!(
        total_armour_class(&CreatureType::Human, &Armour::PlateMail, &Shield::Buckler),
        13
    );
    assert_eq!(
        total_armour_class(&CreatureType::Orc, &Armour::ChainMail, &Shield::Unshielded),
        19
    );
}

#[test]
fn damage_subtracts_and_may_go_negative() {
    let mut hp = Hp(5);
    apply_damage(&mut hp, 3);
    assert_eq!(hp.0, 2);
    apply_damage(&mut hp, 7);
    assert_eq!(hp.0, -5);
}

#[test]
fn death_threshold_is_zero_or_below() {
    assert!(!Hp(1).is_dead());
    assert!(Hp(0).is_dead());
    assert!(Hp(-3).is_dead());
}

#[test]
fn aggression_severity_bands() {
    assert_eq!(Aggression(100).get_severity(), SeverityLevel::Max);
    assert_eq!(Aggression(150).get_severity(), SeverityLevel::Max);
    assert_eq!(Aggression(1).get_severity(), SeverityLevel::Moderate);
    assert_eq!(Aggression(99).get_severity(), SeverityLevel::Moderate);
    assert_eq!(Aggression(0).get_severity(), SeverityLevel::Min);
    assert_eq!(Aggression(-5).get_severity(), SeverityLevel::Min);
}

#[test]
fn a_miss_never_changes_hit_points() {
    for seed in 0..10u64 {
        let mut rng = DiceRng::seeded(seed);
        let mut hp = Hp(12);
        let (hit, damage) = attack(1, 0, 10, &Weapon::GreatHammer, &mut rng, &mut hp);
        assert!(!hit);
        assert_eq!(damage, 0);
        assert_eq!(hp.0, 12);
    }
}

#[test]
fn a_hit_deals_dice_bounded_damage() {
    for seed in 0..20u64 {
        let mut rng = DiceRng::seeded(seed);
        let mut hp = Hp(100);
        let (hit, damage) = attack(20, 0, 10, &Weapon::Nunchucks, &mut rng, &mut hp);
        assert!(hit);
        assert!((2..=8).contains(&damage));
        assert_eq!(hp.0, 100 - damage);
    }
}

#[test]
fn weapon_damage_rolls_stay_in_dice_range() {
    let mut rng = DiceRng::seeded(11);
    for _ in 0..50 {
        let d = Weapon::Unarmed.get_damage(&mut rng);
        assert!((1..=3).contains(&d));
        let d = Weapon::Sword.get_damage(&mut rng);
        assert!((1..=6).contains(&d));
        let d = Weapon::Nunchucks.get_damage(&mut rng);
        assert!((2..=8).contains(&d));
        let d = Weapon::GreatHammer.get_damage(&mut rng);
        assert!((1..=10).contains(&d));
    }
}
