use vstd::prelude::*;
use crate::command::Command;
use crate::components::Name;
use crate::grid::GridMap;
use crate::log::LogEvent;
use crate::position::Position;
use crate::position::distance2d_pythagoras_squared;
use crate::world::World;
use crate::render::Colour;
use crate::render::Render;
use crate::rng::DiceRng;

verus! {

/// Marker: this entity evaluates pickup opportunities each tick.
#[derive(Clone, Copy, Debug, PartialEq, Eq, Structural)]
pub struct Equips;

/// Weapon currently wielded by a creature.
#[derive(Clone, Copy, Debug, PartialEq, Eq, Structural)]
pub struct EquippedWeapon(pub Weapon);

/// Armour currently worn by a creature.
#[derive(Clone, Copy, Debug, PartialEq, Eq, Structural)]
pub struct EquippedArmour(pub Armour);

/// Shield currently carried by a creature.
#[derive(Clone, Copy, Debug, PartialEq, Eq, Structural)]
pub struct EquippedShield(pub Shield);

#[derive(Clone, Copy, Debug, PartialEq, Eq, Structural)]
pub enum Shield {
    Unshielded,
    Buckler,
}

#[derive(Clone, Copy, Debug, PartialEq, Eq, Structural)]
pub enum Weapon {
    Unarmed,
    Sword,
    Nunchucks,
    GreatHammer,
}

#[derive(Clone, Copy, Debug, PartialEq, Eq, Structural)]
pub enum Armour {
    Unarmoured,
    ChainMail,
    PlateMail,
}

/// Damage dice and handedness of a weapon.
pub struct WeaponStats {
    pub die_size: i32,
    pub die_num: i32,
    pub one_handed: bool,
}

/// Armour-class bonus granted by a piece of armour or a shield.
pub struct ArmourStats {
    pub armour_class: i32,
}

/// Scalar ranking of equipment desirability; pickups only ever trade up.
pub trait Power {
    /// The item's power score.
    spec fn power_spec(&self) -> int;

    fn get_power(&self) -> (r: i32)
        ensures
            r == self.power_spec(),
    ;
}

impl Weapon {
    pub open spec fn die_num_spec(self) -> int {
        match self {
            Weapon::Unarmed => 1,
            Weapon::Sword => 1,
            Weapon::Nunchucks => 2,
            Weapon::GreatHammer => 1,
        }
    }

    pub open spec fn die_size_spec(self) -> int {
        match self {
            Weapon::Unarmed => 3,
            Weapon::Sword => 6,
            Weapon::Nunchucks => 4,
            Weapon::GreatHammer => 10,
        }
    }

    pub open spec fn one_handed_spec(self) -> bool {
        match self {
            Weapon::GreatHammer => false,
            _ => true,
        }
    }

    pub fn get_stats(&self) -> (r: WeaponStats)
        ensures
            r.die_num == self.die_num_spec(),
            r.die_size == self.die_size_spec(),
            r.one_handed == self.one_handed_spec(),
    {
        match self {
            Weapon::Unarmed => WeaponStats { die_num: 1, die_size: 3, one_handed: true },
            Weapon::Sword => WeaponStats { die_num: 1, die_size: 6, one_handed: true },
            Weapon::Nunchucks => WeaponStats { die_num: 2, die_size: 4, one_handed: true },
            Weapon::GreatHammer => WeaponStats { die_num: 1, die_size: 10, one_handed: false },
        }
    }

    pub fn get_name(&self) -> (r: String)
        ensures
            self is Unarmed ==> r@ == "Unarmed"@,
            self is Sword ==> r@ == "Sword"@,
            self is Nunchucks ==> r@ == "Nunchucks"@,
            self is GreatHammer ==> r@ == "GreatHammer"@,
    {
        match self {
            Weapon::Unarmed => "Unarmed".to_owned(),
            Weapon::Sword => "Sword".to_owned(),
            Weapon::Nunchucks => "Nunchucks".to_owned(),
            Weapon::GreatHammer => "GreatHammer".to_owned(),
        }
    }

    /// Lower-cased initial of the name, used as the floor-item glyph.
    pub fn get_glyph(&self) -> (r: String)
        ensures
            self is Unarmed ==> r@ == "u"@,
            self is Sword ==> r@ == "s"@,
            self is Nunchucks ==> r@ == "n"@,
            self is GreatHammer ==> r@ == "g"@,
    {
        match self {
            Weapon::Unarmed => "u".to_owned(),
            Weapon::Sword => "s".to_owned(),
            Weapon::Nunchucks => "n".to_owned(),
            Weapon::GreatHammer => "g".to_owned(),
        }
    }

    /// One damage roll: the sum of `die_num` independent uniform draws in
    /// `1..=die_size`.
    pub fn get_damage(&self, rng: &mut DiceRng) -> (r: i32)
        ensures
            self.die_num_spec() <= r <= self.die_num_spec() * self.die_size_spec(),
    {
        let stats = self.get_stats();
        let mut damage: i32 = 0;
        let mut k: i32 = 0;
        while k < stats.die_num
            invariant
                0 <= k <= stats.die_num,
                1 <= stats.die_size <= 10,
                stats.die_num <= 2,
                k <= damage <= k * stats.die_size,
            decreases stats.die_num - k,
        {
            let roll = rng.range(1, stats.die_size);
            proof {
                assert((k + 1) * stats.die_size == k * stats.die_size + stats.die_size)
                    by (nonlinear_arith);
            }
            damage = damage + roll;
            k = k + 1;
        }
        damage
    }

    /// The components a dropped or spawned weapon carries in the world.
    pub fn get_bundle(&self) -> (r: WeaponBundle)
        ensures
            r.weapon == *self,
            r.render.colour == Colour::DarkYellow,
    {
        WeaponBundle {
            name: Name(self.get_name()),
            render: Render { colour: Colour::DarkYellow, glyph: self.get_glyph() },
            weapon: *self,
        }
    }
}

impl Power for Weapon {
    open spec fn power_spec(&self) -> int {
        self.die_num_spec() * self.die_size_spec()
    }

    fn get_power(&self) -> (r: i32)
        ensures
            r == self.power_spec(),
    {
        let stats = self.get_stats();
        stats.die_num * stats.die_size
    }
}

impl Armour {
    pub open spec fn armour_class_spec(self) -> int {
        match self {
            Armour::Unarmoured => 0,
            Armour::ChainMail => 1,
            Armour::PlateMail => 2,
        }
    }

    pub fn get_stats(&self) -> (r: ArmourStats)
        ensures
            r.armour_class == self.armour_class_spec(),
    {
        match self {
            Armour::Unarmoured => ArmourStats { armour_class: 0 },
            Armour::ChainMail => ArmourStats { armour_class: 1 },
            Armour::PlateMail => ArmourStats { armour_class: 2 },
        }
    }

    pub fn get_name(&self) -> (r: String)
        ensures
            self is Unarmoured ==> r@ == "Unarmoured"@,
            self is ChainMail ==> r@ == "ChainMail"@,
            self is PlateMail ==> r@ == "PlateMail"@,
    {
        match self {
            Armour::Unarmoured => "Unarmoured".to_owned(),
            Armour::ChainMail => "ChainMail".to_owned(),
            Armour::PlateMail => "PlateMail".to_owned(),
        }
    }

    /// Lower-cased initial of the name, used as the floor-item glyph.
    pub fn get_glyph(&self) -> (r: String)
        ensures
            self is Unarmoured ==> r@ == "u"@,
            self is ChainMail ==> r@ == "c"@,
            self is PlateMail ==> r@ == "p"@,
    {
        match self {
            Armour::Unarmoured => "u".to_owned(),
            Armour::ChainMail => "c".to_owned(),
            Armour::PlateMail => "p".to_owned(),
        }
    }

    /// The components a dropped or spawned piece of armour carries.
    pub fn get_bundle(&self) -> (r: ArmourBundle)
        ensures
            r.armour == *self,
            r.render.colour == Colour::Magenta,
    {
        ArmourBundle {
            name: Name(self.get_name()),
            render: Render { colour: Colour::Magenta, glyph: self.get_glyph() },
            armour: *self,
        }
    }
}

impl Power for Armour {
    open spec fn power_spec(&self) -> int {
        self.armour_class_spec()
    }

    fn get_power(&self) -> (r: i32)
        ensures
            r == self.power_spec(),
    {
        self.get_stats().armour_class
    }
}

impl Shield {
    pub open spec fn armour_class_spec(self) -> int {
        match self {
            Shield::Unshielded => 0,
            Shield::Buckler => 1,
        }
    }

    pub fn get_stats(&self) -> (r: ArmourStats)
        ensures
            r.armour_class == self.armour_class_spec(),
    {
        match self {
            Shield::Unshielded => ArmourStats { armour_class: 0 },
            Shield::Buckler => ArmourStats { armour_class: 1 },
        }
    }

    pub fn get_name(&self) -> (r: String)
        ensures
            self is Unshielded ==> r@ == "Unshielded"@,
            self is Buckler ==> r@ == "Buckler"@,
    {
        match self {
            Shield::Unshielded => "Unshielded".to_owned(),
            Shield::Buckler => "Buckler".to_owned(),
        }
    }

    /// Lower-cased initial of the name, used as the floor-item glyph.
    pub fn get_glyph(&self) -> (r: String)
        ensures
            self is Unshielded ==> r@ == "u"@,
            self is Buckler ==> r@ == "b"@,
    {
        match self {
            Shield::Unshielded => "u".to_owned(),
            Shield::Buckler => "b".to_owned(),
        }
    }

    /// The components a dropped or spawned shield carries.
    pub fn get_bundle(&self) -> (r: ShieldBundle)
        ensures
            r.shield == *self,
            r.render.colour == Colour::DarkCyan,
    {
        ShieldBundle {
            name: Name(self.get_name()),
            render: Render { colour: Colour::DarkCyan, glyph: self.get_glyph() },
            shield: *self,
        }
    }
}

impl Power for Shield {
    open spec fn power_spec(&self) -> int {
        self.armour_class_spec()
    }

    fn get_power(&self) -> (r: i32)
        ensures
            r == self.power_spec(),
    {
        self.get_stats().armour_class
    }
}

/// The weapon a slot effectively holds: an empty slot fights unarmed.
pub open spec fn weapon_of(slot: Option<EquippedWeapon>) -> Weapon {
    match slot {
        Some(e) => e.0,
        None => Weapon::Unarmed,
    }
}

/// The armour a slot effectively wears: an empty slot is unarmoured.
pub open spec fn armour_of(slot: Option<EquippedArmour>) -> Armour {
    match slot {
        Some(e) => e.0,
        None => Armour::Unarmoured,
    }
}

/// The shield a slot effectively carries: an empty slot is unshielded.
pub open spec fn shield_of(slot: Option<EquippedShield>) -> Shield {
    match slot {
        Some(e) => e.0,
        None => Shield::Unshielded,
    }
}

pub fn get_weapon(optional_equipped: Option<&EquippedWeapon>) -> (r: Weapon)
    ensures
        (match optional_equipped {
            Some(e) => r == e.0,
            None => r == Weapon::Unarmed,
        }),
{
    if let Some(equipped) = optional_equipped {
        equipped.0
    } else {
        Weapon::Unarmed
    }
}

pub fn get_armour(optional_equipped: Option<&EquippedArmour>) -> (r: Armour)
    ensures
        (match optional_equipped {
            Some(e) => r == e.0,
            None => r == Armour::Unarmoured,
        }),
{
    if let Some(equipped) = optional_equipped {
        equipped.0
    } else {
        Armour::Unarmoured
    }
}

pub fn get_shield(optional_equipped: Option<&EquippedShield>) -> (r: Shield)
    ensures
        (match optional_equipped {
            Some(e) => r == e.0,
            None => r == Shield::Unshielded,
        }),
{
    if let Some(equipped) = optional_equipped {
        equipped.0
    } else {
        Shield::Unshielded
    }
}

/// Subject `e` and item entity `j` are in pickup position: the subject
/// can equip and is not dead, both are alive and named, and they stand
/// within the pickup radius of each other.
pub open spec fn pickup_pair(w: World, e: int, j: int) -> bool {
    &&& 0 <= e < w.n()
    &&& 0 <= j < w.n()
    &&& w.ents@[e].alive
    &&& w.ents@[e].dead is None
    &&& w.ents@[e].equips is Some
    &&& w.ents@[e].name is Some
    &&& w.ents@[e].position is Some
    &&& w.ents@[j].alive
    &&& w.ents@[j].name is Some
    &&& w.ents@[j].position is Some
    &&& (w.ents@[e].position matches Some(p) && w.ents@[j].position matches Some(q)
        && crate::position::dist2(p.0 as int, p.1 as int, q.0 as int, q.1 as int) <= 2)
}

/// Item entity `j` offers subject `e` the weapon `wp`: they are in pickup
/// position, `j` carries exactly `wp`, the weapon outranks the subject's
/// current one, and no carried shield blocks a two-handed grip.
pub open spec fn weapon_source(w: World, e: int, j: int, wp: Weapon) -> bool {
    &&& pickup_pair(w, e, j)
    &&& w.ents@[j].weapon_item == Some(wp)
    &&& weapon_of(w.ents@[e].equipped_weapon).power_spec() < wp.power_spec()
    &&& !(w.ents@[e].equipped_shield is Some && !wp.one_handed_spec())
}

/// Item entity `j` offers subject `e` the armour `ar`, outranking what the
/// subject wears.
pub open spec fn armour_source(w: World, e: int, j: int, ar: Armour) -> bool {
    &&& pickup_pair(w, e, j)
    &&& w.ents@[j].armour_item == Some(ar)
    &&& armour_of(w.ents@[e].equipped_armour).power_spec() < ar.power_spec()
}

/// Item entity `j` offers subject `e` the shield `sh`: it outranks the
/// carried one and the subject's weapon leaves a hand free.
pub open spec fn shield_source(w: World, e: int, j: int, sh: Shield) -> bool {
    &&& pickup_pair(w, e, j)
    &&& w.ents@[j].shield_item == Some(sh)
    &&& shield_of(w.ents@[e].equipped_shield).power_spec() < sh.power_spec()
    &&& weapon_of(w.ents@[e].equipped_weapon).one_handed_spec()
}

/// Subject `i` could take something from item entity `j` this tick: some
/// slot of `j` outranks the subject's and no handedness rule blocks it.
pub open spec fn pickup_eligible(w: World, i: int, j: int) -> bool {
    ||| (w.ents@[j].weapon_item matches Some(tw) && weapon_source(w, i, j, tw))
    ||| (w.ents@[j].armour_item matches Some(ta) && armour_source(w, i, j, ta))
    ||| (w.ents@[j].shield_item matches Some(ts) && shield_source(w, i, j, ts))
}

/// The dropped weapon bundle at `pos` comes from a subject standing there
/// with that very weapon equipped.
pub open spec fn weapon_drop_source(w: World, b: WeaponBundle, pos: Position) -> bool {
    exists|e: int|
        0 <= e < w.n() && (#[trigger] w.ents@[e]).position == Some(pos)
            && w.ents@[e].equipped_weapon == Some(EquippedWeapon(b.weapon))
}

/// The dropped armour bundle at `pos` comes from a subject standing there
/// with that very armour equipped.
pub open spec fn armour_drop_source(w: World, b: ArmourBundle, pos: Position) -> bool {
    exists|e: int|
        0 <= e < w.n() && (#[trigger] w.ents@[e]).position == Some(pos)
            && w.ents@[e].equipped_armour == Some(EquippedArmour(b.armour))
}

/// The dropped shield bundle at `pos` comes from a subject standing there
/// with that very shield equipped.
pub open spec fn shield_drop_source(w: World, b: ShieldBundle, pos: Position) -> bool {
    exists|e: int|
        0 <= e < w.n() && (#[trigger] w.ents@[e]).position == Some(pos)
            && w.ents@[e].equipped_shield == Some(EquippedShield(b.shield))
}

/// The command at `t` is a justified piece of a transfer: an equip names a
/// real in-radius source item and is immediately followed by that item
/// entity's despawn; a dropped bundle lands at its owner's cell carrying
/// the owner's old item; nothing but despawns is queued besides these.
pub open spec fn pickup_cmd_ok(w: World, buf: Seq<Command>, t: int) -> bool {
    match buf[t] {
        Command::InsertEquippedWeapon(e, wp) => t + 1 < buf.len() && (exists|j: int|
            #[trigger] weapon_source(w, e as int, j, wp) && buf[t + 1] == (
            Command::Despawn(j as usize))),
        Command::InsertEquippedArmour(e, ar) => t + 1 < buf.len() && (exists|j: int|
            #[trigger] armour_source(w, e as int, j, ar) && buf[t + 1] == (
            Command::Despawn(j as usize))),
        Command::InsertEquippedShield(e, sh) => t + 1 < buf.len() && (exists|j: int|
            #[trigger] shield_source(w, e as int, j, sh) && buf[t + 1] == (
            Command::Despawn(j as usize))),
        Command::Despawn(_) => true,
        Command::SpawnWeaponItem(b, pos) => weapon_drop_source(w, b, pos),
        Command::SpawnArmourItem(b, pos) => armour_drop_source(w, b, pos),
        Command::SpawnShieldItem(b, pos) => shield_drop_source(w, b, pos),
        _ => false,
    }
}

/// Every queued command is a justified piece of a transfer.
pub open spec fn pickup_cmds_wf(w: World, buf: Seq<Command>, start: int) -> bool {
    forall|t: int| #![trigger buf[t]] start <= t < buf.len() ==> pickup_cmd_ok(w, buf, t)
}

/// Each item entity is despawned at most once: the first claimant wins the
/// tick and a single item fills at most one slot of one subject.
pub open spec fn despawn_unique(buf: Seq<Command>, start: int) -> bool {
    forall|t1: int, t2: int|
        #![trigger buf[t1], buf[t2]]
        start <= t1 < t2 < buf.len() && buf[t1] is Despawn && buf[t2] is Despawn
            ==> buf[t1]->Despawn_0 != buf[t2]->Despawn_0
}

/// The per-tick claim flags mirror the queued despawns.
spec fn claimed_matches(buf: Seq<Command>, start: int, claimed: Seq<bool>) -> bool {
    forall|x: int|
        0 <= x < claimed.len() ==> ((#[trigger] claimed[x]) <==> (exists|t: int|
            start <= t < buf.len() && buf[t] == Command::Despawn(x as usize)))
}

/// The command settles the pair: it equips the subject or removes the item.
pub open spec fn pickup_grants(c: Command, a: int, b: int) -> bool {
    ||| (c matches Command::InsertEquippedWeapon(e, _) && e == a)
    ||| (c matches Command::InsertEquippedArmour(e, _) && e == a)
    ||| (c matches Command::InsertEquippedShield(e, _) && e == a)
    ||| c == Command::Despawn(b as usize)
}

/// Claiming one item (one fresh despawn among the newly queued commands)
/// keeps the claim flags mirroring the queued despawns and keeps despawns
/// unique.
proof fn lemma_claim_step(
    buf0: Seq<Command>,
    buf1: Seq<Command>,
    claimed0: Seq<bool>,
    claimed1: Seq<bool>,
    start: int,
    j: int,
    dpos: int,
)
    requires
        0 <= start <= buf0.len() <= buf1.len(),
        forall|t: int| 0 <= t < buf0.len() ==> #[trigger] buf1[t] == buf0[t],
        buf0.len() <= dpos < buf1.len(),
        buf1[dpos] == Command::Despawn(j as usize),
        forall|t: int|
            #![trigger buf1[t]]
            buf0.len() <= t < buf1.len() && (buf1[t] matches Command::Despawn(x)) ==> t == dpos,
        0 <= j < claimed0.len(),
        claimed0.len() <= usize::MAX,
        claimed1 == claimed0.update(j, true),
        claimed_matches(buf0, start, claimed0),
        !claimed0[j],
        despawn_unique(buf0, start),
    ensures
        claimed_matches(buf1, start, claimed1),
        despawn_unique(buf1, start),
{
    assert forall|x: int|
        0 <= x < claimed1.len() implies ((#[trigger] claimed1[x]) <==> (exists|t: int|
            start <= t < buf1.len() && buf1[t] == Command::Despawn(x as usize))) by {
        if x == j {
            assert(buf1[dpos] == Command::Despawn(x as usize));
        } else {
            if claimed1[x] {
                assert(claimed0[x]);
                let t = choose|t: int|
                    start <= t < buf0.len() && buf0[t] == Command::Despawn(x as usize);
                assert(buf1[t] == Command::Despawn(x as usize));
            }
            if exists|t: int| start <= t < buf1.len() && buf1[t] == Command::Despawn(x as usize) {
                let t = choose|t: int|
                    start <= t < buf1.len() && buf1[t] == Command::Despawn(x as usize);
                if t < buf0.len() {
                    assert(buf0[t] == Command::Despawn(x as usize));
                    assert(claimed0[x]);
                } else {
                    assert(t == dpos);
                    assert(buf1[dpos] == Command::Despawn(j as usize));
                    assert(x as usize == j as usize);
                    assert(0 <= x <= usize::MAX && 0 <= j <= usize::MAX);
                    assert((x as usize) as int == x && (j as usize) as int == j);
                    assert(false);
                }
            }
        }
    }
    assert forall|t1: int, t2: int|
        start <= t1 < t2 < buf1.len() && (#[trigger] buf1[t1]) is Despawn && (#[trigger] buf1[t2])
            is Despawn implies buf1[t1]->Despawn_0 != buf1[t2]->Despawn_0 by {
        if t2 < buf0.len() {
            assert(buf1[t1] == buf0[t1]);
            assert(buf1[t2] == buf0[t2]);
        } else {
            assert(t2 == dpos);
            if t1 < buf0.len() {
                if buf1[t1]->Despawn_0 == j as usize {
                    assert(buf0[t1] == Command::Despawn(j as usize));
                    assert(claimed0[j]);
                }
            } else {
                assert(t1 == dpos);
            }
        }
    }
}

/// Extending a justified command region with further justified commands
/// keeps the whole region justified.
proof fn lemma_pickup_cmds_wf_extend(w: World, buf0: Seq<Command>, buf1: Seq<Command>, start: int)
    requires
        0 <= start <= buf0.len() <= buf1.len(),
        forall|t: int| 0 <= t < buf0.len() ==> #[trigger] buf1[t] == buf0[t],
        pickup_cmds_wf(w, buf0, start),
        forall|t: int|
            #![trigger buf1[t]]
            buf0.len() <= t < buf1.len() ==> pickup_cmd_ok(w, buf1, t),
    ensures
        pickup_cmds_wf(w, buf1, start),
{
    assert forall|t: int|
        #![trigger buf1[t]]
        start <= t < buf1.len() implies pickup_cmd_ok(w, buf1, t) by {
        if t < buf0.len() {
            assert(pickup_cmd_ok(w, buf0, t));
            assert(buf1[t] == buf0[t]);
            match buf0[t] {
                Command::InsertEquippedWeapon(e, wp) => {
                    let j2 = choose|j2: int|
                        #[trigger] weapon_source(w, e as int, j2, wp) && buf0[t + 1] == (
                        Command::Despawn(j2 as usize));
                    assert(buf1[t + 1] == buf0[t + 1]);
                    assert(weapon_source(w, e as int, j2, wp) && buf1[t + 1] == (
                    Command::Despawn(j2 as usize)));
                },
                Command::InsertEquippedArmour(e, ar) => {
                    let j2 = choose|j2: int|
                        #[trigger] armour_source(w, e as int, j2, ar) && buf0[t + 1] == (
                        Command::Despawn(j2 as usize));
                    assert(buf1[t + 1] == buf0[t + 1]);
                    assert(armour_source(w, e as int, j2, ar) && buf1[t + 1] == (
                    Command::Despawn(j2 as usize)));
                },
                Command::InsertEquippedShield(e, sh) => {
                    let j2 = choose|j2: int|
                        #[trigger] shield_source(w, e as int, j2, sh) && buf0[t + 1] == (
                        Command::Despawn(j2 as usize));
                    assert(buf1[t + 1] == buf0[t + 1]);
                    assert(shield_source(w, e as int, j2, sh) && buf1[t + 1] == (
                    Command::Despawn(j2 as usize)));
                },
                _ => {},
            }
        }
    }
}



/// The two or three commands one weapon transfer queues are justified.
proof fn lemma_weapon_push_ok(w: World, buf: Seq<Command>, q: int, i: usize, j: usize, wp: Weapon)
    requires
        0 <= q,
        q + 2 == buf.len() || q + 3 == buf.len(),
        buf[q] == Command::InsertEquippedWeapon(i, wp),
        buf[q + 1] == Command::Despawn(j),
        weapon_source(w, i as int, j as int, wp),
        q + 3 == buf.len() ==> (buf[q + 2] matches Command::SpawnWeaponItem(b, pos)
            && weapon_drop_source(w, b, pos)),
    ensures
        forall|t: int| #![trigger buf[t]] q <= t < buf.len() ==> pickup_cmd_ok(w, buf, t),
{
    assert(buf[q + 1] == Command::Despawn(((j as int) as usize)));
    assert(buf[q]->InsertEquippedWeapon_0 == i && buf[q]->InsertEquippedWeapon_1 == wp);
    assert(weapon_source(
        w,
        (buf[q]->InsertEquippedWeapon_0) as int,
        j as int,
        buf[q]->InsertEquippedWeapon_1,
    ));
    assert(pickup_cmd_ok(w, buf, q));
    assert(pickup_cmd_ok(w, buf, q + 1));
    if q + 3 == buf.len() {
        assert(pickup_cmd_ok(w, buf, q + 2));
    }
    assert forall|t: int| #![trigger buf[t]] q <= t < buf.len() implies pickup_cmd_ok(
        w,
        buf,
        t,
    ) by {
        assert(t == q || t == q + 1 || t == q + 2);
    }
}

/// The two or three commands one armour transfer queues are justified.
proof fn lemma_armour_push_ok(w: World, buf: Seq<Command>, q: int, i: usize, j: usize, ar: Armour)
    requires
        0 <= q,
        q + 2 == buf.len() || q + 3 == buf.len(),
        buf[q] == Command::InsertEquippedArmour(i, ar),
        buf[q + 1] == Command::Despawn(j),
        armour_source(w, i as int, j as int, ar),
        q + 3 == buf.len() ==> (buf[q + 2] matches Command::SpawnArmourItem(b, pos)
            && armour_drop_source(w, b, pos)),
    ensures
        forall|t: int| #![trigger buf[t]] q <= t < buf.len() ==> pickup_cmd_ok(w, buf, t),
{
    assert(buf[q + 1] == Command::Despawn(((j as int) as usize)));
    assert(buf[q]->InsertEquippedArmour_0 == i && buf[q]->InsertEquippedArmour_1 == ar);
    assert(armour_source(
        w,
        (buf[q]->InsertEquippedArmour_0) as int,
        j as int,
        buf[q]->InsertEquippedArmour_1,
    ));
    assert(pickup_cmd_ok(w, buf, q));
    assert(pickup_cmd_ok(w, buf, q + 1));
    if q + 3 == buf.len() {
        assert(pickup_cmd_ok(w, buf, q + 2));
    }
    assert forall|t: int| #![trigger buf[t]] q <= t < buf.len() implies pickup_cmd_ok(
        w,
        buf,
        t,
    ) by {
        assert(t == q || t == q + 1 || t == q + 2);
    }
}

/// The two or three commands one shield transfer queues are justified.
proof fn lemma_shield_push_ok(w: World, buf: Seq<Command>, q: int, i: usize, j: usize, sh: Shield)
    requires
        0 <= q,
        q + 2 == buf.len() || q + 3 == buf.len(),
        buf[q] == Command::InsertEquippedShield(i, sh),
        buf[q + 1] == Command::Despawn(j),
        shield_source(w, i as int, j as int, sh),
        q + 3 == buf.len() ==> (buf[q + 2] matches Command::SpawnShieldItem(b, pos)
            && shield_drop_source(w, b, pos)),
    ensures
        forall|t: int| #![trigger buf[t]] q <= t < buf.len() ==> pickup_cmd_ok(w, buf, t),
{
    assert(buf[q + 1] == Command::Despawn(((j as int) as usize)));
    assert(buf[q]->InsertEquippedShield_0 == i && buf[q]->InsertEquippedShield_1 == sh);
    assert(shield_source(
        w,
        (buf[q]->InsertEquippedShield_0) as int,
        j as int,
        buf[q]->InsertEquippedShield_1,
    ));
    assert(pickup_cmd_ok(w, buf, q));
    assert(pickup_cmd_ok(w, buf, q + 1));
    if q + 3 == buf.len() {
        assert(pickup_cmd_ok(w, buf, q + 2));
    }
    assert forall|t: int| #![trigger buf[t]] q <= t < buf.len() implies pickup_cmd_ok(
        w,
        buf,
        t,
    ) by {
        assert(t == q || t == q + 1 || t == q + 2);
    }
}

/// Gear pickup, evaluated for every subject able to equip against every
/// item entity within the pickup radius. A subject trades a slot up only
/// for strictly higher power; the first claimant of an item wins the tick
/// (later claims are ignored); a shield bearer cannot take a two-handed
/// weapon and a two-handed wielder cannot take a shield (the refusal is
/// only logged). All transfers are buffered: the new item is equipped, the
/// item entity despawned, and any previously equipped item dropped at the
/// subject's position, all at the tick's synchronization point.
#[verifier::rlimit(100)]
pub fn pick_up_gear(
    world: &World,
    map: &GridMap,
    buf: &mut Vec<Command>,
    log: &mut Vec<LogEvent>,
)
    requires
        map.inv(),
        world.wf(*map),
    ensures
        old(buf)@.len() <= final(buf)@.len(),
        forall|k: int| 0 <= k < old(buf)@.len() ==> final(buf)@[k] == old(buf)@[k],
        forall|k: int|
            old(buf)@.len() <= k < final(buf)@.len() ==> crate::command::cmd_wf(
                #[trigger] final(buf)@[k],
                *map,
            ) && crate::command::dead_safe(final(buf)@[k], *world)
                && crate::command::equip_mono_cmd(final(buf)@[k], *world),
        // every queued command is a justified piece of a transfer, and no
        // item entity is taken twice
        pickup_cmds_wf(*world, final(buf)@, old(buf)@.len() as int),
        despawn_unique(final(buf)@, old(buf)@.len() as int),
        // every eligible pair is settled: its subject is equipped by some
        // transfer, or its item is taken (possibly by someone else)
        forall|a: int, b: int|
            #[trigger] pickup_eligible(*world, a, b) ==> (exists|t: int|
                old(buf)@.len() <= t < final(buf)@.len() && pickup_grants(
                    #[trigger] final(buf)@[t],
                    a,
                    b,
                )),
        // if nothing was queued, nothing was there to take
        final(buf)@.len() == old(buf)@.len() ==> (forall|a: int, b: int|
            !(#[trigger] pickup_eligible(*world, a, b))),
        old(log)@.len() <= final(log)@.len(),
        forall|k: int| 0 <= k < old(log)@.len() ==> final(log)@[k] == old(log)@[k],
{
    let ghost start = old(buf)@.len() as int;
    let n = world.len();
    let mut claimed: Vec<bool> = Vec::new();
    let mut k0: usize = 0;
    while k0 < n
        invariant
            claimed@.len() == k0,
            k0 <= n,
            forall|t: int| 0 <= t < k0 ==> !(#[trigger] claimed@[t]),
        decreases n - k0,
    {
        claimed.push(false);
        k0 = k0 + 1;
    }
    let mut i: usize = 0;
    while i < n
        invariant
            n == world.n(),
            map.inv(),
            world.wf(*map),
            claimed@.len() == n,
            start == old(buf)@.len(),
            old(buf)@.len() <= buf@.len(),
            forall|k: int| 0 <= k < old(buf)@.len() ==> buf@[k] == old(buf)@[k],
            forall|k: int|
                old(buf)@.len() <= k < buf@.len() ==> crate::command::cmd_wf(
                    #[trigger] buf@[k],
                    *map,
                ) && crate::command::dead_safe(buf@[k], *world)
                    && crate::command::equip_mono_cmd(buf@[k], *world),
            pickup_cmds_wf(*world, buf@, start),
            despawn_unique(buf@, start),
            claimed_matches(buf@, start, claimed@),
            forall|a: int, b: int|
                #[trigger] pickup_eligible(*world, a, b) && a < i ==> (exists|t: int|
                    start <= t < buf@.len() && pickup_grants(#[trigger] buf@[t], a, b)),
            old(log)@.len() <= log@.len(),
            forall|k: int| 0 <= k < old(log)@.len() ==> log@[k] == old(log)@[k],
        decreases n - i,
    {
        let sub = &world.ents[i];
        let sub_ok = sub.alive && sub.dead.is_none() && sub.equips.is_some() && sub.name.is_some()
            && sub.position.is_some();
        if sub_ok {
            let sub_pos = sub.position.unwrap();
            let sub_eqw = sub.equipped_weapon;
            let sub_eqa = sub.equipped_armour;
            let sub_eqs = sub.equipped_shield;
            let sub_name = match &sub.name {
                Some(nm) => nm.0.clone(),
                None => "".to_owned(),
            };
            proof {
                assert(crate::world::wf_ent(*map, world.ents@[i as int]));
            }
            let mut j: usize = 0;
            while j < n
                invariant
                    n == world.n(),
                    map.inv(),
                    world.wf(*map),
                    claimed@.len() == n,
                    start == old(buf)@.len(),
                    i < n,
                    world.ents@[i as int].alive,
                    world.ents@[i as int].dead is None,
                    world.ents@[i as int].equips is Some,
                    world.ents@[i as int].name is Some,
                    world.ents@[i as int].position == Some(sub_pos),
                    map.in_bounds(sub_pos.0 as int, sub_pos.1 as int),
                    sub_eqw == world.ents@[i as int].equipped_weapon,
                    sub_eqa == world.ents@[i as int].equipped_armour,
                    sub_eqs == world.ents@[i as int].equipped_shield,
                    old(buf)@.len() <= buf@.len(),
                    forall|k: int| 0 <= k < old(buf)@.len() ==> buf@[k] == old(buf)@[k],
                    forall|k: int|
                        old(buf)@.len() <= k < buf@.len() ==> crate::command::cmd_wf(
                            #[trigger] buf@[k],
                            *map,
                        ) && crate::command::dead_safe(buf@[k], *world)
                            && crate::command::equip_mono_cmd(buf@[k], *world),
                    pickup_cmds_wf(*world, buf@, start),
                    despawn_unique(buf@, start),
                    claimed_matches(buf@, start, claimed@),
                    forall|a: int, b: int|
                        #[trigger] pickup_eligible(*world, a, b) && (a < i || (a == i && b < j))
                            ==> (exists|t: int|
                            start <= t < buf@.len() && pickup_grants(#[trigger] buf@[t], a, b)),
                    old(log)@.len() <= log@.len(),
                    forall|k: int| 0 <= k < old(log)@.len() ==> log@[k] == old(log)@[k],
                decreases n - j,
            {
                let ghost buf_p0 = buf@;
                let ghost mut grant_at: int = -1;
                let tgt = &world.ents[j];
                let tgt_ok = tgt.alive && tgt.name.is_some() && tgt.position.is_some();
                if tgt_ok {
                    let tgt_pos = tgt.position.unwrap();
                    let tgt_weapon = tgt.weapon_item;
                    let tgt_armour = tgt.armour_item;
                    let tgt_shield = tgt.shield_item;
                    let tgt_name = match &tgt.name {
                        Some(nm) => nm.0.clone(),
                        None => "".to_owned(),
                    };
                    if distance2d_pythagoras_squared(&sub_pos, &tgt_pos) <= 2 {
                        let equipped_weapon = get_weapon(sub_eqw.as_ref());
                        let hands_full = !equipped_weapon.get_stats().one_handed;

                        if let Some(target_weapon) = tgt_weapon {
                            if equipped_weapon.get_power() < target_weapon.get_power()
                                && !claimed[j] {
                                if sub_eqs.is_some() && !target_weapon.get_stats().one_handed {
                                    log.push(LogEvent::ShieldBlocksPickup {
                                        subject: sub_name.clone(),
                                        target: tgt_name.clone(),
                                    });
                                } else {
                                    let ghost buf_b0 = buf@;
                                    let ghost claimed_b0 = claimed@;
                                    let ghost q = buf@.len() as int;
                                    buf.push(Command::InsertEquippedWeapon(i, target_weapon));
                                    buf.push(Command::Despawn(j));
                                    if let Some(dropped) = sub_eqw {
                                        let bundle = dropped.0.get_bundle();
                                        log.push(LogEvent::Drop {
                                            subject: sub_name.clone(),
                                            item: dropped.0.get_name(),
                                        });
                                        proof {
                                            assert((#[trigger] world.ents@[i as int]).position
                                                == Some(sub_pos));
                                            assert(world.ents@[i as int].equipped_weapon == Some(
                                                EquippedWeapon(bundle.weapon),
                                            ));
                                            assert(weapon_drop_source(*world, bundle, sub_pos));
                                        }
                                        buf.push(Command::SpawnWeaponItem(bundle, sub_pos));
                                    }
                                    claimed.set(j, true);
                                    proof {
                                        grant_at = q;
                                        assert(weapon_source(
                                            *world, i as int, j as int, target_weapon,
                                        ));
                                        lemma_claim_step(
                                            buf_b0, buf@, claimed_b0, claimed@,
                                            start, j as int, q + 1,
                                        );
                                        lemma_weapon_push_ok(
                                            *world, buf@, q, i, j, target_weapon,
                                        );
                                        lemma_pickup_cmds_wf_extend(*world, buf_b0, buf@, start);
                                        assert(pickup_grants(buf@[q], i as int, j as int));
                                    }
                                    log.push(LogEvent::PickUp {
                                        subject: sub_name.clone(),
                                        target: tgt_name.clone(),
                                    });
                                }
                            }
                        }

                        let equipped_armour = get_armour(sub_eqa.as_ref());
                        if let Some(target_armour) = tgt_armour {
                            if equipped_armour.get_power() < target_armour.get_power()
                                && !claimed[j] {
                                let ghost buf_b0 = buf@;
                                let ghost claimed_b0 = claimed@;
                                let ghost q = buf@.len() as int;
                                buf.push(Command::InsertEquippedArmour(i, target_armour));
                                buf.push(Command::Despawn(j));
                                if let Some(dropped) = sub_eqa {
                                    let bundle = dropped.0.get_bundle();
                                    log.push(LogEvent::Drop {
                                        subject: sub_name.clone(),
                                        item: dropped.0.get_name(),
                                    });
                                    proof {
                                        assert((#[trigger] world.ents@[i as int]).position == Some(
                                            sub_pos,
                                        ));
                                        assert(world.ents@[i as int].equipped_armour == Some(
                                            EquippedArmour(bundle.armour),
                                        ));
                                        assert(armour_drop_source(*world, bundle, sub_pos));
                                    }
                                    buf.push(Command::SpawnArmourItem(bundle, sub_pos));
                                }
                                claimed.set(j, true);
                                proof {
                                    grant_at = q;
                                    assert(armour_source(*world, i as int, j as int, target_armour));
                                    lemma_claim_step(
                                        buf_b0, buf@, claimed_b0, claimed@, start, j as int, q + 1,
                                    );
                                    lemma_armour_push_ok(*world, buf@, q, i, j, target_armour);
                                    lemma_pickup_cmds_wf_extend(*world, buf_b0, buf@, start);
                                    assert(pickup_grants(buf@[q], i as int, j as int));
                                }
                                log.push(LogEvent::PickUp {
                                    subject: sub_name.clone(),
                                    target: tgt_name.clone(),
                                });
                            }
                        }

                        let equipped_shield = get_shield(sub_eqs.as_ref());
                        if let Some(target_shield) = tgt_shield {
                            if equipped_shield.get_power() < target_shield.get_power()
                                && !claimed[j] {
                                if hands_full {
                                    log.push(LogEvent::HandsFullBlocksPickup {
                                        subject: sub_name.clone(),
                                        target: tgt_name.clone(),
                                        weapon: equipped_weapon.get_name(),
                                    });
                                } else {
                                    let ghost buf_b0 = buf@;
                                    let ghost claimed_b0 = claimed@;
                                    let ghost q = buf@.len() as int;
                                    buf.push(Command::InsertEquippedShield(i, target_shield));
                                    buf.push(Command::Despawn(j));
                                    if let Some(dropped) = sub_eqs {
                                        let bundle = dropped.0.get_bundle();
                                        log.push(LogEvent::Drop {
                                            subject: sub_name.clone(),
                                            item: dropped.0.get_name(),
                                        });
                                        proof {
                                            assert((#[trigger] world.ents@[i as int]).position
                                                == Some(sub_pos));
                                            assert(world.ents@[i as int].equipped_shield == Some(
                                                EquippedShield(bundle.shield),
                                            ));
                                            assert(shield_drop_source(*world, bundle, sub_pos));
                                        }
                                        buf.push(Command::SpawnShieldItem(bundle, sub_pos));
                                    }
                                    claimed.set(j, true);
                                    proof {
                                        grant_at = q;
                                        assert(shield_source(
                                            *world, i as int, j as int, target_shield,
                                        ));
                                        lemma_claim_step(
                                            buf_b0, buf@, claimed_b0, claimed@,
                                            start, j as int, q + 1,
                                        );
                                        lemma_shield_push_ok(
                                            *world, buf@, q, i, j, target_shield,
                                        );
                                        lemma_pickup_cmds_wf_extend(*world, buf_b0, buf@, start);
                                        assert(pickup_grants(buf@[q], i as int, j as int));
                                    }
                                    log.push(LogEvent::PickUp {
                                        subject: sub_name.clone(),
                                        target: tgt_name.clone(),
                                    });
                                }
                            }
                        }
                    }
                }
                proof {
                    assert forall|a: int, b: int|
                        #[trigger] pickup_eligible(*world, a, b) && (a < i as int || (a == i as int
                            && b < j + 1)) implies (exists|t: int|
                            start <= t < buf@.len() && pickup_grants(#[trigger] buf@[t], a, b)) by {
                        if a == i as int && b == j as int {
                            if grant_at >= 0 {
                                assert(start <= grant_at < buf@.len());
                                assert(pickup_grants(buf@[grant_at], a, b));
                            } else {
                                assert(claimed@[j as int]);
                                let t = choose|t: int|
                                    start <= t < buf@.len() && buf@[t] == (
                                    Command::Despawn(j as usize));
                                assert(pickup_grants(buf@[t], a, b));
                            }
                        } else {
                            let t = choose|t: int|
                                start <= t < buf_p0.len() && pickup_grants(
                                    #[trigger] buf_p0[t],
                                    a,
                                    b,
                                );
                            assert(buf@[t] == buf_p0[t]);
                            assert(pickup_grants(buf@[t], a, b));
                        }
                    }
                }
                j = j + 1;
            }
        } else {
            proof {
                assert forall|b: int| !(#[trigger] pickup_eligible(*world, i as int, b)) by {
                }
            }
        }
        i = i + 1;
    }
    proof {
        if buf@.len() == old(buf)@.len() {
            assert forall|a: int, b: int| !(#[trigger] pickup_eligible(*world, a, b)) by {
                if pickup_eligible(*world, a, b) {
                    assert(exists|t: int|
                        start <= t < buf@.len() && pickup_grants(#[trigger] buf@[t], a, b));
                }
            }
        }
    }
}

/// Everything a weapon lying on the floor is made of.
pub struct WeaponBundle {
    pub name: Name,
    pub render: Render,
    pub weapon: Weapon,
}

/// Everything a shield lying on the floor is made of.
pub struct ShieldBundle {
    pub name: Name,
    pub render: Render,
    pub shield: Shield,
}

/// Everything a piece of armour lying on the floor is made of.
pub struct ArmourBundle {
    pub name: Name,
    pub render: Render,
    pub armour: Armour,
}

} // verus!
