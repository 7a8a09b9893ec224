use vstd::prelude::*;

verus! {

/// A weapon's fixed combat values.
#[derive(Debug, Clone, Copy)]
pub struct Weapon {
    pub name: &'static str,
    pub init: i8,
    pub attack: u8,
    pub defence: u8,
    pub damage: u8,
}

/// An armor's protection.
#[derive(Debug, Clone, Copy)]
pub struct Armor {
    pub name: &'static str,
    pub protection: i8,
}

impl Weapon {
    pub fn great_sword() -> (r: Weapon)
        ensures
            r.name@ == "Great Sword"@,
            r.init == 2 && r.attack == 5 && r.defence == 2 && r.damage == 9,
    {
        Weapon { name: "Great Sword", init: 2, attack: 5, defence: 2, damage: 9 }
    }

    pub fn pole_axe() -> (r: Weapon)
        ensures
            r.name@ == "Pole Axe"@,
            r.init == 1 && r.attack == 5 && r.defence == 0 && r.damage == 11,
    {
        Weapon { name: "Pole Axe", init: 1, attack: 5, defence: 0, damage: 11 }
    }

    pub fn pole_arm() -> (r: Weapon)
        ensures
            r.name@ == "Pole Arm"@,
            r.init == 3 && r.attack == 4 && r.defence == 1 && r.damage == 8,
    {
        Weapon { name: "Pole Arm", init: 3, attack: 4, defence: 1, damage: 8 }
    }
}

impl Armor {
    pub fn full_chain_mail() -> (r: Armor)
        ensures
            r.name@ == "Full Mail"@,
            r.protection == 9,
    {
        Armor { name: "Full Mail", protection: 9 }
    }

    pub fn custom() -> (r: Armor)
        ensures
            r.name@ == "Full Mail"@,
            r.protection == 6,
    {
        Armor { name: "Full Mail", protection: 6 }
    }

    pub fn plate_full_mail_camail_lvl_1() -> (r: Armor)
        ensures
            r.name@ == "Plate and Full Mail +1 With Camail +1"@,
            r.protection == 15,
    {
        Armor { name: "Plate and Full Mail +1 With Camail +1", protection: 15 }
    }

    pub fn plate_full_mail_lvl_1() -> (r: Armor)
        ensures
            r.name@ == "Plate and Full Mail +1"@,
            r.protection == 13,
    {
        Armor { name: "Plate and Full Mail +1", protection: 13 }
    }
}

} // verus!
