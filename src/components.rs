use vstd::prelude::*;

verus! {

/// Display name of an entity.
#[derive(Clone, Debug)]
pub struct Name {
    pub name: String,
}

impl Name {
    pub fn new(name: &str) -> (r: Name)
        ensures
            r.name@ == name@,
    {
        Name { name: name.to_owned() }
    }
}

/// Hit points of an entity and their maximum.
#[derive(Clone, Copy, Debug, PartialEq, Eq, Structural)]
pub struct Health {
    pub hit_points: i32,
    pub max_hit_points: i32,
}

impl Health {
    /// Full health with `max` hit points.
    pub fn new(max: i32) -> (r: Health)
        requires
            max > 0,
        ensures
            r.hit_points == max,
            r.max_hit_points == max,
    {
        Health { hit_points: max, max_hit_points: max }
    }

    /// Takes `amount` hit points away (a negative amount heals).
    pub fn hurt(&mut self, amount: i32)
        requires
            i32::MIN <= old(self).hit_points - amount <= i32::MAX,
        ensures
            final(self).hit_points == old(self).hit_points - amount,
            final(self).max_hit_points == old(self).max_hit_points,
    {
        self.hit_points = self.hit_points - amount;
    }

    pub fn kill(&mut self)
        ensures
            final(self).hit_points == 0,
            final(self).max_hit_points == old(self).max_hit_points,
    {
        self.hit_points = 0;
    }

    pub fn is_dead(&self) -> (r: bool)
        ensures
            r == (self.hit_points <= 0),
    {
        self.hit_points <= 0
    }
}

/// Collision shape of a physical entity.
#[derive(Clone, Copy, Debug, PartialEq, Eq, Hash, Structural)]
pub enum PhysicsShape {
    Chara,
    Wall,
    Bullet,
}

/// How a physical entity takes part in collisions.
#[derive(Clone, Copy, Debug, PartialEq, Eq, Hash, Structural)]
pub enum PhysicsKind {
    Physical,
    Bullet,
}

/// Relies on rand's `random`: a `u32` drawn from the thread-local generator;
/// nothing is known of its value.
#[verifier::external_body]
fn random_u32() -> (r: u32) {
    rand::random::<u32>()
}

/// Sprite parts a character is drawn with.
#[derive(Clone, Copy, Debug, PartialEq, Eq, Structural)]
pub struct CharaAppearance {
    pub body_kind: u32,
    pub feet_kind: u32,
    pub jacket_kind: u32,
    pub hair_kind: u32,
    pub helmet_kind: u32,
    pub ear_kind: u32,
    pub tail_kind: u32,
    pub face_kind: u32,
}

impl CharaAppearance {
    pub fn new() -> (r: CharaAppearance)
        ensures
            r == (CharaAppearance {
                body_kind: 6,
                feet_kind: 0,
                jacket_kind: 2,
                hair_kind: 16,
                helmet_kind: 1,
                ear_kind: 1,
                tail_kind: 1,
                face_kind: 5,
            }),
    {
        CharaAppearance {
            body_kind: 6,
            feet_kind: 0,
            jacket_kind: 2,
            hair_kind: 16,
            helmet_kind: 1,
            ear_kind: 1,
            tail_kind: 1,
            face_kind: 5,
        }
    }

    /// Every part drawn at random, but the feet, which stay the default.
    pub fn new_random() -> (r: CharaAppearance)
        ensures
            r.feet_kind == 0,
    {
        CharaAppearance {
            body_kind: random_u32(),
            feet_kind: 0,
            jacket_kind: random_u32(),
            hair_kind: random_u32(),
            helmet_kind: random_u32(),
            ear_kind: random_u32(),
            tail_kind: random_u32(),
            face_kind: random_u32(),
        }
    }
}

/// Sprite of an object: its kind, drawing offset and variant.
#[derive(Debug)]
pub struct ObjectAppearance {
    pub kind: String,
    pub offset: (i32, i32),
    pub variant: u32,
    pub directional: bool,
}

impl Clone for ObjectAppearance {
    fn clone(&self) -> (r: ObjectAppearance)
        ensures
            r.kind@ == self.kind@,
            r.offset == self.offset,
            r.variant == self.variant,
            r.directional == self.directional,
    {
        ObjectAppearance {
            kind: self.kind.clone(),
            offset: self.offset,
            variant: self.variant,
            directional: self.directional,
        }
    }
}

impl ObjectAppearance {
    pub fn new(kind: &str, offset: (i32, i32), variant: u32) -> (r: ObjectAppearance)
        ensures
            r.kind@ == kind@,
            r.offset == offset,
            r.variant == variant,
            !r.directional,
    {
        ObjectAppearance { kind: kind.to_owned(), offset, variant, directional: false }
    }
}

/// How an entity is drawn.
#[derive(Clone, Debug)]
pub enum Appearance {
    Chara(CharaAppearance),
    Object(ObjectAppearance),
    Bullet,
}

impl Appearance {
    /// A character with random parts.
    pub fn new_chara() -> (r: Appearance)
        ensures
            r is Chara,
            r->Chara_0.feet_kind == 0,
    {
        Appearance::Chara(CharaAppearance::new_random())
    }

    /// A non-directional object.
    pub fn new(kind: &str, offset: (i32, i32), variant: u32) -> (r: Appearance)
        ensures
            r is Object,
            r->Object_0.kind@ == kind@,
            r->Object_0.offset == offset,
            r->Object_0.variant == variant,
            !r->Object_0.directional,
    {
        Appearance::Object(ObjectAppearance::new(kind, offset, variant))
    }
}

/// Ammunition a gun fires.
#[derive(Clone, Copy, Debug, PartialEq, Eq, Structural)]
pub enum BulletKind {
    NineMm,
}

/// Faction of a character.
#[derive(Clone, Copy, Debug, PartialEq, Eq, Structural)]
pub struct Team(pub u8);

/// Marks an entity as a character.
#[derive(Clone, Copy, Debug, PartialEq, Eq, Structural)]
pub struct Chara {
    pub team: Team,
}

impl Chara {
    pub fn new() -> (r: Chara)
        ensures
            r.team == Team(0),
    {
        Chara { team: Team(0) }
    }
}

} // verus!
