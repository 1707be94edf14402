//! The store of tunable constants and the keys that adjust them.

use vstd::prelude::*;
use crate::fixed::saturated;

verus! {

/// A key of the keyboard that a constant can be bound to.
#[derive(Clone, Copy, Debug, PartialEq, Eq, Hash, Structural)]
pub enum KeyCode {
    KeyF,
    KeyG,
    KeyM,
    KeyN,
}

/// The keys that are held down during one tick.
#[derive(Clone, Debug)]
pub struct HeldKeys {
    pub keys: Vec<KeyCode>,
}

impl View for HeldKeys {
    type V = Set<KeyCode>;

    open spec fn view(&self) -> Set<KeyCode> {
        Set::new(|key: KeyCode| self.keys@.contains(key))
    }
}

impl HeldKeys {
    /// No key held.
    pub fn new() -> (r: HeldKeys)
        ensures
            r@ == Set::<KeyCode>::empty(),
    {
        let r = HeldKeys { keys: Vec::new() };
        assert(r@ =~= Set::<KeyCode>::empty());
        r
    }

    /// Holds `key` down as well.
    pub fn press(&mut self, key: KeyCode)
        ensures
            final(self)@ == old(self)@.insert(key),
    {
        self.keys.push(key);
        proof {
            let before = old(self).keys@;
            let after = self.keys@;
            assert(after == before.push(key));
            assert forall|k: KeyCode| after.contains(k) <==> (k == key || before.contains(k)) by {
                if before.contains(k) {
                    let i = choose|i: int| 0 <= i < before.len() && before[i] == k;
                    assert(after[i] == k);
                }
                if k == key {
                    assert(after[before.len() as int] == k);
                }
            }
            assert(self@ =~= old(self)@.insert(key));
        }
    }

    /// Whether `key` is held.
    pub fn pressed(&self, key: KeyCode) -> (r: bool)
        ensures
            r == self@.contains(key),
    {
        let mut i: usize = 0;
        while i < self.keys.len()
            invariant
                0 <= i <= self.keys.len(),
                forall|j: int| 0 <= j < i ==> self.keys@[j] != key,
            decreases self.keys.len() - i,
        {
            if self.keys[i] == key {
                return true;
            }
            i = i + 1;
        }
        false
    }
}

/// The names of the tunable constants.
#[derive(Clone, Copy, Debug, PartialEq, Eq, Hash, Structural)]
pub enum PName {
    /// The cap on the length of a particle's acceleration.
    MaxAcceleration,
    /// The gravitational constant between two particles.
    InterParticleGravity,
}

/// A tunable constant: its value, the step by which one tick changes it,
/// and the keys that raise and lower it.
#[derive(Clone, Copy, Debug, PartialEq, Eq, Structural)]
pub struct PhysicsManipulable {
    pub key_increase: KeyCode,
    pub key_decrease: KeyCode,
    pub delta: i64,
    pub value: i64,
    pub name: PName,
}

impl PhysicsManipulable {
    /// The change that one tick asks for while `held` are down: the step
    /// for the raising key, less the step for the lowering key.
    pub open spec fn step(self, held: Set<KeyCode>) -> int {
        (if held.contains(self.key_increase) { self.delta as int } else { 0 })
            - (if held.contains(self.key_decrease) { self.delta as int } else { 0 })
    }

    /// The constant with `change` added to its value, all else as it was.
    /// The value is never capped: it stops only where a 64-bit integer
    /// ends.
    pub open spec fn moved(self, change: int) -> PhysicsManipulable {
        PhysicsManipulable { value: saturated(self.value + change) as i64, ..self }
    }

    /// The constant after one tick with `held` down: its value moved by
    /// the step, all else as it was.
    pub open spec fn adjusted(self, held: Set<KeyCode>) -> PhysicsManipulable {
        self.moved(self.step(held))
    }

    /// Adds `rhs` to the value.
    pub fn add_assign(&mut self, rhs: i64)
        ensures
            *final(self) == old(self).moved(rhs as int),
            i64::MIN <= old(self).value + rhs <= i64::MAX ==> final(self).value == old(self).value
                + rhs,
    {
        let target: i128 = self.value as i128 + rhs as i128;
        if target < i64::MIN as i128 {
            self.value = i64::MIN;
        } else if target > i64::MAX as i128 {
            self.value = i64::MAX;
        } else {
            self.value = target as i64;
        }
    }

    /// Applies one tick of key input: adds the step while the raising key
    /// is held and takes it off while the lowering key is held, so that
    /// the value changes by exactly the step, by its opposite, or not at
    /// all.
    pub fn handle_keys(&mut self, keys: &HeldKeys)
        ensures
            *final(self) == old(self).adjusted(keys@),
            i64::MIN <= old(self).value + old(self).step(keys@) <= i64::MAX ==> final(self).value
                == old(self).value + old(self).step(keys@),
    {
        let mut target: i128 = self.value as i128;
        if keys.pressed(self.key_increase) {
            target = target + self.delta as i128;
        }
        if keys.pressed(self.key_decrease) {
            target = target - self.delta as i128;
        }
        if target < i64::MIN as i128 {
            self.value = i64::MIN;
        } else if target > i64::MAX as i128 {
            self.value = i64::MAX;
        } else {
            self.value = target as i64;
        }
    }
}

/// The store of tunable constants: one record for each name.
#[derive(Clone, Copy, Debug, PartialEq, Eq, Structural)]
pub struct Physics {
    pub max_acceleration: PhysicsManipulable,
    pub inter_particle_gravity: PhysicsManipulable,
}

impl Physics {
    /// The record kept under `name`.
    pub open spec fn entry(self, name: PName) -> PhysicsManipulable {
        match name {
            PName::MaxAcceleration => self.max_acceleration,
            PName::InterParticleGravity => self.inter_particle_gravity,
        }
    }

    /// Every record carries the name it is kept under.
    pub open spec fn wf(self) -> bool {
        &&& self.max_acceleration.name == PName::MaxAcceleration
        &&& self.inter_particle_gravity.name == PName::InterParticleGravity
    }

    /// The store after one tick with `held` down: every record adjusted.
    pub open spec fn adjusted(self, held: Set<KeyCode>) -> Physics {
        Physics {
            max_acceleration: self.max_acceleration.adjusted(held),
            inter_particle_gravity: self.inter_particle_gravity.adjusted(held),
        }
    }

    /// The value of the constant `name`. Every name is registered, so the
    /// answer is never `None`.
    pub fn get_value(&self, name: PName) -> (r: Option<i64>)
        ensures
            r == Some(self.entry(name).value),
    {
        if let Some(e) = self.get(name) {
            Some(e.value)
        } else {
            None
        }
    }

    /// The record of the constant `name`.
    pub fn get(&self, name: PName) -> (r: Option<&PhysicsManipulable>)
        ensures
            r == Some(&self.entry(name)),
            self.wf() ==> r.unwrap().name == name,
    {
        match name {
            PName::MaxAcceleration => Some(&self.max_acceleration),
            PName::InterParticleGravity => Some(&self.inter_particle_gravity),
        }
    }

    /// The record of the constant `name`, to be changed in place: the store
    /// ends with what the caller leaves there, and its other record as it
    /// was.
    pub fn get_mut(&mut self, name: PName) -> (r: Option<&mut PhysicsManipulable>)
        ensures
            r is Some,
            *r.unwrap() == old(self).entry(name),
            final(self).entry(name) == *final(r.unwrap()),
            forall|other: PName| other != name ==> final(self).entry(other) == old(self).entry(other),
    {
        match name {
            PName::MaxAcceleration => Some(&mut self.max_acceleration),
            PName::InterParticleGravity => Some(&mut self.inter_particle_gravity),
        }
    }
}

impl Default for Physics {
    /// The store at the start of a run: the acceleration cap at 4000 with
    /// steps of 100 on the keys M and N, the gravitational constant at
    /// 400000 with steps of 10000 on the keys G and F.
    fn default() -> (r: Physics)
        ensures
            r.wf(),
            r.max_acceleration == (PhysicsManipulable {
                key_increase: KeyCode::KeyM,
                key_decrease: KeyCode::KeyN,
                delta: 100_000,
                value: 4_000_000,
                name: PName::MaxAcceleration,
            }),
            r.inter_particle_gravity == (PhysicsManipulable {
                key_increase: KeyCode::KeyG,
                key_decrease: KeyCode::KeyF,
                delta: 10_000_000,
                value: 400_000_000,
                name: PName::InterParticleGravity,
            }),
    {
        Physics {
            max_acceleration: PhysicsManipulable {
                key_increase: KeyCode::KeyM,
                key_decrease: KeyCode::KeyN,
                delta: 100_000,
                value: 4_000_000,
                name: PName::MaxAcceleration,
            },
            inter_particle_gravity: PhysicsManipulable {
                key_increase: KeyCode::KeyG,
                key_decrease: KeyCode::KeyF,
                delta: 10_000_000,
                value: 400_000_000,
                name: PName::InterParticleGravity,
            },
        }
    }
}

/// Applies one tick of key input to every constant of the store.
pub fn modify_physics_constants(keys: &HeldKeys, physics_constants: &mut Physics)
    ensures
        *final(physics_constants) == old(physics_constants).adjusted(keys@),
        forall|name: PName| #[trigger]
            final(physics_constants).entry(name) == old(physics_constants).entry(name).adjusted(
                keys@,
            ),
        old(physics_constants).wf() ==> final(physics_constants).wf(),
{
    physics_constants.max_acceleration.handle_keys(keys);
    physics_constants.inter_particle_gravity.handle_keys(keys);
}

/// Holding only the raising key of a constant for one tick raises its value
/// by exactly its step, wherever a 64-bit integer holds the raised value.
pub proof fn lemma_raising_key_adds_step(p: PhysicsManipulable, held: Set<KeyCode>)
    requires
        held.contains(p.key_increase),
        !held.contains(p.key_decrease),
        p.value + p.delta <= i64::MAX,
        p.value + p.delta >= i64::MIN,
    ensures
        p.adjusted(held).value == p.value + p.delta,
{
}

/// Holding only the lowering key of a constant for one tick lowers its
/// value by exactly its step, wherever a 64-bit integer holds the lowered
/// value.
pub proof fn lemma_lowering_key_takes_step(p: PhysicsManipulable, held: Set<KeyCode>)
    requires
        !held.contains(p.key_increase),
        held.contains(p.key_decrease),
        p.value - p.delta <= i64::MAX,
        p.value - p.delta >= i64::MIN,
    ensures
        p.adjusted(held).value == p.value - p.delta,
{
}

/// Holding both keys of a constant, or neither, leaves it as it was.
pub proof fn lemma_both_keys_cancel(p: PhysicsManipulable, held: Set<KeyCode>)
    requires
        held.contains(p.key_increase) == held.contains(p.key_decrease),
    ensures
        p.adjusted(held) == p,
{
}

/// One tick moves every record of the store by its own step, and by
/// nothing else.
pub proof fn lemma_every_record_takes_its_step(store: Physics, held: Set<KeyCode>, name: PName)
    ensures
        store.adjusted(held).entry(name) == store.entry(name).adjusted(held),
        i64::MIN <= store.entry(name).value + store.entry(name).step(held) <= i64::MAX
            ==> store.adjusted(held).entry(name).value == store.entry(name).value
            + store.entry(name).step(held),
{
}

} // verus!
