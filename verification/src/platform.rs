//! The subsystem registry: one slot for the one hardware subsystem of the
//! machine, and the two ways of getting at it.
//!
//! The first subsystem that is registered wins. A later registration is
//! ignored, also after the subsystem has been taken out of the slot: the
//! registry never accepts a second instance. Registering a subsystem does not
//! initialise it; whoever constructs the subsystem does that.

use crate::console::Console;
use vstd::prelude::*;

verus! {

/// What a hardware subsystem offers to the kernel. A platform implements it
/// for the machine it runs on.
pub trait SubSystem {
    /// Brings the hardware up.
    fn initialise(&self);

    /// Puts the machine to rest.
    fn halt(&self);

    /// What a write may leave of this subsystem: whether `after` is a state
    /// that writing `data` to `dest` can take it to. An implementation says
    /// here what its own writes do; one that says nothing allows any state.
    open spec fn written(&self, dest: Seq<char>, data: Seq<char>, after: &Self) -> bool {
        true
    }

    /// Sends `data` to the destination named by `dest`.
    fn write(&mut self, dest: &str, data: &str)
        ensures
            old(self).written(dest@, data@, final(self)),
    ;

    /// Attaches a console, or detaches the one there is.
    fn set_console(&mut self, console: Option<Console>);

    /// The attached console, if there is one.
    fn get_console(&mut self) -> Option<&mut Console>;
}

/// A subsystem on its way into the registry.
pub struct Platform<T: SubSystem> {
    pub sub_system: T,
}

impl<T: SubSystem> Platform<T> {
    pub fn new(sub_system: T) -> (platform: Self)
        ensures
            platform.sub_system == sub_system,
    {
        Platform { sub_system }
    }
}

/// The mathematical model of the registry: whether a subsystem was ever
/// registered, and the subsystem that a lookup finds.
pub struct Slot<T> {
    pub registered: bool,
    pub occupant: Option<T>,
}

impl<T> Slot<T> {
    /// Nothing is found where nothing was registered.
    pub open spec fn wf(self) -> bool {
        self.occupant is Some ==> self.registered
    }

    /// The slot after a registration of `sub_system`: taken by it if nothing
    /// was registered before, and unchanged otherwise.
    pub open spec fn register(self, sub_system: T) -> Slot<T> {
        if self.registered {
            self
        } else {
            Slot { registered: true, occupant: Some(sub_system) }
        }
    }

    /// The slot after its occupant has been taken out.
    pub open spec fn vacate(self) -> Slot<T> {
        Slot { occupant: None, ..self }
    }
}

impl<T: SubSystem> Slot<T> {
    /// Whether `after` is what a write of `data` to `dest` may leave of this
    /// slot: the occupant has taken the write and stays in the slot; an empty
    /// slot drops the write and stays as it is.
    pub open spec fn written(self, dest: Seq<char>, data: Seq<char>, after: Slot<T>) -> bool {
        &&& after.registered == self.registered
        &&& match self.occupant {
            Some(sub_system) => after.occupant matches Some(then) && sub_system.written(
                dest,
                data,
                &then,
            ),
            None => after.occupant is None,
        }
    }
}

/// The slot that holds the registered subsystem.
pub struct Registry<T: SubSystem> {
    /// whether a subsystem was ever registered
    registered: bool,
    /// the subsystem, while it is in the slot
    slot: Option<T>,
}

impl<T: SubSystem> View for Registry<T> {
    type V = Slot<T>;

    closed spec fn view(&self) -> Slot<T> {
        Slot { registered: self.registered, occupant: self.slot }
    }
}

impl<T: SubSystem> Registry<T> {
    /// An empty registry.
    pub fn new() -> (registry: Self)
        ensures
            registry@ == (Slot::<T> { registered: false, occupant: None }),
            registry@.wf(),
    {
        Registry { registered: false, slot: None }
    }

    /// Registers the subsystem of `platform`, unless one was registered
    /// before: then nothing changes.
    pub fn set_platform(&mut self, platform: Platform<T>)
        ensures
            final(self)@ == old(self)@.register(platform.sub_system),
            old(self)@.wf() ==> final(self)@.wf(),
    {
        if !self.registered {
            self.slot = Some(platform.sub_system);
            self.registered = true;
        }
    }

    /// Whether a lookup would find a subsystem.
    pub fn is_occupied(&self) -> (b: bool)
        ensures
            b == (self@.occupant is Some),
    {
        self.slot.is_some()
    }

    /// Borrows the subsystem for a moment; it stays in the slot.
    pub fn get_sub_system(&mut self) -> (found: Option<&mut T>)
        ensures
            match found {
                Some(sub_system) => {
                    &&& old(self)@.occupant == Some(*sub_system)
                    &&& final(self)@.occupant == Some(*final(sub_system))
                },
                None => old(self)@.occupant is None && final(self)@.occupant is None,
            },
            final(self)@.registered == old(self)@.registered,
    {
        self.slot.as_mut()
    }

    /// Takes the subsystem out of the slot for good. Later lookups find
    /// nothing, and the registry stays closed to new registrations.
    pub fn take_sub_system(&mut self) -> (taken: Option<T>)
        ensures
            taken == old(self)@.occupant,
            final(self)@ == old(self)@.vacate(),
    {
        self.slot.take()
    }

    /// Hands `data` for `dest` to the registered subsystem. Without a
    /// subsystem in the slot the write is dropped.
    pub fn write(&mut self, dest: &str, data: &str)
        ensures
            old(self)@.written(dest@, data@, final(self)@),
    {
        match self.slot.as_mut() {
            Some(sub_system) => {
                sub_system.write(dest, data);
            },
            None => {},
        }
    }
}

/// A second registration changes nothing: lookups keep finding the subsystem
/// that was registered first.
pub proof fn lemma_first_registration_wins<T>(slot: Slot<T>, first: T, second: T)
    ensures
        slot.register(first).register(second) == slot.register(first),
        !slot.registered ==> slot.register(first).register(second).occupant == Some(first),
{
}

/// A registry that holds a subsystem ignores every registration.
pub proof fn lemma_registration_is_ignored<T>(slot: Slot<T>, later: T)
    requires
        slot.registered,
    ensures
        slot.register(later) == slot,
{
}

/// Once a subsystem was taken out, the slot stays empty whatever is
/// registered.
pub proof fn lemma_taken_is_gone<T>(slot: Slot<T>, later: T)
    requires
        slot.wf(),
        slot.registered,
    ensures
        slot.vacate().register(later).occupant is None,
        slot.vacate().wf(),
{
}

/// A write to a registry without a subsystem is dropped: the registry is as
/// it was. A write to a registry with a subsystem leaves that subsystem in
/// the slot, changed as its own write changes it.
pub proof fn lemma_write_keeps_the_slot<T: SubSystem>(
    slot: Slot<T>,
    dest: Seq<char>,
    data: Seq<char>,
    after: Slot<T>,
)
    requires
        slot.written(dest, data, after),
    ensures
        slot.occupant is None ==> after == slot,
        after.occupant is Some <==> slot.occupant is Some,
        after.registered == slot.registered,
        slot.wf() ==> after.wf(),
{
}

} // verus!
