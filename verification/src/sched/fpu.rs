//! Per-thread floating-point and vector register state.
//!
//! The kernel never touches those registers, so they hold the state of the user thread that ran
//! last, their owner. Only activating another user thread saves the owner's registers and loads the
//! next thread's image. Kernel threads leave the owner as it is.

use super::SCHEDULER_THREAD_SLOTS;
use vstd::prelude::*;

verus! {

pub const FXSAVE_AREA_BYTES: usize = 512;

/// Reset control word: all x87 exceptions masked, 64-bit precision.
pub const DEFAULT_FCW: u16 = 0x037f;

/// Reset SIMD control word: all exceptions masked, round to nearest.
pub const DEFAULT_MXCSR: u32 = 0x1f80;

pub const CR4_OSFXSR: u64 = 0x200;

pub const CR4_OSXMMEXCPT: u64 = 0x400;

pub const CR4_OSXSAVE: u64 = 0x4_0000;

/// A register image. The second field is empty and gives the image the 16-byte alignment that the
/// save and restore instructions need.
#[derive(Clone, Copy, Debug)]
pub struct FxArea(pub [u8; FXSAVE_AREA_BYTES], pub [u128; 0]);

/// The bytes of the reset image: the two control words, little-endian, and zeros.
pub open spec fn default_byte(i: int) -> u8 {
    if i == 0 {
        0x7f
    } else if i == 1 {
        0x03
    } else if i == 24 {
        0x80
    } else if i == 25 {
        0x1f
    } else {
        0
    }
}

/// Whether an image is the reset image.
pub open spec fn is_default(area: FxArea) -> bool {
    forall|i: int| 0 <= i < FXSAVE_AREA_BYTES ==> #[trigger] area.0@[i] == default_byte(i)
}

pub fn default_area() -> (r: FxArea)
    ensures
        is_default(r),
{
    let mut bytes: [u8; FXSAVE_AREA_BYTES] = [0; FXSAVE_AREA_BYTES];
    bytes[0] = 0x7f;
    bytes[1] = 0x03;
    bytes[24] = 0x80;
    bytes[25] = 0x1f;
    FxArea(bytes, [])
}

/// The control register with SSE state saved and no later state enabled.
pub fn user_fpu_cr4(cr4: u64) -> (r: u64)
    ensures
        r == (cr4 | CR4_OSFXSR | CR4_OSXMMEXCPT) & !CR4_OSXSAVE,
{
    (cr4 | CR4_OSFXSR | CR4_OSXMMEXCPT) & !CR4_OSXSAVE
}

/// The saved images of the scheduler's slots, and the slot whose state is in the registers.
#[derive(Clone, Copy, Debug)]
pub struct FpuState {
    pub areas: [FxArea; SCHEDULER_THREAD_SLOTS],
    pub owner: Option<usize>,
}

/// What the state of a slot is: the registers' for the owner, its image's for another.
pub open spec fn slot_state(fpu: &FpuState, registers: FxArea, slot: int) -> FxArea {
    if fpu.owner == Some(slot as usize) {
        registers
    } else {
        fpu.areas@[slot]
    }
}

impl FpuState {
    pub open spec fn wf(&self) -> bool {
        match self.owner {
            Some(slot) => slot < SCHEDULER_THREAD_SLOTS,
            None => true,
        }
    }

    pub fn new() -> (r: FpuState)
        ensures
            r.wf(),
            r.owner is None,
            forall|i: int| 0 <= i < SCHEDULER_THREAD_SLOTS ==> is_default(#[trigger] r.areas@[i]),
    {
        FpuState { areas: [default_area(), default_area(), default_area()], owner: None }
    }

    /// A new thread starts from the reset image. If the slot's previous thread owns the registers,
    /// that state is dead and is not saved.
    pub fn reset_slot(&mut self, slot: usize)
        requires
            old(self).wf(),
            slot < SCHEDULER_THREAD_SLOTS,
        ensures
            final(self).wf(),
            is_default(final(self).areas@[slot as int]),
            forall|i: int|
                0 <= i < SCHEDULER_THREAD_SLOTS && i != slot ==> #[trigger] final(self).areas@[i] == old(self).areas@[i],
            final(self).owner == (if old(self).owner == Some(slot) {
                None
            } else {
                old(self).owner
            }),
    {
        self.areas[slot] = default_area();
        match self.owner {
            Some(owner) => {
                if owner == slot {
                    self.owner = None;
                }
            },
            None => {},
        }
    }

    /// Makes a slot's state live. `registers` are the registers' contents, saved for the owner; the
    /// image to load is returned, or none where the slot owns the registers.
    pub fn activate_user_slot(&mut self, slot: usize, registers: FxArea) -> (r: Option<FxArea>)
        requires
            old(self).wf(),
            slot < SCHEDULER_THREAD_SLOTS,
        ensures
            final(self).wf(),
            final(self).owner == Some(slot),
            r == (if old(self).owner == Some(slot) {
                None
            } else {
                Some(slot_state(old(self), registers, slot as int))
            }),
            forall|i: int|
                0 <= i < SCHEDULER_THREAD_SLOTS && i != slot ==> #[trigger] final(self).areas@[i] == slot_state(
                    old(self),
                    registers,
                    i,
                ),
            final(self).areas@[slot as int] == old(self).areas@[slot as int],
    {
        match self.owner {
            Some(owner) => {
                if owner == slot {
                    assert forall|i: int|
                        0 <= i < SCHEDULER_THREAD_SLOTS && i != slot implies #[trigger] self.areas@[i]
                        == slot_state(old(self), registers, i) by {}
                    return None;
                }
                self.areas[owner] = registers;
            },
            None => {},
        }
        self.owner = Some(slot);
        Some(self.areas[slot])
    }

    /// A child resumes with its parent's state. `registers` are the registers' contents.
    pub fn inherit_for_fork(&mut self, parent_slot: usize, child_slot: usize, registers: FxArea)
        requires
            old(self).wf(),
            parent_slot < SCHEDULER_THREAD_SLOTS,
            child_slot < SCHEDULER_THREAD_SLOTS,
        ensures
            final(self).wf(),
            final(self).owner == old(self).owner,
            final(self).areas@ == old(self).areas@.update(
                child_slot as int,
                slot_state(old(self), registers, parent_slot as int),
            ),
    {
        let image: FxArea = match self.owner {
            Some(owner) => if owner == parent_slot {
                registers
            } else {
                self.areas[parent_slot]
            },
            None => self.areas[parent_slot],
        };
        self.areas[child_slot] = image;
        assert(self.areas@ =~= old(self).areas@.update(child_slot as int, image));
    }

    /// A new program starts from the reset state. Returns the image to load where the slot owns the
    /// registers.
    pub fn reset_for_exec(&mut self, slot: usize) -> (r: Option<FxArea>)
        requires
            old(self).wf(),
            slot < SCHEDULER_THREAD_SLOTS,
        ensures
            final(self).wf(),
            final(self).owner == old(self).owner,
            is_default(final(self).areas@[slot as int]),
            forall|i: int|
                0 <= i < SCHEDULER_THREAD_SLOTS && i != slot ==> #[trigger] final(self).areas@[i] == old(self).areas@[i],
            r == (if old(self).owner == Some(slot) {
                Some(final(self).areas@[slot as int])
            } else {
                None
            }),
    {
        self.areas[slot] = default_area();
        match self.owner {
            Some(owner) => if owner == slot {
                Some(self.areas[slot])
            } else {
                None
            },
            None => None,
        }
    }
}

/// Activating a slot changes no slot's state: afterwards every slot, the activated one with the
/// returned image in the registers, has the state that it had before.
pub proof fn law_activation_keeps_states(
    before: &FpuState,
    after: &FpuState,
    slot: usize,
    registers: FxArea,
    loaded: Option<FxArea>,
    i: int,
)
    requires
        before.wf(),
        slot < SCHEDULER_THREAD_SLOTS,
        0 <= i < SCHEDULER_THREAD_SLOTS,
        after.owner == Some(slot),
        loaded == (if before.owner == Some(slot) {
            None
        } else {
            Some(slot_state(before, registers, slot as int))
        }),
        forall|k: int|
            0 <= k < SCHEDULER_THREAD_SLOTS && k != slot ==> #[trigger] after.areas@[k]
                == slot_state(before, registers, k),
    ensures
        slot_state(
            after,
            match loaded {
                Some(image) => image,
                None => registers,
            },
            i,
        ) == slot_state(before, registers, i),
{
}

} // verus!
