use vstd::prelude::*;

verus! {

/// The generation number that follows `g`, wrapping around after `u32::MAX`.
pub open spec fn next_generation(g: u32) -> u32 {
    if g == u32::MAX {
        0
    } else {
        (g + 1) as u32
    }
}

/// When to hide the copy notice. Each notice that is shown gets a new
/// generation number; a hide that was scheduled for an older notice does
/// nothing.
#[derive(Clone, Copy, Debug)]
pub struct ToastSchedule {
    generation: u32,
    duration_ms: u64,
}

/// The schedule as plain values.
#[derive(Clone, Copy, Debug, PartialEq, Eq, Structural)]
pub struct ScheduleView {
    pub generation: u32,
    pub duration_ms: u64,
}

/// A hide to run `delay_ms` milliseconds after a notice was shown.
#[derive(Clone, Copy, Debug, PartialEq, Eq, Structural)]
pub struct PendingHide {
    pub generation: u32,
    pub delay_ms: u64,
}

impl View for ToastSchedule {
    type V = ScheduleView;

    closed spec fn view(&self) -> ScheduleView {
        ScheduleView { generation: self.generation, duration_ms: self.duration_ms }
    }
}

impl ToastSchedule {
    pub fn new(duration_ms: u64) -> (s: Self)
        ensures
            s@ == (ScheduleView { generation: 0, duration_ms }),
    {
        Self { generation: 0, duration_ms }
    }

    pub fn set_duration_ms(&mut self, duration_ms: u64)
        ensures
            final(self)@ == (ScheduleView { duration_ms, ..old(self)@ }),
    {
        self.duration_ms = duration_ms;
    }

    /// A notice is shown: it gets the next generation, and its hide is due
    /// after the current duration.
    pub fn show(&mut self) -> (hide: PendingHide)
        ensures
            final(self)@ == (ScheduleView {
                generation: next_generation(old(self)@.generation),
                ..old(self)@
            }),
            hide == (PendingHide {
                generation: next_generation(old(self)@.generation),
                delay_ms: old(self)@.duration_ms,
            }),
    {
        let generation = self.generation.wrapping_add(1);
        self.generation = generation;
        PendingHide { generation, delay_ms: self.duration_ms }
    }

    /// Whether a hide scheduled for the notice of `generation` takes effect:
    /// only if no newer notice was shown since.
    pub fn should_hide(&self, generation: u32) -> (b: bool)
        ensures
            b == (generation == self@.generation),
    {
        self.generation == generation
    }
}

/// A notice shown after another cancels the other's pending hide.
pub proof fn lemma_newer_notice_cancels_hide(g: u32)
    ensures
        next_generation(next_generation(g)) != next_generation(g),
{
}

/// The notice shown after a color was copied.
pub fn copied_message(text: &str) -> (s: String)
    ensures
        s@ == "Copied "@ + text@,
{
    let mut s = String::from_str("Copied ");
    s.append(text);
    s
}

/// Each notice's generation is one more than the last, modulo 2^32.
pub proof fn lemma_next_generation_counts(g: u32)
    ensures
        next_generation(g) as int == (g as int + 1) % 0x1_0000_0000,
{
}

} // verus!
