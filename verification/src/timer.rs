use vstd::prelude::*;

verus! {

/// The timer: the handler each tick goes to, if any, and the ticks counted so far.
pub struct Timer<H> {
    handler: Option<H>,
    ticks: u64,
}

impl<H: Copy> Timer<H> {
    pub closed spec fn handler(&self) -> Option<H> {
        self.handler
    }

    pub closed spec fn ticks(&self) -> u64 {
        self.ticks
    }

    /// A timer with no handler that has counted no ticks.
    pub fn new() -> (t: Self)
        ensures
            t.handler() == None::<H>,
            t.ticks() == 0,
    {
        Timer { handler: None, ticks: 0 }
    }
}

/// Counts a timer tick and returns the handler it goes to, if any.
pub fn handle_tick<H: Copy>(timer: &mut Timer<H>) -> (r: Option<H>)
    requires
        old(timer).ticks() < u64::MAX,
    ensures
        final(timer).ticks() == old(timer).ticks() + 1,
        final(timer).handler() == old(timer).handler(),
        r == old(timer).handler(),
{
    timer.ticks = timer.ticks + 1;
    timer.handler
}

/// Installs `handler` for timer ticks, replacing any other.
pub fn set_timer_handler<H: Copy>(timer: &mut Timer<H>, handler: H)
    ensures
        final(timer).handler() == Some(handler),
        final(timer).ticks() == old(timer).ticks(),
{
    timer.handler = Some(handler);
}

/// Removes the timer handler.
pub fn clear_timer_handler<H: Copy>(timer: &mut Timer<H>)
    ensures
        final(timer).handler() == None::<H>,
        final(timer).ticks() == old(timer).ticks(),
{
    timer.handler = None;
}

/// The ticks counted since boot or the last reset.
pub fn get_tick_count<H: Copy>(timer: &Timer<H>) -> (r: u64)
    ensures
        r == timer.ticks(),
{
    timer.ticks
}

/// Starts counting ticks from zero again.
pub fn reset_tick_count<H: Copy>(timer: &mut Timer<H>)
    ensures
        final(timer).ticks() == 0,
        final(timer).handler() == old(timer).handler(),
{
    timer.ticks = 0;
}

} // verus!
