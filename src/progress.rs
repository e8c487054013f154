use vstd::prelude::*;

verus! {

#[verifier::external_type_specification]
#[verifier::external_body]
pub struct ExInstant(std::time::Instant);

/// Relies on std::time::Instant::now: reads the monotonic clock; nothing is
/// promised of the value.
#[verifier::external_body]
fn clock_now() -> (r: std::time::Instant) {
    std::time::Instant::now()
}

/// Width of the drawn bar, in character cells.
pub const BAR_CELLS: usize = 24;

/// Whole percent of `done` out of `total`, rounded down.
pub open spec fn percent_of(done: int, total: int) -> int {
    done * 100 / total
}

/// Tracks how many pixels of a render are finished and decides when the
/// percentage shown to the user changes.
pub struct ProgressBar {
    total: u32,
    done: u32,
    last_pct: u32,
    start: std::time::Instant,
}

impl ProgressBar {
    pub closed spec fn spec_total(&self) -> int {
        self.total as int
    }

    pub closed spec fn spec_done(&self) -> int {
        self.done as int
    }

    pub closed spec fn spec_last_pct(&self) -> int {
        self.last_pct as int
    }

    pub closed spec fn spec_start(&self) -> std::time::Instant {
        self.start
    }

    /// The counters stay consistent: no more done than there is, a
    /// percentage that fits the counter type, and the last percentage shown
    /// is the one of the current count.
    pub closed spec fn wf(&self) -> bool {
        &&& self.done <= self.total
        &&& self.total as int * 100 <= u32::MAX
        &&& (self.done == 0 ==> self.last_pct == 0)
        &&& (self.total > 0 ==> self.last_pct == percent_of(self.done as int, self.total as int))
    }

    /// A bar for `total` units of work, none of them done, started now.
    pub fn new(total: u32) -> (r: ProgressBar)
        requires
            total as int * 100 <= u32::MAX,
        ensures
            r.wf(),
            r.spec_total() == total,
            r.spec_done() == 0,
            r.spec_last_pct() == 0,
    {
        ProgressBar { total, done: 0, last_pct: 0, start: clock_now() }
    }

    pub fn total(&self) -> (r: u32)
        ensures
            r == self.spec_total(),
    {
        self.total
    }

    pub fn done(&self) -> (r: u32)
        ensures
            r == self.spec_done(),
    {
        self.done
    }

    /// The moment the bar was made, from which elapsed time and the
    /// remaining time are reckoned.
    pub fn started(&self) -> (r: std::time::Instant)
        ensures
            r == self.spec_start(),
    {
        self.start
    }

    /// Counts one more unit as done. Returns the new whole percentage when
    /// it differs from the last one reported, and `None` when the display
    /// need not change.
    pub fn tick(&mut self) -> (r: Option<u32>)
        requires
            old(self).wf(),
            old(self).spec_done() < old(self).spec_total(),
        ensures
            final(self).wf(),
            final(self).spec_total() == old(self).spec_total(),
            final(self).spec_start() == old(self).spec_start(),
            final(self).spec_done() == old(self).spec_done() + 1,
            final(self).spec_last_pct() == percent_of(
                final(self).spec_done(),
                final(self).spec_total(),
            ),
            r == (if final(self).spec_last_pct() != old(self).spec_last_pct() {
                Some(final(self).spec_last_pct() as u32)
            } else {
                None
            }),
    {
        self.done = self.done + 1;
        assert(self.done as int * 100 <= self.total as int * 100) by (nonlinear_arith)
            requires
                self.done <= self.total,
        ;
        let pct = self.done * 100 / self.total;
        let old_pct = self.last_pct;
        self.last_pct = pct;
        if pct != old_pct {
            Some(pct)
        } else {
            None
        }
    }
}

/// Filled cells of the bar at `pct` percent.
pub open spec fn filled_cells(pct: int) -> int {
    pct * BAR_CELLS as int / 100
}

/// Splits the bar at `pct` percent into filled and empty cells.
pub fn bar_cells(pct: u32) -> (r: (usize, usize))
    requires
        pct <= 100,
    ensures
        r.0 == filled_cells(pct as int),
        r.0 + r.1 == BAR_CELLS,
{
    let filled = (pct as usize) * BAR_CELLS / 100;
    assert(filled <= BAR_CELLS) by (nonlinear_arith)
        requires
            filled == (pct as usize) * 24 / 100,
            pct <= 100,
    ;
    (filled, BAR_CELLS - filled)
}

} // verus!
