//! The integer side of the GC pacing director: when a generation's cycle
//! starts, how much a mutator must assist, and when an allocation stall is
//! legal. The rate models that estimate cycle times and runways are floating
//! point and feed these decisions with their answers.

use vstd::prelude::*;

verus! {

/// Which generation a decision applies to.
#[derive(Clone, Copy, Debug, PartialEq, Eq, Structural)]
pub enum DirectorGeneration {
    Young,
    Old,
}

/// Why an allocation stalled. Only reserve exhaustion is legal.
#[derive(Clone, Copy, Debug, PartialEq, Eq, Structural)]
pub enum StallReason {
    RelocationReserveExhausted,
}

/// A recorded allocation stall.
#[derive(Clone, Copy, Debug, PartialEq, Eq, Structural)]
pub struct StallEvent {
    pub reason: StallReason,
    pub duration_ns: u64,
    pub free_bytes: u64,
    pub reserve_bytes: u64,
    pub prediction_error_ns: i64,
    pub generation: DirectorGeneration,
}

/// What `evaluate` decides.
#[derive(Clone, Copy, Debug, PartialEq, Eq, Structural)]
pub enum DirectorDecision {
    Idle,
    StartYoung,
    StartOld,
    Continue,
}

/// The assist work a mutator owes for its allocation debt.
#[derive(Clone, Copy, Debug, Default, PartialEq, Eq, Structural)]
pub struct AssistBudget {
    /// Work bytes the mutator repays before its allocation returns.
    pub work_bytes: u64,
    /// The debt hit the per-allocation cap.
    pub capped: bool,
}

/// The default per-allocation assist cap: 256 KiB.
pub const DEFAULT_ASSIST_CAP_BYTES: u64 = 262144;

/// A wall-clock duration in nanoseconds, saturated to `u64`.
pub fn duration_ns(nanos: u128) -> (r: u64)
    ensures
        r == if nanos > u64::MAX { u64::MAX } else { nanos as u64 },
{
    if nanos > u64::MAX as u128 {
        u64::MAX
    } else {
        nanos as u64
    }
}

/// Cold start (no rate sample yet): start when the free space is no more
/// than the live bytes.
pub fn cold_start_trigger(free_bytes: u64, live_bytes: u64) -> (r: bool)
    ensures
        r == (free_bytes > 0 && live_bytes > 0 && free_bytes <= live_bytes),
{
    free_bytes > 0 && live_bytes > 0 && free_bytes <= live_bytes
}

pub open spec fn sat_mul_u64(a: u64, b: u64) -> u64 {
    if a * b > u64::MAX {
        u64::MAX
    } else {
        (a * b) as u64
    }
}

/// Start when the predicted cycle time takes at least 80% of the free-space
/// runway (both saturated at `u64::MAX` when scaled).
pub fn runway_trigger(predicted_ns: u64, runway_ns: u64) -> (r: bool)
    ensures
        r == (sat_mul_u64(predicted_ns, 5) >= sat_mul_u64(runway_ns, 4)),
{
    let p = match predicted_ns.checked_mul(5) {
        Some(v) => v,
        None => u64::MAX,
    };
    let q = match runway_ns.checked_mul(4) {
        Some(v) => v,
        None => u64::MAX,
    };
    p >= q
}

/// The director's decisions and bookkeeping.
#[derive(Debug, Clone, Copy)]
pub struct DirectorPolicy {
    free_bytes: u64,
    reserve_bytes: u64,
    young_active: bool,
    old_active: bool,
    assist_cap_bytes: u64,
    stall_count: u64,
    last_stall: Option<StallEvent>,
    last_decision: DirectorDecision,
    young_prediction_error_ns: i64,
    old_prediction_error_ns: i64,
}

pub struct DirectorView {
    pub free_bytes: u64,
    pub reserve_bytes: u64,
    pub young_active: bool,
    pub old_active: bool,
    pub assist_cap_bytes: u64,
    pub stall_count: u64,
    pub last_stall: Option<StallEvent>,
    pub last_decision: DirectorDecision,
    pub young_prediction_error_ns: i64,
    pub old_prediction_error_ns: i64,
}

impl View for DirectorPolicy {
    type V = DirectorView;

    closed spec fn view(&self) -> DirectorView {
        DirectorView {
            free_bytes: self.free_bytes,
            reserve_bytes: self.reserve_bytes,
            young_active: self.young_active,
            old_active: self.old_active,
            assist_cap_bytes: self.assist_cap_bytes,
            stall_count: self.stall_count,
            last_stall: self.last_stall,
            last_decision: self.last_decision,
            young_prediction_error_ns: self.young_prediction_error_ns,
            old_prediction_error_ns: self.old_prediction_error_ns,
        }
    }
}

impl DirectorView {
    pub open spec fn prediction_error(self, generation: DirectorGeneration) -> i64 {
        match generation {
            DirectorGeneration::Young => self.young_prediction_error_ns,
            DirectorGeneration::Old => self.old_prediction_error_ns,
        }
    }

    /// The assist budget for `debt` bytes: the debt itself, capped.
    pub open spec fn assist(self, debt: u64) -> AssistBudget {
        if debt == 0 {
            AssistBudget { work_bytes: 0, capped: false }
        } else if debt > self.assist_cap_bytes {
            AssistBudget { work_bytes: self.assist_cap_bytes, capped: true }
        } else {
            AssistBudget { work_bytes: debt, capped: false }
        }
    }
}

impl DirectorPolicy {
    pub fn new() -> (r: DirectorPolicy)
        ensures
            r@ == (DirectorView {
                free_bytes: 0,
                reserve_bytes: 0,
                young_active: false,
                old_active: false,
                assist_cap_bytes: DEFAULT_ASSIST_CAP_BYTES,
                stall_count: 0,
                last_stall: None,
                last_decision: DirectorDecision::Idle,
                young_prediction_error_ns: 0,
                old_prediction_error_ns: 0,
            }),
    {
        DirectorPolicy {
            free_bytes: 0,
            reserve_bytes: 0,
            young_active: false,
            old_active: false,
            assist_cap_bytes: DEFAULT_ASSIST_CAP_BYTES,
            stall_count: 0,
            last_stall: None,
            last_decision: DirectorDecision::Idle,
            young_prediction_error_ns: 0,
            old_prediction_error_ns: 0,
        }
    }

    /// Sets the per-allocation assist cap (at least one byte).
    pub fn with_assist_cap(self, cap_bytes: u64) -> (r: DirectorPolicy)
        ensures
            r@ == (DirectorView { assist_cap_bytes: if cap_bytes > 1 { cap_bytes } else { 1 }, ..self@ }),
    {
        let mut s = self;
        s.assist_cap_bytes = if cap_bytes > 1 {
            cap_bytes
        } else {
            1
        };
        s
    }

    pub fn free_bytes(&self) -> (r: u64)
        ensures
            r == self@.free_bytes,
    {
        self.free_bytes
    }

    pub fn reserve_bytes(&self) -> (r: u64)
        ensures
            r == self@.reserve_bytes,
    {
        self.reserve_bytes
    }

    pub fn stall_count(&self) -> (r: u64)
        ensures
            r == self@.stall_count,
    {
        self.stall_count
    }

    pub fn last_stall(&self) -> (r: Option<StallEvent>)
        ensures
            r == self@.last_stall,
    {
        self.last_stall
    }

    pub fn last_decision(&self) -> (r: DirectorDecision)
        ensures
            r == self@.last_decision,
    {
        self.last_decision
    }

    pub fn young_active(&self) -> (r: bool)
        ensures
            r == self@.young_active,
    {
        self.young_active
    }

    pub fn old_active(&self) -> (r: bool)
        ensures
            r == self@.old_active,
    {
        self.old_active
    }

    pub fn prediction_error_ns(&self, generation: DirectorGeneration) -> (r: i64)
        ensures
            r == self@.prediction_error(generation),
    {
        match generation {
            DirectorGeneration::Young => self.young_prediction_error_ns,
            DirectorGeneration::Old => self.old_prediction_error_ns,
        }
    }

    /// Publishes the free heap and the relocation reserve.
    pub fn update_space(&mut self, free_bytes: u64, reserve_bytes: u64)
        ensures
            final(self)@ == (DirectorView { free_bytes, reserve_bytes, ..old(self)@ }),
    {
        self.free_bytes = free_bytes;
        self.reserve_bytes = reserve_bytes;
    }

    /// Closes a cycle of `generation`: records the prediction error
    /// (predicted minus actual nanoseconds, as signed 64-bit words) and marks
    /// the generation idle.
    pub fn complete_cycle(&mut self, generation: DirectorGeneration, predicted_ns: u64, actual_nanos: u128)
        ensures
            ({
                let error = (predicted_ns as i64).wrapping_sub(duration_ns_spec(actual_nanos) as i64);
                final(self)@ == match generation {
                    DirectorGeneration::Young => DirectorView {
                        young_prediction_error_ns: error,
                        young_active: false,
                        ..old(self)@
                    },
                    DirectorGeneration::Old => DirectorView {
                        old_prediction_error_ns: error,
                        old_active: false,
                        ..old(self)@
                    },
                }
            }),
    {
        let actual_ns = duration_ns(actual_nanos);
        let error = (predicted_ns as i64).wrapping_sub(actual_ns as i64);
        match generation {
            DirectorGeneration::Young => {
                self.young_prediction_error_ns = error;
                self.young_active = false;
            },
            DirectorGeneration::Old => {
                self.old_prediction_error_ns = error;
                self.old_active = false;
            },
        }
    }

    /// Decides whether a cycle starts, given whether each generation's
    /// runway test says it should: nothing starts while a cycle runs, and
    /// young is preferred.
    pub fn evaluate(&mut self, start_young: bool, start_old: bool) -> (r: DirectorDecision)
        ensures
            r == if old(self)@.young_active || old(self)@.old_active {
                DirectorDecision::Continue
            } else if start_young {
                DirectorDecision::StartYoung
            } else if start_old {
                DirectorDecision::StartOld
            } else {
                DirectorDecision::Idle
            },
            final(self)@ == (DirectorView {
                last_decision: r,
                young_active: old(self)@.young_active || r == DirectorDecision::StartYoung,
                old_active: old(self)@.old_active || r == DirectorDecision::StartOld,
                ..old(self)@
            }),
    {
        if self.young_active || self.old_active {
            self.last_decision = DirectorDecision::Continue;
            return DirectorDecision::Continue;
        }
        if start_young {
            self.young_active = true;
            self.last_decision = DirectorDecision::StartYoung;
            return DirectorDecision::StartYoung;
        }
        if start_old {
            self.old_active = true;
            self.last_decision = DirectorDecision::StartOld;
            return DirectorDecision::StartOld;
        }
        self.last_decision = DirectorDecision::Idle;
        DirectorDecision::Idle
    }

    /// The assist work for `debt_bytes` of allocation debt: proportional to
    /// the debt and never above the cap.
    pub fn assist_budget(&self, debt_bytes: u64) -> (r: AssistBudget)
        ensures
            r == self@.assist(debt_bytes),
            r.work_bytes <= debt_bytes,
            r.work_bytes <= self@.assist_cap_bytes,
    {
        if debt_bytes == 0 {
            return AssistBudget { work_bytes: 0, capped: false };
        }
        if debt_bytes > self.assist_cap_bytes {
            AssistBudget { work_bytes: self.assist_cap_bytes, capped: true }
        } else {
            AssistBudget { work_bytes: debt_bytes, capped: false }
        }
    }

    /// Records an allocation stall; refused while any relocation reserve
    /// is left.
    pub fn record_stall(&mut self, reason: StallReason, duration_nanos: u128, generation: DirectorGeneration) -> (r:
        Result<StallEvent, &'static str>)
        ensures
            old(self)@.reserve_bytes > 0 ==> r is Err && final(self)@ == old(self)@,
            old(self)@.reserve_bytes == 0 ==> r == Ok::<StallEvent, &'static str>(
                StallEvent {
                    reason,
                    duration_ns: duration_ns_spec(duration_nanos),
                    free_bytes: old(self)@.free_bytes,
                    reserve_bytes: 0,
                    prediction_error_ns: old(self)@.prediction_error(generation),
                    generation,
                },
            ) && final(self)@ == (DirectorView {
                stall_count: if old(self)@.stall_count == u64::MAX {
                    u64::MAX
                } else {
                    (old(self)@.stall_count + 1) as u64
                },
                last_stall: Some(r->Ok_0),
                ..old(self)@
            }),
    {
        match reason {
            StallReason::RelocationReserveExhausted => {},
        }
        if self.reserve_bytes > 0 {
            return Err("stall only legal when relocation reserve is exhausted");
        }
        let event = StallEvent {
            reason,
            duration_ns: duration_ns(duration_nanos),
            free_bytes: self.free_bytes,
            reserve_bytes: self.reserve_bytes,
            prediction_error_ns: self.prediction_error_ns(generation),
            generation,
        };
        self.stall_count = self.stall_count.saturating_add(1);
        self.last_stall = Some(event);
        Ok(event)
    }
}

pub open spec fn duration_ns_spec(nanos: u128) -> u64 {
    if nanos > u64::MAX {
        u64::MAX
    } else {
        nanos as u64
    }
}

} // verus!
