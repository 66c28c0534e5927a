use vstd::prelude::*;

verus! {

/// Highest nominal voltage (V) of the low-voltage band.
pub const LV_UPPER_LIMIT: u64 = 1000;

/// Highest nominal voltage (V) of the medium-voltage band; above it lies the
/// high-voltage band.
pub const MV_UPPER_LIMIT: u64 = 35000;

/// Voltage band of a nominal system voltage.
#[derive(Clone, Copy, Debug, PartialEq, Eq, Structural)]
pub enum VoltageLevel {
    /// Up to and including 1 kV.
    Low,
    /// Above 1 kV, up to and including 35 kV.
    Medium,
    /// Above 35 kV.
    High,
}

/// The band that a nominal voltage `un` (V) falls in.
pub open spec fn level_of(un: nat) -> VoltageLevel {
    if un <= LV_UPPER_LIMIT {
        VoltageLevel::Low
    } else if un <= MV_UPPER_LIMIT {
        VoltageLevel::Medium
    } else {
        VoltageLevel::High
    }
}

/// Voltage correction factor c, in per cent, for a nominal voltage `un` (V).
///
/// `min` selects the factor for minimum short-circuit currents; otherwise the
/// factor for maximum currents is given, where low-voltage equipment with a
/// tolerance of +6 % (`six_percent`) takes 1.05 and other equipment 1.10.
pub open spec fn correction_factor_spec(un: nat, min: bool, six_percent: bool) -> nat {
    match level_of(un) {
        VoltageLevel::Low => if min {
            95
        } else if six_percent {
            105
        } else {
            110
        },
        VoltageLevel::Medium => if min {
            100
        } else {
            110
        },
        VoltageLevel::High => if min {
            100
        } else {
            110
        },
    }
}

/// Classifies a nominal voltage `un` (V) into its band.
pub fn voltage_level(un: u64) -> (r: VoltageLevel)
    ensures
        r == level_of(un as nat),
{
    if un <= LV_UPPER_LIMIT {
        VoltageLevel::Low
    } else if un <= MV_UPPER_LIMIT {
        VoltageLevel::Medium
    } else {
        VoltageLevel::High
    }
}

/// The standard voltage correction factor c, in per cent, for a nominal
/// voltage `un` (V).
pub fn voltage_correction_factor(un: u64, min: bool, six_percent: bool) -> (c: u32)
    ensures
        c as nat == correction_factor_spec(un as nat, min, six_percent),
        un <= LV_UPPER_LIMIT ==> c == (if min {
            95u32
        } else if six_percent {
            105u32
        } else {
            110u32
        }),
        un > LV_UPPER_LIMIT ==> c == (if min {
            100u32
        } else {
            110u32
        }),
{
    match voltage_level(un) {
        VoltageLevel::Low => {
            if min {
                95
            } else if six_percent {
                105
            } else {
                110
            }
        },
        VoltageLevel::Medium => {
            if min {
                100
            } else {
                110
            }
        },
        VoltageLevel::High => {
            if min {
                100
            } else {
                110
            }
        },
    }
}

/// The correction factor never decreases as the nominal voltage rises, and
/// the factor for minimum currents never exceeds the one for maximum currents.
pub proof fn lemma_correction_factor_monotonic(a: nat, b: nat, min: bool, six_percent: bool)
    requires
        a <= b,
    ensures
        correction_factor_spec(a, min, six_percent) <= correction_factor_spec(b, min, six_percent),
        correction_factor_spec(a, true, six_percent) <= correction_factor_spec(a, false, six_percent),
{
}

} // verus!
