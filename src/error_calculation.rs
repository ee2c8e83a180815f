use vstd::prelude::*;

verus! {

/// Error `output - ideal` on every unit.
pub const ERROR_CALCULATION_TYPE_BASIC: u8 = 0;
/// Error only where the ideal note is on; zero where it is off.
pub const ERROR_CALCULATION_TYPE_ONLY_ON: u8 = 1;
/// As basic where the ideal note is on; a scaled, thresholded penalty where it is off.
pub const ERROR_CALCULATION_TYPE_SMART: u8 = 2;

/// The error metric used to score a produced chord against an ideal one.
#[derive(PartialEq, Eq, Structural, Clone, Copy, Debug)]
pub struct ErrorCalculation {
    pub calculation_type: u8,
}

impl ErrorCalculation {
    pub open spec fn wf(&self) -> bool {
        self.calculation_type <= ERROR_CALCULATION_TYPE_SMART
    }

    /// The metric with code `calculation_type`; `None` for an unknown code.
    pub fn new(calculation_type: u8) -> (r: Option<ErrorCalculation>)
        ensures
            r.is_some() <==> calculation_type <= ERROR_CALCULATION_TYPE_SMART,
            r.is_some() ==> r.unwrap().calculation_type == calculation_type && r.unwrap().wf(),
    {
        if calculation_type <= ERROR_CALCULATION_TYPE_SMART {
            Some(ErrorCalculation { calculation_type })
        } else {
            None
        }
    }
}

} // verus!
