use vstd::prelude::*;

verus! {

/// One area's occupancy as reported by the upstream service.
#[derive(Clone, Copy, Debug, PartialEq, Eq, Structural)]
pub struct AreaReading {
    pub area_code: i32,
    pub free_spaces: i64,
}

/// The decoded body of one upstream response.
#[derive(Clone, Debug)]
pub struct ApiResponse {
    pub success: bool,
    pub readings: Vec<AreaReading>,
    pub date: String,
}

impl AreaReading {
    pub fn new(area_code: i32, free_spaces: i64) -> (r: AreaReading)
        ensures
            r == (AreaReading { area_code, free_spaces }),
    {
        AreaReading { area_code, free_spaces }
    }

    /// A reading refreshes the cache only when it reports at least one free space.
    pub open spec fn is_positive(self) -> bool {
        self.free_spaces > 0
    }
}

} // verus!
