use vstd::prelude::*;
use crate::error::Error;

verus! {

/// Page size of a list request: at least 1, at most `Limit::MAX`.
#[derive(Debug, Clone, Copy, PartialEq, Eq)]
pub struct Limit(u32);

impl View for Limit {
    type V = u32;

    closed spec fn view(&self) -> u32 {
        self.0
    }
}

/// The largest page size that `Limit::new` accepts.
pub open spec fn limit_max() -> u32 {
    100
}

impl Limit {
    pub const MAX: u32 = 100;

    #[verifier::type_invariant]
    spec fn well_formed(self) -> bool {
        1 <= self.0 <= limit_max()
    }

    /// Accepts `v` exactly when `1 <= v <= MAX`.
    pub fn new(v: u32) -> (r: Result<Self, Error>)
        ensures
            r is Ok <==> 1 <= v <= limit_max(),
            r matches Ok(l) ==> l@ == v,
            r matches Err(e) ==> e matches Error::InvalidArgument { field, reason } && field
                == "limit" && reason@ == if v == 0 {
                "must be > 0"@
            } else {
                "must be <= 100"@
            },
    {
        if v == 0 {
            return Err(Error::InvalidArgument { field: "limit", reason: "must be > 0".to_owned() });
        }
        if v > Self::MAX {
            return Err(Error::InvalidArgument { field: "limit", reason: "must be <= 100".to_owned() });
        }
        Ok(Limit(v))
    }

    pub fn get(self) -> (r: u32)
        ensures
            r == self@,
            1 <= r <= limit_max(),
    {
        proof { use_type_invariant(&self); }
        self.0
    }
}

/// The page size used when a caller names none: 20.
impl Default for Limit {
    fn default() -> (r: Self)
        ensures
            r@ == 20,
    {
        Limit(20)
    }
}

/// Offset of a list request; any `u32` is accepted.
#[derive(Debug, Clone, Copy, PartialEq, Eq)]
pub struct Offset(u32);

impl View for Offset {
    type V = u32;

    closed spec fn view(&self) -> u32 {
        self.0
    }
}

impl Offset {
    /// Always succeeds: offsets have no upper bound.
    pub fn new(v: u32) -> (r: Result<Self, Error>)
        ensures
            r matches Ok(o) && o@ == v,
    {
        Ok(Offset(v))
    }

    pub fn get(self) -> (r: u32)
        ensures
            r == self@,
    {
        self.0
    }
}

/// The window of a list request.
#[derive(Debug, Clone, Copy, PartialEq, Eq)]
pub struct PageRequest {
    pub limit: Limit,
    pub offset: Offset,
}

impl PageRequest {
    pub fn new(limit: Limit, offset: Offset) -> (r: Self)
        ensures
            r.limit == limit,
            r.offset == offset,
    {
        PageRequest { limit, offset }
    }

    /// The first page of size `limit`: offset 0.
    pub fn first_page(limit: Limit) -> (r: Self)
        ensures
            r.limit == limit,
            r.offset@ == 0,
    {
        PageRequest { limit, offset: Offset(0) }
    }
}

} // verus!
