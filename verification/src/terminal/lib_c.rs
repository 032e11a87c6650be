use vstd::prelude::*;

verus! {

/// The status a C library call returns: 0 for success, anything else for
/// failure.
#[derive(Clone, Copy, Debug, PartialEq, Eq, Structural, PartialOrd, Ord)]
pub struct LibCErr(pub i32);

/// A C truth value: 0 for false, anything else for true.
#[derive(Clone, Copy, Debug, PartialEq, Eq, Structural, PartialOrd, Ord)]
pub struct LibCBool(pub i32);

impl LibCErr {
    /// `Ok` for the status 0, the status itself as the error otherwise.
    pub fn into_result(self) -> (r: Result<(), LibCErr>)
        ensures
            r == (if self.0 == 0 { Ok::<(), LibCErr>(()) } else { Err(self) }),
    {
        if self.0 == 0 {
            Ok(())
        } else {
            Err(self)
        }
    }

    /// Whether the status is nonzero.
    pub fn as_bool(self) -> (b: bool)
        ensures
            b == (self.0 != 0),
    {
        self.0 != 0
    }
}

} // verus!
