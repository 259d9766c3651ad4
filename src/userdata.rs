use vstd::prelude::*;

verus! {

/// A value handed to the script side by address, with context that travels with it. The address
/// is released once, and then the wrapper reaches nothing.
pub struct UserDataWrapper<Data, Other> {
    pub data: Option<Data>,
    pub other: Other,
}

impl<Data, Other> UserDataWrapper<Data, Other> {
    pub fn new(data: Data, other: Other) -> (r: Self)
        ensures
            r.data == Some(data),
            r.other == other,
    {
        UserDataWrapper { data: Some(data), other }
    }

    /// Gives up the address; a second release finds nothing.
    pub fn release(&mut self) -> (r: Option<Data>)
        ensures
            r == old(self).data,
            final(self).data is None,
            final(self).other == old(self).other,
    {
        let mut out: Option<Data> = None;
        std::mem::swap(&mut out, &mut self.data);
        out
    }
}

} // verus!
