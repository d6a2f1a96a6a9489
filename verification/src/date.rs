//! The shared date handle: a pre-formatted HTTP date string, refreshed by
//! a ticker in the IO shell about once a second, read byte-for-byte by the
//! response encoders so the hot path never formats a date itself.

use vstd::prelude::*;

verus! {

/// An IMF-fixdate value is always this many bytes long.
pub const DATE_VALUE_LENGTH: usize = 29;

/// A cached, pre-formatted HTTP date string.
pub struct DateTimeHandle {
    date: Vec<u8>,
}

impl DateTimeHandle {
    /// The cached date bytes.
    pub closed spec fn spec_date(&self) -> Seq<u8> {
        self.date@
    }

    /// The cached string always has the fixed date length.
    pub open spec fn wf(&self) -> bool {
        self.spec_date().len() == DATE_VALUE_LENGTH
    }

    /// Cache an initial date string.
    pub fn new(date: Vec<u8>) -> (r: Self)
        requires
            date@.len() == DATE_VALUE_LENGTH,
        ensures
            r.spec_date() == date@,
            r.wf(),
    {
        DateTimeHandle { date }
    }

    /// Replace the cached string with a freshly formatted one.
    pub fn update(&mut self, date: Vec<u8>)
        requires
            date@.len() == DATE_VALUE_LENGTH,
        ensures
            final(self).spec_date() == date@,
            final(self).wf(),
    {
        self.date = date;
    }

    /// The cached date bytes, ready to be copied into a header.
    pub fn with_date(&self) -> (r: &[u8])
        ensures
            r@ == self.spec_date(),
    {
        self.date.as_slice()
    }
}

} // verus!
