//! Page-translation table entries: the bit layout of one entry. Loading a
//! table into the translation hardware is the platform's job; only the entry
//! arithmetic lives here.

use vstd::prelude::*;

verus! {

/// One entry of a page-translation table: a physical address in the high
/// bits, flag bits in the low twelve.
pub struct PageTableEntry(usize);

impl PageTableEntry {
    /// The raw word of the entry.
    pub closed spec fn spec_value(self) -> usize {
        self.0
    }

    /// Returns an all-zero entry: not present, no address.
    pub fn empty() -> (r: PageTableEntry)
        ensures
            r.spec_value() == 0,
    {
        PageTableEntry(0)
    }

    /// Whether the entry's present bit is set.
    pub fn is_present(&self) -> (r: bool)
        ensures
            r == (self.spec_value() & 1 == 1),
    {
        self.0 & 1 == 1
    }

    /// Sets the entry's present bit.
    pub fn present(&mut self)
        ensures
            final(self).spec_value() == (old(self).spec_value() | 1),
    {
        self.0 = self.0 | 1;
    }

    /// Clears the entry's present bit.
    pub fn not_present(&mut self)
        ensures
            final(self).spec_value() == (old(self).spec_value() & !1),
    {
        self.0 = self.0 & !1;
    }

    /// Installs a physical address in the entry, keeping the low flag bits.
    pub fn set_phys_addr(&mut self, phys_address: usize)
        ensures
            final(self).spec_value() == ((old(self).spec_value() & 0xfff) | phys_address),
    {
        self.0 = (self.0 & 0xfff) | phys_address;
    }
}

} // verus!
