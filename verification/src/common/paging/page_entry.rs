//! A single 64-bit entry of an x86-64 paging structure.
use core::marker::PhantomData;
use vstd::prelude::*;

use crate::bits::{bit64, test_bit64, lemma_bit64_set, lemma_bit64_clear, lemma_address_word};
use crate::common::addresses::PhysicalAddress;
use super::page_map_level::{IPageMapLevel, Pt};
use super::Page4K;

verus! {

/// Bits of an entry that carry options (flags 0..=5 and execute-disable).
pub const OPTIONS_MASK: u64 = 0x8000_0000_0000_003F;

/// Bits of an entry that carry the physical address (bits 12..=51).
pub const ADDRESS_MASK: u64 = 0x000F_FFFF_FFFF_F000;

/// The option bits of a page entry.
#[derive(Debug, Clone, Copy, PartialEq, Eq, Hash)]
pub struct PageOptions(u64);

impl PageOptions {
    #[verifier::type_invariant]
    spec fn only_option_bits(self) -> bool {
        self.0 & !OPTIONS_MASK == 0
    }

    /// The raw option bits.
    pub closed spec fn raw(self) -> u64 {
        self.0
    }
}

impl Default for PageOptions {
    fn default() -> (r: Self)
        ensures
            r.raw() == 0,
    {
        assert(0u64 & !OPTIONS_MASK == 0) by (bit_vector);
        Self(0)
    }
}

/// An entry of a paging structure of level `L`.
pub struct PageEntry<L: IPageMapLevel>(u64, PhantomData<L>);

proof fn lemma_options_word(x: u64, o: u64)
    by (bit_vector)
    ensures
        o & !0x8000_0000_0000_003Fu64 == 0 ==> ((x & 0x000F_FFFF_FFFF_F000u64) | o) & 0x8000_0000_0000_003Fu64 == o,
        o & !0x8000_0000_0000_003Fu64 == 0 ==> ((x & 0x000F_FFFF_FFFF_F000u64) | o) & 0x000F_FFFF_FFFF_F000u64 == x & 0x000F_FFFF_FFFF_F000u64,
        (x & 0x8000_0000_0000_003Fu64) & !0x8000_0000_0000_003Fu64 == 0,
{
}

/// Clearing the address keeps the low twelve bits; setting the present bit keeps the
/// address.
proof fn lemma_entry_words(x: u64)
    by (bit_vector)
    ensures
        (x & 0xFFF) | (0u64 & !0xFFFu64) == x & 0xFFF,
        (x | 1) & !0xFFFu64 == x & !0xFFFu64,
        1u64 << 0u64 == 1u64,
{
}

/// Option bits never include the page-size bit.
proof fn lemma_options_leave_page_bit(o: u64)
    by (bit_vector)
    requires
        o & !0x8000_0000_0000_003Fu64 == 0,
    ensures
        o & (1u64 << 7u64) == 0,
{
}

impl<L: IPageMapLevel> PageEntry<L> {
    /// The entry whose raw 64-bit value is `raw`.
    pub fn from_raw(raw: u64) -> (r: Self)
        ensures
            r.raw() == raw,
    {
        Self(raw, PhantomData)
    }

    /// The raw 64-bit value of the entry.
    pub fn into_raw(self) -> (r: u64)
        ensures
            r == self.raw(),
    {
        self.0
    }

    /// The raw 64-bit value of the entry.
    pub closed spec fn raw(&self) -> u64 {
        self.0
    }

    /// Flag bit `i` of the entry.
    pub open spec fn flag(&self, i: u64) -> bool {
        bit64(self.raw(), i)
    }

    /// The physical address that the entry holds (all bits above the low twelve).
    pub open spec fn address_bits(&self) -> u64 {
        self.raw() & !0xFFFu64
    }

    /// An entry with every bit clear.
    pub fn empty() -> (r: Self)
        ensures
            r.raw() == 0,
    {
        Self(0, PhantomData)
    }

    /// An entry that holds the given options and nothing else.
    pub fn new_with_options(options: PageOptions) -> (r: Self)
        ensures
            r.raw() == options.raw(),
    {
        Self(options.0, PhantomData)
    }

    /// An entry marked present that points at `paddr` with the given options.
    pub fn new_present(paddr: PhysicalAddress, options: PageOptions) -> (r: Self)
        ensures
            r.is_present_spec(),
            r.address_bits() == paddr.0 & !0xFFFu64,
            forall|i: u64| 1 <= i < 12 ==> r.flag(i) == bit64(options.raw(), i),
            !r.flag(7),
    {
        proof {
            use_type_invariant(&options);
            lemma_options_leave_page_bit(options.0);
        }
        let mut s = Self::new_with_options(options);
        s.set_present(true);
        s.set_address(paddr);
        s
    }

    /// The option bits of the entry.
    pub fn options(&self) -> (r: PageOptions)
        ensures
            r.raw() == self.raw() & OPTIONS_MASK,
    {
        proof {
            lemma_options_word(self.0, 0);
        }
        PageOptions(self.0 & OPTIONS_MASK)
    }

    /// Replaces the option bits, keeps the address bits, and returns the previous options.
    pub fn set_options(&mut self, options: PageOptions) -> (previous: PageOptions)
        ensures
            previous.raw() == old(self).raw() & OPTIONS_MASK,
            final(self).raw() == (old(self).raw() & ADDRESS_MASK) | options.raw(),
            final(self).raw() & OPTIONS_MASK == options.raw(),
            final(self).raw() & ADDRESS_MASK == old(self).raw() & ADDRESS_MASK,
    {
        let previous = self.options();
        proof {
            use_type_invariant(&options);
            lemma_options_word(self.0, options.0);
        }
        self.0 = (self.0 & ADDRESS_MASK) | options.0;
        previous
    }

    /// The physical address held by the entry.
    pub fn address(&self) -> (r: PhysicalAddress)
        ensures
            r.0 == self.address_bits(),
    {
        PhysicalAddress(self.0 & !0xFFF)
    }

    /// Stores `address` in the entry, keeping the low twelve flag bits.
    pub fn set_address(&mut self, address: PhysicalAddress)
        ensures
            final(self).raw() == (old(self).raw() & 0xFFF) | (address.0 & !0xFFFu64),
            final(self).address_bits() == address.0 & !0xFFFu64,
            forall|i: u64| i < 12 ==> final(self).flag(i) == old(self).flag(i),
    {
        proof {
            assert forall|i: u64| i < 12 implies
                bit64((self.0 & 0xFFF) | (address.0 & !0xFFFu64), i) == bit64(self.0, i) by {
                lemma_address_word(self.0, address.0, i);
            }
            lemma_address_word(self.0, address.0, 0);
        }
        self.0 = (self.0 & 0xFFF) | (address.0 & !0xFFF);
    }

    pub open spec fn is_present_spec(&self) -> bool {
        self.flag(0)
    }

    /// The present bit (bit 0).
    pub fn is_present(&self) -> (r: bool)
        ensures
            r == self.is_present_spec(),
    {
        test_bit64(self.0, 0)
    }

    /// Sets bit `i` when `on` holds; leaves the entry as it was otherwise.
    fn raise_flag(&mut self, i: u64, on: bool)
        requires
            i < 64,
        ensures
            on ==> final(self).raw() == old(self).raw() | (1u64 << i),
            !on ==> final(self).raw() == old(self).raw(),
            forall|j: u64| j < 64 ==> final(self).flag(j) == (if on && j == i { true } else { old(self).flag(j) }),
    {
        let ghost before = self.0;
        if on {
            self.0 = self.0 | (1u64 << i);
            assert forall|j: u64| j < 64 implies #[trigger] bit64(self.0, j) == (i == j || bit64(before, j)) by {
                lemma_bit64_set(before, i, j);
            }
        }
    }

    /// Sets the present bit when `present` holds. A `false` argument leaves the entry
    /// as it was: the mask it clears with is then zero.
    pub fn set_present(&mut self, present: bool)
        ensures
            forall|j: u64| j < 64 ==> final(self).flag(j) == (if present && j == 0 { true } else { old(self).flag(j) }),
            !present ==> final(self).raw() == old(self).raw(),
            present ==> final(self).raw() == old(self).raw() | 1,
    {
        proof {
            lemma_entry_words(self.0);
        }
        self.raise_flag(0, present);
    }

    /// The read/write bit (bit 1).
    pub fn writable(&self) -> (r: bool)
        ensures
            r == self.flag(1),
    {
        test_bit64(self.0, 1)
    }

    /// Sets the read/write bit when `writable` holds; a `false` argument changes nothing.
    pub fn set_writable(&mut self, writable: bool)
        ensures
            forall|j: u64| j < 64 ==> final(self).flag(j) == (if writable && j == 1 { true } else { old(self).flag(j) }),
            !writable ==> final(self).raw() == old(self).raw(),
    {
        self.raise_flag(1, writable);
    }

    /// The user/supervisor bit (bit 2).
    pub fn user_access(&self) -> (r: bool)
        ensures
            r == self.flag(2),
    {
        test_bit64(self.0, 2)
    }

    /// The write-through bit (bit 3).
    pub fn write_through(&self) -> (r: bool)
        ensures
            r == self.flag(3),
    {
        test_bit64(self.0, 3)
    }

    /// The cache-disable bit (bit 4).
    pub fn cache_disabled(&self) -> (r: bool)
        ensures
            r == self.flag(4),
    {
        test_bit64(self.0, 4)
    }

    /// The entry is cacheable: the cache-disable bit (bit 4) is clear.
    pub fn cacheable(&self) -> (r: bool)
        ensures
            r == !self.flag(4),
    {
        !test_bit64(self.0, 4)
    }

    /// Clears the cache-disable bit when `cacheable` holds; a `false` argument changes nothing.
    pub fn set_cacheable(&mut self, cacheable: bool)
        ensures
            forall|j: u64| j < 64 ==> final(self).flag(j) == (if cacheable && j == 4 { false } else { old(self).flag(j) }),
            !cacheable ==> final(self).raw() == old(self).raw(),
    {
        let ghost before = self.0;
        let i: u64 = 4;
        if cacheable {
            self.0 = self.0 & !(1u64 << i);
            assert forall|j: u64| j < 64 implies #[trigger] bit64(self.0, j) == (i != j && bit64(before, j)) by {
                lemma_bit64_clear(before, i, j);
            }
        }
    }

    /// The accessed bit (bit 5).
    pub fn accessed(&self) -> (r: bool)
        ensures
            r == self.flag(5),
    {
        test_bit64(self.0, 5)
    }

    /// The dirty bit (bit 6).
    pub fn dirty(&self) -> (r: bool)
        ensures
            r == self.flag(6),
    {
        test_bit64(self.0, 6)
    }

    /// The page-size bit (bit 7): the entry maps a page rather than a table.
    pub fn is_page(&self) -> (r: bool)
        ensures
            r == self.flag(7),
    {
        test_bit64(self.0, 7)
    }

    /// Sets the page-size bit when `final_page` holds; a `false` argument changes nothing.
    pub fn set_final_page(&mut self, final_page: bool)
        ensures
            forall|j: u64| j < 64 ==> final(self).flag(j) == (if final_page && j == 7 { true } else { old(self).flag(j) }),
            !final_page ==> final(self).raw() == old(self).raw(),
    {
        self.raise_flag(7, final_page);
    }

    /// The execute-disable bit (bit 63).
    pub fn execute_disabled(&self) -> (r: bool)
        ensures
            r == self.flag(63),
    {
        test_bit64(self.0, 63)
    }
}

impl PageEntry<Pt> {
    /// The 4 KiB page that a page-table entry maps, if the entry is present.
    pub fn get(&self) -> (r: Option<Page4K>)
        ensures
            r is None <==> !self.is_present_spec(),
            r matches Some(p) ==> p.0.0 == self.address_bits() && p.0.0 % 4096 == 0,
    {
        if !self.is_present() {
            return None;
        }
        let paddr = self.address();
        proof {
            lemma_address_word(self.0, self.0, 0);
        }
        Some(Page4K(paddr))
    }

    /// Takes the page out of a present entry: the page it mapped, with the entry's address
    /// cleared. The present bit stays set, since `set_present(false)` changes nothing.
    /// `None`, with the entry unchanged, when the entry is not present.
    pub fn take(&mut self) -> (r: Option<Page4K>)
        ensures
            !old(self).is_present_spec() ==> r is None && final(self).raw() == old(self).raw(),
            old(self).is_present_spec() ==> {
                &&& r matches Some(p) && p.0.0 == old(self).address_bits()
                &&& final(self).raw() == old(self).raw() & 0xFFF
            },
    {
        if !self.is_present() {
            return None;
        }
        let paddr = self.address();
        let page = Page4K(paddr);
        let ghost before = self.0;
        self.set_address(PhysicalAddress::null());
        proof {
            lemma_entry_words(before);
        }
        self.set_present(false);
        Some(page)
    }

    /// Puts `page` in the entry and marks it present; returns what `take` took out first.
    pub fn set(&mut self, page: Page4K) -> (r: Option<Page4K>)
        ensures
            !old(self).is_present_spec() ==> r is None,
            old(self).is_present_spec() ==> (r matches Some(p) && p.0.0 == old(self).address_bits()),
            final(self).is_present_spec(),
            final(self).address_bits() == page.0.0 & !0xFFFu64,
    {
        let previous = self.take();
        self.set_address(page.0);
        let ghost addressed = self.0;
        self.set_present(true);
        proof {
            lemma_entry_words(addressed);
        }
        previous
    }
}

} // verus!
