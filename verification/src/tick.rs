//! The tick count, with its width as a type.
//!
//! FreeRTOS's `TickType_t` is 16, 32 or 64 bits wide
//! (`configTICK_TYPE_WIDTH_IN_BITS`), and the kernel's delayed-list overflow
//! handling depends on the count wrapping at exactly that width. Here the
//! width is a type parameter, so `Tick<Bits16>` wraps at 65 535 on the host
//! exactly as it does on a chip.
//!
//! The count is stored as a `u64` masked to the width, and every operation is
//! specified as arithmetic modulo `W::MAX + 1`.
use vstd::prelude::*;

use core::marker::PhantomData;

use crate::text::{decimal, push_decimal};

mod sealed;

verus! {

/// `2^64`, the modulus of `u64` arithmetic.
pub open spec fn u64_modulus() -> int {
    0x1_0000_0000_0000_0000
}

/// A tick width: 16, 32 or 64 bits. Sealed; the three widths are the whole set.
pub trait TickWidth: sealed::Sealed + Copy + Clone + core::fmt::Debug + PartialEq + Eq {
    /// The width in bits.
    const BITS: u32;

    /// The largest representable count (`portMAX_DELAY` at this width).
    const MAX: u64;

    /// How many times the width's range fits into the `u64` range.
    spec fn spare() -> int;

    /// The count modulus is `MAX + 1`, which is `2^BITS` and a whole
    /// fraction of `2^64`, and masking with `MAX` reduces modulo it.
    proof fn lemma_width(x: u64)
        ensures
            Self::MAX > 0,
            Self::MAX as int + 1 == vstd::arithmetic::power2::pow2(Self::BITS as nat),
            Self::spare() > 0,
            (Self::MAX as int + 1) * Self::spare() == u64_modulus(),
            x & Self::MAX == x as int % (Self::MAX as int + 1),
    ;
}

/// `TICK_TYPE_WIDTH_16_BITS`.
#[derive(Debug, Clone, Copy, PartialEq, Eq, Hash)]
pub struct Bits16;

/// `TICK_TYPE_WIDTH_32_BITS`, the common choice and the default profile's.
#[derive(Debug, Clone, Copy, PartialEq, Eq, Hash)]
pub struct Bits32;

/// `TICK_TYPE_WIDTH_64_BITS`.
#[derive(Debug, Clone, Copy, PartialEq, Eq, Hash)]
pub struct Bits64;

impl sealed::Sealed for Bits16 {

}

impl sealed::Sealed for Bits32 {

}

impl sealed::Sealed for Bits64 {

}

impl TickWidth for Bits16 {
    const BITS: u32 = 16;

    const MAX: u64 = 0xFFFF;

    open spec fn spare() -> int {
        0x1_0000_0000_0000
    }

    proof fn lemma_width(x: u64) {
        assert(x & 0xFFFF == x % 0x10000) by (bit_vector);
        vstd::arithmetic::power2::lemma2_to64();
        vstd::arithmetic::power2::lemma2_to64_rest();
    }
}

impl TickWidth for Bits32 {
    const BITS: u32 = 32;

    const MAX: u64 = 0xFFFF_FFFF;

    open spec fn spare() -> int {
        0x1_0000_0000
    }

    proof fn lemma_width(x: u64) {
        assert(x & 0xFFFF_FFFF == x % 0x1_0000_0000) by (bit_vector);
        vstd::arithmetic::power2::lemma2_to64();
        vstd::arithmetic::power2::lemma2_to64_rest();
    }
}

impl TickWidth for Bits64 {
    const BITS: u32 = 64;

    const MAX: u64 = 0xFFFF_FFFF_FFFF_FFFF;

    open spec fn spare() -> int {
        1
    }

    proof fn lemma_width(x: u64) {
        assert(x & 0xFFFF_FFFF_FFFF_FFFF == x) by (bit_vector);
        vstd::arithmetic::power2::lemma2_to64();
        vstd::arithmetic::power2::lemma2_to64_rest();
    }
}

/// The three widths: 16, 32 and 64 bits, with maxima `2^16 - 1`, `2^32 - 1`
/// and `2^64 - 1`.
pub proof fn lemma_widths()
    ensures
        Bits16::BITS == 16,
        Bits16::MAX == 0xFFFF,
        Bits32::BITS == 32,
        Bits32::MAX == 0xFFFF_FFFF,
        Bits64::BITS == 64,
        Bits64::MAX == 0xFFFF_FFFF_FFFF_FFFF,
{
}

impl Default for Bits16 {
    /// The 16-bit width.
    fn default() -> (w: Self)
        ensures
            w == Bits16,
    {
        Bits16
    }
}

impl Default for Bits32 {
    /// The 32-bit width.
    fn default() -> (w: Self)
        ensures
            w == Bits32,
    {
        Bits32
    }
}

impl Default for Bits64 {
    /// The 64-bit width.
    fn default() -> (w: Self)
        ensures
            w == Bits64,
    {
        Bits64
    }
}

/// A tick count of width `W`: monotonic since scheduler start, wrapping at
/// `W::MAX` exactly as the C kernel's `xTickCount` does.
#[derive(Debug, Copy, PartialEq, Eq, PartialOrd, Ord, Hash)]
pub struct Tick<W: TickWidth> {
    raw: u64,
    width: PhantomData<W>,
}

impl<W: TickWidth> View for Tick<W> {
    /// The count.
    type V = u64;

    closed spec fn view(&self) -> u64 {
        self.raw
    }
}

/// Reducing a number modulo the tick modulus after reducing it modulo `2^64`
/// changes nothing, because the tick modulus divides `2^64`.
proof fn lemma_reduce<W: TickWidth>(y: int)
    ensures
        (y % u64_modulus()) % (W::MAX as int + 1) == y % (W::MAX as int + 1),
{
    W::lemma_width(0);
    let m = W::MAX as int + 1;
    let k = W::spare();
    vstd::arithmetic::div_mod::lemma_fundamental_div_mod(y, u64_modulus());
    let q = y / u64_modulus();
    assert(y % u64_modulus() == m * (-(k * q)) + y) by (nonlinear_arith)
        requires
            y == u64_modulus() * q + y % u64_modulus(),
            m * k == u64_modulus(),
    ;
    vstd::arithmetic::div_mod::lemma_mod_multiples_vanish(-(k * q), y, m);
}

impl<W: TickWidth> Tick<W> {
    /// A count never exceeds the width's maximum.
    #[verifier::type_invariant]
    spec fn in_range(self) -> bool {
        self.raw <= W::MAX
    }

    /// The tick modulus, `W::MAX + 1`.
    pub open spec fn modulus() -> int {
        W::MAX as int + 1
    }

    /// Two counts are the same exactly when their views agree.
    pub proof fn lemma_view_determines(a: Self, b: Self)
        requires
            a@ == b@,
        ensures
            a == b,
    {
    }

    /// Tick zero.
    pub fn zero() -> (t: Self)
        ensures
            t@ == 0,
    {
        Tick { raw: 0, width: PhantomData }
    }

    /// The largest count; also `portMAX_DELAY`, the "forever" timeout.
    pub fn max_value() -> (t: Self)
        ensures
            t@ == W::MAX,
    {
        Tick { raw: W::MAX, width: PhantomData }
    }

    /// A count, reduced modulo the width (a value above `W::MAX` wraps).
    pub fn new(raw: u64) -> (t: Self)
        ensures
            t@ as int == raw as int % Self::modulus(),
    {
        proof {
            W::lemma_width(raw);
        }
        Tick { raw: raw & W::MAX, width: PhantomData }
    }

    /// The count as a number.
    pub fn get(self) -> (r: u64)
        ensures
            r == self@,
            r <= W::MAX,
    {
        proof {
            use_type_invariant(&self);
        }
        self.raw
    }

    /// The count as text: its number in decimal.
    pub fn to_string(self) -> (r: String)
        ensures
            r@ == decimal(self@ as nat),
    {
        let mut s = String::new();
        push_decimal(&mut s, self.raw);
        s
    }

    /// The width in bits.
    pub fn bits() -> (r: u32)
        ensures
            r == W::BITS,
    {
        W::BITS
    }

    /// `self + n`, wrapping at the width (the tick interrupt's increment).
    pub fn wrapping_add(self, n: u64) -> (t: Self)
        ensures
            t@ as int == (self@ + n) % Self::modulus(),
    {
        let sum = self.raw.wrapping_add(n);
        proof {
            let y = self.raw as int + n as int;
            assert(sum as int == y % u64_modulus()) by {
                if y >= u64_modulus() {
                    vstd::arithmetic::div_mod::lemma_fundamental_div_mod_converse(
                        y,
                        u64_modulus(),
                        1,
                        y - u64_modulus(),
                    );
                } else {
                    vstd::arithmetic::div_mod::lemma_small_mod(y as nat, u64_modulus() as nat);
                }
            }
            lemma_reduce::<W>(y);
        }
        Self::new(sum)
    }

    /// `self - n`, wrapping at the width.
    pub fn wrapping_sub(self, n: u64) -> (t: Self)
        ensures
            t@ as int == (self@ - n) % Self::modulus(),
    {
        let diff = self.raw.wrapping_sub(n);
        proof {
            let y = self.raw as int - n as int;
            assert(diff as int == y % u64_modulus()) by {
                if y < 0 {
                    vstd::arithmetic::div_mod::lemma_fundamental_div_mod_converse(
                        y,
                        u64_modulus(),
                        -1,
                        y + u64_modulus(),
                    );
                } else {
                    vstd::arithmetic::div_mod::lemma_small_mod(y as nat, u64_modulus() as nat);
                }
            }
            lemma_reduce::<W>(y);
        }
        Self::new(diff)
    }

    /// `self + n`, or `None` if the result would wrap. Blocking APIs use this
    /// to know whether a wake time lands in the overflow delayed list.
    pub fn checked_add(self, n: u64) -> (r: Option<Self>)
        ensures
            self@ + n <= W::MAX ==> r is Some && r->Some_0@ == self@ + n,
            self@ + n > W::MAX ==> r is None,
    {
        proof {
            use_type_invariant(&self);
        }
        let wrapped = self.raw.wrapping_add(n);
        let sum = wrapped & W::MAX;
        proof {
            W::lemma_width(wrapped);
            let m = Self::modulus();
            let y = self.raw as int + n as int;
            if n as int <= W::MAX as int {
                if y <= W::MAX as int {
                    vstd::arithmetic::div_mod::lemma_small_mod(y as nat, m as nat);
                } else if W::MAX as int == u64_modulus() - 1 {
                    assert(wrapped as int == y - u64_modulus());
                    vstd::arithmetic::div_mod::lemma_small_mod(wrapped as nat, m as nat);
                } else {
                    assert(W::spare() >= 2);
                    assert(m <= u64_modulus() / 2) by (nonlinear_arith)
                        requires
                            m * W::spare() == u64_modulus(),
                            W::spare() >= 2,
                            m > 0,
                    ;
                    assert(wrapped as int == y);
                    vstd::arithmetic::div_mod::lemma_fundamental_div_mod_converse(y, m, 1, y - m);
                }
            }
        }
        if sum < self.raw || n > W::MAX {
            None
        } else {
            Some(Self::new(sum))
        }
    }

    /// Ticks elapsed from `earlier` to `self`, wrapping (the C kernel's
    /// `xTickCount - xTimeOnEntering` idiom).
    pub fn since(self, earlier: Self) -> (r: u64)
        ensures
            r as int == (self@ - earlier@) % Self::modulus(),
    {
        let diff = self.raw.wrapping_sub(earlier.raw);
        proof {
            W::lemma_width(diff);
            let y = self.raw as int - earlier.raw as int;
            assert(diff as int == y % u64_modulus()) by {
                if y < 0 {
                    vstd::arithmetic::div_mod::lemma_fundamental_div_mod_converse(
                        y,
                        u64_modulus(),
                        -1,
                        y + u64_modulus(),
                    );
                } else {
                    vstd::arithmetic::div_mod::lemma_small_mod(y as nat, u64_modulus() as nat);
                }
            }
            lemma_reduce::<W>(y);
        }
        diff & W::MAX
    }

    /// Whether adding `n` to `self` crosses the wrap point (the wake time
    /// belongs in the overflow delayed list).
    pub fn overflows_by(self, n: u64) -> (r: bool)
        ensures
            r == (self@ + n > W::MAX),
    {
        self.checked_add(n).is_none()
    }

    /// Time survives the wrap: the ticks from a count `t` to the count
    /// `(t + n) mod (MAX + 1)` are `n`, modulo the width, whether or not the
    /// count wrapped in between.
    pub proof fn lemma_since_survives_the_wrap(t: u64, n: u64)
        requires
            t <= W::MAX,
        ensures
            (((t + n) % Self::modulus()) - t) % Self::modulus() == n as int % Self::modulus(),
    {
        let m = Self::modulus();
        W::lemma_width(0);
        vstd::arithmetic::div_mod::lemma_sub_mod_noop(t + n, t as int, m);
        vstd::arithmetic::div_mod::lemma_small_mod(t as nat, m as nat);
    }
}

impl<W: TickWidth> Clone for Tick<W> {
    fn clone(&self) -> (t: Self)
        ensures
            t == *self,
    {
        *self
    }
}

impl<W: TickWidth> Default for Tick<W> {
    /// Tick zero.
    fn default() -> (t: Self)
        ensures
            t@ == 0,
    {
        Self::zero()
    }
}

} // verus!
