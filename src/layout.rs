//! Size and alignment arithmetic for records laid out field after field, in
//! the way `#[repr(C)]` places them.
use vstd::layout::{align_of, layout_for_type_is_valid, size_of, valid_layout};
use vstd::arithmetic::power2::is_pow2;
use vstd::prelude::*;

verus! {

/// The size and alignment of a block of memory.
#[derive(Clone, Copy, Debug, PartialEq, Eq, Structural)]
pub struct Layout {
    pub size: usize,
    pub align: usize,
}

/// `n` rounded up to the next multiple of `a`.
pub open spec fn round_up(n: int, a: int) -> int {
    if n % a == 0 { n } else { n + (a - n % a) }
}

impl Layout {
    /// A power-of-two alignment, and a size that still fits in `isize` once
    /// rounded up to that alignment.
    pub open spec fn wf(&self) -> bool {
        valid_layout(self.size, self.align)
    }

    /// The layout of a value of type `T`.
    pub fn of<T>() -> (r: Layout)
        ensures
            r.wf(),
            r.size == size_of::<T>(),
            r.align == align_of::<T>(),
    {
        layout_for_type_is_valid::<T>();
        Layout { size: core::mem::size_of::<T>(), align: core::mem::align_of::<T>() }
    }

    /// The same layout with its size rounded up to a multiple of its alignment.
    pub fn pad_to_align(&self) -> (r: Layout)
        requires
            self.wf(),
        ensures
            r.wf(),
            r.align == self.align,
            r.size == round_up(self.size as int, self.align as int),
    {
        proof {
            lemma_pow2_positive(self.align as int);
            lemma_round_up_bound(self.size as int, self.align as int, isize::MAX as int);
        }
        let rem: usize = self.size % self.align;
        let size: usize = if rem == 0 {
            self.size
        } else {
            self.size + (self.align - rem)
        };
        Layout { size, align: self.align }
    }

    /// The layout of a record holding `self` and then `next`, and the offset
    /// at which `next` starts. `None` where the record would not be a valid
    /// layout.
    pub fn extend(&self, next: Layout) -> (r: Option<(Layout, usize)>)
        requires
            self.wf(),
            next.wf(),
        ensures
            r is Some <==> extend_fits(*self, next),
            r matches Some((l, offset)) ==> l == extended(*self, next) && offset == round_up(
                self.size as int,
                next.align as int,
            ),
    {
        let align: usize = if self.align >= next.align {
            self.align
        } else {
            next.align
        };
        proof {
            lemma_pow2_positive(self.align as int);
            lemma_pow2_positive(next.align as int);
        }
        assert(align > 0);
        let rem: usize = self.size % next.align;
        let pad: usize = if rem == 0 {
            0
        } else {
            next.align - rem
        };
        let offset: usize = match self.size.checked_add(pad) {
            Some(o) => o,
            None => return None,
        };
        let size: usize = match offset.checked_add(next.size) {
            Some(s) => s,
            None => return None,
        };
        let max: usize = isize::MAX as usize;
        if size <= max - max % align {
            Some((Layout { size, align }, offset))
        } else {
            None
        }
    }

    /// The layout of `n` values of type `T` side by side. `None` where that
    /// would not be a valid layout.
    pub fn array<T>(n: usize) -> (r: Option<Layout>)
        ensures
            r is Some <==> valid_layout_int(n * size_of::<T>(), align_of::<T>() as int),
            r matches Some(l) ==> l.size == n * size_of::<T>() && l.align == align_of::<T>(),
    {
        let elem = Layout::of::<T>();
        let size: usize = match elem.size.checked_mul(n) {
            Some(s) => s,
            None => return None,
        };
        assert(size == n * size_of::<T>()) by (nonlinear_arith)
            requires size == elem.size * n, elem.size == size_of::<T>();
        let max: usize = isize::MAX as usize;
        if size <= max - max % elem.align {
            Some(Layout { size, align: elem.align })
        } else {
            None
        }
    }
}

/// `valid_layout` over unbounded integers.
pub open spec fn valid_layout_int(size: int, align: int) -> bool {
    is_pow2(align) && 0 <= size <= isize::MAX as int - (isize::MAX as int % align)
}

/// The alignment of a record holding `a` and then `b`.
pub open spec fn extended_align(a: Layout, b: Layout) -> int {
    if a.align >= b.align { a.align as int } else { b.align as int }
}

/// The size of a record holding `a` and then `b`, before its end is padded.
pub open spec fn extended_size(a: Layout, b: Layout) -> int {
    round_up(a.size as int, b.align as int) + b.size
}

/// Whether a record holding `a` and then `b` is a valid layout.
pub open spec fn extend_fits(a: Layout, b: Layout) -> bool {
    valid_layout_int(extended_size(a, b), extended_align(a, b))
}

/// The layout of a record holding `a` and then `b`.
pub open spec fn extended(a: Layout, b: Layout) -> Layout {
    Layout { size: extended_size(a, b) as usize, align: extended_align(a, b) as usize }
}

/// A power of two is positive.
proof fn lemma_pow2_positive(n: int)
    requires
        is_pow2(n),
    ensures
        n > 0,
{
    reveal(is_pow2);
}

/// Rounding up to a multiple of `a` stays under any bound `m - m % a`
/// that the value was already under.
proof fn lemma_round_up_bound(n: int, a: int, m: int)
    requires
        a > 0,
        0 <= n <= m - m % a,
        m >= 0,
    ensures
        n <= round_up(n, a) <= m - m % a,
        round_up(n, a) % a == 0,
{
    let q = n / a;
    let k = m / a;
    vstd::arithmetic::div_mod::lemma_fundamental_div_mod(n, a);
    vstd::arithmetic::div_mod::lemma_fundamental_div_mod(m, a);
    if n % a != 0 {
        assert(q < k) by (nonlinear_arith)
            requires n == a * q + n % a, m - m % a == a * k, n <= a * k, n % a > 0, a > 0;
        assert(a * q + a <= a * k) by (nonlinear_arith)
            requires q < k, a > 0;
        assert((a * q + a) % a == 0) by {
            vstd::arithmetic::div_mod::lemma_mod_multiples_basic(q + 1, a);
            assert(a * q + a == (q + 1) * a) by (nonlinear_arith);
        }
    }
}

} // verus!
