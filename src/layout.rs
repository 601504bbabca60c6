//! Strided layouts: where each element of a tensor sits in a flat buffer, and
//! the copy of a strided buffer into standard (row-major) order.
use vstd::arithmetic::div_mod::{lemma_fundamental_div_mod_converse, lemma_mod_pos_bound, lemma_div_pos_is_pos};
use vstd::arithmetic::mul::lemma_mul_inequality;
use vstd::prelude::*;

verus! {

/// Number of elements that a tensor of this shape holds.
pub open spec fn element_count(shape: Seq<usize>) -> nat
    decreases shape.len(),
{
    if shape.len() == 0 {
        1
    } else {
        element_count(shape.drop_last()) * (shape.last() as nat)
    }
}

/// Whether some axis of the shape has extent zero.
pub open spec fn has_empty_axis(shape: Seq<usize>) -> bool {
    exists|i: int| 0 <= i < shape.len() && shape[i] == 0
}

/// The largest element offset that the layout reaches, when no axis is empty.
pub open spec fn max_offset(shape: Seq<usize>, stride: Seq<usize>) -> int
    decreases shape.len(),
{
    if shape.len() == 0 {
        0
    } else {
        max_offset(shape.drop_last(), stride.drop_last()) + (shape.last() - 1) * stride.last()
    }
}

/// Element offset, in the buffer, of the element at row-major position `k`:
/// the last axis varies fastest.
pub open spec fn offset_of(shape: Seq<usize>, stride: Seq<usize>, k: int) -> int
    decreases shape.len(),
{
    if shape.len() == 0 {
        0
    } else {
        (k % shape.last() as int) * stride.last() + offset_of(
            shape.drop_last(),
            stride.drop_last(),
            k / shape.last() as int,
        )
    }
}

/// Bytes that a buffer must hold for the layout to stay inside it.
pub open spec fn span_bytes(shape: Seq<usize>, stride: Seq<usize>, width: nat) -> int {
    if has_empty_axis(shape) {
        0
    } else {
        (max_offset(shape, stride) + 1) * width
    }
}

/// Byte `j` of the element at offset `e` of a buffer of `width`-byte elements.
pub open spec fn element_byte(buf: Seq<u8>, e: int, j: int, width: nat) -> u8 {
    buf[e * width + j]
}

/// The elements of a strided buffer in row-major order, `width` bytes each.
pub open spec fn gathered(buf: Seq<u8>, shape: Seq<usize>, stride: Seq<usize>, width: nat) -> Seq<
    u8,
> {
    Seq::new(
        element_count(shape) * width,
        |p: int| buf[offset_of(shape, stride, p / width as int) * width + p % width as int],
    )
}

proof fn lemma_prefix_step<T>(s: Seq<T>, i: int)
    requires
        0 < i <= s.len(),
    ensures
        s.take(i).drop_last() == s.take(i - 1),
        s.take(i).last() == s[i - 1],
        s.take(i).len() == i,
{
    assert(s.take(i).drop_last() =~= s.take(i - 1));
}

proof fn lemma_empty_axis_count(shape: Seq<usize>)
    ensures
        has_empty_axis(shape) <==> element_count(shape) == 0,
    decreases shape.len(),
{
    if shape.len() > 0 {
        let init = shape.drop_last();
        lemma_empty_axis_count(init);
        if has_empty_axis(shape) {
            let i = choose|i: int| 0 <= i < shape.len() && shape[i] == 0;
            if i < init.len() {
                assert(init[i] == 0);
            }
            let a = element_count(init);
            let b = shape.last() as nat;
            assert(a * b == 0) by (nonlinear_arith)
                requires
                    a == 0 || b == 0,
            ;
        } else {
            assert(!has_empty_axis(init)) by {
                if has_empty_axis(init) {
                    let i = choose|i: int| 0 <= i < init.len() && init[i] == 0;
                    assert(shape[i] == 0);
                }
            }
            assert(shape[shape.len() - 1] != 0);
            let a = element_count(init);
            let b = shape.last() as nat;
            assert(a * b != 0) by (nonlinear_arith)
                requires
                    a != 0,
                    b != 0,
            ;
        }
    }
}

proof fn lemma_count_grows(shape: Seq<usize>, i: int, j: int)
    requires
        0 <= i <= j <= shape.len(),
        !has_empty_axis(shape),
    ensures
        element_count(shape.take(i)) <= element_count(shape.take(j)),
    decreases j - i,
{
    if i < j {
        lemma_count_grows(shape, i, j - 1);
        lemma_prefix_step(shape, j);
        assert(shape[j - 1] != 0);
        let a = element_count(shape.take(j - 1));
        let b = shape[j - 1] as nat;
        assert(a <= a * b) by (nonlinear_arith)
            requires
                b >= 1,
        ;
    }
}

proof fn lemma_max_offset_grows(shape: Seq<usize>, stride: Seq<usize>, i: int, j: int)
    requires
        0 <= i <= j <= shape.len(),
        shape.len() == stride.len(),
        !has_empty_axis(shape),
    ensures
        0 <= max_offset(shape.take(i), stride.take(i)) <= max_offset(shape.take(j), stride.take(j)),
    decreases j - i,
{
    if i < j {
        lemma_max_offset_grows(shape, stride, i, j - 1);
        lemma_prefix_step(shape, j);
        lemma_prefix_step(stride, j);
        assert(shape[j - 1] != 0);
        let a = shape[j - 1] - 1;
        let b = stride[j - 1] as int;
        assert(a * b >= 0) by (nonlinear_arith)
            requires
                a >= 0,
                b >= 0,
        ;
    } else {
        lemma_max_offset_nonneg(shape.take(i), stride.take(i));
    }
}

proof fn lemma_max_offset_nonneg(shape: Seq<usize>, stride: Seq<usize>)
    requires
        shape.len() == stride.len(),
        !has_empty_axis(shape),
    ensures
        max_offset(shape, stride) >= 0,
    decreases shape.len(),
{
    if shape.len() > 0 {
        let init = shape.drop_last();
        assert(!has_empty_axis(init)) by {
            if has_empty_axis(init) {
                let i = choose|i: int| 0 <= i < init.len() && init[i] == 0;
                assert(shape[i] == 0);
            }
        }
        lemma_max_offset_nonneg(init, stride.drop_last());
        assert(shape[shape.len() - 1] != 0);
        let a = shape.last() - 1;
        let b = stride.last() as int;
        assert(a * b >= 0) by (nonlinear_arith)
            requires
                a >= 0,
                b >= 0,
        ;
    }
}

/// Every row-major position lands between offset zero and the largest offset.
proof fn lemma_offset_bounds(shape: Seq<usize>, stride: Seq<usize>, k: int)
    requires
        shape.len() == stride.len(),
        !has_empty_axis(shape),
        k >= 0,
    ensures
        0 <= offset_of(shape, stride, k) <= max_offset(shape, stride),
    decreases shape.len(),
{
    if shape.len() > 0 {
        let init = shape.drop_last();
        assert(!has_empty_axis(init)) by {
            if has_empty_axis(init) {
                let i = choose|i: int| 0 <= i < init.len() && init[i] == 0;
                assert(shape[i] == 0);
            }
        }
        let d = shape.last() as int;
        assert(shape[shape.len() - 1] != 0);
        lemma_mod_pos_bound(k, d);
        lemma_div_pos_is_pos(k, d);
        lemma_offset_bounds(init, stride.drop_last(), k / d);
        let s = stride.last() as int;
        lemma_mul_inequality(k % d, d - 1, s);
        assert((k % d) * s >= 0) by (nonlinear_arith)
            requires
                k % d >= 0,
                s >= 0,
        ;
    }
}

/// Element count of a shape, or `None` where it does not fit in `usize`.
pub fn checked_element_count(shape: &Vec<usize>) -> (r: Option<usize>)
    ensures
        match r {
            Some(n) => n == element_count(shape@),
            None => element_count(shape@) > usize::MAX,
        },
{
    let n = shape.len();
    let mut i: usize = 0;
    while i < n
        invariant
            n == shape@.len(),
            i <= n,
            forall|j: int| 0 <= j < i ==> shape@[j] != 0,
        decreases n - i,
    {
        if shape[i] == 0 {
            proof {
                lemma_empty_axis_count(shape@);
            }
            return Some(0);
        }
        i = i + 1;
    }
    let mut acc: usize = 1;
    let mut i: usize = 0;
    while i < n
        invariant
            n == shape@.len(),
            i <= n,
            !has_empty_axis(shape@),
            acc == element_count(shape@.take(i as int)),
        decreases n - i,
    {
        proof {
            lemma_prefix_step(shape@, i + 1);
        }
        match acc.checked_mul(shape[i]) {
            Some(m) => {
                acc = m;
            },
            None => {
                proof {
                    lemma_count_grows(shape@, i + 1, n as int);
                    assert(shape@.take(n as int) =~= shape@);
                }
                return None;
            },
        }
        i = i + 1;
    }
    assert(shape@.take(n as int) =~= shape@);
    Some(acc)
}

/// Bytes that a buffer must hold for the layout, or `None` where that
/// number does not fit in `usize`.
pub fn checked_span_bytes(shape: &Vec<usize>, stride: &Vec<usize>, width: usize) -> (r: Option<
    usize,
>)
    requires
        shape@.len() == stride@.len(),
        width >= 1,
    ensures
        match r {
            Some(n) => n == span_bytes(shape@, stride@, width as nat),
            None => span_bytes(shape@, stride@, width as nat) > usize::MAX,
        },
{
    let n = shape.len();
    let mut i: usize = 0;
    while i < n
        invariant
            n == shape@.len(),
            i <= n,
            forall|j: int| 0 <= j < i ==> shape@[j] != 0,
        decreases n - i,
    {
        if shape[i] == 0 {
            return Some(0);
        }
        i = i + 1;
    }
    let mut acc: usize = 0;
    let mut i: usize = 0;
    while i < n
        invariant
            n == shape@.len(),
            n == stride@.len(),
            i <= n,
            !has_empty_axis(shape@),
            width >= 1,
            acc == max_offset(shape@.take(i as int), stride@.take(i as int)),
        decreases n - i,
    {
        proof {
            lemma_prefix_step(shape@, i + 1);
            lemma_prefix_step(stride@, i + 1);
            lemma_max_offset_grows(shape@, stride@, i + 1, n as int);
            assert(shape@.take(n as int) =~= shape@);
            assert(stride@.take(n as int) =~= stride@);
        }
        let ghost whole = max_offset(shape@, stride@);
        assert((whole + 1) * width >= whole + 1) by (nonlinear_arith)
            requires
                width >= 1,
                whole >= 0,
        ;
        let axis = shape[i] - 1;
        let step = match axis.checked_mul(stride[i]) {
            Some(m) => m,
            None => {
                assert(!has_empty_axis(shape@.take(i as int))) by {
                    if has_empty_axis(shape@.take(i as int)) {
                        let j = choose|j: int| 0 <= j < i && shape@.take(i as int)[j] == 0;
                        assert(shape@[j] == 0);
                    }
                }
                proof {
                    lemma_max_offset_nonneg(shape@.take(i as int), stride@.take(i as int));
                }
                return None;
            },
        };
        match acc.checked_add(step) {
            Some(m) => {
                acc = m;
            },
            None => {
                return None;
            },
        }
        i = i + 1;
    }
    assert(shape@.take(n as int) =~= shape@);
    assert(stride@.take(n as int) =~= stride@);
    let top = match acc.checked_add(1) {
        Some(m) => m,
        None => {
            assert((acc + 1) * width >= acc + 1) by (nonlinear_arith)
                requires
                    width >= 1,
            ;
            return None;
        },
    };
    top.checked_mul(width)
}

/// Element offset of row-major position `k`.
fn element_offset(shape: &Vec<usize>, stride: &Vec<usize>, k: usize) -> (r: usize)
    requires
        shape@.len() == stride@.len(),
        !has_empty_axis(shape@),
        max_offset(shape@, stride@) <= usize::MAX,
    ensures
        r == offset_of(shape@, stride@, k as int),
{
    let n = shape.len();
    let mut i: usize = n;
    let mut rem: usize = k;
    let mut off: usize = 0;
    proof {
        assert(shape@.take(n as int) =~= shape@);
        assert(stride@.take(n as int) =~= stride@);
        lemma_offset_bounds(shape@, stride@, k as int);
    }
    while i > 0
        invariant
            n == shape@.len(),
            n == stride@.len(),
            i <= n,
            !has_empty_axis(shape@),
            0 <= offset_of(shape@, stride@, k as int) <= max_offset(shape@, stride@) <= usize::MAX,
            off + offset_of(shape@.take(i as int), stride@.take(i as int), rem as int)
                == offset_of(shape@, stride@, k as int),
        decreases i,
    {
        proof {
            lemma_prefix_step(shape@, i as int);
            lemma_prefix_step(stride@, i as int);
        }
        let d = shape[i - 1];
        assert(d != 0);
        let s = stride[i - 1];
        let ghost head = shape@.take(i - 1);
        let ghost heads = stride@.take(i - 1);
        assert(!has_empty_axis(head)) by {
            if has_empty_axis(head) {
                let j = choose|j: int| 0 <= j < head.len() && head[j] == 0;
                assert(shape@[j] == 0);
            }
        }
        proof {
            lemma_div_pos_is_pos(rem as int, d as int);
            lemma_offset_bounds(head, heads, rem as int / d as int);
            lemma_mod_pos_bound(rem as int, d as int);
            assert((rem % d) as int * s as int >= 0) by (nonlinear_arith)
                requires
                    (rem % d) as int >= 0,
                    s as int >= 0,
            ;
        }
        let term = (rem % d) * s;
        off = off + term;
        rem = rem / d;
        i = i - 1;
    }
    off
}

/// Copies the elements of a strided buffer into a new buffer in row-major
/// order, `width` bytes per element.
pub fn gather(buf: &Vec<u8>, shape: &Vec<usize>, stride: &Vec<usize>, width: usize) -> (r: Vec<u8>)
    requires
        shape@.len() == stride@.len(),
        width >= 1,
        span_bytes(shape@, stride@, width as nat) <= buf@.len(),
        element_count(shape@) * width <= usize::MAX,
    ensures
        r@ == gathered(buf@, shape@, stride@, width as nat),
{
    let blen = buf.len();
    let count = match checked_element_count(shape) {
        Some(c) => c,
        None => {
            let ghost c = element_count(shape@);
            assert(c <= c * width) by (nonlinear_arith)
                requires
                    width >= 1,
            ;
            return Vec::new();
        },
    };
    let ghost w = width as int;
    let ghost target = gathered(buf@, shape@, stride@, width as nat);
    let mut out: Vec<u8> = Vec::new();
    let mut k: usize = 0;
    while k < count
        invariant
            count == element_count(shape@),
            count * w <= usize::MAX,
            w == width,
            w >= 1,
            k <= count,
            shape@.len() == stride@.len(),
            span_bytes(shape@, stride@, width as nat) <= buf@.len(),
            blen == buf@.len(),
            target == gathered(buf@, shape@, stride@, width as nat),
            out@ == target.take(k * w),
        decreases count - k,
    {
        proof {
            lemma_empty_axis_count(shape@);
            lemma_max_offset_nonneg(shape@, stride@);
            lemma_offset_bounds(shape@, stride@, k as int);
            let m = max_offset(shape@, stride@);
            assert(m <= (m + 1) * w) by (nonlinear_arith)
                requires
                    m >= 0,
                    w >= 1,
            ;
        }
        let off = element_offset(shape, stride, k);
        let ghost base = off * w;
        proof {
            let m = max_offset(shape@, stride@);
            assert(off * w + w <= (m + 1) * w) by (nonlinear_arith)
                requires
                    off <= m,
                    w >= 1,
            ;
            assert(k * w + w <= count * w) by (nonlinear_arith)
                requires
                    k < count,
                    w >= 1,
            ;
        }
        let start = off * width;
        let mut j: usize = 0;
        while j < width
            invariant
                count == element_count(shape@),
                w == width,
                w >= 1,
                k < count,
                k * w + w <= count * w,
                count * w <= usize::MAX,
                start == off * w,
                start + w <= buf@.len(),
                blen == buf@.len(),
                off == offset_of(shape@, stride@, k as int),
                j <= width,
                target == gathered(buf@, shape@, stride@, width as nat),
                out@ == target.take(k * w + j),
            decreases width - j,
        {
            proof {
                let p = k * w + j;
                lemma_fundamental_div_mod_converse(p, w, k as int, j as int);
                assert(target[p] == buf@[start + j]);
                assert(target.take(p + 1) =~= target.take(p).push(target[p]));
            }
            out.push(buf[start + j]);
            j = j + 1;
        }
        proof {
            assert(k * w + w == (k + 1) * w) by (nonlinear_arith);
        }
        k = k + 1;
    }
    assert(out@ =~= target);
    out
}

} // verus!
