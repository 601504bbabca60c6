//! Conversion of host tensor descriptors into owned standard-layout tensors
//! for the engine, and of the engine's results into host tensors.
use crate::dtype::{dtype_of_tag, resolve, Dtype};
use crate::layout::{
    checked_element_count, checked_span_bytes, element_count, gather, gathered, offset_of,
    span_bytes,
};
use crate::dtype::lemma_tag_resolves;
use crate::layout::{element_byte, max_offset};
use vstd::arithmetic::div_mod::{lemma_fundamental_div_mod_converse, lemma_mod_multiples_basic};
use vstd::prelude::*;

verus! {

/// A tensor as the host describes it: raw bytes read through a shape, a
/// per-axis stride counted in elements, and a dtype tag.
pub struct TensorDescriptor {
    pub buffer: Vec<u8>,
    pub shape: Vec<usize>,
    pub stride: Vec<usize>,
    pub dtype: String,
}

/// An owned tensor in standard (row-major, contiguous) layout.
pub struct DenseTensor {
    pub dtype: Dtype,
    pub shape: Vec<usize>,
    pub data: Vec<u8>,
}

/// One result tensor as the engine hands it over.
pub enum EngineTensor {
    /// A numeric tensor, its elements already in standard layout.
    Dense(DenseTensor),
    /// A tensor of strings, which the bridge does not carry.
    Text,
    /// A sequence of tensors, which the bridge does not carry.
    Nested,
}

/// A result tensor as the host receives it; its layout is always standard.
pub struct HostTensor {
    pub buffer: Vec<u8>,
    pub dtype: String,
    pub shape: Vec<usize>,
}

/// Why an input descriptor cannot become a tensor.
#[derive(Clone, Copy, Debug, PartialEq, Eq, Structural)]
pub enum InputFault {
    /// The dtype tag is not in the table.
    UnknownDtype,
    /// Shape and stride have different lengths.
    RankMismatch,
    /// The tensor's size in bytes does not fit in `usize`.
    TooLarge,
    /// The layout reaches past the end of the buffer.
    BufferTooSmall,
}

/// Why an engine result cannot become a host tensor.
#[derive(Clone, Copy, Debug, PartialEq, Eq, Structural)]
pub enum OutputFault {
    StringTensor,
    NestedTensor,
    /// The data does not hold one element per position of the shape.
    SizeMismatch,
}

/// The failure of one infer call.
#[derive(Debug)]
pub enum InferError {
    /// An input tensor was rejected before any work was handed to the engine.
    Input { name: String, fault: InputFault },
    /// The engine failed; its description is kept.
    Engine { message: String },
    /// A result tensor could not be handed to the host.
    Output { name: String, reason: OutputFault },
}

/// The first check that a descriptor fails, if any.
pub open spec fn input_fault(buffer: Seq<u8>, shape: Seq<usize>, stride: Seq<usize>, tag: Seq<char>) -> Option<
    InputFault,
> {
    match dtype_of_tag(tag) {
        None => Some(InputFault::UnknownDtype),
        Some(d) => if shape.len() != stride.len() {
            Some(InputFault::RankMismatch)
        } else if element_count(shape) * d.spec_width() > usize::MAX {
            Some(InputFault::TooLarge)
        } else if span_bytes(shape, stride, d.spec_width()) > buffer.len() {
            Some(InputFault::BufferTooSmall)
        } else {
            None
        },
    }
}

impl TensorDescriptor {
    pub open spec fn fault(&self) -> Option<InputFault> {
        input_fault(self.buffer@, self.shape@, self.stride@, self.dtype@)
    }
}

/// `t` is what ingress makes of `d`: the dtype that the tag names, the same
/// shape, and the elements gathered in row-major order.
pub open spec fn ingressed(d: TensorDescriptor, t: DenseTensor) -> bool {
    &&& d.fault() is None
    &&& dtype_of_tag(d.dtype@) == Some(t.dtype)
    &&& t.shape@ == d.shape@
    &&& t.data@ == gathered(d.buffer@, d.shape@, d.stride@, t.dtype.spec_width())
}

/// The check that an engine result fails, if any.
pub open spec fn output_fault(t: EngineTensor) -> Option<OutputFault> {
    match t {
        EngineTensor::Text => Some(OutputFault::StringTensor),
        EngineTensor::Nested => Some(OutputFault::NestedTensor),
        EngineTensor::Dense(x) => if x.data@.len() != element_count(x.shape@) * x.dtype.spec_width() {
            Some(OutputFault::SizeMismatch)
        } else {
            None
        },
    }
}

/// `h` is what egress makes of `t`: its bytes, its shape and its dtype's tag.
pub open spec fn egressed(t: EngineTensor, h: HostTensor) -> bool {
    &&& output_fault(t) is None
    &&& t matches EngineTensor::Dense(x)
    &&& h.buffer@ == x.data@
    &&& h.shape@ == x.shape@
    &&& h.dtype@ == x.dtype.spec_tag()
}

fn copy_dims(v: &Vec<usize>) -> (r: Vec<usize>)
    ensures
        r@ == v@,
{
    let mut r: Vec<usize> = Vec::new();
    let mut i: usize = 0;
    while i < v.len()
        invariant
            i <= v@.len(),
            r@ == v@.take(i as int),
        decreases v@.len() - i,
    {
        assert(v@.take(i + 1) =~= v@.take(i as int).push(v@[i as int]));
        r.push(v[i]);
        i = i + 1;
    }
    assert(v@.take(i as int) =~= v@);
    r
}

/// Turns one host descriptor into an owned tensor in standard layout, or
/// names the first check that it fails.
pub fn ingress_tensor(d: &TensorDescriptor) -> (r: Result<DenseTensor, InputFault>)
    ensures
        match r {
            Ok(t) => ingressed(*d, t),
            Err(e) => d.fault() == Some(e),
        },
{
    let dtype = match resolve(d.dtype.as_str()) {
        Some(x) => x,
        None => {
            return Err(InputFault::UnknownDtype);
        },
    };
    if d.shape.len() != d.stride.len() {
        return Err(InputFault::RankMismatch);
    }
    let width = dtype.width();
    let blen = d.buffer.len();
    let count = match checked_element_count(&d.shape) {
        Some(c) => c,
        None => {
            let ghost c = element_count(d.shape@);
            assert(c * width >= c) by (nonlinear_arith)
                requires
                    width >= 1,
            ;
            return Err(InputFault::TooLarge);
        },
    };
    if count.checked_mul(width).is_none() {
        return Err(InputFault::TooLarge);
    }
    match checked_span_bytes(&d.shape, &d.stride, width) {
        Some(need) => {
            if need > d.buffer.len() {
                return Err(InputFault::BufferTooSmall);
            }
        },
        None => {
            return Err(InputFault::BufferTooSmall);
        },
    }
    let data = gather(&d.buffer, &d.shape, &d.stride, width);
    Ok(DenseTensor { dtype, shape: copy_dims(&d.shape), data })
}

/// Turns one engine result into a host tensor, moving its bytes, or names
/// the check that it fails.
pub fn egress_tensor(t: EngineTensor) -> (r: Result<HostTensor, OutputFault>)
    ensures
        match r {
            Ok(h) => egressed(t, h),
            Err(e) => output_fault(t) == Some(e),
        },
{
    match t {
        EngineTensor::Text => Err(OutputFault::StringTensor),
        EngineTensor::Nested => Err(OutputFault::NestedTensor),
        EngineTensor::Dense(x) => {
            let width = x.dtype.width();
            let dlen = x.data.len();
            let ghost wanted = element_count(x.shape@) * x.dtype.spec_width();
            let count = match checked_element_count(&x.shape) {
                Some(c) => c,
                None => {
                    let ghost c = element_count(x.shape@);
                    assert(c * width >= c) by (nonlinear_arith)
                        requires
                            width >= 1,
                    ;
                    return Err(OutputFault::SizeMismatch);
                },
            };
            match count.checked_mul(width) {
                Some(n) => {
                    if n != x.data.len() {
                        return Err(OutputFault::SizeMismatch);
                    }
                },
                None => {
                    return Err(OutputFault::SizeMismatch);
                },
            }
            let tag = x.dtype.tag();
            Ok(HostTensor { buffer: x.data, dtype: tag.to_owned(), shape: x.shape })
        },
    }
}

/// `r` is what ingress of the named descriptors yields: every tensor, under
/// its name and in order, when all pass their checks; otherwise the fault of
/// the first one that does not.
pub open spec fn ingress_outcome(
    inputs: Seq<(String, TensorDescriptor)>,
    r: Result<Vec<(String, DenseTensor)>, InferError>,
) -> bool {
    match r {
        Ok(out) => {
            &&& forall|i: int| 0 <= i < inputs.len() ==> (#[trigger] inputs[i]).1.fault() is None
            &&& out@.len() == inputs.len()
            &&& forall|i: int|
                0 <= i < inputs.len() ==> (#[trigger] out@[i]).0@ == inputs[i].0@ && ingressed(
                    inputs[i].1,
                    out@[i].1,
                )
        },
        Err(e) => exists|i: int|
            0 <= i < inputs.len() && #[trigger] first_input_fault(inputs, i, e),
    }
}

/// Descriptor `i` is the first to fail a check, and `e` names it and its fault.
pub open spec fn first_input_fault(inputs: Seq<(String, TensorDescriptor)>, i: int, e: InferError) -> bool {
    &&& forall|j: int| 0 <= j < i ==> (#[trigger] inputs[j]).1.fault() is None
    &&& e matches InferError::Input { name, fault }
    &&& name@ == inputs[i].0@
    &&& inputs[i].1.fault() == Some(fault)
}

/// `r` is what egress of the named engine results yields: every host tensor,
/// under its name and in order, when all pass their checks; otherwise the
/// fault of the first one that does not.
pub open spec fn egress_outcome(
    outputs: Seq<(String, EngineTensor)>,
    r: Result<Vec<(String, HostTensor)>, InferError>,
) -> bool {
    match r {
        Ok(out) => {
            &&& forall|i: int| 0 <= i < outputs.len() ==> output_fault((#[trigger] outputs[i]).1) is None
            &&& out@.len() == outputs.len()
            &&& forall|i: int|
                0 <= i < outputs.len() ==> (#[trigger] out@[i]).0@ == outputs[i].0@ && egressed(
                    outputs[i].1,
                    out@[i].1,
                )
        },
        Err(e) => exists|i: int|
            0 <= i < outputs.len() && #[trigger] first_output_fault(outputs, i, e),
    }
}

/// Result `i` is the first to fail a check, and `e` names it and its fault.
pub open spec fn first_output_fault(outputs: Seq<(String, EngineTensor)>, i: int, e: InferError) -> bool {
    &&& forall|j: int| 0 <= j < i ==> output_fault((#[trigger] outputs[j]).1) is None
    &&& e matches InferError::Output { name, reason }
    &&& name@ == outputs[i].0@
    &&& output_fault(outputs[i].1) == Some(reason)
}

/// Converts every named descriptor of an infer call, all or nothing.
pub fn ingress(inputs: &Vec<(String, TensorDescriptor)>) -> (r: Result<Vec<(String, DenseTensor)>, InferError>)
    ensures
        ingress_outcome(inputs@, r),
{
    let mut out: Vec<(String, DenseTensor)> = Vec::new();
    let mut i: usize = 0;
    while i < inputs.len()
        invariant
            i <= inputs@.len(),
            out@.len() == i,
            forall|j: int| 0 <= j < i ==> (#[trigger] inputs@[j]).1.fault() is None,
            forall|j: int|
                0 <= j < i ==> (#[trigger] out@[j]).0@ == inputs@[j].0@ && ingressed(
                    inputs@[j].1,
                    out@[j].1,
                ),
        decreases inputs@.len() - i,
    {
        let entry = &inputs[i];
        match ingress_tensor(&entry.1) {
            Ok(t) => {
                out.push((entry.0.clone(), t));
            },
            Err(fault) => {
                let e = InferError::Input { name: entry.0.clone(), fault };
                assert(first_input_fault(inputs@, i as int, e));
                return Err(e);
            },
        }
        i = i + 1;
    }
    Ok(out)
}

/// Converts every named engine result of an infer call, all or nothing,
/// moving each tensor's bytes to the host tensor.
pub fn egress(outputs: Vec<(String, EngineTensor)>) -> (r: Result<Vec<(String, HostTensor)>, InferError>)
    ensures
        egress_outcome(outputs@, r),
{
    let ghost all = outputs@;
    let n = outputs.len();
    let mut rest = outputs;
    let mut out: Vec<(String, HostTensor)> = Vec::new();
    let mut i: usize = 0;
    while rest.len() > 0
        invariant
            i <= all.len(),
            n == all.len(),
            all == outputs@,
            rest@ == all.skip(i as int),
            out@.len() == i,
            forall|j: int| 0 <= j < i ==> output_fault((#[trigger] all[j]).1) is None,
            forall|j: int|
                0 <= j < i ==> (#[trigger] out@[j]).0@ == all[j].0@ && egressed(all[j].1, out@[j].1),
        decreases all.len() - i,
    {
        assert(rest@.len() == all.len() - i);
        assert(rest@[0] == all[i as int]);
        let (name, t) = rest.remove(0);
        assert(rest@ =~= all.skip(i + 1));
        match egress_tensor(t) {
            Ok(h) => {
                out.push((name, h));
            },
            Err(reason) => {
                let e = InferError::Output { name, reason };
                assert(first_output_fault(all, i as int, e));
                return Err(e);
            },
        }
        i = i + 1;
    }
    assert(i == all.len());
    Ok(out)
}

/// Settles an infer call once the engine has answered: an engine failure is
/// passed on with its description, results go through egress.
pub fn settle_infer(result: Result<Vec<(String, EngineTensor)>, String>) -> (r: Result<
    Vec<(String, HostTensor)>,
    InferError,
>)
    ensures
        match result {
            Err(m) => r matches Err(InferError::Engine { message }) && message@ == m@,
            Ok(outputs) => egress_outcome(outputs@, r),
        },
{
    match result {
        Err(message) => Err(InferError::Engine { message }),
        Ok(outputs) => egress(outputs),
    }
}

/// Ingress of a descriptor followed by egress of the same tensor, as an
/// engine computing the identity hands it back, succeeds and gives the host
/// the descriptor's shape and dtype tag, with the elements in the order the
/// layout gives them: element `k` of the host buffer is the element at
/// row-major position `k` of the descriptor. Only the stride may change.
pub proof fn lemma_round_trip(d: TensorDescriptor, t: DenseTensor, h: HostTensor)
    requires
        ingressed(d, t),
        egressed(EngineTensor::Dense(t), h),
    ensures
        h.shape@ == d.shape@,
        h.dtype@ == d.dtype@,
        h.buffer@.len() == element_count(d.shape@) * t.dtype.spec_width(),
        forall|k: int, j: int|
            0 <= k < element_count(d.shape@) && 0 <= j < t.dtype.spec_width() ==> #[trigger] element_byte(
                h.buffer@,
                k,
                j,
                t.dtype.spec_width(),
            ) == element_byte(d.buffer@, offset_of(d.shape@, d.stride@, k), j, t.dtype.spec_width()),
{
    let w = t.dtype.spec_width() as int;
    let n = element_count(d.shape@) as int;
    assert forall|k: int, j: int| 0 <= k < n && 0 <= j < w implies #[trigger] element_byte(
        h.buffer@,
        k,
        j,
        w as nat,
    ) == element_byte(d.buffer@, offset_of(d.shape@, d.stride@, k), j, w as nat) by {
        lemma_fundamental_div_mod_converse(k * w + j, w, k, j);
        assert(k * w + j < n * w) by (nonlinear_arith)
            requires
                0 <= k < n,
                0 <= j < w,
        ;
    }
}

/// Ingress never yields a tensor that egress would refuse.
pub proof fn lemma_ingressed_egresses(d: TensorDescriptor, t: DenseTensor)
    requires
        ingressed(d, t),
    ensures
        output_fault(EngineTensor::Dense(t)) is None,
{
}

/// Every tag of the table resolves, to the dtype that carries it; its width
/// is at least one byte and divides both the byte span that any layout
/// reaches and the byte length of the standard-layout tensor.
pub proof fn lemma_dtype_closure(d: Dtype, shape: Seq<usize>, stride: Seq<usize>)
    ensures
        dtype_of_tag(d.spec_tag()) == Some(d),
        d.spec_width() >= 1,
        span_bytes(shape, stride, d.spec_width()) % (d.spec_width() as int) == 0,
        (element_count(shape) * d.spec_width()) as int % (d.spec_width() as int) == 0,
{
    lemma_tag_resolves(d);
    let w = d.spec_width() as int;
    lemma_mod_multiples_basic(element_count(shape) as int, w);
    lemma_mod_multiples_basic(max_offset(shape, stride) + 1, w);
    lemma_mod_multiples_basic(0, w);
}

} // verus!
