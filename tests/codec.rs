use carton_bridge::codec::{
    egress, egress_tensor, ingress, ingress_tensor, settle_infer, DenseTensor, EngineTensor,
    InferError, InputFault, OutputFault, TensorDescriptor,
};
use carton_bridge::dtype::Dtype;

fn descriptor(buffer: Vec<u8>, shape: Vec<usize>, stride: Vec<usize>, dtype: &str) -> TensorDescriptor {
    TensorDescriptor { buffer, shape, stride, dtype: dtype.to_string() }
}

fn f32_bytes(values: &[f32]) -> Vec<u8> {
    values.iter().flat_map(|v| v.to_ne_bytes()).collect()
}

fn i32_bytes(values: &[i32]) -> Vec<u8> {
    values.iter().flat_map(|v| v.to_ne_bytes()).collect()
}

#[test]
fn float32_identity_round_trip() {
    let values = [1.5f32, -2.0, 3.25, 4.0];
    let inputs = vec![(
        "x".to_string(),
        descriptor(f32_bytes(&values), vec![2, 2], vec![2, 1], "float32"),
    )];
    let dense = ingress(&inputs).unwrap();
    assert_eq!(dense.len(), 1);
    let engine: Vec<(String, EngineTensor)> =
        dense.into_iter().map(|(n, t)| (n, EngineTensor::Dense(t))).collect();
    let out = settle_infer(Ok(engine)).unwrap();
    assert_eq!(out.len(), 1);
    assert_eq!(out[0].0, "x");
    let host = &out[0].1;
    assert_eq!(host.shape, vec![2, 2]);
    assert_eq!(host.dtype, "float32");
    let back: Vec<f32> = host
        .buffer
        .chunks(4)
        .map(|c| f32::from_ne_bytes([c[0], c[1], c[2], c[3]]))
        .collect();
    assert_eq!(back, values.to_vec());
}

#[test]
fn transposed_stride_is_gathered_row_major() {
    // A 3x2 int32 matrix stored row-major, read as its 2x3 transpose.
    let stored = [1i32, 2, 3, 4, 5, 6];
    let d = descriptor(i32_bytes(&stored), vec![2, 3], vec![1, 2], "int32");
    let t = ingress_tensor(&d).unwrap();
    assert_eq!(t.dtype, Dtype::Int32);
    assert_eq!(t.shape, vec![2, 3]);
    assert_eq!(t.data, i32_bytes(&[1, 3, 5, 2, 4, 6]));
}

#[test]
fn zero_stride_repeats_an_element() {
    let d = descriptor(vec![7], vec![3], vec![0], "uint8");
    let t = ingress_tensor(&d).unwrap();
    assert_eq!(t.data, vec![7, 7, 7]);
}

#[test]
fn empty_axis_needs_no_bytes() {
    let d = descriptor(vec![], vec![0, 3], vec![3, 1], "float64");
    let t = ingress_tensor(&d).unwrap();
    assert_eq!(t.shape, vec![0, 3]);
    assert!(t.data.is_empty());
}

#[test]
fn scalar_has_one_element() {
    let d = descriptor(vec![1, 2], vec![], vec![], "int16");
    let t = ingress_tensor(&d).unwrap();
    assert_eq!(t.data, vec![1, 2]);
}

#[test]
fn unknown_dtype_rejects_only_its_call() {
    let bad = vec![(
        "x".to_string(),
        descriptor(vec![0; 32], vec![2], vec![1], "complex256"),
    )];
    match ingress(&bad) {
        Err(InferError::Input { name, fault }) => {
            assert_eq!(name, "x");
            assert_eq!(fault, InputFault::UnknownDtype);
        }
        _ => panic!("expected an input error"),
    }
    let good = vec![("y".to_string(), descriptor(vec![9, 8], vec![2], vec![1], "uint8"))];
    let out = ingress(&good).unwrap();
    assert_eq!(out[0].0, "y");
    assert_eq!(out[0].1.data, vec![9, 8]);
}

#[test]
fn first_faulty_input_is_reported() {
    let inputs = vec![
        ("a".to_string(), descriptor(vec![1], vec![1], vec![1], "uint8")),
        ("b".to_string(), descriptor(vec![1], vec![1, 1], vec![1], "uint8")),
        ("c".to_string(), descriptor(vec![1], vec![1], vec![1], "bogus")),
    ];
    match ingress(&inputs) {
        Err(InferError::Input { name, fault }) => {
            assert_eq!(name, "b");
            assert_eq!(fault, InputFault::RankMismatch);
        }
        _ => panic!("expected an input error"),
    }
}

#[test]
fn short_buffer_is_rejected() {
    // Two int64 elements with stride 1 need 16 bytes.
    let d = descriptor(vec![0; 15], vec![2], vec![1], "int64");
    assert_eq!(ingress_tensor(&d).err(), Some(InputFault::BufferTooSmall));
    let d = descriptor(vec![0; 16], vec![2], vec![1], "int64");
    assert!(ingress_tensor(&d).is_ok());
}

#[test]
fn huge_stride_is_rejected() {
    let d = descriptor(vec![0; 4], vec![2], vec![usize::MAX], "uint8");
    assert_eq!(ingress_tensor(&d).err(), Some(InputFault::BufferTooSmall));
}

#[test]
fn oversized_tensor_is_rejected() {
    let d = descriptor(vec![0; 4], vec![usize::MAX, 2], vec![0, 0], "uint16");
    assert_eq!(ingress_tensor(&d).err(), Some(InputFault::TooLarge));
}

#[test]
fn string_and_nested_results_are_refused() {
    assert_eq!(egress_tensor(EngineTensor::Text).err(), Some(OutputFault::StringTensor));
    assert_eq!(egress_tensor(EngineTensor::Nested).err(), Some(OutputFault::NestedTensor));
    let outputs = vec![
        (
            "ok".to_string(),
            EngineTensor::Dense(DenseTensor { dtype: Dtype::Uint8, shape: vec![1], data: vec![3] }),
        ),
        ("seq".to_string(), EngineTensor::Nested),
    ];
    match egress(outputs) {
        Err(InferError::Output { name, reason }) => {
            assert_eq!(name, "seq");
            assert_eq!(reason, OutputFault::NestedTensor);
        }
        _ => panic!("expected an output error"),
    }
}

#[test]
fn result_with_wrong_byte_count_is_refused() {
    let t = DenseTensor { dtype: Dtype::Uint16, shape: vec![3], data: vec![0; 5] };
    assert_eq!(egress_tensor(EngineTensor::Dense(t)).err(), Some(OutputFault::SizeMismatch));
}

#[test]
fn egress_tags_each_dtype() {
    let t = DenseTensor { dtype: Dtype::Uint32, shape: vec![1, 1], data: vec![1, 0, 0, 0] };
    let h = egress_tensor(EngineTensor::Dense(t)).unwrap();
    assert_eq!(h.dtype, "uint32");
    assert_eq!(h.shape, vec![1, 1]);
    assert_eq!(h.buffer, vec![1, 0, 0, 0]);
}

#[test]
fn engine_failure_keeps_its_description() {
    match settle_infer(Err("runner crashed".to_string())) {
        Err(InferError::Engine { message }) => assert_eq!(message, "runner crashed"),
        _ => panic!("expected an engine error"),
    }
}

#[test]
fn every_dtype_round_trips_through_a_strided_view() {
    for tag in ["float32", "float64", "int8", "int16", "int32", "int64", "uint8", "uint16", "uint32", "uint64"] {
        let width = carton_bridge::dtype::resolve(tag).unwrap().width();
        // Every other element of a buffer of four.
        let buffer: Vec<u8> = (0..(4 * width) as u8).collect();
        let d = descriptor(buffer.clone(), vec![2], vec![2], tag);
        let t = ingress_tensor(&d).unwrap();
        let h = egress_tensor(EngineTensor::Dense(t)).unwrap();
        assert_eq!(h.dtype, tag);
        assert_eq!(h.shape, vec![2]);
        let mut expected = buffer[0..width].to_vec();
        expected.extend_from_slice(&buffer[2 * width..3 * width]);
        assert_eq!(h.buffer, expected);
    }
}
