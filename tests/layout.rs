use carton_bridge::layout::{checked_element_count, checked_span_bytes, gather};

#[test]
fn element_count_multiplies_extents() {
    assert_eq!(checked_element_count(&vec![2, 3, 4]), Some(24));
    assert_eq!(checked_element_count(&vec![]), Some(1));
    assert_eq!(checked_element_count(&vec![usize::MAX, 0]), Some(0));
    assert_eq!(checked_element_count(&vec![usize::MAX, 2]), None);
}

#[test]
fn span_reaches_the_largest_offset() {
    // Offsets up to 1*6 + 2*2 + 3*1 = 13, so 14 elements of 4 bytes.
    assert_eq!(checked_span_bytes(&vec![2, 3, 4], &vec![6, 2, 1], 4), Some(56));
    assert_eq!(checked_span_bytes(&vec![2, 0], &vec![1, 1], 8), Some(0));
    assert_eq!(checked_span_bytes(&vec![3], &vec![usize::MAX], 1), None);
}

#[test]
fn gather_follows_strides() {
    let buf: Vec<u8> = (0..12).collect();
    // Two-byte elements; shape 2x2 picking elements 0, 3 and 1, 4.
    let out = gather(&buf, &vec![2, 2], &vec![1, 3], 2);
    assert_eq!(out, vec![0, 1, 6, 7, 2, 3, 8, 9]);
}

#[test]
fn span_is_a_whole_number_of_elements() {
    for width in [1usize, 2, 4, 8] {
        for (shape, stride) in [(vec![2, 3], vec![3, 1]), (vec![4], vec![5]), (vec![2, 2], vec![0, 7])] {
            let span = checked_span_bytes(&shape, &stride, width).unwrap();
            assert_eq!(span % width, 0);
        }
    }
}
