use nx_layout_toolbox::mc::geometry::sources::{
    vertex_attribute_source_descriptors, VertexAttributeInterstageError as E, VertexAttributeSourceDescriptor,
    VertexAttributeWriterTarget as T,
};

fn d(element_shift: u32, group_stride: usize, count: usize) -> VertexAttributeSourceDescriptor {
    VertexAttributeSourceDescriptor { element_shift, group_stride, count }
}

#[test]
fn copy_writers_take_one_descriptor_and_no_varint() {
    let r = vertex_attribute_source_descriptors(15, 4, 3, 10, &[0x7f], 0).unwrap();
    assert_eq!(r, (T::Copy1, vec![d(0, 3, 10)], 0));
    let r = vertex_attribute_source_descriptors(18, 16, 3, 10, &[], 5).unwrap();
    assert_eq!(r, (T::Copy4, vec![d(0, 6, 10)], 5));
}

#[test]
fn delta_writers_split_the_count() {
    let r = vertex_attribute_source_descriptors(7, 16, 4, 10, &[0x03], 0).unwrap();
    assert_eq!(r, (T::Delta2, vec![d(1, 1, 3), d(1, 3, 3), d(1, 4, 7)], 1));
    let r = vertex_attribute_source_descriptors(76, 8, 2, 200, &[0x81, 0x00], 0).unwrap();
    assert_eq!(r, (T::U8x2Delta, vec![d(0, 2, 128), d(0, 2, 72)], 2));
    let r = vertex_attribute_source_descriptors(111, 9, 1, 5, &[0x02], 0).unwrap();
    assert_eq!(r, (T::Pack10x3Delta, vec![d(1, 2, 2), d(1, 1, 2), d(0, 1, 2), d(1, 3, 3)], 1));
    let r = vertex_attribute_source_descriptors(107, 1, 1, 4, &[], 0).unwrap();
    assert_eq!(r, (T::I8x2Normal, vec![d(0, 2, 4), d(0, 1, 4), d(0, 1, 4)], 0));
}

#[test]
fn source_setup_errors() {
    assert_eq!(vertex_attribute_source_descriptors(30, 4, 1, 10, &[0x0b], 0), Err(E::SplitExceedsWrapperReturn {
        dispatch: 30,
        split: 11,
        wrapper_ret: 10,
    }));
    assert_eq!(vertex_attribute_source_descriptors(30, 4, 1, 10, &[], 0), Err(E::StreamTooShort));
    assert_eq!(vertex_attribute_source_descriptors(30, 4, 1, 10, &[0x80; 5], 0), Err(E::VarintTooLong));
    assert_eq!(
        vertex_attribute_source_descriptors(110, 9, 1, 5, &[0x01], 0),
        Err(E::UnobservedNormalElementShift { dispatch: 110, element_shift: 1 })
    );
    assert_eq!(vertex_attribute_source_descriptors(15, 4, 1, 0, &[], 0), Err(E::UnobservedZeroSourceCount {
        dispatch: 15,
        index: 0,
    }));
    assert_eq!(vertex_attribute_source_descriptors(7, 4, 1, 3, &[0x01], 0), Err(E::UnobservedZeroDescriptorStride {
        dispatch: 7,
        index: 1,
    }));
    assert_eq!(vertex_attribute_source_descriptors(99, 4, 1, 3, &[], 0), Err(E::UnobservedDispatch(99)));
    assert_eq!(vertex_attribute_source_descriptors(15, 0, 1, 3, &[], 0), Err(E::UnobservedZeroTableByteCount));
    assert_eq!(vertex_attribute_source_descriptors(15, 4, 0, 3, &[], 0), Err(E::UnobservedZeroTableGroupWidth));
    assert_eq!(vertex_attribute_source_descriptors(15, u32::MAX, 1, 3, &[], 0), Err(E::ArithmeticOverflow));
}
