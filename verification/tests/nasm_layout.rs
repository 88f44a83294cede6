//! Layout of IR types on x86-64.

use astronomy::id::TypeId;
use astronomy::nasm::layout::{align_of, align_up, check_supported, field_offset, field_type, size_of};
use astronomy::types::TypeStore;

fn store_with(f: impl FnOnce(&mut TypeStore)) -> TypeStore {
    let mut store = TypeStore::new();
    f(&mut store);
    store
}

#[test]
fn scalar_sizes_and_alignments() {
    let store = TypeStore::new();
    assert_eq!(size_of(&store, TypeId::I1()).unwrap(), 1);
    assert_eq!(size_of(&store, TypeId::U8()).unwrap(), 1);
    assert_eq!(size_of(&store, TypeId::I16()).unwrap(), 2);
    assert_eq!(size_of(&store, TypeId::U32()).unwrap(), 4);
    assert_eq!(size_of(&store, TypeId::I64()).unwrap(), 8);
    assert_eq!(size_of(&store, TypeId::F32()).unwrap(), 4);
    assert_eq!(size_of(&store, TypeId::F64()).unwrap(), 8);
    assert_eq!(align_of(&store, TypeId::I1()).unwrap(), 1);
    assert_eq!(align_of(&store, TypeId::I64()).unwrap(), 8);
}

#[test]
fn struct_layout_pads_fields() {
    let store = store_with(|s| {
        s.struct_of(&[TypeId::I8(), TypeId::I64()]);
    });
    let ty = TypeId::new(14);
    assert_eq!(size_of(&store, ty).unwrap(), 16);
    assert_eq!(align_of(&store, ty).unwrap(), 8);
    assert_eq!(field_offset(&store, ty, 0).unwrap(), 0);
    assert_eq!(field_offset(&store, ty, 1).unwrap(), 8);
}

#[test]
fn array_layout_is_contiguous() {
    let store = store_with(|s| {
        s.array(TypeId::I32(), 4);
    });
    let ty = TypeId::new(14);
    assert_eq!(size_of(&store, ty).unwrap(), 16);
    assert_eq!(align_of(&store, ty).unwrap(), 4);
    assert_eq!(field_offset(&store, ty, 3).unwrap(), 12);
    assert_eq!(field_type(&store, ty, 3).unwrap(), TypeId::I32());
}

#[test]
fn pointer_is_eight_bytes() {
    let store = store_with(|s| {
        s.ptr(TypeId::I64());
    });
    let ty = TypeId::new(14);
    assert_eq!(size_of(&store, ty).unwrap(), 8);
    assert_eq!(align_of(&store, ty).unwrap(), 8);
}

#[test]
fn i128_is_unsupported_recursively() {
    let store = store_with(|s| {
        s.struct_of(&[TypeId::I64(), TypeId::I128()]);
    });
    let ty = TypeId::new(14);
    assert_eq!(
        check_supported(&store, TypeId::I128(), "test").unwrap_err().code(),
        "A-NASM-001"
    );
    assert_eq!(check_supported(&store, ty, "test").unwrap_err().code(), "A-NASM-001");
}

#[test]
fn align_up_rounds_to_power_of_two() {
    assert_eq!(align_up(0, 8), Some(0));
    assert_eq!(align_up(1, 8), Some(8));
    assert_eq!(align_up(8, 8), Some(8));
    assert_eq!(align_up(9, 16), Some(16));
    assert_eq!(align_up(u64::MAX, 8), None);
}
