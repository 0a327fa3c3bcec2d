use sip::entities::{Global, GlobalInit, Type};
use sip::globals::GlobalsData;
use sip::target::ByteOrder;

fn globals(list: &[(Type, GlobalInit)]) -> GlobalsData {
    let mut data = GlobalsData::new();
    for (ty, initializer) in list {
        data.declare(Global { ty: *ty, mutability: false, initializer: *initializer });
    }
    data
}

#[test]
fn each_global_holds_its_constant() {
    let mut data = globals(&[
        (Type::I32, GlobalInit::I32Const(-2)),
        (Type::I64, GlobalInit::I64Const(0x0102_0304_0506_0708)),
        (Type::F32, GlobalInit::F32Const(1.5f32.to_bits())),
        (Type::F64, GlobalInit::F64Const((-2.25f64).to_bits())),
    ]);
    assert!(data.can_allocate());
    data.allocate(ByteOrder::Little);
    assert_eq!(data.len(), 4);
    assert_eq!(data.bytes_of(0), (-2i32).to_le_bytes());
    assert_eq!(data.bytes_of(1), 0x0102_0304_0506_0708i64.to_le_bytes());
    assert_eq!(data.bytes_of(2), 1.5f32.to_le_bytes());
    assert_eq!(data.bytes_of(3), (-2.25f64).to_le_bytes());
}

#[test]
fn a_reference_copies_an_earlier_global() {
    let mut data = globals(&[
        (Type::I64, GlobalInit::I64Const(-7)),
        (Type::I32, GlobalInit::Import),
        (Type::I64, GlobalInit::GlobalRef(0)),
        (Type::I64, GlobalInit::GlobalRef(2)),
    ]);
    assert!(data.can_allocate());
    data.allocate(ByteOrder::Little);
    assert_eq!(data.bytes_of(1), [0; 4]);
    assert_eq!(data.bytes_of(2), (-7i64).to_le_bytes());
    assert_eq!(data.bytes_of(3), (-7i64).to_le_bytes());
}

#[test]
fn a_reference_to_a_later_global_finds_zeros() {
    let mut data = globals(&[
        (Type::I32, GlobalInit::GlobalRef(1)),
        (Type::I32, GlobalInit::I32Const(5)),
    ]);
    assert!(data.can_allocate());
    data.allocate(ByteOrder::Little);
    assert_eq!(data.bytes_of(0), [0; 4]);
    assert_eq!(data.bytes_of(1), [5, 0, 0, 0]);
}

#[test]
fn a_wide_constant_runs_into_the_next_slot() {
    let mut data = globals(&[
        (Type::I32, GlobalInit::I64Const(0x0807_0605_0403_0201)),
        (Type::I32, GlobalInit::Import),
    ]);
    assert!(data.can_allocate());
    data.allocate(ByteOrder::Little);
    assert_eq!(data.bytes_of(0), [1, 2, 3, 4]);
    assert_eq!(data.bytes_of(1), [5, 6, 7, 8]);
}

#[test]
fn a_narrow_constant_leaves_the_rest_of_its_slot() {
    let mut data = globals(&[
        (Type::I64, GlobalInit::I32Const(-1)),
        (Type::I32, GlobalInit::I32Const(9)),
        (Type::I32, GlobalInit::GlobalRef(1)),
    ]);
    assert!(data.can_allocate());
    data.allocate(ByteOrder::Little);
    assert_eq!(data.bytes_of(0), [0xff, 0xff, 0xff, 0xff, 0, 0, 0, 0]);
    assert_eq!(data.bytes_of(1), [9, 0, 0, 0]);
    assert_eq!(data.bytes_of(2), [9, 0, 0, 0]);
}

#[test]
fn on_a_big_endian_host_the_highest_byte_comes_first() {
    let mut data = globals(&[
        (Type::I32, GlobalInit::I32Const(-2)),
        (Type::I64, GlobalInit::I64Const(0x0102_0304_0506_0708)),
        (Type::F32, GlobalInit::F32Const(1.5f32.to_bits())),
        (Type::F64, GlobalInit::F64Const((-2.25f64).to_bits())),
        (Type::I64, GlobalInit::GlobalRef(1)),
    ]);
    data.allocate(ByteOrder::Big);
    assert_eq!(data.bytes_of(0), [0xff, 0xff, 0xff, 0xfe]);
    assert_eq!(data.bytes_of(1), [1, 2, 3, 4, 5, 6, 7, 8]);
    assert_eq!(data.bytes_of(2), 1.5f32.to_be_bytes());
    assert_eq!(data.bytes_of(3), (-2.25f64).to_be_bytes());
    assert_eq!(data.bytes_of(4), [1, 2, 3, 4, 5, 6, 7, 8]);
}

#[test]
fn allocating_again_runs_the_initializers_over_the_old_bytes() {
    let mut data = globals(&[(Type::I32, GlobalInit::I32Const(7))]);
    data.allocate(ByteOrder::Little);
    data.declare(Global { ty: Type::I32, mutability: false, initializer: GlobalInit::Import });
    assert_eq!(data.bytes_of(1), [7, 0, 0, 0]);
    data.allocate(ByteOrder::Little);
    assert_eq!(data.bytes_of(0), [7, 0, 0, 0]);
    assert_eq!(data.bytes_of(1), [0, 0, 0, 0]);
}

#[test]
fn initializers_out_of_bounds_are_found() {
    assert!(!globals(&[(Type::I32, GlobalInit::I64Const(1))]).can_allocate());
    assert!(!globals(&[(Type::F32, GlobalInit::F64Const(1))]).can_allocate());
    assert!(!globals(&[(Type::I32, GlobalInit::GlobalRef(0))]).can_allocate());
    assert!(!globals(&[(Type::I32, GlobalInit::GlobalRef(1))]).can_allocate());
    assert!(!globals(&[(Type::I64, GlobalInit::GlobalRef(1)), (Type::I32, GlobalInit::Import)])
        .can_allocate());
    assert!(globals(&[]).can_allocate());
}

#[test]
fn types_have_their_widths() {
    assert_eq!(Type::I32.bytes(), 4);
    assert_eq!(Type::I64.bytes(), 8);
    assert_eq!(Type::F32.bytes(), 4);
    assert_eq!(Type::F64.bytes(), 8);
}
