use sip::names::{mangle_import, mangle_local, name_fold};

#[test]
fn every_byte_folds_as_its_latin1_character() {
    for c in 0u8..=255 {
        let expected = if (c as char).is_alphanumeric() { c } else { b'_' };
        assert_eq!(name_fold(c), expected);
    }
}

#[test]
fn folding_twice_is_folding_once() {
    for c in 0u8..=255 {
        assert_eq!(name_fold(name_fold(c)), name_fold(c));
    }
}

#[test]
fn import_names_join_module_and_field() {
    assert_eq!(mangle_import(b"env", b"call_test"), b"env_call_test".to_vec());
    assert_eq!(mangle_import(b"a.b", b"c-d e"), b"a_b_c_d_e".to_vec());
    assert_eq!(mangle_import(b"", b""), b"_".to_vec());
    assert_eq!(mangle_import(&[0xe9, 0xd7], b"9"), vec![0xe9, b'_', b'_', b'9']);
}

#[test]
fn import_names_lose_where_the_module_ends() {
    assert_eq!(mangle_import(b"a", b"b_c"), mangle_import(b"a_b", b"c"));
}

#[test]
fn local_names_number_the_functions() {
    assert_eq!(mangle_local(0), b"localfunc0".to_vec());
    assert_eq!(mangle_local(10), b"localfunc10".to_vec());
    assert_eq!(mangle_local(4_294_967_295), b"localfunc4294967295".to_vec());
}
