use ctb_crypt::error::CtbError;
use ctb_crypt::generic_array::{vec_to_generic_array, AsArray, GenericArrayFrom, ToGenericArray, UuidBytes};
use ctb_crypt::text::base64_decode;
use ctb_crypt::type_names::{type_name_of, type_name_or_default};

#[test]
fn type_name_takes_first_path_segment() {
    assert_eq!(type_name_of("chacha20poly1305::ChaChaPoly1305<chacha20::ChaCha20, U12>").unwrap(), "ChaChaPoly1305");
    assert_eq!(type_name_of("a:::b_1::c").unwrap(), "b_1");
    assert_eq!(type_name_of("NoPath"), Err(CtbError::TypeName));
    assert_eq!(type_name_or_default("NoPath"), "");
    assert_eq!(type_name_or_default("x::Y"), "Y");
}

#[test]
fn base64_decode_trims_whitespace() {
    assert_eq!(base64_decode("  AAEC \n").unwrap(), vec![0, 1, 2]);
    assert_eq!(base64_decode("AAEC").unwrap(), vec![0, 1, 2]);
    assert_eq!(base64_decode("AA EC"), Err(CtbError::Base64));
    assert_eq!(base64_decode("AAE"), Err(CtbError::Base64));
}

#[test]
fn vec_to_generic_array_checks_length() {
    assert_eq!(vec_to_generic_array(vec![1, 2, 3], 3), Ok(vec![1, 2, 3]));
    assert_eq!(vec_to_generic_array(vec![1, 2, 3], 4), Err(CtbError::SizeMismatch));
    assert_eq!(<Vec<u8> as GenericArrayFrom>::try_from_vec(vec![7; 12], 12), Ok(vec![7; 12]));
    assert_eq!(<Vec<u8> as GenericArrayFrom>::try_from_vec(vec![7; 11], 12), Err(CtbError::SizeMismatch));
}

#[test]
fn uuid_fills_array_front() {
    let uuid = uuid::Uuid::parse_str("67e55044-10b1-426f-9247-bb680e5fe0c8").unwrap();
    let bytes = UuidBytes(*uuid.as_bytes());
    let arr = bytes.to_generic_array(24);
    assert_eq!(&arr[..16], uuid.as_bytes());
    assert_eq!(&arr[16..], &[0u8; 8]);
    assert_eq!(bytes.as_array(16), uuid.as_bytes().to_vec());
}

#[test]
fn byte_vector_is_its_own_array() {
    let v = vec![1u8, 2, 3];
    assert_eq!(v.as_array(3), vec![1, 2, 3]);
    assert_eq!(v.to_generic_array(3), vec![1, 2, 3]);
}
