use passprompt::error::PasspromptError;
use passprompt::util::byte_vec_to_array;

#[test]
fn vector_of_the_right_length_becomes_an_array() {
    let array: [u8; 4] = byte_vec_to_array(vec![1, 2, 3, 4]).unwrap();
    assert_eq!(array, [1, 2, 3, 4]);
    let none: [u8; 0] = byte_vec_to_array(vec![]).unwrap();
    assert_eq!(none, [0u8; 0]);
}

#[test]
fn vector_of_another_length_is_refused() {
    match byte_vec_to_array::<16>(vec![1, 2, 3]) {
        Err(PasspromptError::IllegalByteArrayLength { expected, actual }) => {
            assert_eq!((expected, actual), (16, 3));
        }
        other => panic!("{:?}", other),
    }
    match byte_vec_to_array::<2>(vec![1, 2, 3]) {
        Err(PasspromptError::IllegalByteArrayLength { expected, actual }) => {
            assert_eq!((expected, actual), (2, 3));
        }
        other => panic!("{:?}", other),
    }
}
