use dstorage::bits::{bits_to_u8, BitsError};
use dstorage::paths::{clean_file_path, dictionary_path, encoded_text_path};

#[test]
fn eight_bits_make_a_byte() {
    assert_eq!(bits_to_u8(&[1, 0, 0, 0, 0, 0, 0, 1]), Ok(129));
    assert_eq!(bits_to_u8(&[0, 0, 0, 0, 0, 0, 0, 0]), Ok(0));
    assert_eq!(bits_to_u8(&[1, 1, 1, 1, 1, 1, 1, 1]), Ok(255));
    assert_eq!(bits_to_u8(&[0, 0, 0, 0, 0, 1, 1, 0]), Ok(6));
    assert_eq!(bits_to_u8(&[0, 1, 0, 0, 0, 0, 0, 0]), Ok(64));
}

#[test]
fn other_lengths_are_refused() {
    assert_eq!(bits_to_u8(&[]), Err(BitsError::WrongLength));
    assert_eq!(bits_to_u8(&[1, 0, 1]), Err(BitsError::WrongLength));
    assert_eq!(bits_to_u8(&[1, 0, 1, 0, 1, 0, 1, 0, 1]), Err(BitsError::WrongLength));
    assert_eq!(bits_to_u8(&[2, 0, 1]), Err(BitsError::WrongLength));
}

#[test]
fn other_values_than_bits_are_refused() {
    assert_eq!(bits_to_u8(&[1, 0, 2, 0, 0, 0, 0, 1]), Err(BitsError::InvalidBit));
    assert_eq!(bits_to_u8(&[0, 0, 0, 0, 0, 0, 0, 255]), Err(BitsError::InvalidBit));
}

#[test]
fn backslashes_leave_a_path() {
    assert_eq!(clean_file_path("my\\ file\\ name.txt"), "my file name.txt");
    assert_eq!(clean_file_path("\\\\"), "");
    assert_eq!(clean_file_path("plain/path.txt"), "plain/path.txt");
    assert_eq!(clean_file_path(""), "");
}

#[test]
fn artifacts_live_under_the_peer() {
    assert_eq!(dictionary_path("10.0.0.7", "notes"), "10.0.0.7/notes_dictionary.txt");
    assert_eq!(encoded_text_path("10.0.0.7", "notes"), "10.0.0.7/notes_encoded_text.txt");
}
