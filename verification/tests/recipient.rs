use dkim_witness::error::{HeaderName, PipelineError};
use dkim_witness::headers::HeaderField;
use dkim_witness::recipient::{get_padded_recipient_local, pad_to, padded_local_part};

fn field(name: &str, value: &str) -> HeaderField {
    HeaderField { name: name.to_string(), value: value.to_string() }
}

#[test]
fn recipient_local_part_is_padded_with_zero_bytes() {
    let (padded, length) = padded_local_part("alice@example.com", 64).unwrap();
    assert_eq!(length, 5);
    assert_eq!(padded.len(), 64);
    assert_eq!(&padded[..5], b"alice");
    assert!(padded[5..].iter().all(|b| *b == 0));
}

#[test]
fn recipient_without_at_sign_is_rejected() {
    assert_eq!(padded_local_part("alice.example.com", 64), Err(PipelineError::AddressFormatError));
    assert_eq!(padded_local_part("", 64), Err(PipelineError::AddressFormatError));
}

#[test]
fn recipient_without_local_part_is_rejected() {
    assert_eq!(padded_local_part("@example.com", 64), Err(PipelineError::AddressFormatError));
}

#[test]
fn recipient_local_part_ends_at_the_first_at_sign() {
    let (padded, length) = padded_local_part("a@b@c", 4).unwrap();
    assert_eq!(length, 1);
    assert_eq!(padded, vec![b'a', 0, 0, 0]);
}

#[test]
fn recipient_local_part_longer_than_the_maximum_is_cut() {
    let (padded, length) = padded_local_part("abcdefgh@example.com", 4).unwrap();
    assert_eq!(length, 8);
    assert_eq!(padded, b"abcd".to_vec());
}

#[test]
fn recipient_local_part_counts_bytes_of_utf8() {
    let (padded, length) = padded_local_part("zo\u{e9}@example.com", 6).unwrap();
    assert_eq!(length, 4);
    assert_eq!(padded, vec![b'z', b'o', 0xC3, 0xA9, 0, 0]);
}

#[test]
fn recipient_maximum_of_zero_gives_no_bytes() {
    let (padded, length) = padded_local_part("bob@example.com", 0).unwrap();
    assert_eq!(length, 3);
    assert!(padded.is_empty());
}

#[test]
fn pad_to_cuts_and_fills() {
    assert_eq!(pad_to(&vec![1, 2, 3], 5), vec![1, 2, 3, 0, 0]);
    assert_eq!(pad_to(&vec![1, 2, 3], 2), vec![1, 2]);
    assert_eq!(pad_to(&vec![1, 2, 3], 3), vec![1, 2, 3]);
}

#[test]
fn recipient_is_taken_from_the_to_field() {
    let fields = vec![field("From", "bob@example.org"), field("To", "alice@example.com")];
    let (padded, length) = get_padded_recipient_local(&fields, 8).unwrap();
    assert_eq!(length, 5);
    assert_eq!(padded, b"alice\0\0\0".to_vec());
}

#[test]
fn recipient_missing_to_field_is_reported() {
    let fields = vec![field("From", "bob@example.org")];
    assert_eq!(
        get_padded_recipient_local(&fields, 8),
        Err(PipelineError::MissingHeader { name: HeaderName::To })
    );
}

#[test]
fn recipient_malformed_to_field_is_reported() {
    let fields = vec![field("to", "undisclosed recipients")];
    assert_eq!(get_padded_recipient_local(&fields, 8), Err(PipelineError::AddressFormatError));
}
