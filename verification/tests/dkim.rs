use dkim_witness::dkim::{
    decode_signature, extract_dkim_signature, parse_dkim_header, read_algorithm,
    read_canonicalizations, signature_from_decoding, Canonicalization, HashAlgorithm,
};
use dkim_witness::error::PipelineError;
use dkim_witness::tags::{
    check_tag_list, clean_dkim_signature, find_tag, remove_spaces, trim_bounds,
};

fn chars(text: &str) -> Vec<char> {
    text.chars().collect()
}

fn tag(text: &str, name: &str) -> Option<String> {
    find_tag(&chars(text), &chars(name)).map(|v| v.into_iter().collect())
}

const SAMPLE: &str = "v=1; a=rsa-sha256; c=relaxed/relaxed; d=example.org; s=demo2023;\n\tt=1698321020; h=from:to:subject;\n\tbh=2jUSOH9NhtVGCQWNr9BrIAPreKQjO6Sn7XIkfJVOzv8=;\n\tb=aGVs\n\t bG8g\r\n d29y bGQ=";

#[test]
fn dkim_fields_are_read_from_the_tag_list() {
    let fields = parse_dkim_header(SAMPLE).unwrap();
    assert_eq!(fields.selector, "demo2023");
    assert_eq!(fields.domain, "example.org");
    assert_eq!(fields.header_canon, Canonicalization::Relaxed);
    assert_eq!(fields.body_canon, Canonicalization::Relaxed);
    assert_eq!(fields.hash_algo, HashAlgorithm::Sha256);
    assert_eq!(fields.declared_body_hash, "2jUSOH9NhtVGCQWNr9BrIAPreKQjO6Sn7XIkfJVOzv8=");
    assert_eq!(fields.signature, "aGVsbG8gd29ybGQ=");
}

#[test]
fn dkim_signature_is_decoded_from_base64() {
    let fields = parse_dkim_header(SAMPLE).unwrap();
    assert_eq!(decode_signature(&fields), Ok(b"hello world".to_vec()));
    assert_eq!(extract_dkim_signature(SAMPLE), Ok(b"hello world".to_vec()));
}

#[test]
fn dkim_signature_that_is_no_base64_is_rejected() {
    assert_eq!(
        extract_dkim_signature("s=a; d=b; b=not*base64"),
        Err(PipelineError::MalformedDkimHeader)
    );
    assert_eq!(extract_dkim_signature("s=a; d=b; b=aGVsbG8"), Err(PipelineError::MalformedDkimHeader));
    let mut fields = parse_dkim_header(SAMPLE).unwrap();
    fields.signature = "a".to_string();
    assert_eq!(decode_signature(&fields), Err(PipelineError::MalformedDkimHeader));
}

#[test]
fn dkim_signature_tag_absent_is_rejected() {
    assert_eq!(extract_dkim_signature("s=a; d=b; bh=aGVsbG8="), Err(PipelineError::MalformedDkimHeader));
    assert_eq!(extract_dkim_signature(""), Err(PipelineError::MalformedDkimHeader));
}

#[test]
fn signature_from_decoding_maps_both_outcomes() {
    assert_eq!(signature_from_decoding(Some(vec![1, 2, 3])), Ok(vec![1, 2, 3]));
    assert_eq!(signature_from_decoding(Some(Vec::new())), Ok(Vec::new()));
    assert_eq!(signature_from_decoding(None), Err(PipelineError::MalformedDkimHeader));
}

#[test]
fn dkim_header_without_a_needed_tag_is_rejected() {
    let complete = "a=rsa-sha256; s=sel; d=example.org; bh=aGk=; b=aGk=";
    assert!(parse_dkim_header(complete).is_ok());
    let broken = [
        "a=rsa-sha256; d=example.org; bh=aGk=; b=aGk=",
        "a=rsa-sha256; s=sel; bh=aGk=; b=aGk=",
        "a=rsa-sha256; s=sel; d=example.org; b=aGk=",
        "a=rsa-sha256; s=sel; d=example.org; bh=aGk=",
        "s=sel; d=example.org; bh=aGk=; b=aGk=",
        "",
    ];
    for value in broken {
        assert_eq!(parse_dkim_header(value).err(), Some(PipelineError::MalformedDkimHeader));
    }
}

#[test]
fn dkim_header_with_an_empty_needed_tag_is_rejected() {
    let broken = [
        "a=rsa-sha256; s=; d=example.org; bh=aGk=; b=aGk=",
        "a=rsa-sha256; s=sel; d= ; bh=aGk=; b=aGk=",
        "a=rsa-sha256; s=sel; d=example.org; bh=; b=aGk=",
        "a=rsa-sha256; s=sel; d=example.org; bh=aGk=; b= \r\n\t",
    ];
    for value in broken {
        assert_eq!(parse_dkim_header(value).err(), Some(PipelineError::MalformedDkimHeader));
    }
}

#[test]
fn dkim_header_with_a_malformed_tag_list_is_rejected() {
    let broken = [
        "a=rsa-sha256; s=sel; d=example.org; junk; bh=aGk=; b=aGk=",
        "a=rsa-sha256; s=sel; d=example.org; =x; bh=aGk=; b=aGk=",
    ];
    for value in broken {
        assert_eq!(parse_dkim_header(value).err(), Some(PipelineError::MalformedDkimHeader));
    }
}

#[test]
fn dkim_header_with_unknown_algorithm_or_canonicalization_is_rejected() {
    let broken = [
        "a=ed25519-sha256; s=sel; d=example.org; bh=aGk=; b=aGk=",
        "a=rsa-sha256; c=strict; s=sel; d=example.org; bh=aGk=; b=aGk=",
        "a=rsa-sha256; c=relaxed/; s=sel; d=example.org; bh=aGk=; b=aGk=",
        "a=rsa-sha256; c=/relaxed; s=sel; d=example.org; bh=aGk=; b=aGk=",
    ];
    for value in broken {
        assert_eq!(parse_dkim_header(value).err(), Some(PipelineError::MalformedDkimHeader));
    }
}

#[test]
fn canonicalization_tag_has_its_defaults() {
    let simple = Canonicalization::Simple;
    let relaxed = Canonicalization::Relaxed;
    assert_eq!(read_canonicalizations(&chars("s=a")), Some((simple, simple)));
    assert_eq!(read_canonicalizations(&chars("c=relaxed")), Some((relaxed, simple)));
    assert_eq!(read_canonicalizations(&chars("c=simple/relaxed")), Some((simple, relaxed)));
    assert_eq!(read_canonicalizations(&chars("c=relaxed/relaxed")), Some((relaxed, relaxed)));
    assert_eq!(read_canonicalizations(&chars("c=simple/simple")), Some((simple, simple)));
    assert_eq!(read_canonicalizations(&chars("c=Relaxed")), None);
    assert_eq!(read_canonicalizations(&chars("c=relaxed/relaxed/relaxed")), None);
}

#[test]
fn algorithm_tag_names_the_hash() {
    assert_eq!(read_algorithm(&chars("a=rsa-sha256")), Some(HashAlgorithm::Sha256));
    assert_eq!(read_algorithm(&chars("v=1; a = rsa-sha1 ; s=x")), Some(HashAlgorithm::Sha1));
    assert_eq!(read_algorithm(&chars("a=rsa-sha512")), None);
    assert_eq!(read_algorithm(&chars("s=x")), None);
}

#[test]
fn tag_values_are_taken_without_the_spaces_around_them() {
    assert_eq!(tag("v=1; s = sel ;\r\n\td=example.org", "s"), Some("sel".to_string()));
    assert_eq!(tag("v=1; s = sel ;\r\n\td=example.org", "d"), Some("example.org".to_string()));
    assert_eq!(tag("v=1; s = sel ;\r\n\td=example.org", "v"), Some("1".to_string()));
    assert_eq!(tag("v=1; s=sel", "x"), None);
    assert_eq!(tag("", "s"), None);
}

#[test]
fn tag_names_are_whole_names() {
    assert_eq!(tag("bh=hash; b=sig", "b"), Some("sig".to_string()));
    assert_eq!(tag("bh=hash; b=sig", "bh"), Some("hash".to_string()));
    assert_eq!(tag("bh=hash; b=sig", "h"), None);
    assert_eq!(tag("dns=x; d=y", "d"), Some("y".to_string()));
}

#[test]
fn tag_value_keeps_equals_signs_and_inner_spaces() {
    assert_eq!(tag("bh=abc==; b=a b\n\tc=", "bh"), Some("abc==".to_string()));
    assert_eq!(tag("bh=abc==; b=a b\n\tc=", "b"), Some("a b\n\tc=".to_string()));
}

#[test]
fn the_first_tag_of_a_name_wins() {
    assert_eq!(tag("s=one; s=two", "s"), Some("one".to_string()));
    assert_eq!(tag("s=; s=two", "s"), Some(String::new()));
}

#[test]
fn tag_lists_are_checked_for_their_form() {
    assert!(check_tag_list(&chars("")));
    assert!(check_tag_list(&chars("a=b")));
    assert!(check_tag_list(&chars("a=b;")));
    assert!(check_tag_list(&chars("a=b; ;\r\n c=d ; ")));
    assert!(check_tag_list(&chars("a=")));
    assert!(!check_tag_list(&chars("a")));
    assert!(!check_tag_list(&chars("a=b; c")));
    assert!(!check_tag_list(&chars("=b")));
    assert!(!check_tag_list(&chars("a=b;  =c")));
}

#[test]
fn spaces_are_trimmed_at_both_ends() {
    let text = chars("  \ta b\r\n ");
    assert_eq!(trim_bounds(&text, 0, text.len()), (3, 6));
    assert_eq!(trim_bounds(&text, 4, 5), (5, 5));
    let blank = chars(" \t\r\n");
    let (lo, hi) = trim_bounds(&blank, 0, blank.len());
    assert_eq!(lo, hi);
}

#[test]
fn cleaning_a_signature_removes_folding() {
    assert_eq!(clean_dkim_signature("ab cd\r\n\tef\ngh "), "abcdefgh");
    assert_eq!(clean_dkim_signature(""), "");
    assert_eq!(clean_dkim_signature(" \t\r\n"), "");
    assert_eq!(clean_dkim_signature("a+/=b"), "a+/=b");
    assert_eq!(remove_spaces(&chars(" x y ")), chars("xy"));
}
