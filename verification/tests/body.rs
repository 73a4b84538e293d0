use dkim_witness::body::fix_body_newlines;

fn canonical(body: &[u8]) -> Vec<u8> {
    let mut bytes = body.to_vec();
    fix_body_newlines(&mut bytes);
    bytes
}

#[test]
fn body_bare_line_feeds_fixed_and_blank_lines_collapsed() {
    assert_eq!(canonical(b"a\nb\n\n\n"), b"a\r\nb\r\n".to_vec());
}

#[test]
fn body_empty_becomes_one_crlf() {
    assert_eq!(canonical(b""), b"\r\n".to_vec());
}

#[test]
fn body_of_line_breaks_only_becomes_one_crlf() {
    assert_eq!(canonical(b"\n\n"), b"\r\n".to_vec());
    assert_eq!(canonical(b"\r\n\r\n\r\n"), b"\r\n".to_vec());
}

#[test]
fn body_of_one_byte_gets_its_terminator() {
    assert_eq!(canonical(b"a"), b"a\r\n".to_vec());
    assert_eq!(canonical(b"a\n"), b"a\r\n".to_vec());
    assert_eq!(canonical(b"a\r\n"), b"a\r\n".to_vec());
}

#[test]
fn body_crlf_is_kept_as_it_is() {
    assert_eq!(canonical(b"a\r\nb"), b"a\r\nb\r\n".to_vec());
}

#[test]
fn body_line_feed_at_the_start_gets_a_carriage_return() {
    assert_eq!(canonical(b"\nabc"), b"\r\nabc\r\n".to_vec());
}

#[test]
fn body_lone_carriage_return_is_content() {
    assert_eq!(canonical(b"a\rb"), b"a\rb\r\n".to_vec());
    assert_eq!(canonical(b"a\r"), b"a\r\r\n".to_vec());
    assert_eq!(canonical(b"a\r\r\n"), b"a\r\r\n".to_vec());
}

#[test]
fn body_inner_blank_lines_stay() {
    assert_eq!(canonical(b"a\n\n\nb\n"), b"a\r\n\r\n\r\nb\r\n".to_vec());
}

#[test]
fn body_canonicalization_is_idempotent() {
    let samples: [&[u8]; 8] = [
        b"",
        b"a",
        b"a\nb\n\n\n",
        b"\n\n",
        b"a\r",
        b"\r\n\r\nx\r\n\r\n",
        b"line one\nline two\r\n\nlast",
        b"\r\r\n\n\r",
    ];
    for sample in samples {
        let once = canonical(sample);
        let twice = canonical(&once);
        assert_eq!(once, twice);
    }
}

#[test]
fn body_canonical_form_has_no_bare_line_feed_and_one_terminator() {
    let samples: [&[u8]; 5] = [b"", b"a\nb\n\n\n", b"\n", b"x\n\ny\n\n", b"\r\n\n\r\n"];
    for sample in samples {
        let out = canonical(sample);
        assert!(out.ends_with(b"\r\n"));
        assert!(!out[..out.len() - 2].ends_with(b"\r\n"));
        for i in 0..out.len() {
            if out[i] == b'\n' {
                assert!(i > 0 && out[i - 1] == b'\r');
            }
        }
    }
}
