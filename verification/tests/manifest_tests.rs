use asset_extractor::manifest::{
    decode_compressed_list, delimited_records_from_bytes, newline_list_from_bytes,
    parse_delimited_records, parse_newline_list, ManifestFetchError,
};
use std::io::Write;

fn gzip(data: &[u8]) -> Vec<u8> {
    let mut encoder =
        flate2::write::GzEncoder::new(Vec::new(), flate2::Compression::default());
    encoder.write_all(data).unwrap();
    encoder.finish().unwrap()
}

#[test]
fn newline_list_entries_are_trimmed() {
    assert_eq!(
        parse_newline_list("a.txt\n  b.txt  \n"),
        vec!["a.txt".to_string(), "b.txt".to_string()]
    );
}

#[test]
fn newline_list_of_empty_text_is_empty() {
    assert_eq!(parse_newline_list(""), Vec::<String>::new());
    assert_eq!(parse_newline_list("\n\n \t \n"), Vec::<String>::new());
}

#[test]
fn newline_list_keeps_order_and_duplicates() {
    assert_eq!(
        parse_newline_list("b\na\nb\r\n\nc"),
        vec!["b".to_string(), "a".to_string(), "b".to_string(), "c".to_string()]
    );
}

#[test]
fn newline_list_keeps_inner_whitespace() {
    assert_eq!(
        parse_newline_list("\u{3000}ui/icon 1.tex\u{a0}\n"),
        vec!["ui/icon 1.tex".to_string()]
    );
}

#[test]
fn delimited_record_yields_third_field() {
    assert_eq!(
        parse_delimited_records("id,name,real/path/file.tex,more,fields"),
        Ok(vec!["real/path/file.tex".to_string()])
    );
}

#[test]
fn delimited_records_accept_exactly_three_fields() {
    assert_eq!(
        parse_delimited_records("1,a,x/y.dat\n2,b,z.dat\n"),
        Ok(vec!["x/y.dat".to_string(), "z.dat".to_string()])
    );
}

#[test]
fn delimited_records_drop_carriage_returns_and_blank_lines() {
    assert_eq!(
        parse_delimited_records("1,a,x/y.dat\r\n\r\n\n2,b,z.dat\r\n"),
        Ok(vec!["x/y.dat".to_string(), "z.dat".to_string()])
    );
}

#[test]
fn delimited_records_keep_empty_third_field() {
    assert_eq!(
        parse_delimited_records("1,a,\n2,b,,c"),
        Ok(vec!["".to_string(), "".to_string()])
    );
}

#[test]
fn delimited_record_with_two_fields_is_malformed() {
    assert_eq!(
        parse_delimited_records("1,a,x\n\n2,b\n3,c,y"),
        Err(ManifestFetchError::MalformedRecord { record: 2 })
    );
    assert_eq!(
        parse_delimited_records("only"),
        Err(ManifestFetchError::MalformedRecord { record: 0 })
    );
}

#[test]
fn first_malformed_record_is_reported() {
    assert_eq!(
        parse_delimited_records("1,a,x\n2\n3\n"),
        Err(ManifestFetchError::MalformedRecord { record: 1 })
    );
}

#[test]
fn bytes_that_are_not_utf8_fail_to_decode() {
    assert_eq!(newline_list_from_bytes(&[b'a', 0xff, b'\n']), Err(ManifestFetchError::Decode));
    assert_eq!(
        delimited_records_from_bytes(&[b'1', b',', 0xc3, b',', b'x']),
        Err(ManifestFetchError::Decode)
    );
}

#[test]
fn bytes_of_a_list_are_decoded() {
    assert_eq!(
        newline_list_from_bytes("chara/é.mdl\n".as_bytes()),
        Ok(vec!["chara/é.mdl".to_string()])
    );
    assert_eq!(
        delimited_records_from_bytes("7,n,chara/é.mdl\n".as_bytes()),
        Ok(vec!["chara/é.mdl".to_string()])
    );
}

#[test]
fn compressed_list_is_inflated_and_parsed() {
    let body = gzip(b"a/b.txt\n c.txt \n\n");
    assert_eq!(
        decode_compressed_list(&body),
        Ok(vec!["a/b.txt".to_string(), "c.txt".to_string()])
    );
}

#[test]
fn uncompressed_body_fails_to_decode() {
    assert_eq!(decode_compressed_list(b"a/b.txt\nc.txt\n"), Err(ManifestFetchError::Decode));
    assert_eq!(decode_compressed_list(b""), Err(ManifestFetchError::Decode));
}

#[test]
fn truncated_compressed_body_fails_to_decode() {
    let body = gzip(b"a/b.txt\nc.txt\n");
    assert_eq!(
        decode_compressed_list(&body[..body.len() - 6]),
        Err(ManifestFetchError::Decode)
    );
}

#[test]
fn compressed_body_that_is_not_text_fails_to_decode() {
    let body = gzip(&[0xff, 0xfe, b'\n']);
    assert_eq!(decode_compressed_list(&body), Err(ManifestFetchError::Decode));
}
