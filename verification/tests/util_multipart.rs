use ferrite_nn::multipart::parse_disposition_name;
use ferrite_nn::{extract_all_text_fields, extract_boundary, extract_text_field,
    extract_upload_filename, find_subsequence, multipart_extract_file,
    multipart_extract_file_by_name, split_on};

fn sample_body(boundary: &str) -> Vec<u8> {
    let mut body = Vec::new();
    let d = format!("--{}", boundary);
    body.extend_from_slice(d.as_bytes());
    body.extend_from_slice(
        b"\r\nContent-Disposition: form-data; name=\"val_split\"\r\n\r\n20\r\n",
    );
    body.extend_from_slice(d.as_bytes());
    body.extend_from_slice(
        b"\r\nContent-Disposition: form-data; name=\"file\"; filename=\"data.csv\"\r\nContent-Type: text/csv\r\n\r\n1,2,0\r\n3,4,1\r\n",
    );
    body.extend_from_slice(d.as_bytes());
    body.extend_from_slice(b"\r\nContent-Disposition: form-data; name=\"mode\"\r\n\r\nclass\r\n");
    body.extend_from_slice(d.as_bytes());
    body.extend_from_slice(b"--\r\n");
    body
}

#[test]
fn find_subsequence_finds_first_occurrence() {
    assert_eq!(find_subsequence(b"abcabc", b"bc"), Some(1));
    assert_eq!(find_subsequence(b"abcabc", b"cab"), Some(2));
    assert_eq!(find_subsequence(b"abc", b"x"), None);
    assert_eq!(find_subsequence(b"abc", b""), Some(0));
    assert_eq!(find_subsequence(b"ab", b"abc"), None);
}

#[test]
fn split_on_cuts_between_occurrences() {
    let parts = split_on(b"a--b--c", b"--");
    let views: Vec<&[u8]> = vec![b"a", b"b", b"c"];
    assert_eq!(parts, views);
    let parts2 = split_on(b"--x--", b"--");
    let views2: Vec<&[u8]> = vec![b"", b"x", b""];
    assert_eq!(parts2, views2);
    let parts3 = split_on(b"", b"--");
    let views3: Vec<&[u8]> = vec![b""];
    assert_eq!(parts3, views3);
}

#[test]
fn extract_boundary_reads_content_type() {
    assert_eq!(
        extract_boundary("multipart/form-data; boundary=----WebKitFormBoundaryX7"),
        Some("----WebKitFormBoundaryX7".to_string())
    );
    assert_eq!(
        extract_boundary("multipart/form-data;boundary=\"quoted\""),
        Some("quoted".to_string())
    );
    assert_eq!(extract_boundary("text/html; charset=utf-8"), None);
}

#[test]
fn extract_file_finds_the_first_file_part() {
    let body = sample_body("BND");
    let file = multipart_extract_file(&body, "BND").expect("file part present");
    assert_eq!(file, b"1,2,0\r\n3,4,1".to_vec());
}

#[test]
fn extract_file_matches_filename_case_insensitively() {
    let body = b"--B\r\nContent-Disposition: form-data; name=\"f\"; FILENAME=\"x.bin\"\r\n\r\npayload\r\n--B--\r\n".to_vec();
    let file = multipart_extract_file(&body, "B").expect("file part present");
    assert_eq!(file, b"payload".to_vec());
}

#[test]
fn extract_file_returns_none_without_file_part() {
    let body = b"--B\r\nContent-Disposition: form-data; name=\"a\"\r\n\r\n1\r\n--B--\r\n".to_vec();
    assert_eq!(multipart_extract_file(&body, "B"), None);
}

#[test]
fn extract_text_field_skips_file_parts() {
    let body = sample_body("BND");
    assert_eq!(extract_text_field(&body, "BND", "val_split"), Some("20".to_string()));
    assert_eq!(extract_text_field(&body, "BND", "mode"), Some("class".to_string()));
    assert_eq!(extract_text_field(&body, "BND", "file"), None);
    assert_eq!(extract_text_field(&body, "BND", "absent"), None);
}

#[test]
fn extract_all_text_fields_keeps_order() {
    let body = sample_body("BND");
    let fields = extract_all_text_fields(&body, "BND");
    assert_eq!(
        fields,
        vec![
            ("val_split".to_string(), "20".to_string()),
            ("mode".to_string(), "class".to_string()),
        ]
    );
}

#[test]
fn extract_file_by_name_picks_the_named_part() {
    let body = sample_body("BND");
    let file = multipart_extract_file_by_name(&body, "BND", "file").expect("named file");
    assert_eq!(file, b"1,2,0\r\n3,4,1".to_vec());
    assert_eq!(multipart_extract_file_by_name(&body, "BND", "val_split"), None);
}

#[test]
fn parse_disposition_name_reads_quoted_value() {
    assert_eq!(
        parse_disposition_name(b"Content-Disposition: form-data; name=\"epochs\""),
        Some("epochs".to_string())
    );
    assert_eq!(parse_disposition_name(b"Content-Type: text/plain"), None);
}

#[test]
fn extract_upload_filename_reads_first_file_part() {
    let body = sample_body("BND");
    assert_eq!(extract_upload_filename(&body, "BND"), Some("data.csv".to_string()));
    let body2 = b"--B\r\nContent-Disposition: form-data; name=\"f\"\r\n\r\n{}\r\n--B--\r\n".to_vec();
    assert_eq!(extract_upload_filename(&body2, "B"), None);
}

#[test]
fn text_field_with_invalid_utf8_is_dropped() {
    let mut body = Vec::new();
    body.extend_from_slice(b"--B\r\nContent-Disposition: form-data; name=\"blob\"\r\n\r\n");
    body.extend_from_slice(&[0xff, 0xfe, 0x41]);
    body.extend_from_slice(b"\r\n--B--\r\n");
    assert_eq!(extract_text_field(&body, "B", "blob"), None);
    assert_eq!(extract_all_text_fields(&body, "B"), Vec::<(String, String)>::new());
}
