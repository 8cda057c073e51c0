use deboa::form::{DeboaForm, EncodedForm, FieldSource, MultiPartForm};

#[test]
fn test_encoded_form() {
    let form = EncodedForm::builder().field("name", "deboa").field("version", "0.0.1");
    let form = form.build();
    assert_eq!(form.to_vec(), b"name=deboa&version=0.0.1");
}

#[test]
fn test_encoded_form_encodes_values() {
    let form = EncodedForm::builder().field("q", "a b&c/é~").field("q", "x y").field("n", "1");
    assert_eq!(form.build(), b"q=x%20y&n=1".to_vec());
    let form = EncodedForm::builder().field("q", "a b&c/é~");
    assert_eq!(form.build(), b"q=a%20b%26c%2F%C3%A9~".to_vec());
}

#[test]
fn test_multipart_form() {
    let builder = MultiPartForm::builder().field("name", "deboa").field("version", "0.0.1");
    let boundary = builder.boundary();
    let form = builder.build_from(&vec![FieldSource::Text, FieldSource::Text]).unwrap();
    assert_eq!(form.to_vec(), format!("--{}\r\nContent-Disposition: form-data; name=\"name\"\r\n\r\ndeboa\r\n--{}\r\nContent-Disposition: form-data; name=\"version\"\r\n\r\n0.0.1\r\n--{}--\r\n", boundary, boundary, boundary).as_bytes());
}

#[test]
fn test_multipart_boundary_shape() {
    let boundary = MultiPartForm::builder().boundary();
    assert!(boundary.starts_with("DeboaFormBdry"));
    assert_eq!(boundary.len(), "DeboaFormBdry".len() + 10);
    assert!(boundary["DeboaFormBdry".len()..].chars().all(|c| c.is_ascii_alphanumeric()));
}

#[test]
fn test_encoded_form_content_type() {
    let form = EncodedForm::builder().field("name", "deboa").field("version", "0.0.1");
    assert_eq!(form.content_type(), "application/x-www-form-urlencoded");
}

#[test]
fn test_multipart_form_content_type() {
    let form = MultiPartForm::builder().field("name", "deboa").field("version", "0.0.1");
    assert_eq!(form.content_type(), "multipart/form-data; boundary=".to_string() + &form.boundary());
}

#[test]
fn test_multipart_form_with_file() {
    let builder = MultiPartForm::builder()
        .field("name", "deboa")
        .field("version", "0.0.1")
        .file("file", "/tmp/test.txt");
    let boundary = builder.boundary();
    let sources = vec![FieldSource::Text, FieldSource::Text, FieldSource::File(Some(b"Hello World!".to_vec()))];
    let form = builder.build_from(&sources).unwrap();

    let mut chunk = format!("--{}\r\nContent-Disposition: form-data; name=\"name\"\r\n\r\ndeboa\r\n--{}\r\nContent-Disposition: form-data; name=\"version\"\r\n\r\n0.0.1\r\n--{}\r\nContent-Disposition: form-data; name=\"file\"; filename=\"test.txt\"\r\nContent-Type: text/plain\r\n\r\n", boundary, boundary, boundary).as_bytes().to_vec();
    chunk.extend_from_slice(b"Hello World!");
    chunk.extend_from_slice(format!("\r\n--{}--\r\n", boundary).as_bytes());
    assert_eq!(form.to_vec(), chunk);
}

#[test]
fn test_multipart_form_unknown_file_type_gives_empty_part() {
    let builder = MultiPartForm::builder().file("blob", "/tmp/data.unknownext");
    let boundary = builder.boundary();
    let form = builder.build_from(&vec![FieldSource::File(Some(b"x".to_vec()))]).unwrap();
    assert_eq!(form, format!("--{}\r\n--{}--\r\n", boundary, boundary).into_bytes());
}

#[test]
fn test_multipart_form_unreadable_file() {
    let builder = MultiPartForm::builder().file("file", "/tmp/missing.txt");
    assert!(builder.build_from(&vec![FieldSource::File(None)]).is_err());
}

#[test]
fn test_field_replaced_in_place() {
    let form = MultiPartForm::builder().field("a", "1").field("b", "2").field("a", "3");
    let boundary = form.boundary();
    let body = form.build_from(&vec![FieldSource::Text, FieldSource::Text]).unwrap();
    let text = String::from_utf8(body).unwrap();
    assert!(text.find("name=\"a\"\r\n\r\n3").unwrap() < text.find("name=\"b\"").unwrap());
    assert!(text.ends_with(&format!("--{}--\r\n", boundary)));
}
