use httpcore::{HTTPResponse, StatusCode, TextMap, Version};

fn decode_chunks(wire: &[u8]) -> (Vec<usize>, Vec<u8>, usize) {
    let mut sizes = Vec::new();
    let mut body = Vec::new();
    let mut pos = 0;
    loop {
        let mut end = pos;
        while wire[end] != b'\r' {
            end += 1;
        }
        let text = std::str::from_utf8(&wire[pos..end]).unwrap();
        let n = usize::from_str_radix(text, 16).unwrap();
        assert_eq!(&wire[end..end + 2], b"\r\n");
        pos = end + 2;
        if n == 0 {
            assert_eq!(&wire[pos..pos + 2], b"\r\n");
            return (sizes, body, pos + 2);
        }
        sizes.push(n);
        body.extend_from_slice(&wire[pos..pos + n]);
        assert_eq!(&wire[pos + n..pos + n + 2], b"\r\n");
        pos += n + 2;
    }
}

fn split_head(wire: &[u8]) -> (String, &[u8]) {
    let i = wire.windows(2).position(|w| w == b"\n\n").unwrap();
    (String::from_utf8(wire[..i].to_vec()).unwrap(), &wire[i + 2..])
}

#[test]
fn large_body_decodes_in_bounded_chunks() {
    let data: Vec<u8> = (0..10_000u32).map(|i| (i % 251) as u8).collect();
    let response = HTTPResponse {
        version: Version::V11,
        status_code: StatusCode::CODE200,
        headers: TextMap::new(),
        body: Some(data.clone()),
    };
    let wire = response.to_wire();
    let (head, rest) = split_head(&wire);
    assert_eq!(head, "HTTP/1.1 200 OK\nTransfer-Encoding: chunked");
    let (sizes, body, used) = decode_chunks(rest);
    assert_eq!(sizes, vec![4096, 4096, 1808]);
    assert_eq!(body, data);
    assert_eq!(used, rest.len());
    assert!(rest.starts_with(b"1000\r\n"));
}

#[test]
fn empty_body_is_only_the_last_chunk() {
    let mut headers = TextMap::new();
    headers.insert("Transfer-Encoding".to_string(), "gzip".to_string());
    let response = HTTPResponse {
        version: Version::V10,
        status_code: StatusCode::CODE204,
        headers,
        body: None,
    };
    let wire = response.to_wire();
    assert_eq!(
        wire,
        b"HTTP/1.0 204 No Content\nTransfer-Encoding: chunked\n\n0\r\n\r\n".to_vec()
    );
}

#[test]
fn short_body_uses_upper_case_hex() {
    let mut headers = TextMap::new();
    headers.insert("Content-Type".to_string(), "text/plain".to_string());
    let response = HTTPResponse {
        version: Version::V11,
        status_code: StatusCode::CODE404,
        headers,
        body: Some(vec![b'z'; 255]),
    };
    assert_eq!(
        response.to_string(),
        "HTTP/1.1 404 Not Found\nContent-Type: text/plain"
    );
    let wire = response.to_wire();
    let mut expected =
        b"HTTP/1.1 404 Not Found\nContent-Type: text/plain\nTransfer-Encoding: chunked\n\nFF\r\n"
            .to_vec();
    expected.extend(vec![b'z'; 255]);
    expected.extend_from_slice(b"\r\n0\r\n\r\n");
    assert_eq!(wire, expected);
}

#[test]
fn empty_body_vector_sends_no_chunk() {
    let response = HTTPResponse {
        version: Version::V11,
        status_code: StatusCode::CODE200,
        headers: TextMap::new(),
        body: Some(Vec::new()),
    };
    let wire = response.to_wire();
    assert!(wire.ends_with(b"chunked\n\n0\r\n\r\n"));
}
