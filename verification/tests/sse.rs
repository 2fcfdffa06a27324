use arctern::sse::take_sse_payloads;

#[test]
fn complete_data_lines_give_their_payloads() {
    let mut buf = String::from("id: 5\ndata: {\"a\":1}\n\n: keep-alive\n\ndata: x\r\nda");
    let got = take_sse_payloads(&mut buf);
    assert_eq!(got, vec!["{\"a\":1}".to_string(), "x".to_string()]);
    assert_eq!(buf, "da");
}

#[test]
fn an_incomplete_line_waits_for_the_next_chunk() {
    let mut buf = String::from("data: hal");
    assert!(take_sse_payloads(&mut buf).is_empty());
    assert_eq!(buf, "data: hal");
    buf.push_str("f  \n");
    assert_eq!(take_sse_payloads(&mut buf), vec!["half".to_string()]);
    assert_eq!(buf, "");
}

#[test]
fn only_the_data_field_with_its_space_counts() {
    let mut buf = String::from("data:x\nevent: log\n data: y\ndata: \ndata:  z\n");
    assert_eq!(take_sse_payloads(&mut buf), vec![" z".to_string()]);
    assert_eq!(buf, "");
    let mut empty = String::new();
    assert!(take_sse_payloads(&mut empty).is_empty());
}
