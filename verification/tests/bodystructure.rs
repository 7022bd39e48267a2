use orbitmail::bodystructure::{
    assemble_payload, body_fetch_query, find_best_part, section_path_string, BodyNode, FetchedBody,
    STRUCTURE_QUERY, WHOLE_QUERY,
};

fn text(subtype: &str) -> BodyNode {
    BodyNode::Text { subtype: subtype.to_string() }
}

fn multi(bodies: Vec<BodyNode>) -> BodyNode {
    BodyNode::Multipart { bodies }
}

fn nothing() -> FetchedBody {
    FetchedBody { header: None, text: None, body: None, part_mime: None, part: None }
}

#[test]
fn html_is_preferred_to_plain_text() {
    let alt = multi(vec![text("plain"), text("html")]);
    assert_eq!(find_best_part(&alt, &Vec::new()), Some(vec![2]));
    let html_first = multi(vec![text("html"), text("plain")]);
    assert_eq!(find_best_part(&html_first, &Vec::new()), Some(vec![1]));
    let reversed = multi(vec![text("HTML"), text("Plain"), text("calendar")]);
    assert_eq!(find_best_part(&reversed, &Vec::new()), Some(vec![1]));
    let deep = multi(vec![multi(vec![text("html"), text("plain")]), text("plain")]);
    assert_eq!(find_best_part(&deep, &Vec::new()), Some(vec![1, 1]));
}

#[test]
fn last_part_of_a_kind_wins() {
    let two_html = multi(vec![text("html"), text("plain"), text("html"), text("plain")]);
    assert_eq!(find_best_part(&two_html, &Vec::new()), Some(vec![3]));
    let only_plain = multi(vec![text("plain"), BodyNode::Other, text("plain"), text("rtf")]);
    assert_eq!(find_best_part(&only_plain, &Vec::new()), Some(vec![3]));
}

#[test]
fn nested_parts_get_dotted_paths() {
    let mixed = multi(vec![
        multi(vec![text("plain"), multi(vec![text("html"), BodyNode::Other])]),
        BodyNode::Other,
    ]);
    let path = find_best_part(&mixed, &Vec::new()).unwrap();
    assert_eq!(path, vec![1, 2, 1]);
    assert_eq!(section_path_string(&path), "1.2.1");
    assert_eq!(find_best_part(&mixed, &vec![4]), Some(vec![4, 1, 2, 1]));
}

#[test]
fn structure_without_text_has_no_part() {
    assert_eq!(find_best_part(&BodyNode::Other, &Vec::new()), None);
    assert_eq!(find_best_part(&multi(Vec::new()), &Vec::new()), None);
    assert_eq!(find_best_part(&multi(vec![BodyNode::Other, text("rtf")]), &Vec::new()), None);
}

#[test]
fn single_text_message_is_its_own_part() {
    assert_eq!(find_best_part(&text("html"), &Vec::new()), Some(Vec::new()));
    assert_eq!(find_best_part(&text("plain"), &vec![3]), Some(vec![3]));
    assert_eq!(find_best_part(&text("enriched"), &Vec::new()), None);
}

#[test]
fn query_names_the_part_and_its_mime_headers() {
    assert_eq!(body_fetch_query(&Some(vec![1, 2])), "(BODY.PEEK[1.2.MIME] BODY.PEEK[1.2])");
    assert_eq!(body_fetch_query(&Some(vec![3])), "(BODY.PEEK[3.MIME] BODY.PEEK[3])");
    assert_eq!(body_fetch_query(&Some(Vec::new())), "(BODY.PEEK[TEXT] BODY.PEEK[HEADER])");
    assert_eq!(body_fetch_query(&None), "(BODY.PEEK[TEXT] BODY.PEEK[HEADER])");
    assert_eq!(WHOLE_QUERY, "(BODY.PEEK[TEXT] BODY.PEEK[HEADER])");
    assert_eq!(STRUCTURE_QUERY, "(BODYSTRUCTURE)");
    assert_eq!(section_path_string(&Vec::new()), "");
    assert_eq!(section_path_string(&vec![10, 0, 7]), "10.0.7");
}

#[test]
fn payload_of_a_chosen_part_is_mime_headers_then_part() {
    let mut f = nothing();
    f.part_mime = Some(b"Content-Type: text/html\r\n\r\n".to_vec());
    f.part = Some(b"<p>x</p>".to_vec());
    f.header = Some(b"ignored".to_vec());
    assert_eq!(
        assemble_payload(&Some(vec![1]), &f),
        b"Content-Type: text/html\r\n\r\n<p>x</p>".to_vec()
    );
    f.text = Some(b"TAIL".to_vec());
    assert_eq!(
        assemble_payload(&Some(vec![1]), &f),
        b"Content-Type: text/html\r\n\r\n<p>x</p>TAIL".to_vec()
    );
}

#[test]
fn payload_without_a_part_is_header_then_text() {
    let mut f = nothing();
    f.header = Some(b"Subject: s\r\n\r\n".to_vec());
    f.text = Some(b"hello".to_vec());
    f.part = Some(b"ignored".to_vec());
    assert_eq!(assemble_payload(&None, &f), b"Subject: s\r\n\r\nhello".to_vec());
    assert_eq!(assemble_payload(&Some(Vec::new()), &f), b"Subject: s\r\n\r\nhello".to_vec());
}

#[test]
fn whole_message_stands_in_for_an_empty_payload() {
    let mut f = nothing();
    f.body = Some(b"whole".to_vec());
    assert_eq!(assemble_payload(&Some(vec![2]), &f), b"whole".to_vec());
    assert_eq!(assemble_payload(&None, &f), b"whole".to_vec());
    f.part = Some(Vec::new());
    assert_eq!(assemble_payload(&Some(vec![2]), &f), b"whole".to_vec());
    assert_eq!(assemble_payload(&None, &nothing()), Vec::<u8>::new());
}
