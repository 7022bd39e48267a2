use orbitmail::message::{
    clone_header, get_inbox_messages, has_flag, header_from_root, listed_message,
    parse_header_to_message, recent_uids, snippet_of, sort_by_uid_desc, sort_desc, uid_set_string,
    FetchedMessage, ListError, MessageFlag, MessageHeader,
};
use orbitmail::mime::{MimeHeader, MimePart};

fn response(uid: Option<u32>, header: Option<&str>) -> FetchedMessage {
    FetchedMessage {
        uid,
        flags: vec![MessageFlag::Recent, MessageFlag::Flagged],
        header: header.map(|h| h.as_bytes().to_vec()),
        body: None,
        text: None,
    }
}

fn bare(uid: u32) -> MessageHeader {
    MessageHeader {
        folder: "INBOX".to_string(),
        uid,
        uid_validity: 1,
        subject: format!("s{}", uid),
        from: String::new(),
        date: 0,
        seen: false,
        flagged: false,
        has_attachments: false,
        thread_id: None,
        snippet: None,
    }
}

#[test]
fn header_block_is_read_into_a_header() {
    let raw = "Subject: Hello\r\nFrom: Alice <alice@example.com>\r\nDate: Tue, 1 Jul 2003 10:52:37 +0200\r\n\r\n";
    let h = parse_header_to_message(&response(Some(12), Some(raw)), 55).unwrap();
    assert_eq!(h.folder, "INBOX");
    assert_eq!(h.uid, 12);
    assert_eq!(h.uid_validity, 55);
    assert_eq!(h.subject, "Hello");
    assert_eq!(h.from, "Alice <alice@example.com>");
    assert_eq!(h.date, 1057049557);
    assert!(!h.seen);
    assert!(h.flagged);
    assert!(!h.has_attachments);
    assert_eq!(h.thread_id, None);
    assert_eq!(h.snippet, None);
}

#[test]
fn header_names_are_matched_without_regard_to_case() {
    let raw = "SUBJECT: Loud\r\nfrom: quiet@example.com\r\ndAtE: Sun, 02 Oct 2016 07:06:22 -0700\r\n\r\n";
    let h = parse_header_to_message(&response(Some(1), Some(raw)), 1).unwrap();
    assert_eq!(h.subject, "Loud");
    assert_eq!(h.from, "quiet@example.com");
    assert_eq!(h.date, 1475417182);
}

#[test]
fn last_header_of_a_name_wins() {
    let raw = "Subject: first\r\nSubject: second\r\n\r\n";
    let h = parse_header_to_message(&response(Some(1), Some(raw)), 1).unwrap();
    assert_eq!(h.subject, "second");
}

#[test]
fn unreadable_date_gives_timestamp_zero() {
    let raw = "Subject: x\r\nDate: the day after tomorrow\r\n\r\n";
    let h = parse_header_to_message(&response(Some(1), Some(raw)), 1).unwrap();
    assert_eq!(h.date, 0);
    let none = parse_header_to_message(&response(Some(1), Some("Subject: x\r\n\r\n")), 1).unwrap();
    assert_eq!(none.date, 0);
    assert_eq!(none.from, "");
}

#[test]
fn encoded_words_in_headers_are_decoded() {
    let raw = "Subject: =?iso-8859-1?Q?=A1Hola,_se=F1or!?=\r\n\r\n";
    let h = parse_header_to_message(&response(Some(1), Some(raw)), 1).unwrap();
    assert_eq!(h.subject, "\u{a1}Hola, se\u{f1}or!");
}

#[test]
fn text_after_the_headers_becomes_the_snippet() {
    let raw = "Subject: x\r\n\r\nLine one\r\nLine two";
    let h = parse_header_to_message(&response(Some(1), Some(raw)), 1).unwrap();
    assert_eq!(h.snippet, Some("Line one Line two".to_string()));
}

#[test]
fn response_without_uid_or_header_gives_no_header() {
    assert!(parse_header_to_message(&response(None, Some("Subject: x\r\n\r\n")), 1).is_none());
    assert!(parse_header_to_message(&response(Some(3), None), 1).is_none());
}

#[test]
fn snippet_is_cleaned_and_cut() {
    assert_eq!(snippet_of(""), None);
    assert_eq!(snippet_of("a\nb\r\nc"), Some("a b c".to_string()));
    assert_eq!(snippet_of("\r"), Some("".to_string()));
    let long: String = std::iter::repeat('x').take(500).collect();
    let cut: String = std::iter::repeat('x').take(180).collect();
    assert_eq!(snippet_of(&long), Some(cut));
    let exact: String = std::iter::repeat('é').take(180).collect();
    assert_eq!(snippet_of(&exact), Some(exact.clone()));
}

#[test]
fn header_from_root_reads_a_parsed_part() {
    let root = MimePart {
        mimetype: "text/plain".to_string(),
        headers: vec![
            MimeHeader { name: "From".to_string(), value: "b@example.com".to_string() },
            MimeHeader { name: "X-Other".to_string(), value: "y".to_string() },
            MimeHeader { name: "Subject".to_string(), value: "Parsed".to_string() },
            MimeHeader { name: "Date".to_string(), value: "Wed, 18 Feb 2015 23:16:09 GMT".to_string() },
        ],
        children: 0,
        raw: None,
        text: Some("body\ntext".to_string()),
    };
    let h = header_from_root(8, &vec![MessageFlag::Seen], &root, 3);
    assert_eq!(h.subject, "Parsed");
    assert_eq!(h.from, "b@example.com");
    assert_eq!(h.date, 1424301369);
    assert!(h.seen);
    assert!(!h.flagged);
    assert_eq!(h.snippet, Some("body text".to_string()));
    assert_eq!(h.uid, 8);
    assert_eq!(h.uid_validity, 3);
}

#[test]
fn flags_are_looked_up() {
    let flags = vec![MessageFlag::Answered, MessageFlag::Seen];
    assert!(has_flag(&flags, MessageFlag::Seen));
    assert!(!has_flag(&flags, MessageFlag::Flagged));
    assert!(!has_flag(&Vec::new(), MessageFlag::Seen));
}

#[test]
fn listing_reads_header_else_body_else_text() {
    let mut r = response(None, None);
    r.body = Some(b"Subject: from body\r\n\r\n".to_vec());
    r.text = Some(b"Subject: from text\r\n\r\n".to_vec());
    let h = listed_message(&r, 4).unwrap();
    assert_eq!(h.subject, "from body");
    assert_eq!(h.uid, 0);
    r.body = None;
    assert_eq!(listed_message(&r, 4).unwrap().subject, "from text");
    r.header = Some(b"Subject: from header\r\n\r\n".to_vec());
    assert_eq!(listed_message(&r, 4).unwrap().subject, "from header");
    r.header = None;
    r.text = None;
    assert!(listed_message(&r, 4).is_none());
}

#[test]
fn listing_is_ordered_from_highest_uid_down() {
    let responses = vec![
        response(Some(5), Some("Subject: five\r\n\r\n")),
        response(Some(9), Some("Subject: nine\r\n\r\n")),
        response(Some(7), None),
        response(Some(8), Some("Subject: eight\r\n\r\n")),
    ];
    let listed = get_inbox_messages(&responses, 2, 4).unwrap();
    let uids: Vec<u32> = listed.iter().map(|h| h.uid).collect();
    assert_eq!(uids, vec![9, 8, 5]);
    assert_eq!(listed[0].subject, "nine");
    assert_eq!(listed[2].subject, "five");
}

#[test]
fn listing_fails_when_nothing_could_be_read() {
    let responses = vec![response(Some(5), None), response(Some(6), None)];
    assert_eq!(
        get_inbox_messages(&responses, 2, 2).err(),
        Some(ListError::NothingParsed { fetched: 2 })
    );
    assert_eq!(
        get_inbox_messages(&Vec::new(), 2, 3).err(),
        Some(ListError::NothingParsed { fetched: 0 })
    );
    assert_eq!(get_inbox_messages(&Vec::new(), 2, 0).unwrap().len(), 0);
}

#[test]
fn numbers_are_sorted_from_greatest_to_least() {
    assert_eq!(sort_desc(vec![3, 1, 4, 1, 5, 9, 2, 6]), vec![9, 6, 5, 4, 3, 2, 1, 1]);
    assert_eq!(sort_desc(Vec::new()), Vec::<u32>::new());
    assert_eq!(sort_desc(vec![7]), vec![7]);
}

#[test]
fn messages_are_sorted_by_uid_and_none_is_lost() {
    let sorted = sort_by_uid_desc(vec![bare(2), bare(9), bare(4), bare(9)]);
    let uids: Vec<u32> = sorted.iter().map(|h| h.uid).collect();
    assert_eq!(uids, vec![9, 9, 4, 2]);
    assert_eq!(sorted[2].subject, "s4");
}

#[test]
fn recent_uids_are_the_twenty_five_greatest() {
    let all: Vec<u32> = (1..=40u32).map(|n| (n * 7) % 41).collect();
    let recent = recent_uids(all);
    let expected: Vec<u32> = (16..=40u32).rev().collect();
    assert_eq!(recent, expected);
    assert_eq!(recent_uids(vec![2, 3, 1]), vec![3, 2, 1]);
    assert_eq!(recent_uids(Vec::new()), Vec::<u32>::new());
}

#[test]
fn uid_set_is_comma_separated() {
    assert_eq!(uid_set_string(&vec![12, 7, 100]), "12,7,100");
    assert_eq!(uid_set_string(&vec![5]), "5");
    assert_eq!(uid_set_string(&Vec::new()), "");
}

#[test]
fn header_copy_equals_its_source() {
    let mut h = bare(3);
    h.thread_id = Some("t".to_string());
    h.snippet = Some("sn".to_string());
    let c = clone_header(&h);
    assert_eq!(c.uid, 3);
    assert_eq!(c.subject, "s3");
    assert_eq!(c.thread_id, Some("t".to_string()));
    assert_eq!(c.snippet, Some("sn".to_string()));
}
