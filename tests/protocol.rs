use geminirs::config::{Certificates, Config};
use geminirs::error::RequestError;
use geminirs::form::{form_answer, form_prompt, form_response};
use geminirs::listing::{directory_listing, sort_names};
use geminirs::reader::{ReadStep, RequestReader, REQUEST_CAPACITY};
use geminirs::request::{parse_request, parse_url, path_segments, validate};
use geminirs::resolver::{begin, content_root_name, step, Action, EntryKind, Event, Stage};
use geminirs::response::{build_header, decimal_chars, ResponseStatus};
use geminirs::text::{chars_of, join_strings, replace_chars, split_chars};

fn strings(v: &[&str]) -> Vec<String> {
    v.iter().map(|s| s.to_string()).collect()
}

fn respond(action: Action) -> ResponseStatus {
    match action {
        Action::Respond(r) => r,
        _ => panic!("expected a response"),
    }
}

fn run(root: &str, line: &str, events: Vec<Event>) -> String {
    let (mut stage, mut action) = begin(root, line.as_bytes().to_vec());
    for event in events {
        if let Action::Respond(_) = action {
            break;
        }
        let next = step(stage, event);
        stage = next.0;
        action = next.1;
    }
    build_header(&respond(action))
}

#[test]
fn header_of_success_with_body() {
    let r = ResponseStatus::new(20, "text/gemini".to_string(), Some("# hi".to_string()));
    assert_eq!(build_header(&r), "20 text/gemini\r\n# hi\r\n");
}

#[test]
fn header_of_failure_drops_body() {
    let r = ResponseStatus::new(51, "not found".to_string(), Some("x".to_string()));
    assert_eq!(build_header(&r), "51 not found\r\n");
}

#[test]
fn header_of_input_request() {
    let r = ResponseStatus::new(10, "Enter name".to_string(), None);
    assert_eq!(build_header(&r), "10 Enter name\r\n");
}

#[test]
fn header_of_success_without_body() {
    let r = ResponseStatus::new(20, "text/gemini".to_string(), None);
    assert_eq!(build_header(&r), "20 text/gemini\r\n");
}

#[test]
fn decimal_of_numbers() {
    assert_eq!(decimal_chars(0), vec!['0']);
    assert_eq!(decimal_chars(59), vec!['5', '9']);
    assert_eq!(decimal_chars(1965), vec!['1', '9', '6', '5']);
}

#[test]
fn text_helpers() {
    assert_eq!(chars_of("añb"), vec!['a', 'ñ', 'b']);
    let parts = split_chars(&chars_of("a\n\nb"), '\n');
    assert_eq!(parts, vec![vec!['a'], vec![], vec!['b']]);
    let r = replace_chars(&chars_of("{X}{X}y"), &chars_of("{X}"), &chars_of("ab"));
    assert_eq!(r, chars_of("ababy"));
    assert_eq!(join_strings(&strings(&["a", "b", "c"]), '/'), chars_of("a/b/c"));
}

#[test]
fn reader_returns_line_without_terminator() {
    let mut reader = RequestReader::new();
    match reader.feed(b"gemini://host/\r\n") {
        ReadStep::Line(l) => assert_eq!(l, b"gemini://host/".to_vec()),
        other => panic!("unexpected {:?}", other),
    }
}

#[test]
fn reader_accumulates_partial_reads() {
    let mut reader = RequestReader::new();
    assert!(matches!(reader.feed(b"gemini://ho"), ReadStep::More));
    assert_eq!(reader.room(), REQUEST_CAPACITY - 11);
    assert!(matches!(reader.feed(b"st/\r"), ReadStep::More));
    match reader.feed(b"\n") {
        ReadStep::Line(l) => assert_eq!(l, b"gemini://host/".to_vec()),
        other => panic!("unexpected {:?}", other),
    }
}

#[test]
fn reader_fails_on_close_before_terminator() {
    let mut reader = RequestReader::new();
    assert!(matches!(reader.feed(b"gemini://host/"), ReadStep::More));
    assert!(matches!(reader.feed(b""), ReadStep::Failed(RequestError::UnexpectedClose)));
}

#[test]
fn reader_fails_on_empty_stream() {
    let mut reader = RequestReader::new();
    assert!(matches!(reader.feed(b""), ReadStep::Failed(RequestError::UnexpectedClose)));
}

#[test]
fn reader_fails_when_buffer_fills_without_terminator() {
    let mut reader = RequestReader::new();
    let full = vec![b'a'; REQUEST_CAPACITY];
    assert!(matches!(reader.feed(&full), ReadStep::Failed(RequestError::UnexpectedClose)));
}

#[test]
fn reader_fails_when_buffer_fills_over_several_reads() {
    let mut reader = RequestReader::new();
    assert!(matches!(reader.feed(&vec![b'a'; 1000]), ReadStep::More));
    assert!(matches!(reader.feed(&vec![b'a'; 26]), ReadStep::Failed(RequestError::UnexpectedClose)));
}

#[test]
fn reader_refuses_more_than_capacity() {
    let mut reader = RequestReader::new();
    let over = vec![b'a'; REQUEST_CAPACITY + 1];
    assert!(matches!(reader.feed(&over), ReadStep::Failed(RequestError::UnexpectedClose)));
}

#[test]
fn reader_accepts_largest_request() {
    let mut reader = RequestReader::new();
    let mut line = vec![b'a'; REQUEST_CAPACITY - 2];
    line.extend_from_slice(b"\r\n");
    match reader.feed(&line) {
        ReadStep::Line(l) => assert_eq!(l.len(), REQUEST_CAPACITY - 2),
        other => panic!("unexpected {:?}", other),
    }
}

#[test]
fn url_parts_are_read() {
    let parts = parse_url("gemini://example.org/docs/a.gmi?x%20y").ok().unwrap();
    assert_eq!(parts.scheme, "gemini");
    assert_eq!(parts.path, "/docs/a.gmi");
    assert_eq!(parts.query, Some("x%20y".to_string()));
}

#[test]
fn url_that_does_not_parse() {
    assert!(matches!(parse_url("no scheme here"), Err(RequestError::UrlParseError)));
}

#[test]
fn request_segments_and_decoded_query() {
    let req = parse_request(b"gemini://example.org/a/b.gmi?Ada%20L".to_vec()).ok().unwrap();
    assert_eq!(req.segments, strings(&["a", "b.gmi"]));
    assert_eq!(req.query, Some("Ada L".to_string()));
}

#[test]
fn request_with_other_scheme_is_refused() {
    assert!(matches!(
        parse_request(b"https://example.org/".to_vec()),
        Err(RequestError::UnsupportedScheme)
    ));
}

#[test]
fn request_that_is_not_utf8_is_refused() {
    assert!(matches!(
        parse_request(vec![b'g', 0xff, 0xfe]),
        Err(RequestError::UrlParseError)
    ));
}

#[test]
fn request_with_undecodable_query_is_refused() {
    assert!(matches!(
        parse_request(b"gemini://h/form.gmi?%ff".to_vec()),
        Err(RequestError::UrlParseError)
    ));
}

#[test]
fn path_segments_skip_empty_and_current() {
    assert_eq!(path_segments("/a//./b/").ok().unwrap(), strings(&["a", "b"]));
    assert_eq!(path_segments("/").ok().unwrap(), Vec::<String>::new());
    assert_eq!(path_segments("").ok().unwrap(), Vec::<String>::new());
}

#[test]
fn path_segments_refuse_parent() {
    assert!(matches!(path_segments("/a/../b"), Err(RequestError::PathTraversal)));
    assert!(matches!(path_segments("/.."), Err(RequestError::PathTraversal)));
    assert!(path_segments("/a..b/..c").is_ok());
}

#[test]
fn validate_checks_scheme() {
    assert!(matches!(validate("http", "/"), Err(RequestError::UnsupportedScheme)));
    assert_eq!(validate("gemini", "/x").ok().unwrap(), strings(&["x"]));
}

#[test]
fn form_phase_one_asks_prompt() {
    let r = form_prompt("?Enter name\nHello {INPUT}");
    assert_eq!(r.status_code, 10);
    assert_eq!(r.meta, "Enter name");
    assert_eq!(r.body, None);
}

#[test]
fn form_phase_one_sensitive_prompt() {
    let r = form_prompt("intro\n??Password\r\nHi {INPUT}");
    assert_eq!(r.status_code, 11);
    assert_eq!(r.meta, "Password");
}

#[test]
fn form_phase_one_without_prompt_is_not_found() {
    let r = form_prompt("Hello {INPUT}");
    assert_eq!(r.status_code, 51);
    assert_eq!(r.body, None);
}

#[test]
fn form_phase_two_fills_answer() {
    let r = form_answer("?Enter name\nHello {INPUT}", "Ada");
    assert_eq!(r.status_code, 20);
    assert_eq!(r.meta, "text/gemini");
    assert_eq!(r.body, Some("Hello Ada".to_string()));
}

#[test]
fn form_phase_two_replaces_every_token() {
    let r = form_answer("{INPUT} and {INPUT}\n?ask\nend", "x");
    assert_eq!(r.body, Some("x and x\nend".to_string()));
}

#[test]
fn form_unreadable_document_is_not_found() {
    let r = form_response(None, Some("Ada".to_string()));
    assert_eq!(r.status_code, 51);
    assert_eq!(r.meta, "not found");
}

#[test]
fn listing_has_heading_and_sorted_links() {
    let body = directory_listing("docs", &strings(&["docs"]), &strings(&["b", "a.gmi"]));
    assert_eq!(body, "# docs\n=> /docs/a.gmi docs/a.gmi\n=> /docs/b docs/b\n");
}

#[test]
fn listing_of_root() {
    let body = directory_listing("content-root", &Vec::new(), &strings(&["x"]));
    assert_eq!(body, "# content-root\n=> /x x\n");
}

#[test]
fn sort_orders_by_code_point() {
    assert_eq!(sort_names(&strings(&["b", "a", "B", "ab", ""])), strings(&["", "B", "a", "ab", "b"]));
}

#[test]
fn root_names() {
    assert_eq!(content_root_name("content-root"), "content-root");
    assert_eq!(content_root_name("/srv/gemini/"), "gemini");
    assert_eq!(content_root_name("/srv/gemini/."), "gemini");
}

#[test]
fn regular_file_is_served() {
    let (stage, action) = begin("root", b"gemini://h/notes/a.gmi".to_vec());
    match &action {
        Action::Inspect(p) => assert_eq!(p, "root/notes/a.gmi"),
        _ => panic!("expected an inspection"),
    }
    let (stage, action) = step(stage, Event::Kind(EntryKind::File));
    match &action {
        Action::Read(p) => assert_eq!(p, "root/notes/a.gmi"),
        _ => panic!("expected a read"),
    }
    let (stage, action) = step(stage, Event::Contents(Some("# A\nline".to_string())));
    assert!(matches!(stage, Stage::Done));
    let r = respond(action);
    assert_eq!(r.status_code, 20);
    assert_eq!(r.body, Some("# A\nline".to_string()));
    assert_eq!(build_header(&r), "20 text/gemini\r\n# A\nline\r\n");
}

#[test]
fn missing_path_is_not_found() {
    let out = run("root", "gemini://h/nope.gmi", vec![Event::Kind(EntryKind::Missing)]);
    assert_eq!(out, "51 not found\r\n");
}

#[test]
fn unreadable_file_is_not_found() {
    let out = run("root", "gemini://h/a.gmi", vec![Event::Kind(EntryKind::File), Event::Contents(None)]);
    assert_eq!(out, "51 not found\r\n");
}

#[test]
fn other_scheme_is_bad_request() {
    let (stage, action) = begin("root", b"https://h/a.gmi".to_vec());
    assert!(matches!(stage, Stage::Done));
    let r = respond(action);
    assert_eq!(r.status_code, 59);
    assert_eq!(r.body, None);
    assert_eq!(build_header(&r), "59 unsupported scheme\r\n");
}

#[test]
fn malformed_line_is_bad_request() {
    let out = run("root", "::::", vec![]);
    assert_eq!(out, "59 bad request\r\n");
}

#[test]
fn same_request_same_bytes() {
    let events = || vec![Event::Kind(EntryKind::File), Event::Contents(Some("x".to_string()))];
    let a = run("root", "gemini://h/a.gmi", events());
    let b = run("root", "gemini://h/a.gmi", events());
    assert_eq!(a, b);
}

#[test]
fn listing_does_not_depend_on_enumeration_order() {
    let run_with = |names: &[&str]| {
        run(
            "root",
            "gemini://h/dir/",
            vec![
                Event::Kind(EntryKind::Directory),
                Event::Contents(None),
                Event::Entries(Some(strings(names))),
            ],
        )
    };
    assert_eq!(run_with(&["b", "a.gmi"]), run_with(&["a.gmi", "b"]));
}

#[test]
fn form_round_trip() {
    let doc = "?Enter name\nHello {INPUT}".to_string();
    let first = run("root", "gemini://h/form.gmi", vec![Event::Contents(Some(doc.clone()))]);
    assert_eq!(first, "10 Enter name\r\n");
    let (_, action) = begin("root", b"gemini://h/form.gmi?Ada".to_vec());
    match &action {
        Action::Read(p) => assert_eq!(p, "root/form.gmi"),
        _ => panic!("expected a read"),
    }
    let second = run("root", "gemini://h/form.gmi?Ada", vec![Event::Contents(Some(doc))]);
    assert_eq!(second, "20 text/gemini\r\nHello Ada\r\n");
    assert!(!second.lines().any(|l| l.starts_with('?')));
}

#[test]
fn directory_without_index_is_listed() {
    let (stage, action) = begin("root", b"gemini://h/docs".to_vec());
    let (stage, action2) = step(stage, Event::Kind(EntryKind::Directory));
    assert!(matches!(action, Action::Inspect(_)));
    match &action2 {
        Action::Read(p) => assert_eq!(p, "root/docs/index.gmi"),
        _ => panic!("expected a read of the index"),
    }
    let (stage, action3) = step(stage, Event::Contents(None));
    match &action3 {
        Action::List(p) => assert_eq!(p, "root/docs"),
        _ => panic!("expected a listing"),
    }
    let (_, last) = step(stage, Event::Entries(Some(strings(&["a.gmi", "b"]))));
    let r = respond(last);
    assert_eq!(r.status_code, 20);
    assert_eq!(r.body, Some("# docs\n=> /docs/a.gmi docs/a.gmi\n=> /docs/b docs/b\n".to_string()));
}

#[test]
fn directory_with_index_serves_it() {
    let out = run(
        "root",
        "gemini://h/",
        vec![Event::Kind(EntryKind::Directory), Event::Contents(Some("# Home".to_string()))],
    );
    assert_eq!(out, "20 text/gemini\r\n# Home\r\n");
}

#[test]
fn unlistable_directory_is_temporary_failure() {
    let out = run(
        "root",
        "gemini://h/d",
        vec![Event::Kind(EntryKind::Directory), Event::Contents(None), Event::Entries(None)],
    );
    assert_eq!(out, "40 temporary failure\r\n");
}

#[test]
fn traversal_stays_under_root() {
    let (_, action) = begin("root", b"gemini://h/a/../../../etc/passwd".to_vec());
    match &action {
        Action::Inspect(p) => assert_eq!(p, "root/etc/passwd"),
        Action::Respond(r) => assert_eq!(r.status_code, 59),
        _ => panic!("unexpected action"),
    }
    let (_, action) = begin("root", b"gemini://h/%2e%2e/secret".to_vec());
    match &action {
        Action::Inspect(p) => assert!(p.starts_with("root/") && !p.contains("..")),
        Action::Respond(r) => assert_eq!(r.status_code, 59),
        _ => panic!("unexpected action"),
    }
}

#[test]
fn config_defaults() {
    let c = Config::default();
    assert_eq!(c.content_root, Some("content-root".to_string()));
    assert_eq!(c.port, Some(1965));
    assert_eq!(c.host, Some("0.0.0.0".to_string()));
    assert_eq!(c.debug, Some("info".to_string()));
    assert_eq!(c.certs.identity_pfx, "localhost.pfx");
}

#[test]
fn certificate_defaults() {
    let c = Certificates::default();
    assert_eq!(c.identity_pfx, "localhost.pfx");
    assert_eq!(c.pfx_passphrase, "");
}
