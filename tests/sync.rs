use rbr_sync::{
    api_base, collect_stages, combine_fields, decoded, default_headers, endpoint, field_paths,
    make_stage, query_body, query_path_of, successful_body, AppError, MultiSelect, Number, Pager,
    PropertyResult, Response, Select, Stage, Text, Title, TitleResult,
};

fn record(id: &str) -> PropertyResult {
    PropertyResult { id: id.to_string() }
}

fn page(ids: &[&str], has_more: bool, next_cursor: Option<&str>) -> Response {
    Response {
        results: ids.iter().map(|i| record(i)).collect(),
        has_more,
        next_cursor: next_cursor.map(|c| c.to_string()),
    }
}

fn title(segments: &[&str]) -> Title {
    Title {
        results: segments
            .iter()
            .map(|s| TitleResult { title: Text { plain_text: s.to_string() } })
            .collect(),
    }
}

fn tags(names: &[&str]) -> MultiSelect {
    MultiSelect { multi_select: names.iter().map(|n| Select { name: n.to_string() }).collect() }
}

fn ids(results: &[PropertyResult]) -> Vec<String> {
    results.iter().map(|r| r.id.clone()).collect()
}

/// Drives a pager over canned pages; returns the handles and the number of
/// queries that were issued.
fn run_pager(db: &str, pages: Vec<Response>) -> (Vec<PropertyResult>, usize, Vec<Option<String>>) {
    let mut pager = Pager::new(db);
    let mut pages = pages.into_iter();
    let mut queries = 0;
    let mut cursors = Vec::new();
    while let Some(q) = pager.next_query() {
        assert_eq!(q.path, format!("databases/{db}/query"));
        cursors.push(q.start_cursor.clone());
        queries += 1;
        pager.receive(pages.next().expect("the pager asked for a page that does not exist"));
    }
    assert!(pager.is_done());
    (pager.into_results(), queries, cursors)
}

#[test]
fn pagination_concatenates_pages_in_order() {
    let pages = vec![
        page(&["a", "b"], true, Some("c1")),
        page(&["c"], true, Some("c2")),
        page(&["d", "e", "f"], false, None),
    ];
    let (results, queries, cursors) = run_pager("db", pages);
    assert_eq!(ids(&results), vec!["a", "b", "c", "d", "e", "f"]);
    assert_eq!(queries, 3);
    assert_eq!(
        cursors,
        vec![None, Some("c1".to_string()), Some("c2".to_string())]
    );
}

#[test]
fn pagination_single_page_one_request() {
    let pages = vec![page(&["x", "y"], false, Some("ignored")), page(&["z"], false, None)];
    let (results, queries, _) = run_pager("db", pages);
    assert_eq!(ids(&results), vec!["x", "y"]);
    assert_eq!(queries, 1);
}

#[test]
fn pagination_empty_last_page() {
    let (results, queries, _) = run_pager("db", vec![page(&[], false, None)]);
    assert!(results.is_empty());
    assert_eq!(queries, 1);
}

#[test]
fn fail_fast_on_failed_title() {
    let outcomes = vec![
        combine_fields(Ok(Number { number: 1 }), Ok(title(&["A"])), Ok(tags(&["t"]))),
        combine_fields(
            Ok(Number { number: 2 }),
            Err(AppError::WrongResponseCode(500, "boom".to_string())),
            Ok(tags(&[])),
        ),
        combine_fields(Ok(Number { number: 3 }), Ok(title(&["C"])), Ok(tags(&["u"]))),
    ];
    assert_eq!(
        collect_stages(outcomes),
        Err(AppError::WrongResponseCode(500, "boom".to_string()))
    );
}

#[test]
fn combine_reports_first_failed_field() {
    let r = combine_fields(
        Err(AppError::WrongUrl),
        Err(AppError::WrongToken),
        Err(AppError::HttpError("x".to_string())),
    );
    assert_eq!(r, Err(AppError::WrongUrl));
    let r = combine_fields(
        Ok(Number { number: 1 }),
        Ok(title(&["A"])),
        Err(AppError::HttpError("x".to_string())),
    );
    assert_eq!(r, Err(AppError::HttpError("x".to_string())));
}

#[test]
fn title_projects_first_segment() {
    let s = make_stage(Number { number: 4 }, title(&["Rally", "X"]), tags(&["a"])).unwrap();
    assert_eq!(s.title, "Rally");
    assert_eq!(s.id, 4);
    assert_eq!(s.tags, vec!["a".to_string()]);
}

#[test]
fn empty_title_is_a_decoding_error() {
    let r = make_stage(Number { number: 4 }, title(&[]), tags(&["a"]));
    assert!(matches!(r, Err(AppError::DeserizalizationError(_))));
}

#[test]
fn stages_keep_record_order() {
    let recs = [("r3", 3, "Three"), ("r1", 1, "One"), ("r2", 2, "Two")];
    let outcomes = recs
        .iter()
        .map(|(_, n, t)| combine_fields(Ok(Number { number: *n }), Ok(title(&[t])), Ok(tags(&[]))))
        .collect();
    let stages = collect_stages(outcomes).unwrap();
    let got: Vec<(i32, String)> = stages.iter().map(|s| (s.id, s.title.clone())).collect();
    assert_eq!(
        got,
        vec![(3, "Three".to_string()), (1, "One".to_string()), (2, "Two".to_string())]
    );
}

#[test]
fn end_to_end_single_record() {
    let headers = default_headers("tok").unwrap();
    assert_eq!(headers.authorization.as_bytes(), b"Bearer tok");
    assert_eq!(headers.version.as_bytes(), b"2022-06-28");
    assert_eq!(headers.authorization.into_value().to_str().unwrap(), "Bearer tok");
    assert_eq!(headers.version.into_value().to_str().unwrap(), "2022-06-28");

    let mut pager = Pager::new("db1");
    let q = pager.next_query().unwrap();
    assert_eq!(q.path, "databases/db1/query");
    assert_eq!(query_body(&q.start_cursor), "{}");
    let base = api_base().unwrap();
    assert_eq!(base.as_str(), "https://api.notion.com/v1/");
    assert_eq!(base.as_url().as_str(), "https://api.notion.com/v1/");
    assert_eq!(
        endpoint(&base, &q.path).unwrap().as_str(),
        "https://api.notion.com/v1/databases/db1/query"
    );
    pager.receive(page(&["rec1"], false, None));
    assert!(pager.next_query().is_none());
    let records = pager.into_results();

    let outcomes = records
        .iter()
        .map(|r| {
            let paths = field_paths(r);
            assert_eq!(paths.number, "pages/rec1/properties/ID");
            assert_eq!(paths.title, "pages/rec1/properties/Name");
            assert_eq!(paths.tags, "pages/rec1/properties/Tags");
            combine_fields(
                decoded(Ok(Number { number: 7 })),
                decoded(Ok(title(&["Rallye"]))),
                decoded(Ok(tags(&["gravel", "night"]))),
            )
        })
        .collect();
    let stages = collect_stages(outcomes).unwrap();
    assert_eq!(
        stages,
        vec![Stage {
            id: 7,
            title: "Rallye".to_string(),
            tags: vec!["gravel".to_string(), "night".to_string()],
        }]
    );
}

#[test]
fn end_to_end_unauthorized_tags() {
    let tags_outcome = successful_body(401, "unauthorized".to_string())
        .and_then(|_| decoded::<MultiSelect>(Err("unreachable".to_string())));
    let outcome = combine_fields(
        Ok(Number { number: 7 }),
        Ok(title(&["Rallye"])),
        tags_outcome,
    );
    assert_eq!(
        collect_stages(vec![outcome]),
        Err(AppError::WrongResponseCode(401, "unauthorized".to_string()))
    );
}

#[test]
fn success_statuses_pass_the_body_on() {
    assert_eq!(successful_body(200, "{}".to_string()), Ok("{}".to_string()));
    assert_eq!(successful_body(299, "b".to_string()), Ok("b".to_string()));
    assert_eq!(
        successful_body(300, "moved".to_string()),
        Err(AppError::WrongResponseCode(300, "moved".to_string()))
    );
    assert_eq!(
        successful_body(199, "x".to_string()),
        Err(AppError::WrongResponseCode(199, "x".to_string()))
    );
}

#[test]
fn parser_failure_is_a_decoding_error() {
    assert_eq!(
        decoded::<Number>(Err("expected value".to_string())).unwrap_err(),
        AppError::DeserizalizationError("expected value".to_string())
    );
}

#[test]
fn token_with_control_byte_is_refused() {
    assert_eq!(default_headers("to\nk").unwrap_err(), AppError::WrongToken);
    assert_eq!(default_headers("a\u{7f}").unwrap_err(), AppError::WrongToken);
    assert!(default_headers("with\ttab and space").is_ok());
    assert!(default_headers("").is_ok());
}

#[test]
fn query_body_carries_cursor() {
    assert_eq!(
        query_body(&Some("abc".to_string())),
        "{\"start_cursor\":\"abc\"}"
    );
    assert_eq!(
        query_body(&Some("a\"b".to_string())),
        "{\"start_cursor\":\"a\\\"b\"}"
    );
}

#[test]
fn query_and_property_paths() {
    assert_eq!(query_path_of("db 7"), "databases/db 7/query");
    assert_eq!(
        rbr_sync::property_path_of("Tags", "p1"),
        "pages/p1/properties/Tags"
    );
}

#[test]
fn endpoint_resolves_against_base() {
    let base = api_base().unwrap();
    let e = endpoint(&base, "pages/p1/properties/Name").unwrap();
    assert_eq!(e.as_str(), "https://api.notion.com/v1/pages/p1/properties/Name");
    assert_eq!(e.as_url().as_str(), e.as_str());
    assert_eq!(endpoint(&base, "http://[::1").unwrap_err(), AppError::WrongUrl);
}

#[test]
fn query_body_escapes_controls() {
    assert_eq!(
        query_body(&Some("a\\b\n\u{1}\u{7f}é".to_string())),
        "{\"start_cursor\":\"a\\\\b\\n\\u0001\u{7f}é\"}"
    );
    assert_eq!(query_body(&None), "{}");
}
