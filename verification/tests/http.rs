use alux::conformance::surface::{multipart_api, shop_api, stream_api, surface_labels, wide_api, ShopEndpoints};
use alux::http::handler::{ActixHandlerImpl, AxumHandlerImpl, DirectHandlerImpl};
use alux::http::input::{
    read_cookies, read_header_name,
    DirectBodyInput, DirectHeadInput, DirectMultipartInput, DirectPathInput, DirectQueryInput, DirectRawBodyInput,
    FromBodyAlg, FromCapturesAlg,
};
use alux::http::message::{DirectBody, DirectError, DirectRequest, DirectResponse, HttpErrorAlg};
use alux::http::method::{
    HttpMethod, BAD_REQUEST, CREATED, INTERNAL, METHOD_NOT_ALLOWED, NOT_FOUND, NO_CONTENT, OK, SEE_OTHER,
};
use alux::http::output::{
    DirectBytesOutput, DirectEmptyOutput, DirectFileOutput, DirectHeaderOutput, DirectHtmlOutput, DirectJsonOutput,
    DirectRedirectOutput, DirectResultOutput, DirectStatusOutput, DirectStreamOutput, DirectTextOutput,
};
use alux::http::path::{describe_path, PathSegment, PathSyntax, RoutePath};
use alux::http::router::sorts_before;
use alux::http::route::{DirectRoute, DirectRouteImpl};
use std::sync::Arc;

type Response = DirectResponse<()>;

/// The shared surface, each endpoint named by the label it is declared under.
fn shop() -> DirectRoute<&'static str> {
    let alg = DirectRouteImpl;
    let labels = surface_labels();
    let declared = shop_api(
        &alg,
        ShopEndpoints {
            item: labels[0],
            items: labels[1],
            add: labels[2],
            fill: labels[3],
            note: labels[4],
            clear: labels[5],
            home: labels[6],
            page: labels[7],
            stored: labels[8],
            who: labels[9],
            agent: labels[10],
            cached: labels[11],
        },
    );
    let filed = alg.at(HttpMethod::Get, "/filed/{*under}", "filed");
    alg.coproduct(declared, filed)
}

fn asked(method: HttpMethod, path: &str) -> Result<(&'static str, Vec<String>), DirectError> {
    let route = shop();
    route.select(&DirectRequest::new(method, path)).map(|(index, bound)| (*route.endpoint(index), bound))
}

#[test]
fn the_declared_surface_states_every_label_in_order() {
    let route = shop();
    let mut expected = surface_labels();
    expected.push("GET /filed/{*under}");
    assert_eq!(route.labels(), expected);
    assert_eq!(route.paths()[0], "/item/{id}");
    assert_eq!(route.paths()[12], "/filed/{*under}");
}

#[test]
fn binds_what_a_path_states_it_binds() {
    assert_eq!(asked(HttpMethod::Get, "/item/1").unwrap(), ("GET /item/{id}", vec!["1".to_owned()]));
    assert_eq!(asked(HttpMethod::Get, "/items").unwrap(), ("GET /items", vec![]));
    assert_eq!(asked(HttpMethod::Post, "/items").unwrap(), ("POST /items", vec![]));
    assert_eq!(asked(HttpMethod::Delete, "//items/").unwrap(), ("DELETE /items", vec![]));
    assert_eq!(
        asked(HttpMethod::Get, "/filed/two/levels/down").unwrap(),
        ("filed", vec!["two/levels/down".to_owned()])
    );
    assert_eq!(asked(HttpMethod::Get, "/filed").unwrap(), ("filed", vec!["".to_owned()]));
}

#[test]
fn answers_for_itself_where_no_endpoint_is_declared() {
    let nowhere = asked(HttpMethod::Get, "/nothing").unwrap_err();
    assert_eq!(nowhere.http_status(), NOT_FOUND);
    assert_eq!(nowhere.http_message(), "nothing answers at `/nothing`");

    let wrong_method = asked(HttpMethod::Head, "/items").unwrap_err();
    assert_eq!(wrong_method.http_status(), METHOD_NOT_ALLOWED);
    assert_eq!(wrong_method.http_message(), "`/items` does not answer this method");

    let deeper = asked(HttpMethod::Get, "/items/7").unwrap_err();
    assert_eq!(deeper.http_status(), NOT_FOUND);
}

#[test]
fn a_request_with_no_method_reaches_only_what_selects_none() {
    let alg = DirectRouteImpl;
    let any = alg.lift("any");
    let route = alg.precompose(alg.http_path(&RoutePath::parse("/open")), any);
    assert_eq!(route.labels(), ["* /open"]);
    assert_eq!(route.select(&DirectRequest::default().with_query("")).unwrap_err().http_status(), NOT_FOUND);
    let reached = route.select(&DirectRequest::new(HttpMethod::Trace, "/open")).unwrap();
    assert_eq!(reached.0, 0);

    let only_get = alg.at(HttpMethod::Get, "/", "root");
    assert_eq!(only_get.labels(), ["GET /"]);
    let nameless = DirectRequest::default();
    assert_eq!(only_get.select(&nameless).unwrap_err().http_status(), METHOD_NOT_ALLOWED);
}

#[test]
fn nesting_precomposes_a_prefix_and_keeps_the_endpoint_reachable() {
    let alg = DirectRouteImpl;
    let inner = alg.coproduct(alg.at(HttpMethod::Get, "/items", "items"), alg.at(HttpMethod::Post, "/:id", "one"));
    let nested = alg.precompose(alg.http_prefix(&RoutePath::parse("/api/v1")), inner);
    assert_eq!(nested.labels(), ["GET /api/v1/items", "POST /api/v1/{id}"]);
    let (index, bound) = nested.select(&DirectRequest::new(HttpMethod::Post, "/api/v1/9")).unwrap();
    assert_eq!((*nested.endpoint(index), bound), ("one", vec!["9".to_owned()]));
}

#[test]
fn a_later_method_overrides_an_earlier_one() {
    let alg = DirectRouteImpl;
    let selector = alg.compose(alg.http_method(HttpMethod::Get), alg.http_method(HttpMethod::Put));
    let route = alg.precompose(selector, alg.lift(()));
    assert_eq!(route.labels(), ["PUT /"]);
    assert!(route.select(&DirectRequest::new(HttpMethod::Put, "/")).is_ok());
    assert_eq!(route.select(&DirectRequest::new(HttpMethod::Get, "/")).unwrap_err().http_status(), 405);
}

#[test]
fn the_first_declared_endpoint_answers() {
    let alg = DirectRouteImpl;
    let route = alg.coproduct(alg.at(HttpMethod::Get, "/x/:a", "param"), alg.at(HttpMethod::Get, "/x/y", "literal"));
    let (index, bound) = route.select(&DirectRequest::new(HttpMethod::Get, "/x/y")).unwrap();
    assert_eq!((*route.endpoint(index), bound), ("param", vec!["y".to_owned()]));
    assert!(alg.initial::<u8>().labels().is_empty());
    assert_eq!(alg.initial::<u8>().select(&DirectRequest::new(HttpMethod::Get, "/")).unwrap_err().http_status(), 404);
}

#[test]
fn single_endpoint_surfaces_state_their_labels() {
    let alg = DirectRouteImpl;
    assert_eq!(wide_api(&alg, ()).labels(), ["POST /wide"]);
    assert_eq!(stream_api(&alg, ()).labels(), ["GET /ticks"]);
    assert_eq!(multipart_api(&alg, ()).labels(), ["POST /upload"]);
}

#[test]
fn a_stated_path_reads_every_spelling_of_a_binding() {
    let path = RoutePath::parse("/a/:one/{two}/{*rest}/");
    let segments = path.segments();
    assert_eq!(segments.len(), 4);
    assert!(matches!(&segments[0], PathSegment::Literal(value) if value == "a"));
    assert!(matches!(&segments[1], PathSegment::Param(name) if name == "one"));
    assert!(matches!(&segments[2], PathSegment::Param(name) if name == "two"));
    assert!(matches!(&segments[3], PathSegment::Tail(name) if name == "rest"));
    let all: Vec<&PathSegment> = segments.iter().collect();
    assert_eq!(describe_path(&all), "/a/{one}/{two}/{*rest}");
    assert_eq!(describe_path(&[]), "/");
}

#[test]
fn a_request_states_what_arrived() {
    let request = DirectRequest::new(HttpMethod::Patch, "/items")
        .with_query("??a=1&b=2")
        .with_header("Content-Type", "text/plain")
        .with_header("content-type", "application/json")
        .with_body(b"seven".to_vec());
    assert_eq!(request.method(), Some(HttpMethod::Patch));
    assert_eq!(request.path(), "/items");
    assert_eq!(request.query(), "a=1&b=2");
    assert_eq!(request.header("CONTENT-TYPE"), Some("text/plain"));
    assert_eq!(request.header("accept"), None);
    assert_eq!(request.headers().len(), 2);
    assert_eq!(request.headers()[0].0, "content-type");
    assert_eq!(request.body(), b"seven");
    let copy = request.clone();
    assert_eq!(copy.query(), "a=1&b=2");
    assert_eq!(DirectRequest::default().method(), None);
}

#[test]
fn an_answer_states_what_it_carries() {
    let answer: Response = DirectResponse::content(OK, "text/plain", b"hello".to_vec()).with_header("X-One", "1");
    assert_eq!(answer.status(), 200);
    assert_eq!(answer.header("content-type"), Some("text/plain"));
    assert_eq!(answer.header("x-one"), Some("1"));
    assert_eq!(answer.text(), "hello");
    assert_eq!(answer.with_status(CREATED).status(), 201);

    let lossy: Response = DirectResponse::new(OK).with_body(vec![0x66, 0xff, 0x6f]);
    assert_eq!(lossy.text(), "f\u{fffd}o");

    let produced: DirectResponse<u8> = DirectResponse::new(OK).with_chunks(9);
    assert_eq!(produced.body(), b"");
    assert!(matches!(produced.into_body(), DirectBody::Produced(9)));
}

#[test]
fn collecting_reads_a_produced_body_whole() {
    let read: DirectResponse<u8> = DirectResponse::new(OK).with_chunks(1).collected(Ok(b"onetwo".to_vec()));
    assert_eq!(read.text(), "onetwo");
    let failed: DirectResponse<u8> = DirectResponse::new(OK).with_chunks(1).collected(Err("broken".to_owned()));
    assert_eq!(failed.status(), INTERNAL);
    assert_eq!(failed.text(), "broken");
    let stated: DirectResponse<u8> = DirectResponse::new(OK).with_body(b"kept".to_vec()).collected(Ok(b"x".to_vec()));
    assert_eq!(stated.text(), "kept");
}

#[test]
fn a_failure_states_its_status_and_message() {
    let error = DirectError::unreadable("query", "missing field");
    assert_eq!(error.http_status(), BAD_REQUEST);
    assert_eq!(error.http_message(), "the query could not be read: missing field");
    assert_eq!(error.describe(), "the query could not be read: missing field (400)");
    let answer: Response = DirectError::not_found("/x").into_response();
    assert_eq!(answer.status(), 404);
    assert_eq!(answer.header("content-type"), Some("text/plain; charset=utf-8"));
    assert_eq!(answer.text(), "nothing answers at `/x`");
    assert_eq!(DirectError::new(418, "teapot".to_owned()).describe(), "teapot (418)");
}

#[test]
fn answers_with_what_each_output_kind_states() {
    let json: Response = DirectJsonOutput::render(Ok(b"[7]".to_vec()));
    assert_eq!((json.status(), json.header("content-type"), json.text()), (OK, Some("application/json"), "[7]".to_owned()));
    let unencodable: Response = DirectJsonOutput::render(Err("no".to_owned()));
    assert_eq!(unencodable.status(), INTERNAL);
    assert_eq!(unencodable.text(), "no");

    let text: Response = DirectTextOutput::render("noted seven");
    assert_eq!(text.header("content-type"), Some("text/plain; charset=utf-8"));
    assert_eq!(text.text(), "noted seven");

    let page: Response = DirectHtmlOutput::render("<p>7</p>");
    assert_eq!(page.header("content-type"), Some("text/html; charset=utf-8"));

    let bytes: Response = DirectBytesOutput::render(b"seven".to_vec());
    assert_eq!(bytes.header("content-type"), Some("application/octet-stream"));
    assert_eq!(bytes.body(), b"seven");

    let empty: Response = DirectEmptyOutput::render();
    assert_eq!((empty.status(), empty.body()), (NO_CONTENT, &b""[..]));

    let redirect: Response = DirectRedirectOutput::render("/items");
    assert_eq!((redirect.status(), redirect.header("location")), (SEE_OTHER, Some("/items")));

    let created: Response = DirectStatusOutput::<(), 201>::render(DirectTextOutput::render("7"));
    assert_eq!(created.status(), CREATED);

    let cached: Response = DirectHeaderOutput::<(), ()>::render(json_of("[7]"), "Cache-Control", "max-age=60");
    assert_eq!(cached.header("cache-control"), Some("max-age=60"));

    let streamed: DirectResponse<&str> = DirectStreamOutput::render("ticks");
    assert_eq!(streamed.header("content-type"), Some("application/octet-stream"));
    assert!(matches!(streamed.into_body(), DirectBody::Produced("ticks")));
}

fn json_of(body: &str) -> Response {
    DirectJsonOutput::render(Ok(body.as_bytes().to_vec()))
}

#[test]
fn a_result_answers_with_what_its_failure_means() {
    let ok: Response = DirectResultOutput::<(), DirectError>::render(Ok(json_of("7")));
    assert_eq!(ok.text(), "7");
    let failed: Response = DirectResultOutput::<(), DirectError>::render(Err(DirectError::new(404, "no such reading".to_owned())));
    assert_eq!(failed.status(), NOT_FOUND);
    assert_eq!(failed.text(), "no such reading");
    assert_eq!(failed.header("content-type"), Some("text/plain; charset=utf-8"));
}

#[test]
fn a_file_is_offered_under_a_name_that_cannot_break_its_header() {
    let file: Response = DirectFileOutput::render::<(), DirectError>(Ok(b"data".to_vec()), "a\"b\r\nc.txt");
    assert_eq!(file.header("content-disposition"), Some("attachment; filename=\"a_b__c.txt\""));
    assert_eq!(file.header("content-type"), Some("application/octet-stream"));
    assert_eq!(file.body(), b"data");
    let missing: Response = DirectFileOutput::render::<(), DirectError>(Err(DirectError::not_found("/f")), "f");
    assert_eq!((missing.status(), missing.body()), (NOT_FOUND, &b""[..]));
}

#[test]
fn reads_each_argument_from_its_role() {
    let bound = vec!["42".to_owned(), "x".to_owned()];
    assert_eq!(DirectPathInput::<u32>::extract(&bound).unwrap(), 42);
    assert_eq!(DirectPathInput::<String>::extract(&bound).unwrap(), "42");
    let refused = DirectPathInput::<bool>::extract(&bound).unwrap_err();
    assert_eq!(refused.http_status(), BAD_REQUEST);
    assert_eq!(refused.http_message(), "the path could not be read: it states something else");
    assert!(DirectPathInput::<u8>::extract(&[]).is_err());
    assert_eq!(<u8 as FromCapturesAlg>::from_captures(&["300".to_owned()]), None);
    assert_eq!(<i16 as FromCapturesAlg>::from_captures(&["-7".to_owned()]), Some(-7));
    assert_eq!(<bool as FromCapturesAlg>::from_captures(&["true".to_owned()]), Some(true));
    assert_eq!(<char as FromCapturesAlg>::from_captures(&["é".to_owned()]), Some('é'));
    assert_eq!(<char as FromCapturesAlg>::from_captures(&["ab".to_owned()]), None);

    let request = DirectRequest::new(HttpMethod::Patch, "/items").with_body(b"seven".to_vec());
    assert_eq!(DirectRawBodyInput::<String>::extract(&request).unwrap(), "seven");
    assert_eq!(DirectRawBodyInput::<Vec<u8>>::extract(&request).unwrap(), b"seven");
    let garbled = DirectRequest::new(HttpMethod::Patch, "/items").with_body(vec![0xff]);
    assert_eq!(
        DirectRawBodyInput::<String>::extract(&garbled).unwrap_err().http_message(),
        "the body could not be read: it states something else"
    );
    assert_eq!(<String as FromBodyAlg>::from_body(&[0xe2, 0x82, 0xac]), Some("€".to_owned()));
    assert_eq!(DirectHeadInput::<DirectRequest>::extract(&request).unwrap().path(), "/items");

    assert_eq!(DirectQueryInput::extract(Ok(3)).unwrap(), 3);
    assert_eq!(
        DirectBodyInput::<u8>::extract(Err("expected value".to_owned())).unwrap_err().http_message(),
        "the body could not be read: expected value"
    );
    assert_eq!(
        DirectMultipartInput::<()>::media_type(&request).unwrap_err().http_message(),
        "the parts could not be read: the body states no media type"
    );
    let typed = request.with_header("Content-Type", "multipart/form-data; boundary=x");
    assert_eq!(DirectMultipartInput::<()>::media_type(&typed).unwrap(), "multipart/form-data; boundary=x");
}

#[test]
fn an_interpreter_shares_its_context() {
    let direct = DirectHandlerImpl::new(7u8);
    assert_eq!(**direct.context(), 7);
    let shared = Arc::new("shop");
    let axum = AxumHandlerImpl::from_shared(Arc::clone(&shared));
    assert!(Arc::ptr_eq(axum.context(), &shared));
    let actix = ActixHandlerImpl::new(vec![1]);
    assert_eq!(**actix.context(), vec![1]);
    assert_eq!(*DirectHandlerImpl::from_shared(Arc::new(2u8)).context().as_ref(), 2);
    assert_eq!(**AxumHandlerImpl::new(3u8).context(), 3);
    assert_eq!(**ActixHandlerImpl::from_shared(Arc::new(4u8)).context(), 4);
}

#[test]
fn method_labels_are_the_names_sent_on_the_wire() {
    let all = [
        (HttpMethod::Get, "GET"),
        (HttpMethod::Post, "POST"),
        (HttpMethod::Put, "PUT"),
        (HttpMethod::Patch, "PATCH"),
        (HttpMethod::Delete, "DELETE"),
        (HttpMethod::Head, "HEAD"),
        (HttpMethod::Options, "OPTIONS"),
        (HttpMethod::Trace, "TRACE"),
        (HttpMethod::Connect, "CONNECT"),
    ];
    for (method, label) in all {
        assert_eq!(method.label(), label);
    }
}

#[test]
fn cookies_are_names_and_values_around_their_first_equals() {
    assert_eq!(
        read_cookies("session=abc; theme=dark"),
        [("session".to_owned(), "abc".to_owned()), ("theme".to_owned(), "dark".to_owned())]
    );
    assert_eq!(read_cookies(" a=b=c ;;flag; =x"), [("a".to_owned(), "b=c".to_owned()), ("".to_owned(), "x".to_owned())]);
    assert!(read_cookies("").is_empty());
}

#[test]
fn a_header_name_is_read_with_its_words_separated_by_underscores() {
    assert_eq!(read_header_name("user-agent"), "user_agent");
    assert_eq!(read_header_name("x-a-b"), "x_a_b");
    assert_eq!(read_header_name(""), "");
}

#[test]
fn a_router_spells_a_tail_its_own_way() {
    let alg = DirectRouteImpl;
    let route = alg.at(HttpMethod::Get, "/files/:id/{*rest}", ());
    assert_eq!(route.selector(0).spelled_path(PathSyntax::Axum), "/files/{id}/{*rest}");
    assert_eq!(route.selector(0).spelled_path(PathSyntax::Actix), "/files/{id}/{rest:.*}");
    assert_eq!(route.selector(0).method(), Some(HttpMethod::Get));
    assert_eq!(route.len(), 1);
}

#[test]
fn a_route_folds_into_one_group_per_path_in_sorted_order() {
    let alg = DirectRouteImpl;
    let route = alg.coproduct(
        alg.coproduct(alg.at(HttpMethod::Get, "/items", "list"), alg.at(HttpMethod::Get, "/home", "home")),
        alg.coproduct(alg.at(HttpMethod::Post, "/items", "add"), alg.precompose(alg.http_path(&RoutePath::parse("/items")), alg.lift("any"))),
    );
    let grouped = route.grouped_by_path(PathSyntax::Axum);
    assert_eq!(
        grouped,
        [
            ("/home".to_owned(), vec![(Some(HttpMethod::Get), 1)]),
            ("/items".to_owned(), vec![(Some(HttpMethod::Get), 0), (Some(HttpMethod::Post), 2), (None, 3)]),
        ]
    );
    assert!(alg.initial::<()>().grouped_by_path(PathSyntax::Actix).is_empty());
}

#[test]
fn texts_sort_by_character_then_length() {
    assert!(sorts_before("/a", "/b"));
    assert!(sorts_before("/a", "/ab"));
    assert!(!sorts_before("/ab", "/a"));
    assert!(!sorts_before("/a", "/a"));
    assert!(sorts_before("", "x"));
    assert!(sorts_before("Z", "a"));
}

#[test]
fn a_number_is_an_optional_sign_then_decimal_digits_in_range() {
    let read = |text: &str| vec![text.to_owned()];
    assert_eq!(<u8 as FromCapturesAlg>::from_captures(&read("+7")), Some(7));
    assert_eq!(<u8 as FromCapturesAlg>::from_captures(&read("-0")), None);
    assert_eq!(<u8 as FromCapturesAlg>::from_captures(&read("255")), Some(255));
    assert_eq!(<u8 as FromCapturesAlg>::from_captures(&read("256")), None);
    assert_eq!(<u32 as FromCapturesAlg>::from_captures(&read(" 7")), None);
    assert_eq!(<u32 as FromCapturesAlg>::from_captures(&read("")), None);
    assert_eq!(<u32 as FromCapturesAlg>::from_captures(&read("+")), None);
    assert_eq!(<i8 as FromCapturesAlg>::from_captures(&read("-128")), Some(-128));
    assert_eq!(<i8 as FromCapturesAlg>::from_captures(&read("-129")), None);
    assert_eq!(<i64 as FromCapturesAlg>::from_captures(&read("-")), None);
    assert_eq!(<u64 as FromCapturesAlg>::from_captures(&read("007")), Some(7));
    assert_eq!(<usize as FromCapturesAlg>::from_captures(&read("1e3")), None);
    assert_eq!(<isize as FromCapturesAlg>::from_captures(&read("+12")), Some(12));
    assert_eq!(<i32 as FromCapturesAlg>::from_captures(&read("٣")), None);
}
