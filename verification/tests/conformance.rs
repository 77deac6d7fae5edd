use alux::bench::{measuring_at_once, name, rounds_of_a_sample, stating, BenchCase, BenchMeasured};
use alux::conformance::lifecycle::{
    bounded_by_the_server, limit, read_as_answer, states_a_whole_answer, Averaged, AveragingError, InFlight, Measured,
};
use alux::conformance::measure::{Closing, Handover};
use alux::conformance::scenario::{exchanges, multipart_exchanges, stream_exchanges, Exchange, PARTS, PARTS_TYPE};
use alux::conformance::span::Span;
use alux::conformance::surface::{
    surface_labels, Agent, Amount, Session, Shop, ShopAlg, Ticks, TicksAlg, Upload, UploadAlg, WideAlg,
};
use alux::http::message::{gather, DirectResponse, Gathering, HttpErrorAlg};
use alux::http::method::{HttpMethod, NOT_FOUND, OK};

fn measured(closed: u64, in_flight: InFlight, reusable: bool) -> Measured {
    Measured {
        asked: "/pause",
        closed: Span::from_millis(closed),
        ended: Span::from_millis(closed + 10),
        in_flight,
        at: Span::from_millis(250),
        reusable,
    }
}

#[test]
fn a_whole_answer_with_a_length_is_answered() {
    let answer = b"HTTP/1.1 200 OK\r\nContent-Length: 3\r\n\r\n[7]";
    assert!(states_a_whole_answer(answer));
    assert_eq!(read_as_answer(answer), InFlight::Answered(200));
}

#[test]
fn a_body_short_of_its_length_is_cut_off() {
    let answer = b"HTTP/1.1 200 OK\r\ncontent-length: 10\r\n\r\n[7]";
    assert!(!states_a_whole_answer(answer));
    assert_eq!(read_as_answer(answer), InFlight::CutOff(200));
}

#[test]
fn a_chunked_answer_is_whole_at_its_last_chunk() {
    let whole = b"HTTP/1.1 200 OK\r\nTransfer-Encoding: chunked\r\n\r\n3\r\n[7]\r\n0\r\n\r\n";
    assert!(states_a_whole_answer(whole));
    assert_eq!(read_as_answer(whole), InFlight::Answered(200));
    let partial = b"HTTP/1.1 200 OK\r\nTransfer-Encoding: chunked\r\n\r\n3\r\n[7]\r\n";
    assert_eq!(read_as_answer(partial), InFlight::CutOff(200));
}

#[test]
fn an_answer_stating_no_length_ends_with_the_connection() {
    let answer = b"HTTP/1.1 204 No Content\r\nServer: probe\r\n\r\n";
    assert!(!states_a_whole_answer(answer));
    assert_eq!(read_as_answer(answer), InFlight::Answered(204));
}

#[test]
fn a_head_that_never_finished_is_cut_off() {
    assert_eq!(read_as_answer(b"HTTP/1.1 503 Service Unavailable\r\nContent-Len"), InFlight::CutOff(503));
}

#[test]
fn nothing_readable_is_an_ending() {
    assert_eq!(read_as_answer(b""), InFlight::Ended);
    assert_eq!(read_as_answer(b"HTTP/1.1\r\n\r\n"), InFlight::Ended);
    assert_eq!(read_as_answer(b"HTTP/1.1 abc OK\r\n\r\n"), InFlight::Ended);
    assert_eq!(read_as_answer(&[0xff, 0x20, 0x32, 0x30, 0x30]), InFlight::Ended);
    assert!(!states_a_whole_answer(b"no blank line"));
}

#[test]
fn a_length_that_is_not_a_number_is_read_past() {
    let answer = b"HTTP/1.1 200 OK\r\nContent-Length: many\r\nContent-Length: 2\r\n\r\nok";
    assert!(states_a_whole_answer(answer));
}

#[test]
fn what_became_of_a_request_is_written_out() {
    assert_eq!(InFlight::Answered(200).describe(), "answered 200");
    assert_eq!(InFlight::CutOff(503).describe(), "503 cut off mid-answer");
    assert_eq!(InFlight::Ended.describe(), "ended unanswered");
    assert_eq!(InFlight::Unfinished.describe(), "still waiting");
    assert!(InFlight::Answered(500).is_answered());
    assert!(!InFlight::CutOff(200).is_answered());
    assert!(!InFlight::Ended.is_answered());
}

#[test]
fn averaging_means_each_span_and_spans_the_closes() {
    let rounds = [
        measured(100, InFlight::Answered(200), true),
        measured(300, InFlight::Answered(200), true),
        measured(200, InFlight::Answered(200), true),
    ];
    let averaged = Averaged::over(&rounds).unwrap();
    assert_eq!(averaged.asked, "/pause");
    assert_eq!(averaged.rounds, 3);
    assert_eq!(averaged.closed, Span::from_millis(200));
    assert_eq!(averaged.ended, Span::from_millis(210));
    assert_eq!(averaged.range, Span::from_millis(200));
    assert_eq!(averaged.at, Span::from_millis(250));
    assert_eq!(averaged.in_flight, InFlight::Answered(200));
    assert!(averaged.reusable);
}

#[test]
fn a_mean_rounds_down_to_the_nanosecond() {
    let rounds = [
        Measured { closed: Span::new(0, 1), ..measured(0, InFlight::Ended, false) },
        Measured { closed: Span::new(0, 2), ..measured(0, InFlight::Ended, false) },
    ];
    let averaged = Averaged::over(&rounds).unwrap();
    assert_eq!(averaged.closed.as_nanos(), 1);
    assert_eq!(averaged.range.as_nanos(), 1);
}

#[test]
fn averaging_refuses_nothing_and_disagreement() {
    assert_eq!(Averaged::over(&[]).unwrap_err(), AveragingError::Nothing);
    assert_eq!(AveragingError::Nothing.message(), "averaging nothing");

    let rounds = [
        measured(100, InFlight::Answered(200), true),
        measured(100, InFlight::Answered(200), false),
        measured(100, InFlight::Ended, true),
    ];
    let error = Averaged::over(&rounds).unwrap_err();
    assert_eq!(error, AveragingError::Disagreeing("/pause", InFlight::Answered(200), InFlight::Answered(200)));
    assert_eq!(error.message(), "/pause was answered 200 in one round and answered 200 in another");

    let differing = [measured(1, InFlight::Ended, true), measured(1, InFlight::CutOff(200), true)];
    assert_eq!(
        Averaged::over(&differing).unwrap_err().message(),
        "/pause was ended unanswered in one round and 200 cut off mid-answer in another"
    );
}

#[test]
fn a_close_that_took_the_whole_limit_was_bounded_by_the_scenario() {
    assert_eq!(limit(), Span::from_millis(20_000));
    assert!(bounded_by_the_server(Span::from_millis(19_999), "closing").is_ok());
    assert_eq!(
        bounded_by_the_server(Span::from_millis(20_000), "closing").unwrap_err(),
        "closing was bounded by the scenario rather than by the server"
    );
}

#[test]
fn spans_add_divide_and_compare() {
    let a = Span::new(1, 500_000_000);
    assert_eq!(a.as_secs(), 1);
    assert_eq!(a.subsec_nanos(), 500_000_000);
    assert_eq!(a.checked_add(a).unwrap(), Span::from_millis(3_000));
    assert_eq!(a.checked_div(0), None);
    assert_eq!(a.checked_div(3).unwrap(), Span::from_millis(500));
    assert_eq!(Span::zero().saturating_sub(a), Span::zero());
    assert!(Span::zero().no_longer_than(a));
    let longest = Span::new(u64::MAX, 999_999_999);
    assert_eq!(longest.checked_add(Span::new(0, 1)), None);
}

#[test]
fn a_round_states_what_it_holds() {
    let closing = Closing::new("/slow", true);
    assert_eq!(closing.asking_for(), "/slow");
    assert!(closing.ending());
    assert!(!Closing::new("/pause", false).ending());
    assert!(Handover::RequestOk.asks_on_the_clock());
    assert!(!Handover::NoRequest.asks_on_the_clock());
    assert_eq!(Handover::RequestHeld("/slow").held(), Some("/slow"));
    assert_eq!(Handover::RequestOk.held(), None);
}

#[test]
fn the_reference_domain_answers_as_the_scenario_states() {
    let shop = Shop;
    assert_eq!(shop.item(1).unwrap(), 7);
    let missing = shop.item(9).unwrap_err();
    assert_eq!(missing.http_status(), NOT_FOUND);
    assert_eq!(missing.http_message(), "no such reading");
    assert_eq!(shop.items(), vec![7]);
    assert_eq!(shop.add(Amount { value: 7 }.value), 7);
    assert_eq!(shop.note("seven".to_owned()), "noted seven");
    shop.clear();
    assert_eq!(shop.home(), "/items");
    assert_eq!(shop.page(), "<p>7</p>");
    assert_eq!(shop.stored(), b"seven");
    assert_eq!(shop.who(Session { session: "abc".to_owned() }.session), "known as abc");
    assert_eq!(shop.agent(Agent { user_agent: "probe".to_owned() }.user_agent), "sent by probe");
    assert_eq!(shop.cached(), ("max-age=60".to_owned(), vec![7]));
    assert_eq!(shop.wide(vec![String::new(); 16]), "16");
    assert_eq!(shop.uploaded(vec!["one=1".to_owned(), "two=2".to_owned()]), "one=1,two=2");
    assert_eq!(surface_labels().len(), 12);
}

#[test]
fn ticks_come_one_at_a_time_and_then_stop() {
    let mut ticks = Shop.ticks();
    assert_eq!(ticks.next_chunk(), Some(b"one".to_vec()));
    assert_eq!(ticks.next_chunk(), Some(b"two".to_vec()));
    assert_eq!(ticks.next_chunk(), Some(b"three".to_vec()));
    assert_eq!(ticks.next_chunk(), None);
    assert_eq!(Ticks::default().next_chunk(), None);
}

#[test]
fn parts_are_stated_as_name_and_what_they_carried() {
    let upload = Upload::from_parts(vec![
        (Some("one".to_owned()), vec![b"1".to_vec()]),
        (Some("two".to_owned()), vec![b"2".to_vec(), b"2".to_vec()]),
        (None, vec![]),
    ]);
    assert_eq!(upload.stated, ["one=1", "two=22", "="]);
}

#[test]
fn an_exchange_states_every_disagreement() {
    let exchange = Exchange::asked("a page", HttpMethod::Get, "/page", OK)
        .answering("<p>7</p>")
        .carrying("content-type", "text/html; charset=utf-8");
    let agreeing: DirectResponse<()> =
        DirectResponse::content(OK, "text/html; charset=utf-8", b"<p>7</p>".to_vec());
    assert!(exchange.disagreements(&agreeing).is_empty());

    let disagreeing: DirectResponse<()> = DirectResponse::new(NOT_FOUND).with_body(b"none".to_vec());
    assert_eq!(
        exchange.disagreements(&disagreeing),
        [
            "a page: answered 404 where 200 was stated",
            "a page: answered `none` where `<p>7</p>` was stated",
            "a page: answered `content-type: nothing` where `content-type: text/html; charset=utf-8` was stated",
        ]
    );

    let sent = Exchange::sent("a form", HttpMethod::Put, "/items", "application/x-www-form-urlencoded", "value=7", OK)
        .sending("Cookie", "session=abc");
    assert_eq!(sent.request.header("content-type"), Some("application/x-www-form-urlencoded"));
    assert_eq!(sent.request.header("cookie"), Some("session=abc"));
    assert_eq!(sent.request.body(), b"value=7");
    assert_eq!(sent.clone().what, "a form");
}

#[test]
fn measuring_says_how_many_cases_are_left() {
    assert_eq!(measuring_at_once(1, "routing"), "measuring 1 case of routing at the same time");
    assert_eq!(measuring_at_once(3, "routing"), "measuring 3 cases of routing at the same time");
    assert_eq!(measuring_at_once(0, "g"), "measuring 0 cases of g at the same time");
}

#[test]
fn a_case_is_named_by_group_then_subject_and_filtered_by_its_name() {
    let case = BenchCase { group: "routing", subject: "30 sec" };
    assert_eq!(name(case), "routing/30 sec");
    assert!(stating(None, case));
    assert!(stating(Some("30 sec"), case));
    assert!(stating(Some("ing/3"), case));
    assert!(!stating(Some("closing"), case));
}

#[test]
fn a_sample_runs_as_many_rounds_as_the_spend_holds() {
    assert_eq!(rounds_of_a_sample(None, Span::from_millis(5)), 1);
    assert_eq!(rounds_of_a_sample(Some(Span::from_millis(100)), Span::from_millis(30)), 3);
    assert_eq!(rounds_of_a_sample(Some(Span::from_millis(10)), Span::from_millis(30)), 1);
    assert_eq!(rounds_of_a_sample(Some(Span::new(0, 50)), Span::zero()), 50);
}

#[test]
fn a_spread_is_the_shortest_median_and_longest_round() {
    let case = BenchCase { group: "g", subject: "s" };
    let measured = BenchMeasured::new(
        case,
        2,
        vec![Span::from_millis(40), Span::from_millis(10), Span::from_millis(30), Span::from_millis(20)],
    );
    assert_eq!(measured.case(), case);
    assert_eq!(measured.rounds(), 2);
    assert_eq!(measured.samples().len(), 4);
    assert_eq!(
        measured.spread(),
        Some((Span::from_millis(5), Span::from_millis(15), Span::from_millis(20)))
    );
    assert_eq!(BenchMeasured::new(case, 0, vec![Span::from_millis(7)]).spread(), Some((Span::from_millis(7), Span::from_millis(7), Span::from_millis(7))));
    assert_eq!(BenchMeasured::new(case, 3, vec![]).spread(), None);
}

#[test]
fn the_declared_surface_states_thirteen_exchanges() {
    let all = exchanges();
    assert_eq!(all.len(), 13);
    assert_eq!(all[0].what, "a reading as it stands");
    assert_eq!(all[0].request.path(), "/items");
    assert_eq!(all[0].body, Some("[7]"));
    assert_eq!(all[3].request.header("content-type"), Some("application/json"));
    assert_eq!(all[3].request.body(), b"7");
    assert_eq!(all[7].header, Some(("location", "/items")));
    assert_eq!(all[10].request.header("cookie"), Some("session=abc; theme=dark"));
    assert_eq!(all[12].body, Some("sent by probe"));
}

#[test]
fn the_streamed_and_parts_surfaces_state_one_exchange_each() {
    let streamed = stream_exchanges();
    assert_eq!(streamed.len(), 1);
    assert_eq!(streamed[0].body, Some("onetwothree"));
    let parts = multipart_exchanges();
    assert_eq!(parts.len(), 1);
    assert_eq!(parts[0].request.header("content-type"), Some(PARTS_TYPE));
    assert_eq!(parts[0].request.body(), PARTS.as_bytes());
    assert_eq!(parts[0].body, Some("one=1,two=2"));
}

#[test]
fn gathering_joins_pieces_and_stops_at_the_first_failure() {
    let read = match gather(vec![1, 2], Some(Ok(vec![3]))) {
        Gathering::Reading(read) => read,
        Gathering::Read(_) => panic!("a piece keeps reading"),
    };
    assert_eq!(read, vec![1, 2, 3]);
    assert!(matches!(gather(read.clone(), None), Gathering::Read(Ok(bytes)) if bytes == vec![1, 2, 3]));
    assert!(matches!(gather(read, Some(Err("broke".to_string()))), Gathering::Read(Err(failure)) if failure == "broke"));
}

#[test]
fn a_whole_answer_stays_whole_as_more_bytes_arrive() {
    let answer: &[u8] = b"HTTP/1.1 200 OK\r\nContent-Length: 2\r\n\r\nok";
    assert!(states_a_whole_answer(answer));
    let longer = [answer, b"HTTP/1.1 200".as_slice()].concat();
    assert!(states_a_whole_answer(&longer));
}

#[test]
fn averaging_does_not_depend_on_the_order_of_the_rounds() {
    let rounds = vec![
        measured(10, InFlight::Answered(200), true),
        measured(40, InFlight::Answered(200), true),
        measured(25, InFlight::Answered(200), true),
    ];
    let mut reordered = rounds.clone();
    reordered.reverse();
    let one = Averaged::over(&rounds).unwrap();
    let other = Averaged::over(&reordered).unwrap();
    assert_eq!(one.closed.as_nanos(), other.closed.as_nanos());
    assert_eq!(one.ended.as_nanos(), other.ended.as_nanos());
    assert_eq!(one.at.as_nanos(), other.at.as_nanos());
    assert_eq!(one.range.as_nanos(), other.range.as_nanos());
    assert_eq!(one.range.as_nanos(), 30_000_000);
}

#[test]
fn averaging_refuses_disagreeing_rounds_however_long_they_took() {
    let longest = Span::new(u64::MAX, 0);
    let rounds = [
        Measured { closed: longest, ended: longest, at: longest, ..measured(0, InFlight::Ended, true) },
        Measured { closed: longest, ended: longest, at: longest, ..measured(0, InFlight::Answered(200), true) },
    ];
    assert_eq!(
        Averaged::over(&rounds).unwrap_err(),
        AveragingError::Disagreeing("/pause", InFlight::Ended, InFlight::Answered(200))
    );
}

#[test]
fn a_head_line_ending_in_a_bare_return_still_states_its_length() {
    let answer: &[u8] = b"HTTP/1.1 200 OK\r\nContent-Length: 2\r\r\n\r\nok";
    assert!(states_a_whole_answer(answer));
}
