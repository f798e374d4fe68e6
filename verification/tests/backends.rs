use trifetch::config::Config;
use trifetch::error::{FetchError, FetchResult};
use trifetch::orchestrator::{Action, Event, Orchestrator, Phase, Report};
use trifetch::relational::{decode_body, read_reply, Employee, HttpReply, RelationalBackend};
use trifetch::rpc::{RpcBackend, RpcReply, TESTNET_ENDPOINT};

const TWO_ROWS: &str = "[{\"id\":1,\"first_name\":\"Ann\",\"age\":41,\"interests\":\"chess\",\"city\":\"Oslo\"},\
                         {\"id\":2,\"first_name\":\"Bo\",\"age\":29,\"interests\":\"go\",\"city\":\"Rome\"}]";

fn ann() -> Employee {
    Employee {
        id: 1,
        first_name: "Ann".to_string(),
        age: 41,
        interests: "chess".to_string(),
        city: "Oslo".to_string(),
    }
}

fn bo() -> Employee {
    Employee {
        id: 2,
        first_name: "Bo".to_string(),
        age: 29,
        interests: "go".to_string(),
        city: "Rome".to_string(),
    }
}

#[test]
fn rows_come_back_in_response_order() {
    assert_eq!(decode_body(TWO_ROWS), Ok(vec![ann(), bo()]));
}

#[test]
fn an_empty_array_has_no_rows() {
    assert_eq!(decode_body("[]"), Ok(vec![]));
}

#[test]
fn columns_beyond_the_five_are_ignored() {
    let body = "[{\"id\":1,\"first_name\":\"Ann\",\"age\":41,\"interests\":\"chess\",\"city\":\"Oslo\",\"extra\":null}]";
    assert_eq!(decode_body(body), Ok(vec![ann()]));
}

#[test]
fn a_body_of_another_shape_is_a_decode_error() {
    for body in ["", "{", "{\"message\":\"no\"}", "[1,2]", "\"rows\"", "[{\"id\":1}"] {
        assert_eq!(decode_body(body), Err(FetchError::DecodeError));
    }
}

#[test]
fn a_row_without_a_column_is_a_decode_error() {
    let body = "[{\"id\":1,\"first_name\":\"Ann\",\"age\":41,\"interests\":\"chess\"}]";
    assert_eq!(decode_body(body), Err(FetchError::DecodeError));
}

#[test]
fn a_column_of_another_type_is_a_decode_error() {
    let text_id = "[{\"id\":\"1\",\"first_name\":\"Ann\",\"age\":41,\"interests\":\"chess\",\"city\":\"Oslo\"}]";
    assert_eq!(decode_body(text_id), Err(FetchError::DecodeError));
    let numeric_city = "[{\"id\":1,\"first_name\":\"Ann\",\"age\":41,\"interests\":\"chess\",\"city\":7}]";
    assert_eq!(decode_body(numeric_city), Err(FetchError::DecodeError));
    let fractional_age = "[{\"id\":1,\"first_name\":\"Ann\",\"age\":41.5,\"interests\":\"chess\",\"city\":\"Oslo\"}]";
    assert_eq!(decode_body(fractional_age), Err(FetchError::DecodeError));
}

#[test]
fn small_integers_reach_their_bounds_and_no_further() {
    let row = |id: i64, age: i64| {
        format!(
            "[{{\"id\":{},\"first_name\":\"Ann\",\"age\":{},\"interests\":\"chess\",\"city\":\"Oslo\"}}]",
            id, age
        )
    };
    let got = decode_body(&row(127, -128)).unwrap();
    assert_eq!((got[0].id, got[0].age), (127, -128));
    assert_eq!(decode_body(&row(128, 0)), Err(FetchError::DecodeError));
    assert_eq!(decode_body(&row(0, -129)), Err(FetchError::DecodeError));
    assert_eq!(decode_body(&row(5_000_000_000, 0)), Err(FetchError::DecodeError));
}

#[test]
fn one_bad_row_fails_the_whole_response() {
    let body = "[{\"id\":1,\"first_name\":\"Ann\",\"age\":41,\"interests\":\"chess\",\"city\":\"Oslo\"},{\"id\":2}]";
    assert_eq!(decode_body(body), Err(FetchError::DecodeError));
}

#[test]
fn a_reply_is_read_by_its_status() {
    let answered = |status: u16, body: &str| HttpReply::Answered { status, body: body.to_string() };
    assert_eq!(read_reply(&answered(200, TWO_ROWS)), Ok(vec![ann(), bo()]));
    assert_eq!(read_reply(&answered(401, TWO_ROWS)), Err(FetchError::AuthError));
    assert_eq!(read_reply(&answered(403, "{\"message\":\"Invalid API key\"}")), Err(FetchError::AuthError));
    assert_eq!(read_reply(&answered(200, "{\"message\":\"no\"}")), Err(FetchError::DecodeError));
    assert_eq!(read_reply(&answered(500, "oops")), Err(FetchError::DecodeError));
    assert_eq!(read_reply(&HttpReply::Failed), Err(FetchError::TransportError));
}

#[test]
fn relational_backend_describes_its_select() {
    let config = Config::new("mongodb+srv://example", "secret");
    assert_eq!(config.document_store_uri, "mongodb+srv://example");
    let backend = RelationalBackend::new("https://store.example/rest/v1", &config.relational_api_key);
    assert_eq!(backend.table(), "employees");
    assert_eq!(backend.columns(), "*");
    assert_eq!(backend.credential_header(), ("apikey", "secret"));
    assert_eq!(backend.url(), "https://store.example/rest/v1/employees?select=*");
    let reply = HttpReply::Answered { status: 200, body: TWO_ROWS.to_string() };
    assert_eq!(backend.read_reply(&reply), Ok(vec![ann(), bo()]));
}

#[test]
fn well_formed_accounts_are_accepted() {
    for id in ["panasthetik.testnet", "ab", "a-b", "a_b.c-d", "0x", "near", &"a".repeat(64)] {
        let backend = RpcBackend::new(id).unwrap();
        assert_eq!(backend.account(), id);
    }
}

#[test]
fn ill_formed_accounts_name_no_account() {
    let long = "a".repeat(65);
    for id in [
        "", "a", "A", "Ab", "aB", ".ab", "ab.", "-ab", "ab_", "a..b", "a.-b", "a__b", "a b", "a@b",
        "\u{e9}t\u{e9}", long.as_str(),
    ] {
        assert_eq!(RpcBackend::new(id), Err(FetchError::AccountNotFound));
    }
}

#[test]
fn a_balance_comes_only_from_an_account_view() {
    let backend = RpcBackend::new("panasthetik.testnet").unwrap();
    assert_eq!(backend.read_reply(RpcReply::Account { balance: 199_999_999_999_999_999_999_999_999 }), Ok(199_999_999_999_999_999_999_999_999));
    assert_eq!(backend.read_reply(RpcReply::Account { balance: 0 }), Ok(0));
    assert_eq!(backend.read_reply(RpcReply::UnknownAccount), Err(FetchError::AccountNotFound));
    assert_eq!(backend.read_reply(RpcReply::OtherView), Err(FetchError::RpcTransportError));
    assert_eq!(backend.read_reply(RpcReply::Failed), Err(FetchError::RpcTransportError));
}

#[test]
fn the_endpoint_is_the_test_network() {
    assert_eq!(TESTNET_ENDPOINT, "https://rpc.testnet.near.org");
}

#[test]
fn errors_have_their_names() {
    let named = [
        (FetchError::TransportError, "TransportError"),
        (FetchError::AuthError, "AuthError"),
        (FetchError::DecodeError, "DecodeError"),
        (FetchError::BackendUnavailable, "BackendUnavailable"),
        (FetchError::PipelineRejected, "PipelineRejected"),
        (FetchError::MalformedSummary, "MalformedSummary"),
        (FetchError::AccountNotFound, "AccountNotFound"),
        (FetchError::RpcTransportError, "RpcTransportError"),
    ];
    for (error, name) in named {
        assert_eq!(error.describe(), name);
    }
}

type Run = Orchestrator<u128, Vec<Employee>, u32>;

#[test]
fn a_run_goes_through_its_three_phases() {
    let run = Run::new();
    assert_eq!(run.phase(), Phase::NotStarted);
    let (run, action) = run.step(Event::Start);
    assert_eq!((run.phase(), action), (Phase::AllDispatched, Action::DispatchAll));
    let (run, action) = run.step(Event::DocumentDone(Ok(7)));
    assert_eq!((run.phase(), action), (Phase::AllDispatched, Action::Wait));
    let (run, action) = run.step(Event::RpcDone(Ok(5)));
    assert_eq!((run.phase(), action), (Phase::AllDispatched, Action::Wait));
    let (run, action) = run.step(Event::RelationalDone(Ok(vec![ann()])));
    assert_eq!((run.phase(), action), (Phase::AllCompleted, Action::Report));
    assert_eq!(
        run.into_report(),
        Some(Report { rpc: Ok(5), relational: Ok(vec![ann()]), document: Ok(7) })
    );
}

#[test]
fn a_failure_keeps_no_other_outcome_from_the_report() {
    let (run, _) = Run::new().step(Event::Start);
    let (run, action) = run.step(Event::RpcDone(Err(FetchError::AccountNotFound)));
    assert_eq!(action, Action::Wait);
    let (run, _) = run.step(Event::RelationalDone(Err(FetchError::AuthError)));
    let (run, action) = run.step(Event::DocumentDone(Ok(3)));
    assert_eq!(action, Action::Report);
    let report = run.into_report().unwrap();
    let rpc: FetchResult<u128> = Err(FetchError::AccountNotFound);
    assert_eq!(report.rpc, rpc);
    assert_eq!(report.relational, Err(FetchError::AuthError));
    assert_eq!(report.document, Ok(3));
}

#[test]
fn an_outcome_is_taken_once() {
    let (run, _) = Run::new().step(Event::Start);
    let (run, _) = run.step(Event::RpcDone(Ok(1)));
    let (run, action) = run.step(Event::RpcDone(Ok(2)));
    assert_eq!((run.phase(), action), (Phase::AllDispatched, Action::Wait));
    let (run, _) = run.step(Event::RelationalDone(Ok(vec![])));
    let (run, _) = run.step(Event::DocumentDone(Ok(0)));
    assert_eq!(run.into_report().unwrap().rpc, Ok(1));
}

#[test]
fn outcomes_before_the_start_are_not_taken() {
    let (run, action) = Run::new().step(Event::RpcDone(Ok(1)));
    assert_eq!((run.phase(), action), (Phase::NotStarted, Action::Wait));
    assert_eq!(run.into_report(), None);
}

#[test]
fn a_run_that_has_not_completed_has_no_report() {
    let (run, _) = Run::new().step(Event::Start);
    let (run, _) = run.step(Event::RpcDone(Ok(1)));
    assert_eq!(run.into_report(), None);
}

#[test]
fn a_completed_run_stays_completed() {
    let (run, _) = Run::new().step(Event::Start);
    let (run, _) = run.step(Event::RpcDone(Ok(1)));
    let (run, _) = run.step(Event::RelationalDone(Ok(vec![])));
    let (run, _) = run.step(Event::DocumentDone(Ok(0)));
    let (run, action) = run.step(Event::Start);
    assert_eq!((run.phase(), action), (Phase::AllCompleted, Action::Wait));
    let (run, action) = run.step(Event::DocumentDone(Err(FetchError::TransportError)));
    assert_eq!((run.phase(), action), (Phase::AllCompleted, Action::Wait));
    assert_eq!(run.into_report().unwrap().document, Ok(0));
}
