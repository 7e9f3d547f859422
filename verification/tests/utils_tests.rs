use okayeg::api::{ApiPaginationQuery, ApiPaginationResponse, ChannelLogsQuery, SearchQuery};
use okayeg::config::{vec_contains, Config};
use okayeg::ingest::{conn_step, ConnEvent, ConnState};
use okayeg::log::{Log, LogType};
use okayeg::stats::Stats;
use okayeg::utils::{parse_lines, parse_list};

#[test]
fn test_parse_file() {
    let data = "test1\ntest2\ntest3";
    let channels = parse_lines(data);
    assert_eq!(channels, vec!["test1", "test2", "test3"]);
}

#[test]
fn test_parse_env_list() {
    let channels = parse_list("#test1,test2,test3");
    assert_eq!(channels, vec!["#test1", "test2", "test3"]);
}

#[test]
fn parse_lines_drops_only_the_trailing_newline() {
    assert_eq!(parse_lines(""), Vec::<String>::new());
    assert_eq!(parse_lines("a\nb\n"), vec!["a", "b"]);
    assert_eq!(parse_lines("a\n\nb"), vec!["a", "", "b"]);
    assert_eq!(parse_lines("\n"), vec![""]);
}

#[test]
fn parse_lines_matches_std_lines_on_carriage_returns() {
    // A carriage-return-newline pair ends a line; the carriage return is
    // not part of the line.
    assert_eq!(parse_lines("a\r\nb"), "a\r\nb".lines().collect::<Vec<_>>());
    assert_eq!(parse_lines("a\r\nb"), vec!["a", "b"]);
    assert_eq!(parse_lines("a\r\nb\r\n"), "a\r\nb\r\n".lines().collect::<Vec<_>>());
    assert_eq!(parse_lines("a\r\nb\r\n"), vec!["a", "b"]);
    assert_eq!(parse_lines("\r\n"), "\r\n".lines().collect::<Vec<_>>());
    assert_eq!(parse_lines("\r\n"), vec![""]);
    // A carriage return with no newline after it is ordinary text.
    assert_eq!(parse_lines("a\r"), "a\r".lines().collect::<Vec<_>>());
    assert_eq!(parse_lines("a\r"), vec!["a\r"]);
    assert_eq!(parse_lines("a\rb\nc"), "a\rb\nc".lines().collect::<Vec<_>>());
    assert_eq!(parse_lines("a\rb\nc"), vec!["a\rb", "c"]);
    // Only one carriage return belongs to the ending.
    assert_eq!(parse_lines("a\r\r\n"), "a\r\r\n".lines().collect::<Vec<_>>());
    assert_eq!(parse_lines("a\r\r\n"), vec!["a\r"]);
}

#[test]
fn parse_list_keeps_empty_entries() {
    assert_eq!(parse_list(""), vec![""]);
    assert_eq!(parse_list("a,,b,"), vec!["a", "", "b", ""]);
}

#[test]
fn config_merges_ignored_users_and_bots_without_duplicates() {
    let config = Config::new(
        vec!["chan".to_string()],
        vec!["alice".to_string(), "bob".to_string()],
        vec!["bob".to_string(), "carol".to_string()],
    );
    assert_eq!(config.channels, vec!["chan"]);
    assert_eq!(config.ignored_users.len(), 3);
    for name in ["alice", "bob", "carol"] {
        assert!(vec_contains(&config.ignored_users, &name.to_string()));
    }
    assert!(!vec_contains(&config.ignored_users, &"dave".to_string()));
}

#[test]
fn pagination_defaults_are_zero_and_one_hundred() {
    let q = ApiPaginationQuery { offset: None, limit: None };
    assert_eq!(q.resolve(), (0, 100));
    let q = ApiPaginationQuery { offset: Some(40), limit: Some(25) };
    assert_eq!(q.resolve(), (40, 25));
    let q = ChannelLogsQuery { message_id: "m1".to_string(), offset: None, limit: Some(10) };
    assert_eq!(q.resolve(), (0, 10));
    let response = ApiPaginationResponse { offset: 40, data: vec![1, 2, 3] };
    assert_eq!(response.offset, 40);
    assert_eq!(response.data.len(), 3);
    let search = SearchQuery { query: "abc".to_string() };
    assert_eq!(search.query, "abc");
}

#[test]
fn stats_carries_the_store_figures() {
    let stats = Stats::new(12345, "42 MB".to_string());
    assert_eq!(stats.total_count, 12345);
    assert_eq!(stats.db_size, "42 MB");
}

#[test]
fn default_log_is_an_empty_chat_record() {
    let log = Log::default();
    assert_eq!(log.user_id.as_deref(), Some(""));
    assert_eq!(log.username, "");
    assert_eq!(log.channel, "");
    assert!(log.content.is_none());
    assert!(matches!(log.log_type, LogType::Chat));
    assert!(log.created_at.is_some());
}

#[test]
fn connection_lifecycle_follows_the_adapter_contract() {
    let s = ConnState::Disconnected;
    let s = conn_step(s, ConnEvent::ConnectRequested);
    assert_eq!(s, ConnState::Connecting);
    let s = conn_step(s, ConnEvent::JoinCompleted);
    assert_eq!(s, ConnState::Joined);
    let s = conn_step(s, ConnEvent::ReceiveStarted);
    assert_eq!(s, ConnState::Active);
    // A reconnect must rejoin every channel before the loop resumes.
    let s = conn_step(s, ConnEvent::ReconnectRequested);
    assert_eq!(s, ConnState::Reconnecting);
    assert_eq!(conn_step(s, ConnEvent::ReceiveStarted), ConnState::Reconnecting);
    let s = conn_step(s, ConnEvent::JoinCompleted);
    assert_eq!(s, ConnState::Joined);
    // An unrecoverable transport error is terminal.
    let s = conn_step(s, ConnEvent::FatalError);
    assert_eq!(s, ConnState::Closed);
    assert_eq!(conn_step(s, ConnEvent::ConnectRequested), ConnState::Closed);
}
