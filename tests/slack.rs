use chrono::{Duration, Local};
use kakeibo_rs::{
    plan_kakeibo, FetchError, FilterSlackMessageOptions, IFTTTAPIParams, JsonValue, SlackAPI,
    SlackAPIClient, SlackAPIParams, SlackMessage, Timestamp, IFTTTAPI,
};

const SLACK_BASE_URL: &str = "https://slack.com/api";
const SLACK_API_METHOD: &str = "conversations.history";
const CHANNEL_ID: &str = "channel_id";
const TOKEN: &str = "token";
const EXCLUDE_DAYS: i64 = 1;
const EXCLUDE_HOURS: i64 = 2;
const EXCLUDE_MINUTES: i64 = 3;

fn to_json(v: serde_json::Value) -> JsonValue {
    match v {
        serde_json::Value::Null => JsonValue::Null,
        serde_json::Value::Bool(b) => JsonValue::Bool(b),
        serde_json::Value::Number(n) => JsonValue::Number(n.to_string()),
        serde_json::Value::String(s) => JsonValue::Str(s),
        serde_json::Value::Array(a) => JsonValue::Array(a.into_iter().map(to_json).collect()),
        serde_json::Value::Object(o) => {
            JsonValue::Object(o.into_iter().map(|(k, v)| (k, to_json(v))).collect())
        }
    }
}

fn parse_json(text: &str) -> JsonValue {
    to_json(serde_json::from_str(text).unwrap())
}

fn message(seconds: u64, micros: u32, text: &str) -> SlackMessage {
    SlackMessage {
        timestamp: Timestamp::from_parts(seconds, micros),
        text: text.to_string(),
    }
}

fn client_with_threshold(seconds: i64) -> SlackAPIClient {
    let params = SlackAPIParams::new(CHANNEL_ID.to_string(), TOKEN.to_string());
    let mut client = SlackAPIClient::new(params, Local::now().timestamp());
    client.threshold = Timestamp::from_seconds(seconds);
    client
}

fn ifttt_client() -> IFTTTAPI {
    IFTTTAPI::new(IFTTTAPIParams::new("event".to_string(), "key".to_string()))
}

#[test]
fn slack_api_params_new() {
    let params = SlackAPIParams::new(CHANNEL_ID.to_string(), TOKEN.to_string());
    assert_eq!(params.method, SLACK_API_METHOD);
    assert_eq!(params.channel, CHANNEL_ID);
    assert_eq!(params.token, TOKEN);
}

#[test]
fn slack_api_new() {
    let params = SlackAPIParams::new(CHANNEL_ID.to_string(), TOKEN.to_string());
    let slack_client = SlackAPIClient::new(params, Local::now().timestamp());
    assert_eq!(slack_client.params.base_url, SLACK_BASE_URL);
    assert_eq!(slack_client.params.method, SLACK_API_METHOD);
    assert_eq!(slack_client.params.channel, CHANNEL_ID);
    assert_eq!(slack_client.params.token, TOKEN);
}

#[test]
fn slack_api_extract() {
    let body = r#"{
                "ok": true,
                "messages": [
                    {
                        "text": "text1",
                        "ts": "1589788800.000001"
                    }
                ]
            }"#;
    let slack_client = SlackAPIClient::new(SlackAPIParams {
        base_url: SLACK_BASE_URL.to_string(),
        method: SLACK_API_METHOD.to_string(),
        channel: CHANNEL_ID.to_string(),
        token: TOKEN.to_string(),
    }, Local::now().timestamp());
    let actual = slack_client.extract(Ok(parse_json(body))).unwrap();
    let expected: Vec<SlackMessage> = vec![];
    assert_eq!(actual, expected);
}

#[test]
fn slack_api_build_slack_url() {
    let params = SlackAPIParams::new(CHANNEL_ID.to_string(), TOKEN.to_string());
    let slack_url = SlackAPIClient::build_slack_url(&params);
    assert_eq!(
        slack_url,
        format!(
            "{}/{}?channel={}",
            SLACK_BASE_URL, SLACK_API_METHOD, CHANNEL_ID
        )
    );
}

#[test]
fn slack_api_get_conversations_history() {
    let body = r#"{
                "ok": true,
                "messages": [
                    {
                        "text": "text1",
                        "ts": "1589788800.000001"
                    }
                ]
            }"#;
    let slack_client = SlackAPIClient::new(SlackAPIParams {
        base_url: SLACK_BASE_URL.to_string(),
        method: SLACK_API_METHOD.to_string(),
        channel: CHANNEL_ID.to_string(),
        token: TOKEN.to_string(),
    }, Local::now().timestamp());
    let actual = slack_client
        .get_conversations_history(Ok(parse_json(body)))
        .unwrap();
    let expected = vec![SlackMessage {
        text: "text1".to_string(),
        timestamp: Timestamp::from_parts(1589788800, 1),
    }];
    assert_eq!(actual, expected);
}

#[test]
fn test_build_slack_messages() {
    let slack_client = SlackAPIClient::new(SlackAPIParams {
        base_url: SLACK_BASE_URL.to_string(),
        method: SLACK_API_METHOD.to_string(),
        channel: CHANNEL_ID.to_string(),
        token: TOKEN.to_string(),
    }, Local::now().timestamp());
    let res = parse_json(
        r#"{
            "ok": true,
            "messages": [
                {
                    "text": "text1",
                    "ts": "1589788800.000001"
                },
                {
                    "text": "text2",
                    "ts": "1589788800.000002"
                }
            ]
        }"#,
    );
    let actual = slack_client.build_slack_messages(res).unwrap();
    let expected = vec![
        SlackMessage {
            text: "text1".to_string(),
            timestamp: Timestamp::from_parts(1589788800, 1),
        },
        SlackMessage {
            text: "text2".to_string(),
            timestamp: Timestamp::from_parts(1589788800, 2),
        },
    ];
    assert_eq!(actual, expected);
}

#[test]
fn slack_api_filter() {
    let slack_client = SlackAPIClient::new(SlackAPIParams::new(
        CHANNEL_ID.to_string(),
        TOKEN.to_string(),
    ), Local::now().timestamp());
    let slack_messages = vec![
        message(1, 0, "test1"),
        message(2, 0, "test2"),
        message(3, 0, "test3"),
    ];
    let expected = vec![message(2, 0, "test2"), message(3, 0, "test3")];
    let threshold = Timestamp::from_seconds(1);
    let filtered_slack_messages = slack_client.filter(slack_messages, threshold);
    assert_eq!(&expected, &filtered_slack_messages);
}

#[test]
fn slack_api_reverse() {
    let slack_client = SlackAPIClient::new(SlackAPIParams::new(
        CHANNEL_ID.to_string(),
        TOKEN.to_string(),
    ), Local::now().timestamp());
    let mut slack_messages = vec![
        message(1, 0, "test1"),
        message(2, 0, "test2"),
        message(3, 0, "test3"),
    ];
    let expected = vec![
        message(3, 0, "test3"),
        message(2, 0, "test2"),
        message(1, 0, "test1"),
    ];
    slack_client.reverse(&mut slack_messages);
    assert_eq!(expected, slack_messages);
}

#[test]
fn filter_slack_messages_option_new() {
    let local_dt = Local::now().timestamp();
    let fiter_options =
        FilterSlackMessageOptions::new(local_dt, EXCLUDE_DAYS, EXCLUDE_HOURS, EXCLUDE_MINUTES);
    assert_eq!(fiter_options.local_dt, local_dt);
    assert_eq!(fiter_options.exclude_days, EXCLUDE_DAYS);
    assert_eq!(fiter_options.exclude_hours, EXCLUDE_HOURS);
    assert_eq!(fiter_options.exclude_minutes, EXCLUDE_MINUTES);
}

#[test]
fn filter_slack_messages_option_get_filter_threshold() {
    let local_dt = Local::now();
    let fiter_options = FilterSlackMessageOptions::new(local_dt.timestamp(), 1, 2, 3);
    let threshold = fiter_options.get_threshold();
    let expected = (local_dt
        - Duration::days(EXCLUDE_DAYS)
        - Duration::hours(EXCLUDE_HOURS)
        - Duration::minutes(EXCLUDE_MINUTES))
    .timestamp();
    assert_eq!(threshold, Timestamp::from_seconds(expected));
}

#[test]
fn filter() {
    let slack_api = SlackAPIClient::new(SlackAPIParams::new(
        CHANNEL_ID.to_string(),
        TOKEN.to_string(),
    ), Local::now().timestamp());
    let slack_messages = vec![message(1578472400, 0, "test")];
    let expected = vec![message(1578472400, 0, "test")];
    let threshold = Timestamp::from_seconds(0);
    let filtered_slack_messages = slack_api.filter(slack_messages, threshold);
    assert_eq!(&expected, &filtered_slack_messages);
}

#[test]
fn slack_build() {
    let local_dt = Local::now().timestamp();
    let fiter_options =
        FilterSlackMessageOptions::new(local_dt, EXCLUDE_DAYS, EXCLUDE_HOURS, EXCLUDE_MINUTES);
    assert_eq!(fiter_options.local_dt, local_dt);
    assert_eq!(fiter_options.exclude_days, EXCLUDE_DAYS);
    assert_eq!(fiter_options.exclude_hours, EXCLUDE_HOURS);
    assert_eq!(fiter_options.exclude_minutes, EXCLUDE_MINUTES);
}

#[test]
fn get_filter_threshold() {
    let local_dt = Local::now();
    let fiter_options = FilterSlackMessageOptions::new(local_dt.timestamp(), 1, 2, 3);
    let threshold = fiter_options.get_threshold();
    let expected = (local_dt
        - Duration::days(EXCLUDE_DAYS)
        - Duration::hours(EXCLUDE_HOURS)
        - Duration::minutes(EXCLUDE_MINUTES))
    .timestamp();
    assert_eq!(threshold, Timestamp::from_seconds(expected));
}

#[test]
fn threshold_subtracts_days_hours_and_minutes() {
    let options = FilterSlackMessageOptions::new(1_000_000, 1, 2, 3);
    assert_eq!(options.get_threshold().micros, 906_220 * 1_000_000);
    let negative = FilterSlackMessageOptions::new(0, 0, 0, 10);
    assert_eq!(negative.get_threshold().micros, -600 * 1_000_000);
}

#[test]
fn new_uses_ten_minute_window() {
    let params = SlackAPIParams::new(CHANNEL_ID.to_string(), TOKEN.to_string());
    let client = SlackAPIClient::new(params, 10_000);
    assert_eq!(client.threshold, Timestamp::from_seconds(9_400));
    assert_eq!(
        client.slack_url,
        "https://slack.com/api/conversations.history?channel=channel_id"
    );
}

#[test]
fn authorization_header_carries_token() {
    let client = client_with_threshold(0);
    assert_eq!(client.authorization(), "Bearer token");
}

#[test]
fn message_at_threshold_is_dropped() {
    let client = client_with_threshold(0);
    let messages = vec![
        message(5, 0, "at"),
        message(5, 1, "just after"),
        message(4, 999_999, "just before"),
    ];
    let kept = client.filter(messages, Timestamp::from_seconds(5));
    assert_eq!(kept, vec![message(5, 1, "just after")]);
}

#[test]
fn filter_of_nothing_is_nothing() {
    let client = client_with_threshold(0);
    let kept = client.filter(Vec::new(), Timestamp::from_seconds(5));
    assert!(kept.is_empty());
}

#[test]
fn all_old_messages_are_dropped() {
    let client = client_with_threshold(100);
    let kept = client.filter(
        vec![message(1, 0, "a"), message(100, 0, "b")],
        Timestamp::from_seconds(100),
    );
    assert!(kept.is_empty());
}

#[test]
fn reversing_twice_restores_order() {
    let client = client_with_threshold(0);
    let before = vec![message(3, 0, "c"), message(1, 0, "a"), message(2, 0, "b")];
    let mut messages = before.clone();
    client.reverse(&mut messages);
    assert_ne!(messages, before);
    client.reverse(&mut messages);
    assert_eq!(messages, before);
}

#[test]
fn extract_keeps_recent_messages_oldest_first() {
    let client = client_with_threshold(1);
    let body = r#"{"messages":[
        {"text":"test3","ts":"3.0"},
        {"text":"test2","ts":"2.0"},
        {"text":"test1","ts":"1.0"}
    ]}"#;
    let actual = client.extract(Ok(parse_json(body))).unwrap();
    assert_eq!(actual, vec![message(2, 0, "test2"), message(3, 0, "test3")]);
}

#[test]
fn messages_without_ok_member_are_read() {
    let client = client_with_threshold(0);
    let body = r#"{"messages":[{"text":"text1","ts":"1589788800.000001"},{"text":"text2","ts":"1589788800.000002"}]}"#;
    let actual = client.build_slack_messages(parse_json(body)).unwrap();
    assert_eq!(
        actual,
        vec![
            message(1589788800, 1, "text1"),
            message(1589788800, 2, "text2")
        ]
    );
}

#[test]
fn missing_messages_is_an_error() {
    let client = client_with_threshold(0);
    for text in [
        r#"{"ok": true}"#,
        r#"{"ok": true, "messages": "none"}"#,
        r#"{"ok": true, "messages": null}"#,
        r#"{"ok": true, "messages": {"text": "x"}}"#,
        r#"{"ok": true, "messages": 3}"#,
        r#"{"ok": true, "messages": true}"#,
        r#"[1, 2]"#,
    ] {
        assert_eq!(
            client.build_slack_messages(parse_json(text)),
            Err(FetchError::MissingMessages(parse_json(text)))
        );
    }
}

#[test]
fn rejected_answer_is_an_error() {
    let client = client_with_threshold(0);
    let text = r#"{"ok": false, "error": "invalid_auth"}"#;
    assert_eq!(
        client.build_slack_messages(parse_json(text)),
        Err(FetchError::Rejected(parse_json(text)))
    );
}

#[test]
fn malformed_message_is_reported_by_position() {
    let client = client_with_threshold(0);
    let missing_ts = r#"{"messages":[{"text":"a","ts":"1.0"},{"text":"b"}]}"#;
    assert_eq!(
        client.build_slack_messages(parse_json(missing_ts)),
        Err(FetchError::MalformedMessage(1, parse_json(missing_ts)))
    );
    let bad_ts = r#"{"messages":[{"text":"a","ts":"soon"},{"text":"b","ts":"2"}]}"#;
    assert_eq!(
        client.build_slack_messages(parse_json(bad_ts)),
        Err(FetchError::MalformedMessage(0, parse_json(bad_ts)))
    );
    let number_text = r#"{"messages":[{"text":5,"ts":"1.0"}]}"#;
    assert_eq!(
        client.build_slack_messages(parse_json(number_text)),
        Err(FetchError::MalformedMessage(0, parse_json(number_text)))
    );
}

#[test]
fn transport_failure_is_an_error() {
    let client = client_with_threshold(0);
    assert_eq!(
        client.extract(Err("connection refused".to_string())),
        Err(FetchError::Transport("connection refused".to_string()))
    );
}

#[test]
fn summary_joins_time_and_text() {
    assert_eq!(
        message(1589788800, 1, "lunch 800").summary(),
        "1589788800.000001,lunch 800"
    );
    assert_eq!(message(12345, 0, "test").summary(), "12345,test");
}

#[test]
fn plan_posts_recent_messages_in_order() {
    let client = client_with_threshold(1);
    let body = r#"{"messages":[
        {"text":"test1","ts":"1.0"},
        {"text":"test2","ts":"2.0"},
        {"text":"test3","ts":"3.0"}
    ]}"#;
    let batch = plan_kakeibo(&client, Ok(parse_json(body)), &ifttt_client())
        .unwrap()
        .unwrap();
    assert_eq!(batch.url, "https://maker.ifttt.com/trigger/event/with/key/key");
    assert_eq!(batch.posts.len(), 2);
    assert_eq!(batch.posts[0].message, message(3, 0, "test3"));
    assert_eq!(batch.posts[0].payload, r#"{"value1":"3","value2":"test3"}"#);
    assert_eq!(batch.posts[1].message, message(2, 0, "test2"));
    assert_eq!(batch.posts[1].payload, r#"{"value1":"2","value2":"test2"}"#);
}

#[test]
fn plan_without_messages_fires_nothing() {
    let client = client_with_threshold(0);
    let empty = parse_json(r#"{"ok": true, "messages": []}"#);
    assert!(plan_kakeibo(&client, Ok(empty), &ifttt_client())
        .unwrap()
        .is_none());
    let old = parse_json(r#"{"messages": [{"text": "old", "ts": "0.5"}]}"#);
    let late_client = client_with_threshold(10);
    assert!(plan_kakeibo(&late_client, Ok(old), &ifttt_client())
        .unwrap()
        .is_none());
}

#[test]
fn plan_halts_on_malformed_messages() {
    let client = client_with_threshold(0);
    let body = parse_json(r#"{"ok": true, "messages": {"text": "x"}}"#);
    assert!(matches!(
        plan_kakeibo(&client, Ok(body), &ifttt_client()),
        Err(FetchError::MissingMessages(_))
    ));
    assert!(matches!(
        plan_kakeibo(&client, Err("timeout".to_string()), &ifttt_client()),
        Err(FetchError::Transport(_))
    ));
}
