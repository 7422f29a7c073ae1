use vstd::prelude::*;

use crate::json::JsonValue;
use crate::timestamp::{decimal_text, timestamp_micros, Timestamp};

verus! {

/// Where the history service lives.
pub const SLACK_BASE_URL: &'static str = "https://slack.com/api";

/// The method of the history service that lists a channel's messages.
pub const SLACK_API_METHOD: &'static str = "conversations.history";

/// How far back, in days, messages are still forwarded.
pub const EXCLUDE_DAYS: i64 = 0;

/// How far back, in hours, messages are still forwarded.
pub const EXCLUDE_HOURS: i64 = 0;

/// How far back, in minutes, messages are still forwarded.
pub const EXCLUDE_MINUTES: i64 = 10;

/// One message of a channel's history.
#[derive(Clone, Debug, PartialEq)]
pub struct SlackMessage {
    pub timestamp: Timestamp,
    pub text: String,
}

impl SlackMessage {
    /// The message as one line of a log: its time as decimal text, a comma,
    /// and its text.
    pub fn summary(&self) -> (r: String)
        ensures
            r@ == decimal_text(self.timestamp.micros as int) + ","@ + self.text@,
    {
        let mut line = self.timestamp.to_decimal_string();
        line.append(",");
        line.append(self.text.as_str());
        line
    }
}

/// What a message holds: its time in microseconds since the epoch, and its text.
pub struct MessageModel {
    pub timestamp: int,
    pub text: Seq<char>,
}

impl View for SlackMessage {
    type V = MessageModel;

    open spec fn view(&self) -> MessageModel {
        MessageModel { timestamp: self.timestamp.micros as int, text: self.text@ }
    }
}

/// What each message of `messages` holds.
pub open spec fn models(messages: Seq<SlackMessage>) -> Seq<MessageModel> {
    messages.map_values(|m: SlackMessage| m@)
}

/// What is wrong with a history answer.
#[derive(Clone, Copy, Debug, PartialEq, Eq, Structural)]
pub enum HistoryFault {
    /// The service answered `"ok": false`.
    Rejected,
    /// The answer holds no `messages` array.
    MissingMessages,
    /// The message at this position lacks a string `ts` or `text`, or its
    /// `ts` is no timestamp.
    MalformedMessage(usize),
}

/// Why the history could not be had. Where an answer came, it is attached.
#[derive(Debug, PartialEq)]
pub enum FetchError {
    /// The request failed, or its answer was no JSON; the cause is attached.
    Transport(String),
    /// The service answered `"ok": false`.
    Rejected(JsonValue),
    /// The answer holds no `messages` array.
    MissingMessages(JsonValue),
    /// The message at this position lacks a string `ts` or `text`, or its
    /// `ts` is no timestamp.
    MalformedMessage(usize, JsonValue),
}

/// The error for the fault `fault` of the answer `response`, which it carries.
pub open spec fn fetch_error_of(fault: HistoryFault, response: JsonValue) -> FetchError {
    match fault {
        HistoryFault::Rejected => FetchError::Rejected(response),
        HistoryFault::MissingMessages => FetchError::MissingMessages(response),
        HistoryFault::MalformedMessage(i) => FetchError::MalformedMessage(i, response),
    }
}

/// The message that the JSON object `v` describes: a string `ts` that is a
/// timestamp, and a string `text`.
pub open spec fn message_of(v: JsonValue) -> Option<MessageModel> {
    match (v.field("ts"@), v.field("text"@)) {
        (Some(JsonValue::Str(ts)), Some(JsonValue::Str(text))) => match timestamp_micros(ts@) {
            Some(t) => Some(MessageModel { timestamp: t, text: text@ }),
            None => None,
        },
        _ => None,
    }
}

/// The messages that `items` describe, in their order; the first item that
/// describes none is an error.
pub open spec fn decode_messages(items: Seq<JsonValue>) -> Result<Seq<MessageModel>, HistoryFault>
    decreases items.len(),
{
    if items.len() == 0 {
        Ok(Seq::empty())
    } else {
        match decode_messages(items.drop_last()) {
            Err(e) => Err(e),
            Ok(ms) => match message_of(items.last()) {
                Some(m) => Ok(ms.push(m)),
                None => Err(HistoryFault::MalformedMessage((items.len() - 1) as usize)),
            },
        }
    }
}

/// The messages of a history answer, in the order the service gave them, or
/// what is wrong with it.
pub open spec fn history_fault(response: JsonValue) -> Result<Seq<MessageModel>, HistoryFault> {
    if response.field("ok"@) == Some(JsonValue::Bool(false)) {
        Err(HistoryFault::Rejected)
    } else {
        match response.field("messages"@) {
            Some(JsonValue::Array(items)) => decode_messages(items@),
            _ => Err(HistoryFault::MissingMessages),
        }
    }
}

/// The messages of a history answer, in the order the service gave them; an
/// error that carries the answer where something is wrong with it.
pub open spec fn history(response: JsonValue) -> Result<Seq<MessageModel>, FetchError> {
    match history_fault(response) {
        Ok(ms) => Ok(ms),
        Err(fault) => Err(fetch_error_of(fault, response)),
    }
}

/// The messages of `messages` that are later than `threshold` microseconds,
/// in their order.
pub open spec fn retained(messages: Seq<MessageModel>, threshold: int) -> Seq<MessageModel> {
    messages.filter(|m: MessageModel| m.timestamp > threshold)
}

/// What one run makes of the service's answer (or of the failure to get
/// one): the messages later than `threshold`, latest first reversed to
/// oldest first.
pub open spec fn extracted(response: Result<JsonValue, String>, threshold: int) -> Result<
    Seq<MessageModel>,
    FetchError,
> {
    match response {
        Err(cause) => Err(FetchError::Transport(cause)),
        Ok(v) => match history(v) {
            Err(e) => Err(e),
            Ok(ms) => Ok(retained(ms, threshold).reverse()),
        },
    }
}

/// What a list of messages or an error holds.
pub open spec fn result_models(r: Result<Vec<SlackMessage>, FetchError>) -> Result<
    Seq<MessageModel>,
    FetchError,
> {
    match r {
        Ok(ms) => Ok(models(ms@)),
        Err(e) => Err(e),
    }
}

/// The cutoff, in microseconds since the epoch, for the time `local_dt` in
/// seconds less the given days, hours and minutes.
pub open spec fn threshold_micros(local_dt: int, days: int, hours: int, minutes: int) -> int {
    (local_dt - days * 86_400 - hours * 3_600 - minutes * 60) * 1_000_000
}

/// Where a history request for `params` goes: `{base_url}/{method}?channel={channel}`.
pub open spec fn slack_url_of(params: SlackAPIParams) -> Seq<char> {
    params.base_url@ + "/"@ + params.method@ + "?channel="@ + params.channel@
}

/// The value of the `Authorization` header for `token`: `Bearer {token}`.
pub open spec fn authorization_of(token: Seq<char>) -> Seq<char> {
    "Bearer "@ + token
}

/// A message is kept exactly when it is later than the cutoff: one at the
/// cutoff itself is dropped.
pub proof fn lemma_retained_iff(messages: Seq<MessageModel>, threshold: int, m: MessageModel)
    ensures
        retained(messages, threshold).contains(m) <==> messages.contains(m) && m.timestamp
            > threshold,
    decreases messages.len(),
{
    reveal(Seq::filter);
    if messages.len() > 0 {
        let rest = messages.drop_last();
        let last = messages.last();
        lemma_retained_iff(rest, threshold, m);
        assert(messages =~= rest.push(last));
        lemma_push_contains(rest, last, m);
        lemma_push_contains(retained(rest, threshold), last, m);
    }
}

proof fn lemma_push_contains<A>(s: Seq<A>, x: A, m: A)
    ensures
        s.push(x).contains(m) <==> s.contains(m) || x == m,
{
    if s.contains(m) {
        let i = choose|i: int| 0 <= i < s.len() && s[i] == m;
        assert(s.push(x)[i] == m);
    }
    if x == m {
        assert(s.push(x)[s.len() as int] == m);
    }
    if s.push(x).contains(m) {
        let i = choose|i: int| 0 <= i < s.push(x).len() && s.push(x)[i] == m;
        if i < s.len() {
            assert(s[i] == m);
        }
    }
}

/// Putting the messages in the opposite order twice gives them back as they were.
pub proof fn lemma_reverse_involution(messages: Seq<MessageModel>)
    ensures
        messages.reverse().reverse() == messages,
{
    assert(messages.reverse().reverse() =~= messages);
}

proof fn lemma_decode_error_stays(items: Seq<JsonValue>, j: int)
    requires
        0 <= j <= items.len(),
        decode_messages(items.take(j)) is Err,
    ensures
        decode_messages(items) == decode_messages(items.take(j)),
    decreases items.len(),
{
    if j == items.len() {
        assert(items.take(j) =~= items);
    } else {
        assert(items.drop_last().take(j) =~= items.take(j));
        lemma_decode_error_stays(items.drop_last(), j);
    }
}

proof fn lemma_models_push(messages: Seq<SlackMessage>, m: SlackMessage)
    ensures
        models(messages.push(m)) == models(messages).push(m@),
{
    assert(models(messages.push(m)) =~= models(messages).push(m@));
}

/// Where and as whom the history is asked for.
pub struct SlackAPIParams {
    pub base_url: String,
    pub method: String,
    pub channel: String,
    pub token: String,
}

impl SlackAPIParams {
    /// The parameters for the history of channel `slack_channel_id`, asked
    /// for with `slack_token`.
    pub fn new(slack_channel_id: String, slack_token: String) -> (r: Self)
        ensures
            r.base_url@ == SLACK_BASE_URL@,
            r.method@ == SLACK_API_METHOD@,
            r.channel == slack_channel_id,
            r.token == slack_token,
    {
        Self {
            base_url: String::from_str(SLACK_BASE_URL),
            method: String::from_str(SLACK_API_METHOD),
            channel: slack_channel_id,
            token: slack_token,
        }
    }
}

/// The time of a run and how far back from it messages are forwarded.
pub struct FilterSlackMessageOptions {
    /// The time of the run, in whole seconds since the epoch.
    pub local_dt: i64,
    pub exclude_days: i64,
    pub exclude_hours: i64,
    pub exclude_minutes: i64,
}

impl FilterSlackMessageOptions {
    pub fn new(local_dt: i64, exclude_days: i64, exclude_hours: i64, exclude_minutes: i64) -> (r:
        Self)
        ensures
            r.local_dt == local_dt,
            r.exclude_days == exclude_days,
            r.exclude_hours == exclude_hours,
            r.exclude_minutes == exclude_minutes,
    {
        Self { local_dt, exclude_days, exclude_hours, exclude_minutes }
    }

    /// The cutoff: the time of the run less the days, hours and minutes.
    pub fn get_threshold(&self) -> (r: Timestamp)
        ensures
            r.micros == threshold_micros(
                self.local_dt as int,
                self.exclude_days as int,
                self.exclude_hours as int,
                self.exclude_minutes as int,
            ),
    {
        proof {
            let bound: int = 0x8000_0000_0000_0000;
            let d = self.exclude_days as int;
            let h = self.exclude_hours as int;
            let m = self.exclude_minutes as int;
            assert(-bound * 86_400 <= d * 86_400 <= bound * 86_400) by (nonlinear_arith)
                requires
                    -bound <= d <= bound,
            ;
            assert(-bound * 3_600 <= h * 3_600 <= bound * 3_600) by (nonlinear_arith)
                requires
                    -bound <= h <= bound,
            ;
            assert(-bound * 60 <= m * 60 <= bound * 60) by (nonlinear_arith)
                requires
                    -bound <= m <= bound,
            ;
        }
        let seconds: i128 = self.local_dt as i128 - self.exclude_days as i128 * 86_400
            - self.exclude_hours as i128 * 3_600 - self.exclude_minutes as i128 * 60;
        proof {
            let bound: int = 0x8000_0000_0000_0000;
            let s = seconds as int;
            assert(-bound * 90_062_000_000 <= s * 1_000_000 <= bound * 90_062_000_000)
                by (nonlinear_arith)
                requires
                    -bound * 90_062 <= s <= bound * 90_062,
            ;
        }
        Timestamp { micros: seconds * 1_000_000 }
    }
}

/// Reads the history of a channel and keeps its recent messages.
pub trait SlackAPI {
    /// The cutoff of this reader, in microseconds since the epoch.
    spec fn cutoff(&self) -> int;

    /// The messages of the answer `response` (or the failure to get one) that
    /// are later than the cutoff, oldest first.
    fn extract(&self, response: Result<JsonValue, String>) -> (r: Result<
        Vec<SlackMessage>,
        FetchError,
    >)
        ensures
            result_models(r) == extracted(response, self.cutoff()),
    ;
}

/// Reads the history of one channel; the request itself is made by the caller.
pub struct SlackAPIClient {
    pub params: SlackAPIParams,
    pub slack_url: String,
    pub threshold: Timestamp,
}

impl SlackAPIClient {
    /// A reader whose cutoff lies `EXCLUDE_DAYS`, `EXCLUDE_HOURS` and
    /// `EXCLUDE_MINUTES` before `local_dt`, in seconds since the epoch.
    pub fn new(params: SlackAPIParams, local_dt: i64) -> (r: Self)
        ensures
            r.params == params,
            r.slack_url@ == slack_url_of(params),
            r.threshold.micros == threshold_micros(
                local_dt as int,
                EXCLUDE_DAYS as int,
                EXCLUDE_HOURS as int,
                EXCLUDE_MINUTES as int,
            ),
    {
        let filter_options = FilterSlackMessageOptions::new(
            local_dt,
            EXCLUDE_DAYS,
            EXCLUDE_HOURS,
            EXCLUDE_MINUTES,
        );
        let slack_url = Self::build_slack_url(&params);
        let threshold = filter_options.get_threshold();
        Self { params, slack_url, threshold }
    }

    /// `{base_url}/{method}?channel={channel}`.
    pub fn build_slack_url(params: &SlackAPIParams) -> (r: String)
        ensures
            r@ == slack_url_of(*params),
    {
        let mut url = params.base_url.clone();
        url.append("/");
        url.append(params.method.as_str());
        url.append("?channel=");
        url.append(params.channel.as_str());
        url
    }

    /// The value of the `Authorization` header of a history request.
    pub fn authorization(&self) -> (r: String)
        ensures
            r@ == authorization_of(self.params.token@),
    {
        let mut header = String::from_str("Bearer ");
        header.append(self.params.token.as_str());
        header
    }

    /// The messages of the answer `response`, in the service's order; where
    /// the request failed, `response` holds the cause.
    pub fn get_conversations_history(&self, response: Result<JsonValue, String>) -> (r: Result<
        Vec<SlackMessage>,
        FetchError,
    >)
        ensures
            result_models(r) == match response {
                Ok(v) => history(v),
                Err(cause) => Err(FetchError::Transport(cause)),
            },
    {
        match response {
            Ok(v) => self.build_slack_messages(v),
            Err(cause) => Err(FetchError::Transport(cause)),
        }
    }

    /// The messages of the history answer `res`, in the service's order; where
    /// something is wrong with it, the error carries `res`.
    pub fn build_slack_messages(&self, res: JsonValue) -> (r: Result<Vec<SlackMessage>, FetchError>)
        ensures
            result_models(r) == history(res),
    {
        match read_history(&res) {
            Ok(messages) => Ok(messages),
            Err(HistoryFault::Rejected) => Err(FetchError::Rejected(res)),
            Err(HistoryFault::MissingMessages) => Err(FetchError::MissingMessages(res)),
            Err(HistoryFault::MalformedMessage(i)) => Err(FetchError::MalformedMessage(i, res)),
        }
    }

    /// The messages of `slack_messages` later than `threshold`, in their order.
    pub fn filter(&self, slack_messages: Vec<SlackMessage>, threshold: Timestamp) -> (r: Vec<
        SlackMessage,
    >)
        ensures
            models(r@) == retained(models(slack_messages@), threshold.micros as int),
    {
        let ghost all = slack_messages@;
        let mut rest = slack_messages;
        let mut kept: Vec<SlackMessage> = Vec::new();
        let ghost mut i: int = 0;
        proof {
            reveal(Seq::filter);
            assert(models(all.take(0)) =~= Seq::<MessageModel>::empty());
            assert(rest@ =~= all.skip(0));
        }
        while rest.len() > 0
            invariant
                0 <= i <= all.len(),
                rest@ == all.skip(i),
                models(kept@) == retained(models(all.take(i)), threshold.micros as int),
            decreases rest.len(),
        {
            let m = rest.remove(0);
            proof {
                reveal(Seq::filter);
                assert(models(all.take(i + 1)) =~= models(all.take(i)).push(m@));
                assert(models(all.take(i + 1)).drop_last() =~= models(all.take(i)));
                lemma_models_push(kept@, m);
            }
            if m.timestamp.micros > threshold.micros {
                kept.push(m);
            }
            proof {
                assert(rest@ =~= all.skip(i + 1));
                i = i + 1;
            }
        }
        assert(all.take(i) =~= all);
        kept
    }

    /// Puts `slack_messages` in the opposite order.
    pub fn reverse(&self, slack_messages: &mut Vec<SlackMessage>)
        ensures
            final(slack_messages)@ == old(slack_messages)@.reverse(),
    {
        let ghost all = slack_messages@;
        let mut reversed: Vec<SlackMessage> = Vec::new();
        while slack_messages.len() > 0
            invariant
                slack_messages@ == all.take(slack_messages@.len() as int),
                reversed@.len() + slack_messages@.len() == all.len(),
                forall|j: int|
                    0 <= j < reversed@.len() ==> reversed@[j] == all[all.len() - 1 - j],
            decreases slack_messages@.len(),
        {
            let ghost n = slack_messages@.len();
            match slack_messages.pop() {
                Some(m) => {
                    reversed.push(m);
                },
                None => {},
            }
            proof {
                assert(slack_messages@ =~= all.take(n - 1));
            }
        }
        *slack_messages = reversed;
        assert(slack_messages@ =~= all.reverse());
    }
}

impl SlackAPI for SlackAPIClient {
    open spec fn cutoff(&self) -> int {
        self.threshold.micros as int
    }

    fn extract(&self, response: Result<JsonValue, String>) -> (r: Result<
        Vec<SlackMessage>,
        FetchError,
    >) {
        let slack_messages = self.get_conversations_history(response)?;
        let mut slack_messages = self.filter(slack_messages, self.threshold);
        let ghost kept = slack_messages@;
        self.reverse(&mut slack_messages);
        proof {
            assert(models(slack_messages@) =~= models(kept).reverse());
        }
        Ok(slack_messages)
    }
}

/// The messages of the history answer `res`, in the service's order, or what
/// is wrong with it.
fn read_history(res: &JsonValue) -> (r: Result<Vec<SlackMessage>, HistoryFault>)
    ensures
        match r {
            Ok(ms) => history_fault(*res) == Ok::<Seq<MessageModel>, HistoryFault>(models(ms@)),
            Err(fault) => history_fault(*res) == Err::<Seq<MessageModel>, HistoryFault>(fault),
        },
{
    match res.get("ok") {
        Some(JsonValue::Bool(ok)) => {
            if !*ok {
                return Err(HistoryFault::Rejected);
            }
        },
        _ => {},
    }
    let items = match res.get("messages") {
        Some(JsonValue::Array(items)) => items,
        _ => {
            return Err(HistoryFault::MissingMessages);
        },
    };
    let mut out: Vec<SlackMessage> = Vec::new();
    let mut i: usize = 0;
    assert(items@.take(0) =~= Seq::<JsonValue>::empty());
    assert(models(out@) =~= Seq::<MessageModel>::empty());
    while i < items.len()
        invariant
            i <= items.len(),
            history_fault(*res) == decode_messages(items@),
            decode_messages(items@.take(i as int)) == Ok::<Seq<MessageModel>, HistoryFault>(
                models(out@),
            ),
        decreases items.len() - i,
    {
        proof {
            assert(items@.take(i + 1).drop_last() =~= items@.take(i as int));
        }
        match message_from(&items[i]) {
            Some(m) => {
                proof {
                    lemma_models_push(out@, m);
                }
                out.push(m);
            },
            None => {
                proof {
                    assert(items@.take(i + 1).last() == items@[i as int]);
                    assert(decode_messages(items@.take(i + 1)) == Err::<Seq<MessageModel>, HistoryFault>(
                        HistoryFault::MalformedMessage(i),
                    ));
                    lemma_decode_error_stays(items@, i + 1);
                }
                return Err(HistoryFault::MalformedMessage(i));
            },
        }
        i = i + 1;
    }
    assert(items@.take(i as int) =~= items@);
    Ok(out)
}

/// The message that the JSON object `v` describes (see `message_of`).
fn message_from(v: &JsonValue) -> (r: Option<SlackMessage>)
    ensures
        match r {
            Some(m) => message_of(*v) == Some(m@),
            None => message_of(*v) is None,
        },
{
    let ts = match v.get("ts") {
        Some(JsonValue::Str(ts)) => ts,
        _ => {
            return None;
        },
    };
    let text = match v.get("text") {
        Some(JsonValue::Str(text)) => text,
        _ => {
            return None;
        },
    };
    match Timestamp::parse(ts.as_str()) {
        Some(timestamp) => Some(SlackMessage { timestamp, text: text.clone() }),
        None => None,
    }
}

} // verus!
