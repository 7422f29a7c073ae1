use vstd::prelude::*;

use crate::slack::{MessageModel, SlackMessage};
use crate::timestamp::decimal_text;

verus! {

/// Where webhook triggers live.
pub const IFTTT_BASE_URL: &'static str = "https://maker.ifttt.com/trigger";

/// The lower-case hexadecimal digit of `d`, for `d < 16`.
pub open spec fn hex_digit(d: nat) -> char {
    if d < 10 {
        ((d + 48) as u32) as char
    } else {
        ((d + 87) as u32) as char
    }
}

/// How a JSON string literal writes the character `c`: a quote and a
/// backslash behind a backslash; backspace, tab, line feed, form feed and
/// carriage return as `\b`, `\t`, `\n`, `\f`, `\r`; the other characters
/// below 0x20 as `\u00` and two lower-case hexadecimal digits; any other
/// character as itself.
pub open spec fn json_escaped_char(c: char) -> Seq<char> {
    let code = c as u32;
    if c == '"' {
        seq!['\\', '"']
    } else if c == '\\' {
        seq!['\\', '\\']
    } else if code == 0x08 {
        seq!['\\', 'b']
    } else if code == 0x09 {
        seq!['\\', 't']
    } else if code == 0x0A {
        seq!['\\', 'n']
    } else if code == 0x0C {
        seq!['\\', 'f']
    } else if code == 0x0D {
        seq!['\\', 'r']
    } else if code < 0x20 {
        seq!['\\', 'u', '0', '0', hex_digit((code / 16) as nat), hex_digit((code % 16) as nat)]
    } else {
        seq![c]
    }
}

/// The characters of `s`, each written as in a JSON string literal.
pub open spec fn json_escaped(s: Seq<char>) -> Seq<char>
    decreases s.len(),
{
    if s.len() == 0 {
        Seq::empty()
    } else {
        json_escaped(s.drop_last()) + json_escaped_char(s.last())
    }
}

/// The JSON string literal of the text `s`: `s` escaped, between quotes.
pub open spec fn json_literal(s: Seq<char>) -> Seq<char> {
    seq!['"'] + json_escaped(s) + seq!['"']
}

/// Relies on serde_json's `Display` of `Value::String`: the compact JSON text
/// of a string value is its literal, escaped as `json_escaped_char` says (the
/// escape table of serde_json's serializer). Writing into a `String` cannot
/// fail.
#[verifier::external_body]
fn json_string_literal(s: &str) -> (r: String)
    ensures
        r@ == json_literal(s@),
{
    serde_json::Value::String(s.to_string()).to_string()
}

/// Where the trigger of `params` is: `{IFTTT_BASE_URL}/{event_name}/with/key/{token}`.
pub open spec fn ifttt_url_of(params: IFTTTAPIParams) -> Seq<char> {
    IFTTT_BASE_URL@ + "/"@ + params.event_name@ + "/with/key/"@ + params.token@
}

/// The body posted for a message: a JSON object whose `value1` is the
/// message's time as decimal text and whose `value2` is its text.
pub open spec fn payload_of(m: MessageModel) -> Seq<char> {
    "{\"value1\":"@ + json_literal(decimal_text(m.timestamp)) + ",\"value2\":"@ + json_literal(m.text)
        + "}"@
}

/// Which webhook trigger is fired, and with which key.
pub struct IFTTTAPIParams {
    pub event_name: String,
    pub token: String,
}

impl IFTTTAPIParams {
    pub fn new(ifttt_event_name: String, ifttt_webhook_token: String) -> (r: Self)
        ensures
            r.event_name == ifttt_event_name,
            r.token == ifttt_webhook_token,
    {
        Self { event_name: ifttt_event_name, token: ifttt_webhook_token }
    }
}

/// One request to the webhook trigger: the message it is for and its body.
pub struct WebhookPost {
    pub message: SlackMessage,
    pub payload: String,
}

/// The requests of one run: all go to `url`, one after the other in the
/// order of `posts`, each with the header `Content-Type: application/json`.
pub struct WebhookBatch {
    pub url: String,
    pub posts: Vec<WebhookPost>,
}

/// Fires a webhook trigger for messages; the requests are sent by the caller.
pub struct IFTTTAPI {
    pub params: IFTTTAPIParams,
}

impl IFTTTAPI {
    pub fn new(params: IFTTTAPIParams) -> (r: Self)
        ensures
            r.params == params,
    {
        Self { params }
    }

    /// The requests that fire the trigger once for each of `slack_messages`,
    /// in their order.
    pub fn kick(&self, slack_messages: Vec<SlackMessage>) -> (r: WebhookBatch)
        ensures
            r.url@ == ifttt_url_of(self.params),
            r.posts@.len() == slack_messages@.len(),
            forall|i: int|
                #![trigger r.posts@[i]]
                0 <= i < r.posts@.len() ==> r.posts@[i].message == slack_messages@[i]
                    && r.posts@[i].payload@ == payload_of(slack_messages@[i]@),
    {
        let url = self.build_ifttt_url();
        let ghost all = slack_messages@;
        let mut rest = slack_messages;
        let mut posts: Vec<WebhookPost> = Vec::new();
        assert(rest@ =~= all.skip(0));
        while rest.len() > 0
            invariant
                posts@.len() <= all.len(),
                rest@ == all.skip(posts@.len() as int),
                forall|i: int|
                    #![trigger posts@[i]]
                    0 <= i < posts@.len() ==> posts@[i].message == all[i] && posts@[i].payload@
                        == payload_of(all[i]@),
            decreases rest.len(),
        {
            let m = rest.remove(0);
            let payload = self.build_payload(&m);
            proof {
                assert(rest@ =~= all.skip(posts@.len() as int + 1));
            }
            posts.push(WebhookPost { message: m, payload });
        }
        WebhookBatch { url, posts }
    }

    /// `{IFTTT_BASE_URL}/{event_name}/with/key/{token}`.
    pub fn build_ifttt_url(&self) -> (r: String)
        ensures
            r@ == ifttt_url_of(self.params),
    {
        let mut url = String::from_str(IFTTT_BASE_URL);
        url.append("/");
        url.append(self.params.event_name.as_str());
        url.append("/with/key/");
        url.append(self.params.token.as_str());
        url
    }

    /// The body posted for `m` (see `payload_of`).
    pub fn build_payload(&self, m: &SlackMessage) -> (r: String)
        ensures
            r@ == payload_of(m@),
    {
        let timestamp = m.timestamp.to_decimal_string();
        let mut payload = String::from_str("{\"value1\":");
        payload.append(json_string_literal(timestamp.as_str()).as_str());
        payload.append(",\"value2\":");
        payload.append(json_string_literal(m.text.as_str()).as_str());
        payload.append("}");
        payload
    }
}

} // verus!
