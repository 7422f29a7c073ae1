use vstd::prelude::*;

use crate::ifttt::{ifttt_url_of, payload_of, IFTTTAPIParams, WebhookBatch, IFTTTAPI};
use crate::json::JsonValue;
use crate::slack::{extracted, history, models, retained, FetchError, MessageModel, SlackAPI};

verus! {

/// Whether `batch` fires the trigger of `params` once for each of `messages`,
/// in their order.
pub open spec fn batch_for(batch: WebhookBatch, params: IFTTTAPIParams, messages: Seq<MessageModel>) -> bool {
    &&& batch.url@ == ifttt_url_of(params)
    &&& batch.posts@.len() == messages.len()
    &&& forall|i: int|
        #![trigger batch.posts@[i]]
        0 <= i < messages.len() ==> batch.posts@[i].message@ == messages[i]
            && batch.posts@[i].payload@ == payload_of(messages[i])
}

/// What one run does once the history answer is in, or the request for it
/// failed: an error where the history could not be had; `None` where no
/// message is recent enough, so that the trigger is not fired at all;
/// otherwise the requests that fire it once for each recent message, oldest
/// first.
pub fn plan_kakeibo<S: SlackAPI>(
    slack: &S,
    response: Result<JsonValue, String>,
    ifttt: &IFTTTAPI,
) -> (r: Result<Option<WebhookBatch>, FetchError>)
    ensures
        match r {
            Err(e) => extracted(response, slack.cutoff()) == Err::<Seq<MessageModel>, FetchError>(
                e,
            ),
            Ok(None) => extracted(response, slack.cutoff()) == Ok::<Seq<MessageModel>, FetchError>(
                Seq::empty(),
            ),
            Ok(Some(batch)) => extracted(response, slack.cutoff()) matches Ok(messages)
                && messages.len() > 0 && batch_for(batch, ifttt.params, messages),
        },
{
    let slack_messages = slack.extract(response)?;
    if slack_messages.len() == 0 {
        assert(models(slack_messages@) =~= Seq::<MessageModel>::empty());
        return Ok(None);
    }
    let batch = ifttt.kick(slack_messages);
    Ok(Some(batch))
}

/// An answer without messages leaves nothing to forward, whatever the
/// cutoff: the run ends without firing the trigger.
pub proof fn lemma_empty_history_forwards_nothing(response: JsonValue, threshold: int)
    requires
        history(response) == Ok::<Seq<MessageModel>, FetchError>(Seq::empty()),
    ensures
        extracted(Ok(response), threshold) == Ok::<Seq<MessageModel>, FetchError>(Seq::empty()),
{
    reveal(Seq::filter);
    assert(retained(Seq::<MessageModel>::empty(), threshold) =~= Seq::<MessageModel>::empty());
    assert(Seq::<MessageModel>::empty().reverse() =~= Seq::<MessageModel>::empty());
}

/// An answer whose `messages` member is absent or no array is an error that
/// carries the answer: the run stops before any message is filtered or
/// forwarded.
pub proof fn lemma_malformed_messages_halt(response: JsonValue, threshold: int)
    requires
        !(response.field("messages"@) matches Some(JsonValue::Array(_))),
    ensures
        extracted(Ok(response), threshold) == Err::<Seq<MessageModel>, FetchError>(
            FetchError::Rejected(response),
        ) || extracted(Ok(response), threshold) == Err::<Seq<MessageModel>, FetchError>(
            FetchError::MissingMessages(response),
        ),
{
}

} // verus!
