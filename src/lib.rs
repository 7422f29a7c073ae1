//! Forwards recent messages of a chat channel to a webhook trigger.
//!
//! The library holds the logic of one run: the history response is decoded,
//! messages older than a cutoff are dropped, the rest are put in chronological
//! order, and one webhook request is prepared for each of them. Sending and
//! receiving over the network is left to the caller.
pub mod handler;
pub mod ifttt;
pub mod json;
pub mod slack;
pub mod timestamp;

pub use handler::plan_kakeibo;
pub use ifttt::{IFTTTAPIParams, WebhookBatch, WebhookPost, IFTTTAPI};
pub use json::JsonValue;
pub use slack::{
    FetchError, FilterSlackMessageOptions, HistoryFault, SlackAPI, SlackAPIClient, SlackAPIParams, SlackMessage,
};
pub use timestamp::Timestamp;
