//! The plain records that travel through the gateway.
//!
//! Prices and volumes are not held here: the library decides on names,
//! times and membership, and the program around it carries the numbers.

use vstd::prelude::*;
use vstd::string::*;

verus! {

/// Which of the two upstream feeds a task serves.
#[derive(Debug, Clone, Copy, PartialEq, Eq, Structural)]
pub enum TaskType {
    Kline,
    Tick,
}

impl TaskType {
    /// The label of the task kind in log lines: `KLINE_MGR` or `TICK_MGR`.
    pub open spec fn label_spec(self) -> Seq<char> {
        match self {
            TaskType::Kline => "KLINE_MGR"@,
            TaskType::Tick => "TICK_MGR"@,
        }
    }

    /// The label of the task kind.
    pub fn label(&self) -> (r: String)
        ensures
            r@ == self.label_spec(),
    {
        match self {
            TaskType::Kline => String::from_str("KLINE_MGR"),
            TaskType::Tick => String::from_str("TICK_MGR"),
        }
    }
}

/// A command to the worker of one token: start or stop consuming the
/// upstream stream with the given name.
#[derive(Debug, Clone)]
pub enum SubscriptionCommand {
    Subscribe(String),
    Unsubscribe(String),
}

/// A command with the stream name as a character sequence.
pub enum CommandView {
    Subscribe(Seq<char>),
    Unsubscribe(Seq<char>),
}

impl View for SubscriptionCommand {
    type V = CommandView;

    open spec fn view(&self) -> CommandView {
        match self {
            SubscriptionCommand::Subscribe(s) => CommandView::Subscribe(s@),
            SubscriptionCommand::Unsubscribe(s) => CommandView::Unsubscribe(s@),
        }
    }
}

/// The views of a sequence of commands.
pub open spec fn command_views(v: Seq<SubscriptionCommand>) -> Seq<CommandView> {
    Seq::new(v.len(), |i: int| v[i]@)
}

/// What a snapshot batch does to the client's list.
#[derive(Debug, Clone, PartialEq, Eq)]
pub enum DataAction {
    Snapshot,
    Update,
    Full,
    Unknown,
}

impl DataAction {
    /// The action that a wire tag stands for: `snapshot`, `update` or `full`;
    /// any other tag is `Unknown`.
    pub open spec fn from_tag_spec(tag: Seq<char>) -> DataAction {
        if tag == "snapshot"@ {
            DataAction::Snapshot
        } else if tag == "update"@ {
            DataAction::Update
        } else if tag == "full"@ {
            DataAction::Full
        } else {
            DataAction::Unknown
        }
    }

    /// Reads the action from its wire tag.
    pub fn from_tag(tag: &str) -> (r: DataAction)
        ensures
            r == Self::from_tag_spec(tag@),
    {
        if crate::text::same_text(tag, "snapshot") {
            DataAction::Snapshot
        } else if crate::text::same_text(tag, "update") {
            DataAction::Update
        } else if crate::text::same_text(tag, "full") {
            DataAction::Full
        } else {
            DataAction::Unknown
        }
    }
}

/// The text of a narrative in the languages that the service offers.
#[derive(Debug)]
pub struct NarrativeText {
    pub en: Option<String>,
    pub cn: Option<String>,
}

/// The payload of a narrative reply.
#[derive(Debug)]
pub struct NarrativeData {
    pub text: Option<NarrativeText>,
}

/// A reply of the narrative service.
#[derive(Debug)]
pub struct NarrativeResponse {
    pub code: String,
    pub data: Option<NarrativeData>,
    pub success: bool,
}

/// What a client names when it subscribes to, leaves, or asks the history of
/// the candles of one token.
#[derive(Debug, Clone)]
pub struct KlineSubscribePayload {
    pub address: String,
    pub chain: String,
    pub interval: String,
}

/// The envelope of every upstream frame: the stream's name and its data.
#[derive(Debug)]
pub struct BinanceStreamWrapper<T> {
    pub stream: String,
    pub data: T,
}

/// The data of a candle frame.
#[derive(Debug)]
pub struct BinanceKlineDataWrapper {
    pub kline_data: BinanceKlineDetail,
}

/// The six values of a candle frame, as the texts they arrive as: open, high,
/// low, close, volume, and the time in milliseconds.
#[derive(Debug)]
pub struct BinanceKlineDetail {
    pub values: (String, String, String, String, String, String),
}

/// The query of an image request.
#[derive(Debug)]
pub struct ImageProxyQuery {
    pub url: String,
}

/// What is recorded beside a cached image.
pub struct CacheMeta {
    pub content_type: String,
}

/// The four rules that raise an alert.
#[derive(Debug, Clone, Copy, PartialEq, Eq, Structural)]
pub enum AlertType {
    Volume1m,
    Volume5m,
    PriceChange1m,
    PriceChange5m,
}

impl AlertType {
    /// The name of the rule on the wire and in cooldown keys.
    pub open spec fn tag_spec(self) -> Seq<char> {
        match self {
            AlertType::Volume1m => "volume1m"@,
            AlertType::Volume5m => "volume5m"@,
            AlertType::PriceChange1m => "priceChange1m"@,
            AlertType::PriceChange5m => "priceChange5m"@,
        }
    }

    /// The name of the rule.
    pub fn tag(&self) -> (r: &'static str)
        ensures
            r@ == self.tag_spec(),
    {
        match self {
            AlertType::Volume1m => "volume1m",
            AlertType::Volume5m => "volume5m",
            AlertType::PriceChange1m => "priceChange1m",
            AlertType::PriceChange5m => "priceChange5m",
        }
    }
}

/// One fired alert, as it is logged and sent to clients.
#[derive(Debug, Clone)]
pub struct AlertLogEntry {
    pub id: String,
    pub chain: String,
    pub contract_address: String,
    pub symbol: String,
    pub message: String,
    pub timestamp: i64,
    pub alert_type: AlertType,
}

} // verus!
