//! The decisions of the action handlers: what the log line says, which events
//! are alerted and with what message, and which ones trigger the defense.

use vstd::prelude::*;
use vstd::string::*;
use crate::risk::{RiskEvent, RiskLevel, RiskType};
use crate::text::{push_all, push_signed, signed_decimal};

verus! {

/// The name of a level.
pub open spec fn level_name(l: RiskLevel) -> Seq<char> {
    match l {
        RiskLevel::Low => "Low"@,
        RiskLevel::Medium => "Medium"@,
        RiskLevel::High => "High"@,
        RiskLevel::Critical => "Critical"@,
    }
}

/// The name of a kind of risk.
pub open spec fn kind_name(t: RiskType) -> Seq<char> {
    match t {
        RiskType::FlashLoanAttack => "FlashLoanAttack"@,
        RiskType::PriceManipulation => "PriceManipulation"@,
        RiskType::SandwichAttack => "SandwichAttack"@,
        RiskType::OracleManipulation => "OracleManipulation"@,
    }
}

/// The symbol shown before a log line of the level.
pub open spec fn level_badge(l: RiskLevel) -> Seq<char> {
    match l {
        RiskLevel::Critical => "\u{1F6A8}"@,
        RiskLevel::High => "\u{26A0}\u{FE0F}"@,
        RiskLevel::Medium => "\u{26A1}"@,
        RiskLevel::Low => "\u{2139}\u{FE0F}"@,
    }
}

pub fn level_text(l: RiskLevel) -> (r: String)
    ensures
        r@ == level_name(l),
{
    match l {
        RiskLevel::Low => String::from_str("Low"),
        RiskLevel::Medium => String::from_str("Medium"),
        RiskLevel::High => String::from_str("High"),
        RiskLevel::Critical => String::from_str("Critical"),
    }
}

pub fn type_text(t: RiskType) -> (r: String)
    ensures
        r@ == kind_name(t),
{
    match t {
        RiskType::FlashLoanAttack => String::from_str("FlashLoanAttack"),
        RiskType::PriceManipulation => String::from_str("PriceManipulation"),
        RiskType::SandwichAttack => String::from_str("SandwichAttack"),
        RiskType::OracleManipulation => String::from_str("OracleManipulation"),
    }
}

fn badge_text(l: RiskLevel) -> (r: String)
    ensures
        r@ == level_badge(l),
{
    match l {
        RiskLevel::Critical => String::from_str("\u{1F6A8}"),
        RiskLevel::High => String::from_str("\u{26A0}\u{FE0F}"),
        RiskLevel::Medium => String::from_str("\u{26A1}"),
        RiskLevel::Low => String::from_str("\u{2139}\u{FE0F}"),
    }
}

/// The first characters of a digest, eight at most.
pub open spec fn digest_prefix(d: Seq<char>) -> Seq<char> {
    if d.len() <= 8 { d } else { d.subrange(0, 8) }
}

/// Handler that writes each event as one line.
pub struct LogAction;

impl LogAction {
    pub fn new() -> (r: Self) {
        LogAction
    }

    /// The line written for an event.
    pub open spec fn line(e: RiskEvent) -> Seq<char> {
        level_badge(e.risk_level) + " ["@ + level_name(e.risk_level) + "] "@ + kind_name(e.risk_type) + " detected: "@
            + e.description@ + " (tx: "@ + digest_prefix(e.tx_digest@) + ")"@
    }

    /// The line written for an event.
    pub fn format_line(&self, event: &RiskEvent) -> (r: String)
        ensures
            r@ == Self::line(*event),
    {
        let mut s = badge_text(event.risk_level);
        s.append(" [");
        push_all(&mut s, &level_text(event.risk_level));
        s.append("] ");
        push_all(&mut s, &type_text(event.risk_type));
        s.append(" detected: ");
        push_all(&mut s, &event.description);
        s.append(" (tx: ");
        let d = event.tx_digest.as_str();
        let len = d.unicode_len();
        let end = if len <= 8 { len } else { 8 };
        let prefix = d.substring_char(0, end);
        proof {
            if len <= 8 {
                assert(event.tx_digest@.subrange(0, end as int) =~= event.tx_digest@);
            }
        }
        s.append(prefix);
        s.append(")");
        s
    }
}

/// One field of an alert message.
#[derive(Clone, Debug)]
pub struct AlertField {
    pub name: String,
    pub value: String,
    pub inline: bool,
}

/// An alert message, without its timestamp and detail fields.
#[derive(Clone, Debug)]
pub struct AlertMessage {
    pub title: String,
    pub description: String,
    pub color: u32,
    pub fields: Vec<AlertField>,
    pub footer: String,
}

/// The 24-bit colour of a level: red, orange, yellow or blue.
pub open spec fn level_color(l: RiskLevel) -> u32 {
    match l {
        RiskLevel::Critical => 0xFF0000,
        RiskLevel::High => 0xE67E22,
        RiskLevel::Medium => 0xF1C40F,
        RiskLevel::Low => 0x3498DB,
    }
}

/// Handler that sends events at or above a level to a webhook.
pub struct AlertAction {
    pub webhook_url: Option<String>,
    pub min_level: RiskLevel,
}

impl AlertAction {
    pub fn new(webhook_url: Option<String>, min_level: RiskLevel) -> (r: Self)
        ensures
            r.webhook_url == webhook_url,
            r.min_level == min_level,
    {
        AlertAction { webhook_url, min_level }
    }

    /// Whether the event is at least as severe as the minimum level.
    pub fn should_alert(&self, event: &RiskEvent) -> (r: bool)
        ensures
            r == (event.risk_level.spec_rank() >= self.min_level.spec_rank()),
    {
        event.risk_level.at_least(&self.min_level)
    }

    pub fn get_color(&self, level: &RiskLevel) -> (r: u32)
        ensures
            r == level_color(*level),
    {
        match level {
            RiskLevel::Critical => 0xFF0000,
            RiskLevel::High => 0xE67E22,
            RiskLevel::Medium => 0xF1C40F,
            RiskLevel::Low => 0x3498DB,
        }
    }

    /// The message for an event: a title naming its kind, its description,
    /// the colour of its level, inline fields for the transaction (with an
    /// explorer link), the sender and the checkpoint, and a footer with the
    /// level.
    pub fn build_message(&self, event: &RiskEvent) -> (r: AlertMessage)
        ensures
            r.title@ == "\u{1F6A8} "@ + kind_name(event.risk_type) + " Security Alert Detected!"@,
            r.description@ == event.description@,
            r.color == level_color(event.risk_level),
            r.fields@.len() == 3,
            r.fields@[0].name@ == "Transaction"@,
            r.fields@[0].value@ == "[View on Explorer](https://suiscan.xyz/testnet/tx/"@ + event.tx_digest@ + ")"@,
            r.fields@[1].name@ == "Sender"@,
            r.fields@[1].value@ == "`"@ + event.sender@ + "`"@,
            r.fields@[2].name@ == "Checkpoint"@,
            r.fields@[2].value@ == signed_decimal(event.checkpoint as int),
            forall|i: int| 0 <= i < 3 ==> (#[trigger] r.fields@[i]).inline,
            r.footer@ == "Risk Level: "@ + level_name(event.risk_level),
    {
        let mut title = String::from_str("\u{1F6A8} ");
        push_all(&mut title, &type_text(event.risk_type));
        title.append(" Security Alert Detected!");
        let mut link = String::from_str("[View on Explorer](https://suiscan.xyz/testnet/tx/");
        push_all(&mut link, &event.tx_digest);
        link.append(")");
        let mut sender = String::from_str("`");
        push_all(&mut sender, &event.sender);
        sender.append("`");
        let mut checkpoint = String::new();
        push_signed(&mut checkpoint, event.checkpoint);
        assert(checkpoint@ =~= signed_decimal(event.checkpoint as int));
        let mut footer = String::from_str("Risk Level: ");
        push_all(&mut footer, &level_text(event.risk_level));
        let fields = vec![
            AlertField { name: String::from_str("Transaction"), value: link, inline: true },
            AlertField { name: String::from_str("Sender"), value: sender, inline: true },
            AlertField { name: String::from_str("Checkpoint"), value: checkpoint, inline: true },
        ];
        AlertMessage {
            title,
            description: event.description.clone(),
            color: self.get_color(&event.risk_level),
            fields,
            footer,
        }
    }
}

/// Handler that simulates pausing the protocol on severe events.
pub struct MockDefenseAction {
    pub enabled: bool,
}

impl MockDefenseAction {
    pub fn new(enabled: bool) -> (r: Self)
        ensures
            r.enabled == enabled,
    {
        MockDefenseAction { enabled }
    }

    /// Whether the defense reacts: when enabled, to `High` and `Critical` events.
    pub fn should_defend(&self, event: &RiskEvent) -> (r: bool)
        ensures
            r == (self.enabled && (event.risk_level == RiskLevel::High || event.risk_level == RiskLevel::Critical)),
    {
        self.enabled && match event.risk_level {
            RiskLevel::Critical | RiskLevel::High => true,
            _ => false,
        }
    }
}

} // verus!
