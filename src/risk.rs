//! The risk model: levels, attack kinds, the detail bag and the emitted risk event.

use vstd::prelude::*;

verus! {

/// Severity of a detected risk, ordered from `Low` to `Critical`.
#[derive(Clone, Copy, Debug, PartialEq, Eq, Structural)]
pub enum RiskLevel {
    Low,
    Medium,
    High,
    Critical,
}

impl RiskLevel {
    /// The position of the level in the order: 1 for `Low` up to 4 for `Critical`.
    pub open spec fn spec_rank(self) -> u8 {
        match self {
            RiskLevel::Low => 1,
            RiskLevel::Medium => 2,
            RiskLevel::High => 3,
            RiskLevel::Critical => 4,
        }
    }

    pub fn rank(self) -> (r: u8)
        ensures
            r == self.spec_rank(),
    {
        match self {
            RiskLevel::Low => 1,
            RiskLevel::Medium => 2,
            RiskLevel::High => 3,
            RiskLevel::Critical => 4,
        }
    }

    /// Whether this level is at least as severe as `other`.
    pub fn at_least(&self, other: &RiskLevel) -> (r: bool)
        ensures
            r == (self.spec_rank() >= other.spec_rank()),
    {
        self.rank() >= other.rank()
    }
}

/// The kind of attack a risk event describes.
#[derive(Clone, Copy, Debug, PartialEq, Eq, Structural)]
pub enum RiskType {
    FlashLoanAttack,
    PriceManipulation,
    SandwichAttack,
    OracleManipulation,
}

/// A value in the detail bag of a risk event.
#[derive(Clone, Debug)]
pub enum DetailValue {
    Text(String),
    Unsigned(u64),
    Signed(i64),
    Flag(bool),
}

/// The mathematical value of a detail.
pub enum DetailView {
    Text(Seq<char>),
    Unsigned(u64),
    Signed(i64),
    Flag(bool),
}

impl View for DetailValue {
    type V = DetailView;

    open spec fn view(&self) -> DetailView {
        match self {
            DetailValue::Text(s) => DetailView::Text(s@),
            DetailValue::Unsigned(n) => DetailView::Unsigned(*n),
            DetailValue::Signed(n) => DetailView::Signed(*n),
            DetailValue::Flag(b) => DetailView::Flag(*b),
        }
    }
}

/// The mapping that a list of detail entries denotes: a later entry for a key
/// replaces an earlier one.
pub open spec fn entries_map(s: Seq<(String, DetailValue)>) -> Map<Seq<char>, DetailView>
    decreases s.len(),
{
    if s.len() == 0 {
        Map::empty()
    } else {
        entries_map(s.drop_last()).insert(s.last().0@, s.last().1@)
    }
}

/// A classified risk found in one transaction.
#[derive(Clone, Debug)]
pub struct RiskEvent {
    pub risk_type: RiskType,
    pub risk_level: RiskLevel,
    pub tx_digest: String,
    pub sender: String,
    pub checkpoint: i64,
    pub timestamp_ms: i64,
    /// Diagnostic entries, in the order they were attached.
    pub details: Vec<(String, DetailValue)>,
    pub description: String,
}

impl RiskEvent {
    /// The detail bag as a mapping from key to value.
    pub open spec fn detail_map(&self) -> Map<Seq<char>, DetailView> {
        entries_map(self.details@)
    }

    pub fn new(
        risk_type: RiskType,
        risk_level: RiskLevel,
        tx_digest: String,
        sender: String,
        checkpoint: i64,
        timestamp_ms: i64,
        description: String,
    ) -> (r: Self)
        ensures
            r.risk_type == risk_type,
            r.risk_level == risk_level,
            r.tx_digest@ == tx_digest@,
            r.sender@ == sender@,
            r.checkpoint == checkpoint,
            r.timestamp_ms == timestamp_ms,
            r.description@ == description@,
            r.details@.len() == 0,
    {
        RiskEvent {
            risk_type,
            risk_level,
            tx_digest,
            sender,
            checkpoint,
            timestamp_ms,
            details: Vec::new(),
            description,
        }
    }

    /// Attaches a detail; an earlier value under the same key is replaced.
    pub fn with_detail(self, key: String, value: DetailValue) -> (r: Self)
        ensures
            r.detail_map() == self.detail_map().insert(key@, value@),
            r.details@ == self.details@.push((key, value)),
            r.risk_type == self.risk_type,
            r.risk_level == self.risk_level,
            r.tx_digest@ == self.tx_digest@,
            r.sender@ == self.sender@,
            r.checkpoint == self.checkpoint,
            r.timestamp_ms == self.timestamp_ms,
            r.description@ == self.description@,
    {
        let mut r = self;
        r.details.push((key, value));
        proof {
            assert(r.details@.drop_last() =~= self.details@);
        }
        r
    }
}

/// Whether `e` reports a risk of kind `t` at level `l` for the transaction
/// `digest` sent by `sender`, with `score` under the `risk_score` detail.
pub open spec fn reports(
    e: RiskEvent,
    t: RiskType,
    l: RiskLevel,
    digest: Seq<char>,
    sender: Seq<char>,
    checkpoint: i64,
    timestamp_ms: i64,
    score: u32,
) -> bool {
    &&& e.risk_type == t
    &&& e.risk_level == l
    &&& e.tx_digest@ == digest
    &&& e.sender@ == sender
    &&& e.checkpoint == checkpoint
    &&& e.timestamp_ms == timestamp_ms
    &&& e.detail_map().contains_key("risk_score"@)
    &&& e.detail_map()["risk_score"@] == DetailView::Unsigned(score as u64)
}

/// What a detector knows of the transaction it examines.
#[derive(Clone, Debug)]
pub struct DetectionContext {
    pub tx_digest: String,
    pub sender: String,
    pub checkpoint: i64,
    pub timestamp_ms: i64,
}

impl DetectionContext {
    pub fn new(tx_digest: String, sender: String, checkpoint: i64, timestamp_ms: i64) -> (r: Self)
        ensures
            r.tx_digest@ == tx_digest@,
            r.sender@ == sender@,
            r.checkpoint == checkpoint,
            r.timestamp_ms == timestamp_ms,
    {
        DetectionContext { tx_digest, sender, checkpoint, timestamp_ms }
    }
}

} // verus!
