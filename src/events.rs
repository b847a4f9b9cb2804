//! Typed contract events: the records emitted by the DEX, flash-loan, oracle and
//! lending contracts, their decoding from raw event payloads, and the per
//! transaction collection of decoded records.

use vstd::prelude::*;
use vstd::string::*;
use crate::codec::{
    bool_byte, id_at, id_bytes, is_bool_byte, lemma_id_round_trip, lemma_subrange_of_tail, lemma_text_round_trip,
    lemma_u64_at_round_trip, read_id, read_text, read_u64, text_at, text_bytes, u64_at, u64_bytes,
    ObjectId, MAX_SEQUENCE_LENGTH,
};

verus! {

/// One event emitted by a transaction, as delivered by the chain.
#[derive(Clone, Debug)]
pub struct ContractEvent {
    /// The event's struct name, such as `SwapExecuted`.
    pub name: String,
    /// The package that emitted it, as text.
    pub package_id: String,
    /// The binary payload.
    pub contents: Vec<u8>,
    /// The event's type parameters, as text.
    pub type_params: Vec<String>,
}

/// The records this library knows how to decode.
#[derive(Clone, Copy, Debug, PartialEq, Eq, Structural)]
pub enum EventKind {
    PoolCreated,
    SwapExecuted,
    LiquidityAdded,
    FlashLoanTaken,
    FlashLoanRepaid,
    TWAPUpdated,
    PriceDeviationDetected,
    SupplyEvent,
    BorrowEvent,
    RepayEvent,
    LiquidationEvent,
    AccrueInterestEvent,
}

/// The kind of record an event name denotes.
pub open spec fn kind_of(name: Seq<char>) -> Option<EventKind> {
    if name == "PoolCreated"@ {
        Some(EventKind::PoolCreated)
    } else if name == "SwapExecuted"@ {
        Some(EventKind::SwapExecuted)
    } else if name == "LiquidityAdded"@ {
        Some(EventKind::LiquidityAdded)
    } else if name == "FlashLoanTaken"@ {
        Some(EventKind::FlashLoanTaken)
    } else if name == "FlashLoanRepaid"@ {
        Some(EventKind::FlashLoanRepaid)
    } else if name == "TWAPUpdated"@ {
        Some(EventKind::TWAPUpdated)
    } else if name == "PriceDeviationDetected"@ {
        Some(EventKind::PriceDeviationDetected)
    } else if name == "SupplyEvent"@ {
        Some(EventKind::SupplyEvent)
    } else if name == "BorrowEvent"@ {
        Some(EventKind::BorrowEvent)
    } else if name == "RepayEvent"@ {
        Some(EventKind::RepayEvent)
    } else if name == "LiquidationEvent"@ {
        Some(EventKind::LiquidationEvent)
    } else if name == "AccrueInterestEvent"@ {
        Some(EventKind::AccrueInterestEvent)
    } else {
        None
    }
}

/// The kind of record an event name denotes; unknown names have none.
pub fn classify(name: &String) -> (r: Option<EventKind>)
    ensures
        r == kind_of(name@),
{
    if *name == String::from_str("PoolCreated") {
        Some(EventKind::PoolCreated)
    } else if *name == String::from_str("SwapExecuted") {
        Some(EventKind::SwapExecuted)
    } else if *name == String::from_str("LiquidityAdded") {
        Some(EventKind::LiquidityAdded)
    } else if *name == String::from_str("FlashLoanTaken") {
        Some(EventKind::FlashLoanTaken)
    } else if *name == String::from_str("FlashLoanRepaid") {
        Some(EventKind::FlashLoanRepaid)
    } else if *name == String::from_str("TWAPUpdated") {
        Some(EventKind::TWAPUpdated)
    } else if *name == String::from_str("PriceDeviationDetected") {
        Some(EventKind::PriceDeviationDetected)
    } else if *name == String::from_str("SupplyEvent") {
        Some(EventKind::SupplyEvent)
    } else if *name == String::from_str("BorrowEvent") {
        Some(EventKind::BorrowEvent)
    } else if *name == String::from_str("RepayEvent") {
        Some(EventKind::RepayEvent)
    } else if *name == String::from_str("LiquidationEvent") {
        Some(EventKind::LiquidationEvent)
    } else if *name == String::from_str("AccrueInterestEvent") {
        Some(EventKind::AccrueInterestEvent)
    } else {
        None
    }
}

/// Pool creation.
#[derive(Clone, Copy, Debug, PartialEq, Eq, Structural)]
pub struct PoolCreated {
    pub pool_id: ObjectId,
    pub initial_a: u64,
    pub initial_b: u64,
    pub creator: ObjectId,
}

impl PoolCreated {
    /// The name under which the event is emitted.
    pub fn event_name() -> (r: &'static str)
        ensures
            r@ == "PoolCreated"@,
    {
        "PoolCreated"
    }

    /// The record that a payload holds, if it is well formed.
    pub open spec fn parse(b: Seq<u8>) -> Option<Self> {
        if b.len() == 80 {
            Some(PoolCreated {
                pool_id: id_at(b, 0),
                initial_a: u64_at(b, 32),
                initial_b: u64_at(b, 40),
                creator: id_at(b, 48),
            })
        } else {
            None
        }
    }

    /// The canonical payload of the record.
    pub open spec fn encoding(self) -> Seq<u8> {
        id_bytes(self.pool_id)
            + u64_bytes(self.initial_a)
            + u64_bytes(self.initial_b)
            + id_bytes(self.creator)
    }

    /// The record an event holds: its payload, when the event carries this name.
    pub open spec fn of_event(ev: ContractEvent) -> Option<Self> {
        if kind_of(ev.name@) == Some(EventKind::PoolCreated) {
            Self::parse(ev.contents@)
        } else {
            None
        }
    }

    pub fn decode(b: &[u8]) -> (r: Option<Self>)
        ensures
            r == Self::parse(b@),
    {
        if b.len() != 80 {
            return None;
        }
        Some(PoolCreated {
            pool_id: read_id(b, 0),
            initial_a: read_u64(b, 32),
            initial_b: read_u64(b, 40),
            creator: read_id(b, 48),
        })
    }

    pub fn from_event(ev: &ContractEvent) -> (r: Option<Self>)
        ensures
            r == Self::of_event(*ev),
    {
        if matches!(classify(&ev.name), Some(EventKind::PoolCreated)) {
            Self::decode(ev.contents.as_slice())
        } else {
            None
        }
    }

    /// Decoding the canonical payload of a record gives the record back.
    #[verifier::rlimit(60)]
    pub proof fn lemma_round_trip(self)
        ensures
            Self::parse(self.encoding()) == Some(self),
    {
        let b = self.encoding();
        assert(b.len() == 80);
        assert(b.subrange(0, 32) =~= id_bytes(self.pool_id));
        lemma_id_round_trip(b, 0, self.pool_id);
        assert(b.subrange(32, 40) =~= u64_bytes(self.initial_a));
        lemma_u64_at_round_trip(b, 32, self.initial_a);
        assert(b.subrange(40, 48) =~= u64_bytes(self.initial_b));
        lemma_u64_at_round_trip(b, 40, self.initial_b);
        assert(b.subrange(48, 80) =~= id_bytes(self.creator));
        lemma_id_round_trip(b, 48, self.creator);
    }
}

/// A swap in a pool; the reserves are those after the swap and the price impact is in basis points.
#[derive(Clone, Copy, Debug, PartialEq, Eq, Structural)]
pub struct SwapExecuted {
    pub pool_id: ObjectId,
    pub sender: ObjectId,
    pub token_in: bool,
    pub amount_in: u64,
    pub amount_out: u64,
    pub fee_amount: u64,
    pub reserve_a: u64,
    pub reserve_b: u64,
    pub price_impact: u64,
}

impl SwapExecuted {
    /// The name under which the event is emitted.
    pub fn event_name() -> (r: &'static str)
        ensures
            r@ == "SwapExecuted"@,
    {
        "SwapExecuted"
    }

    /// The record that a payload holds, if it is well formed.
    pub open spec fn parse(b: Seq<u8>) -> Option<Self> {
        if b.len() == 113 && is_bool_byte(b[64]) {
            Some(SwapExecuted {
                pool_id: id_at(b, 0),
                sender: id_at(b, 32),
                token_in: b[64] == 1,
                amount_in: u64_at(b, 65),
                amount_out: u64_at(b, 73),
                fee_amount: u64_at(b, 81),
                reserve_a: u64_at(b, 89),
                reserve_b: u64_at(b, 97),
                price_impact: u64_at(b, 105),
            })
        } else {
            None
        }
    }

    /// The canonical payload of the record.
    pub open spec fn encoding(self) -> Seq<u8> {
        id_bytes(self.pool_id)
            + id_bytes(self.sender)
            + seq![bool_byte(self.token_in)]
            + u64_bytes(self.amount_in)
            + u64_bytes(self.amount_out)
            + u64_bytes(self.fee_amount)
            + u64_bytes(self.reserve_a)
            + u64_bytes(self.reserve_b)
            + u64_bytes(self.price_impact)
    }

    /// The record an event holds: its payload, when the event carries this name.
    pub open spec fn of_event(ev: ContractEvent) -> Option<Self> {
        if kind_of(ev.name@) == Some(EventKind::SwapExecuted) {
            Self::parse(ev.contents@)
        } else {
            None
        }
    }

    pub fn decode(b: &[u8]) -> (r: Option<Self>)
        ensures
            r == Self::parse(b@),
    {
        if b.len() != 113 || b[64] > 1 {
            return None;
        }
        Some(SwapExecuted {
            pool_id: read_id(b, 0),
            sender: read_id(b, 32),
            token_in: b[64] == 1,
            amount_in: read_u64(b, 65),
            amount_out: read_u64(b, 73),
            fee_amount: read_u64(b, 81),
            reserve_a: read_u64(b, 89),
            reserve_b: read_u64(b, 97),
            price_impact: read_u64(b, 105),
        })
    }

    pub fn from_event(ev: &ContractEvent) -> (r: Option<Self>)
        ensures
            r == Self::of_event(*ev),
    {
        if matches!(classify(&ev.name), Some(EventKind::SwapExecuted)) {
            Self::decode(ev.contents.as_slice())
        } else {
            None
        }
    }

    /// Decoding the canonical payload of a record gives the record back.
    #[verifier::rlimit(60)]
    pub proof fn lemma_round_trip(self)
        ensures
            Self::parse(self.encoding()) == Some(self),
    {
        let b = self.encoding();
        assert(b.len() == 113);
        assert(b.subrange(0, 32) =~= id_bytes(self.pool_id));
        lemma_id_round_trip(b, 0, self.pool_id);
        assert(b.subrange(32, 64) =~= id_bytes(self.sender));
        lemma_id_round_trip(b, 32, self.sender);
        assert(b[64] == bool_byte(self.token_in));
        assert(b.subrange(65, 73) =~= u64_bytes(self.amount_in));
        lemma_u64_at_round_trip(b, 65, self.amount_in);
        assert(b.subrange(73, 81) =~= u64_bytes(self.amount_out));
        lemma_u64_at_round_trip(b, 73, self.amount_out);
        assert(b.subrange(81, 89) =~= u64_bytes(self.fee_amount));
        lemma_u64_at_round_trip(b, 81, self.fee_amount);
        assert(b.subrange(89, 97) =~= u64_bytes(self.reserve_a));
        lemma_u64_at_round_trip(b, 89, self.reserve_a);
        assert(b.subrange(97, 105) =~= u64_bytes(self.reserve_b));
        lemma_u64_at_round_trip(b, 97, self.reserve_b);
        assert(b.subrange(105, 113) =~= u64_bytes(self.price_impact));
        lemma_u64_at_round_trip(b, 105, self.price_impact);
    }
}

/// Liquidity added to a pool.
#[derive(Clone, Copy, Debug, PartialEq, Eq, Structural)]
pub struct LiquidityAdded {
    pub pool_id: ObjectId,
    pub provider: ObjectId,
    pub amount_a: u64,
    pub amount_b: u64,
    pub liquidity_minted: u64,
}

impl LiquidityAdded {
    /// The name under which the event is emitted.
    pub fn event_name() -> (r: &'static str)
        ensures
            r@ == "LiquidityAdded"@,
    {
        "LiquidityAdded"
    }

    /// The record that a payload holds, if it is well formed.
    pub open spec fn parse(b: Seq<u8>) -> Option<Self> {
        if b.len() == 88 {
            Some(LiquidityAdded {
                pool_id: id_at(b, 0),
                provider: id_at(b, 32),
                amount_a: u64_at(b, 64),
                amount_b: u64_at(b, 72),
                liquidity_minted: u64_at(b, 80),
            })
        } else {
            None
        }
    }

    /// The canonical payload of the record.
    pub open spec fn encoding(self) -> Seq<u8> {
        id_bytes(self.pool_id)
            + id_bytes(self.provider)
            + u64_bytes(self.amount_a)
            + u64_bytes(self.amount_b)
            + u64_bytes(self.liquidity_minted)
    }

    /// The record an event holds: its payload, when the event carries this name.
    pub open spec fn of_event(ev: ContractEvent) -> Option<Self> {
        if kind_of(ev.name@) == Some(EventKind::LiquidityAdded) {
            Self::parse(ev.contents@)
        } else {
            None
        }
    }

    pub fn decode(b: &[u8]) -> (r: Option<Self>)
        ensures
            r == Self::parse(b@),
    {
        if b.len() != 88 {
            return None;
        }
        Some(LiquidityAdded {
            pool_id: read_id(b, 0),
            provider: read_id(b, 32),
            amount_a: read_u64(b, 64),
            amount_b: read_u64(b, 72),
            liquidity_minted: read_u64(b, 80),
        })
    }

    pub fn from_event(ev: &ContractEvent) -> (r: Option<Self>)
        ensures
            r == Self::of_event(*ev),
    {
        if matches!(classify(&ev.name), Some(EventKind::LiquidityAdded)) {
            Self::decode(ev.contents.as_slice())
        } else {
            None
        }
    }

    /// Decoding the canonical payload of a record gives the record back.
    #[verifier::rlimit(60)]
    pub proof fn lemma_round_trip(self)
        ensures
            Self::parse(self.encoding()) == Some(self),
    {
        let b = self.encoding();
        assert(b.len() == 88);
        assert(b.subrange(0, 32) =~= id_bytes(self.pool_id));
        lemma_id_round_trip(b, 0, self.pool_id);
        assert(b.subrange(32, 64) =~= id_bytes(self.provider));
        lemma_id_round_trip(b, 32, self.provider);
        assert(b.subrange(64, 72) =~= u64_bytes(self.amount_a));
        lemma_u64_at_round_trip(b, 64, self.amount_a);
        assert(b.subrange(72, 80) =~= u64_bytes(self.amount_b));
        lemma_u64_at_round_trip(b, 72, self.amount_b);
        assert(b.subrange(80, 88) =~= u64_bytes(self.liquidity_minted));
        lemma_u64_at_round_trip(b, 80, self.liquidity_minted);
    }
}

/// A flash loan borrowed.
#[derive(Clone, Copy, Debug, PartialEq, Eq, Structural)]
pub struct FlashLoanTaken {
    pub pool_id: ObjectId,
    pub borrower: ObjectId,
    pub amount: u64,
    pub fee: u64,
}

impl FlashLoanTaken {
    /// The name under which the event is emitted.
    pub fn event_name() -> (r: &'static str)
        ensures
            r@ == "FlashLoanTaken"@,
    {
        "FlashLoanTaken"
    }

    /// The record that a payload holds, if it is well formed.
    pub open spec fn parse(b: Seq<u8>) -> Option<Self> {
        if b.len() == 80 {
            Some(FlashLoanTaken {
                pool_id: id_at(b, 0),
                borrower: id_at(b, 32),
                amount: u64_at(b, 64),
                fee: u64_at(b, 72),
            })
        } else {
            None
        }
    }

    /// The canonical payload of the record.
    pub open spec fn encoding(self) -> Seq<u8> {
        id_bytes(self.pool_id)
            + id_bytes(self.borrower)
            + u64_bytes(self.amount)
            + u64_bytes(self.fee)
    }

    /// The record an event holds: its payload, when the event carries this name.
    pub open spec fn of_event(ev: ContractEvent) -> Option<Self> {
        if kind_of(ev.name@) == Some(EventKind::FlashLoanTaken) {
            Self::parse(ev.contents@)
        } else {
            None
        }
    }

    pub fn decode(b: &[u8]) -> (r: Option<Self>)
        ensures
            r == Self::parse(b@),
    {
        if b.len() != 80 {
            return None;
        }
        Some(FlashLoanTaken {
            pool_id: read_id(b, 0),
            borrower: read_id(b, 32),
            amount: read_u64(b, 64),
            fee: read_u64(b, 72),
        })
    }

    pub fn from_event(ev: &ContractEvent) -> (r: Option<Self>)
        ensures
            r == Self::of_event(*ev),
    {
        if matches!(classify(&ev.name), Some(EventKind::FlashLoanTaken)) {
            Self::decode(ev.contents.as_slice())
        } else {
            None
        }
    }

    /// Decoding the canonical payload of a record gives the record back.
    #[verifier::rlimit(60)]
    pub proof fn lemma_round_trip(self)
        ensures
            Self::parse(self.encoding()) == Some(self),
    {
        let b = self.encoding();
        assert(b.len() == 80);
        assert(b.subrange(0, 32) =~= id_bytes(self.pool_id));
        lemma_id_round_trip(b, 0, self.pool_id);
        assert(b.subrange(32, 64) =~= id_bytes(self.borrower));
        lemma_id_round_trip(b, 32, self.borrower);
        assert(b.subrange(64, 72) =~= u64_bytes(self.amount));
        lemma_u64_at_round_trip(b, 64, self.amount);
        assert(b.subrange(72, 80) =~= u64_bytes(self.fee));
        lemma_u64_at_round_trip(b, 72, self.fee);
    }
}

/// A flash loan repaid.
#[derive(Clone, Copy, Debug, PartialEq, Eq, Structural)]
pub struct FlashLoanRepaid {
    pub pool_id: ObjectId,
    pub borrower: ObjectId,
    pub amount: u64,
    pub fee: u64,
}

impl FlashLoanRepaid {
    /// The name under which the event is emitted.
    pub fn event_name() -> (r: &'static str)
        ensures
            r@ == "FlashLoanRepaid"@,
    {
        "FlashLoanRepaid"
    }

    /// The record that a payload holds, if it is well formed.
    pub open spec fn parse(b: Seq<u8>) -> Option<Self> {
        if b.len() == 80 {
            Some(FlashLoanRepaid {
                pool_id: id_at(b, 0),
                borrower: id_at(b, 32),
                amount: u64_at(b, 64),
                fee: u64_at(b, 72),
            })
        } else {
            None
        }
    }

    /// The canonical payload of the record.
    pub open spec fn encoding(self) -> Seq<u8> {
        id_bytes(self.pool_id)
            + id_bytes(self.borrower)
            + u64_bytes(self.amount)
            + u64_bytes(self.fee)
    }

    /// The record an event holds: its payload, when the event carries this name.
    pub open spec fn of_event(ev: ContractEvent) -> Option<Self> {
        if kind_of(ev.name@) == Some(EventKind::FlashLoanRepaid) {
            Self::parse(ev.contents@)
        } else {
            None
        }
    }

    pub fn decode(b: &[u8]) -> (r: Option<Self>)
        ensures
            r == Self::parse(b@),
    {
        if b.len() != 80 {
            return None;
        }
        Some(FlashLoanRepaid {
            pool_id: read_id(b, 0),
            borrower: read_id(b, 32),
            amount: read_u64(b, 64),
            fee: read_u64(b, 72),
        })
    }

    pub fn from_event(ev: &ContractEvent) -> (r: Option<Self>)
        ensures
            r == Self::of_event(*ev),
    {
        if matches!(classify(&ev.name), Some(EventKind::FlashLoanRepaid)) {
            Self::decode(ev.contents.as_slice())
        } else {
            None
        }
    }

    /// Decoding the canonical payload of a record gives the record back.
    #[verifier::rlimit(60)]
    pub proof fn lemma_round_trip(self)
        ensures
            Self::parse(self.encoding()) == Some(self),
    {
        let b = self.encoding();
        assert(b.len() == 80);
        assert(b.subrange(0, 32) =~= id_bytes(self.pool_id));
        lemma_id_round_trip(b, 0, self.pool_id);
        assert(b.subrange(32, 64) =~= id_bytes(self.borrower));
        lemma_id_round_trip(b, 32, self.borrower);
        assert(b.subrange(64, 72) =~= u64_bytes(self.amount));
        lemma_u64_at_round_trip(b, 64, self.amount);
        assert(b.subrange(72, 80) =~= u64_bytes(self.fee));
        lemma_u64_at_round_trip(b, 72, self.fee);
    }
}

/// A supply to a lending market.
#[derive(Clone, Copy, Debug, PartialEq, Eq, Structural)]
pub struct SupplyEvent {
    pub market_id: ObjectId,
    pub supplier: ObjectId,
    pub amount: u64,
    pub c_tokens_minted: u64,
    pub exchange_rate: u64,
    pub timestamp: u64,
}

impl SupplyEvent {
    /// The name under which the event is emitted.
    pub fn event_name() -> (r: &'static str)
        ensures
            r@ == "SupplyEvent"@,
    {
        "SupplyEvent"
    }

    /// The record that a payload holds, if it is well formed.
    pub open spec fn parse(b: Seq<u8>) -> Option<Self> {
        if b.len() == 96 {
            Some(SupplyEvent {
                market_id: id_at(b, 0),
                supplier: id_at(b, 32),
                amount: u64_at(b, 64),
                c_tokens_minted: u64_at(b, 72),
                exchange_rate: u64_at(b, 80),
                timestamp: u64_at(b, 88),
            })
        } else {
            None
        }
    }

    /// The canonical payload of the record.
    pub open spec fn encoding(self) -> Seq<u8> {
        id_bytes(self.market_id)
            + id_bytes(self.supplier)
            + u64_bytes(self.amount)
            + u64_bytes(self.c_tokens_minted)
            + u64_bytes(self.exchange_rate)
            + u64_bytes(self.timestamp)
    }

    /// The record an event holds: its payload, when the event carries this name.
    pub open spec fn of_event(ev: ContractEvent) -> Option<Self> {
        if kind_of(ev.name@) == Some(EventKind::SupplyEvent) {
            Self::parse(ev.contents@)
        } else {
            None
        }
    }

    pub fn decode(b: &[u8]) -> (r: Option<Self>)
        ensures
            r == Self::parse(b@),
    {
        if b.len() != 96 {
            return None;
        }
        Some(SupplyEvent {
            market_id: read_id(b, 0),
            supplier: read_id(b, 32),
            amount: read_u64(b, 64),
            c_tokens_minted: read_u64(b, 72),
            exchange_rate: read_u64(b, 80),
            timestamp: read_u64(b, 88),
        })
    }

    pub fn from_event(ev: &ContractEvent) -> (r: Option<Self>)
        ensures
            r == Self::of_event(*ev),
    {
        if matches!(classify(&ev.name), Some(EventKind::SupplyEvent)) {
            Self::decode(ev.contents.as_slice())
        } else {
            None
        }
    }

    /// Decoding the canonical payload of a record gives the record back.
    #[verifier::rlimit(60)]
    pub proof fn lemma_round_trip(self)
        ensures
            Self::parse(self.encoding()) == Some(self),
    {
        let b = self.encoding();
        assert(b.len() == 96);
        assert(b.subrange(0, 32) =~= id_bytes(self.market_id));
        lemma_id_round_trip(b, 0, self.market_id);
        assert(b.subrange(32, 64) =~= id_bytes(self.supplier));
        lemma_id_round_trip(b, 32, self.supplier);
        assert(b.subrange(64, 72) =~= u64_bytes(self.amount));
        lemma_u64_at_round_trip(b, 64, self.amount);
        assert(b.subrange(72, 80) =~= u64_bytes(self.c_tokens_minted));
        lemma_u64_at_round_trip(b, 72, self.c_tokens_minted);
        assert(b.subrange(80, 88) =~= u64_bytes(self.exchange_rate));
        lemma_u64_at_round_trip(b, 80, self.exchange_rate);
        assert(b.subrange(88, 96) =~= u64_bytes(self.timestamp));
        lemma_u64_at_round_trip(b, 88, self.timestamp);
    }
}

/// A borrow from a lending market, with the oracle price it used and the position's health factor (10000 is 1.0).
#[derive(Clone, Copy, Debug, PartialEq, Eq, Structural)]
pub struct BorrowEvent {
    pub market_id: ObjectId,
    pub borrower: ObjectId,
    pub position_id: ObjectId,
    pub borrow_amount: u64,
    pub collateral_value: u64,
    pub oracle_price: u64,
    pub health_factor: u64,
    pub total_borrows: u64,
    pub timestamp: u64,
}

impl BorrowEvent {
    /// The name under which the event is emitted.
    pub fn event_name() -> (r: &'static str)
        ensures
            r@ == "BorrowEvent"@,
    {
        "BorrowEvent"
    }

    /// The record that a payload holds, if it is well formed.
    pub open spec fn parse(b: Seq<u8>) -> Option<Self> {
        if b.len() == 144 {
            Some(BorrowEvent {
                market_id: id_at(b, 0),
                borrower: id_at(b, 32),
                position_id: id_at(b, 64),
                borrow_amount: u64_at(b, 96),
                collateral_value: u64_at(b, 104),
                oracle_price: u64_at(b, 112),
                health_factor: u64_at(b, 120),
                total_borrows: u64_at(b, 128),
                timestamp: u64_at(b, 136),
            })
        } else {
            None
        }
    }

    /// The canonical payload of the record.
    pub open spec fn encoding(self) -> Seq<u8> {
        id_bytes(self.market_id)
            + id_bytes(self.borrower)
            + id_bytes(self.position_id)
            + u64_bytes(self.borrow_amount)
            + u64_bytes(self.collateral_value)
            + u64_bytes(self.oracle_price)
            + u64_bytes(self.health_factor)
            + u64_bytes(self.total_borrows)
            + u64_bytes(self.timestamp)
    }

    /// The record an event holds: its payload, when the event carries this name.
    pub open spec fn of_event(ev: ContractEvent) -> Option<Self> {
        if kind_of(ev.name@) == Some(EventKind::BorrowEvent) {
            Self::parse(ev.contents@)
        } else {
            None
        }
    }

    pub fn decode(b: &[u8]) -> (r: Option<Self>)
        ensures
            r == Self::parse(b@),
    {
        if b.len() != 144 {
            return None;
        }
        Some(BorrowEvent {
            market_id: read_id(b, 0),
            borrower: read_id(b, 32),
            position_id: read_id(b, 64),
            borrow_amount: read_u64(b, 96),
            collateral_value: read_u64(b, 104),
            oracle_price: read_u64(b, 112),
            health_factor: read_u64(b, 120),
            total_borrows: read_u64(b, 128),
            timestamp: read_u64(b, 136),
        })
    }

    pub fn from_event(ev: &ContractEvent) -> (r: Option<Self>)
        ensures
            r == Self::of_event(*ev),
    {
        if matches!(classify(&ev.name), Some(EventKind::BorrowEvent)) {
            Self::decode(ev.contents.as_slice())
        } else {
            None
        }
    }

    /// Decoding the canonical payload of a record gives the record back.
    #[verifier::rlimit(60)]
    pub proof fn lemma_round_trip(self)
        ensures
            Self::parse(self.encoding()) == Some(self),
    {
        let b = self.encoding();
        assert(b.len() == 144);
        assert(b.subrange(0, 32) =~= id_bytes(self.market_id));
        lemma_id_round_trip(b, 0, self.market_id);
        assert(b.subrange(32, 64) =~= id_bytes(self.borrower));
        lemma_id_round_trip(b, 32, self.borrower);
        assert(b.subrange(64, 96) =~= id_bytes(self.position_id));
        lemma_id_round_trip(b, 64, self.position_id);
        assert(b.subrange(96, 104) =~= u64_bytes(self.borrow_amount));
        lemma_u64_at_round_trip(b, 96, self.borrow_amount);
        assert(b.subrange(104, 112) =~= u64_bytes(self.collateral_value));
        lemma_u64_at_round_trip(b, 104, self.collateral_value);
        assert(b.subrange(112, 120) =~= u64_bytes(self.oracle_price));
        lemma_u64_at_round_trip(b, 112, self.oracle_price);
        assert(b.subrange(120, 128) =~= u64_bytes(self.health_factor));
        lemma_u64_at_round_trip(b, 120, self.health_factor);
        assert(b.subrange(128, 136) =~= u64_bytes(self.total_borrows));
        lemma_u64_at_round_trip(b, 128, self.total_borrows);
        assert(b.subrange(136, 144) =~= u64_bytes(self.timestamp));
        lemma_u64_at_round_trip(b, 136, self.timestamp);
    }
}

/// A repayment of lending debt.
#[derive(Clone, Copy, Debug, PartialEq, Eq, Structural)]
pub struct RepayEvent {
    pub market_id: ObjectId,
    pub borrower: ObjectId,
    pub position_id: ObjectId,
    pub repay_amount: u64,
    pub remaining_debt: u64,
    pub timestamp: u64,
}

impl RepayEvent {
    /// The name under which the event is emitted.
    pub fn event_name() -> (r: &'static str)
        ensures
            r@ == "RepayEvent"@,
    {
        "RepayEvent"
    }

    /// The record that a payload holds, if it is well formed.
    pub open spec fn parse(b: Seq<u8>) -> Option<Self> {
        if b.len() == 120 {
            Some(RepayEvent {
                market_id: id_at(b, 0),
                borrower: id_at(b, 32),
                position_id: id_at(b, 64),
                repay_amount: u64_at(b, 96),
                remaining_debt: u64_at(b, 104),
                timestamp: u64_at(b, 112),
            })
        } else {
            None
        }
    }

    /// The canonical payload of the record.
    pub open spec fn encoding(self) -> Seq<u8> {
        id_bytes(self.market_id)
            + id_bytes(self.borrower)
            + id_bytes(self.position_id)
            + u64_bytes(self.repay_amount)
            + u64_bytes(self.remaining_debt)
            + u64_bytes(self.timestamp)
    }

    /// The record an event holds: its payload, when the event carries this name.
    pub open spec fn of_event(ev: ContractEvent) -> Option<Self> {
        if kind_of(ev.name@) == Some(EventKind::RepayEvent) {
            Self::parse(ev.contents@)
        } else {
            None
        }
    }

    pub fn decode(b: &[u8]) -> (r: Option<Self>)
        ensures
            r == Self::parse(b@),
    {
        if b.len() != 120 {
            return None;
        }
        Some(RepayEvent {
            market_id: read_id(b, 0),
            borrower: read_id(b, 32),
            position_id: read_id(b, 64),
            repay_amount: read_u64(b, 96),
            remaining_debt: read_u64(b, 104),
            timestamp: read_u64(b, 112),
        })
    }

    pub fn from_event(ev: &ContractEvent) -> (r: Option<Self>)
        ensures
            r == Self::of_event(*ev),
    {
        if matches!(classify(&ev.name), Some(EventKind::RepayEvent)) {
            Self::decode(ev.contents.as_slice())
        } else {
            None
        }
    }

    /// Decoding the canonical payload of a record gives the record back.
    #[verifier::rlimit(60)]
    pub proof fn lemma_round_trip(self)
        ensures
            Self::parse(self.encoding()) == Some(self),
    {
        let b = self.encoding();
        assert(b.len() == 120);
        assert(b.subrange(0, 32) =~= id_bytes(self.market_id));
        lemma_id_round_trip(b, 0, self.market_id);
        assert(b.subrange(32, 64) =~= id_bytes(self.borrower));
        lemma_id_round_trip(b, 32, self.borrower);
        assert(b.subrange(64, 96) =~= id_bytes(self.position_id));
        lemma_id_round_trip(b, 64, self.position_id);
        assert(b.subrange(96, 104) =~= u64_bytes(self.repay_amount));
        lemma_u64_at_round_trip(b, 96, self.repay_amount);
        assert(b.subrange(104, 112) =~= u64_bytes(self.remaining_debt));
        lemma_u64_at_round_trip(b, 104, self.remaining_debt);
        assert(b.subrange(112, 120) =~= u64_bytes(self.timestamp));
        lemma_u64_at_round_trip(b, 112, self.timestamp);
    }
}

/// A liquidation of a lending position.
#[derive(Clone, Copy, Debug, PartialEq, Eq, Structural)]
pub struct LiquidationEvent {
    pub market_id: ObjectId,
    pub liquidator: ObjectId,
    pub borrower: ObjectId,
    pub position_id: ObjectId,
    pub debt_repaid: u64,
    pub collateral_seized: u64,
    pub liquidation_incentive: u64,
    pub health_factor_before: u64,
    pub protocol_loss: u64,
    pub timestamp: u64,
}

impl LiquidationEvent {
    /// The name under which the event is emitted.
    pub fn event_name() -> (r: &'static str)
        ensures
            r@ == "LiquidationEvent"@,
    {
        "LiquidationEvent"
    }

    /// The record that a payload holds, if it is well formed.
    pub open spec fn parse(b: Seq<u8>) -> Option<Self> {
        if b.len() == 176 {
            Some(LiquidationEvent {
                market_id: id_at(b, 0),
                liquidator: id_at(b, 32),
                borrower: id_at(b, 64),
                position_id: id_at(b, 96),
                debt_repaid: u64_at(b, 128),
                collateral_seized: u64_at(b, 136),
                liquidation_incentive: u64_at(b, 144),
                health_factor_before: u64_at(b, 152),
                protocol_loss: u64_at(b, 160),
                timestamp: u64_at(b, 168),
            })
        } else {
            None
        }
    }

    /// The canonical payload of the record.
    pub open spec fn encoding(self) -> Seq<u8> {
        id_bytes(self.market_id)
            + id_bytes(self.liquidator)
            + id_bytes(self.borrower)
            + id_bytes(self.position_id)
            + u64_bytes(self.debt_repaid)
            + u64_bytes(self.collateral_seized)
            + u64_bytes(self.liquidation_incentive)
            + u64_bytes(self.health_factor_before)
            + u64_bytes(self.protocol_loss)
            + u64_bytes(self.timestamp)
    }

    /// The record an event holds: its payload, when the event carries this name.
    pub open spec fn of_event(ev: ContractEvent) -> Option<Self> {
        if kind_of(ev.name@) == Some(EventKind::LiquidationEvent) {
            Self::parse(ev.contents@)
        } else {
            None
        }
    }

    pub fn decode(b: &[u8]) -> (r: Option<Self>)
        ensures
            r == Self::parse(b@),
    {
        if b.len() != 176 {
            return None;
        }
        Some(LiquidationEvent {
            market_id: read_id(b, 0),
            liquidator: read_id(b, 32),
            borrower: read_id(b, 64),
            position_id: read_id(b, 96),
            debt_repaid: read_u64(b, 128),
            collateral_seized: read_u64(b, 136),
            liquidation_incentive: read_u64(b, 144),
            health_factor_before: read_u64(b, 152),
            protocol_loss: read_u64(b, 160),
            timestamp: read_u64(b, 168),
        })
    }

    pub fn from_event(ev: &ContractEvent) -> (r: Option<Self>)
        ensures
            r == Self::of_event(*ev),
    {
        if matches!(classify(&ev.name), Some(EventKind::LiquidationEvent)) {
            Self::decode(ev.contents.as_slice())
        } else {
            None
        }
    }

    /// Decoding the canonical payload of a record gives the record back.
    #[verifier::rlimit(60)]
    pub proof fn lemma_round_trip(self)
        ensures
            Self::parse(self.encoding()) == Some(self),
    {
        let b = self.encoding();
        assert(b.len() == 176);
        assert(b.subrange(0, 32) =~= id_bytes(self.market_id));
        lemma_id_round_trip(b, 0, self.market_id);
        assert(b.subrange(32, 64) =~= id_bytes(self.liquidator));
        lemma_id_round_trip(b, 32, self.liquidator);
        assert(b.subrange(64, 96) =~= id_bytes(self.borrower));
        lemma_id_round_trip(b, 64, self.borrower);
        assert(b.subrange(96, 128) =~= id_bytes(self.position_id));
        lemma_id_round_trip(b, 96, self.position_id);
        assert(b.subrange(128, 136) =~= u64_bytes(self.debt_repaid));
        lemma_u64_at_round_trip(b, 128, self.debt_repaid);
        assert(b.subrange(136, 144) =~= u64_bytes(self.collateral_seized));
        lemma_u64_at_round_trip(b, 136, self.collateral_seized);
        assert(b.subrange(144, 152) =~= u64_bytes(self.liquidation_incentive));
        lemma_u64_at_round_trip(b, 144, self.liquidation_incentive);
        assert(b.subrange(152, 160) =~= u64_bytes(self.health_factor_before));
        lemma_u64_at_round_trip(b, 152, self.health_factor_before);
        assert(b.subrange(160, 168) =~= u64_bytes(self.protocol_loss));
        lemma_u64_at_round_trip(b, 160, self.protocol_loss);
        assert(b.subrange(168, 176) =~= u64_bytes(self.timestamp));
        lemma_u64_at_round_trip(b, 168, self.timestamp);
    }
}

/// Interest accrued by a lending market.
#[derive(Clone, Copy, Debug, PartialEq, Eq, Structural)]
pub struct AccrueInterestEvent {
    pub market_id: ObjectId,
    pub borrow_rate: u64,
    pub supply_rate: u64,
    pub total_borrows: u64,
    pub total_reserves: u64,
    pub borrow_index: u64,
    pub timestamp: u64,
}

impl AccrueInterestEvent {
    /// The name under which the event is emitted.
    pub fn event_name() -> (r: &'static str)
        ensures
            r@ == "AccrueInterestEvent"@,
    {
        "AccrueInterestEvent"
    }

    /// The record that a payload holds, if it is well formed.
    pub open spec fn parse(b: Seq<u8>) -> Option<Self> {
        if b.len() == 80 {
            Some(AccrueInterestEvent {
                market_id: id_at(b, 0),
                borrow_rate: u64_at(b, 32),
                supply_rate: u64_at(b, 40),
                total_borrows: u64_at(b, 48),
                total_reserves: u64_at(b, 56),
                borrow_index: u64_at(b, 64),
                timestamp: u64_at(b, 72),
            })
        } else {
            None
        }
    }

    /// The canonical payload of the record.
    pub open spec fn encoding(self) -> Seq<u8> {
        id_bytes(self.market_id)
            + u64_bytes(self.borrow_rate)
            + u64_bytes(self.supply_rate)
            + u64_bytes(self.total_borrows)
            + u64_bytes(self.total_reserves)
            + u64_bytes(self.borrow_index)
            + u64_bytes(self.timestamp)
    }

    /// The record an event holds: its payload, when the event carries this name.
    pub open spec fn of_event(ev: ContractEvent) -> Option<Self> {
        if kind_of(ev.name@) == Some(EventKind::AccrueInterestEvent) {
            Self::parse(ev.contents@)
        } else {
            None
        }
    }

    pub fn decode(b: &[u8]) -> (r: Option<Self>)
        ensures
            r == Self::parse(b@),
    {
        if b.len() != 80 {
            return None;
        }
        Some(AccrueInterestEvent {
            market_id: read_id(b, 0),
            borrow_rate: read_u64(b, 32),
            supply_rate: read_u64(b, 40),
            total_borrows: read_u64(b, 48),
            total_reserves: read_u64(b, 56),
            borrow_index: read_u64(b, 64),
            timestamp: read_u64(b, 72),
        })
    }

    pub fn from_event(ev: &ContractEvent) -> (r: Option<Self>)
        ensures
            r == Self::of_event(*ev),
    {
        if matches!(classify(&ev.name), Some(EventKind::AccrueInterestEvent)) {
            Self::decode(ev.contents.as_slice())
        } else {
            None
        }
    }

    /// Decoding the canonical payload of a record gives the record back.
    #[verifier::rlimit(60)]
    pub proof fn lemma_round_trip(self)
        ensures
            Self::parse(self.encoding()) == Some(self),
    {
        let b = self.encoding();
        assert(b.len() == 80);
        assert(b.subrange(0, 32) =~= id_bytes(self.market_id));
        lemma_id_round_trip(b, 0, self.market_id);
        assert(b.subrange(32, 40) =~= u64_bytes(self.borrow_rate));
        lemma_u64_at_round_trip(b, 32, self.borrow_rate);
        assert(b.subrange(40, 48) =~= u64_bytes(self.supply_rate));
        lemma_u64_at_round_trip(b, 40, self.supply_rate);
        assert(b.subrange(48, 56) =~= u64_bytes(self.total_borrows));
        lemma_u64_at_round_trip(b, 48, self.total_borrows);
        assert(b.subrange(56, 64) =~= u64_bytes(self.total_reserves));
        lemma_u64_at_round_trip(b, 56, self.total_reserves);
        assert(b.subrange(64, 72) =~= u64_bytes(self.borrow_index));
        lemma_u64_at_round_trip(b, 64, self.borrow_index);
        assert(b.subrange(72, 80) =~= u64_bytes(self.timestamp));
        lemma_u64_at_round_trip(b, 72, self.timestamp);
    }
}

/// The identifier and the two byte sequences that open a payload, with the
/// offset just after them.
#[verifier::opaque]
pub open spec fn id_and_two_texts(b: Seq<u8>) -> Option<(ObjectId, Seq<u8>, Seq<u8>, int)> {
    if b.len() < 32 {
        None
    } else {
        match text_at(b, 32) {
            Some((ta, o1)) => match text_at(b, o1) {
                Some((tb, o2)) => Some((id_at(b, 0), ta, tb, o2)),
                None => None,
            },
            None => None,
        }
    }
}

fn read_id_and_two_texts(b: &[u8]) -> (r: Option<(ObjectId, Vec<u8>, Vec<u8>, usize)>)
    ensures
        match id_and_two_texts(b@) {
            Some((id, ta, tb, o)) => r matches Some((i2, va, vb, o2)) && i2 == id && va@ == ta && vb@
                == tb && o2 == o && o <= b@.len(),
            None => r is None,
        },
{
    reveal(id_and_two_texts);
    if b.len() < 32 {
        return None;
    }
    match read_text(b, 32) {
        None => None,
        Some((ta, o1)) => match read_text(b, o1) {
            None => None,
            Some((tb, o2)) => Some((read_id(b, 0), ta, tb, o2)),
        },
    }
}

proof fn lemma_id_and_two_texts(b: Seq<u8>, id: ObjectId, ta: Seq<u8>, tb: Seq<u8>, tail: Seq<u8>)
    requires
        ta.len() <= MAX_SEQUENCE_LENGTH,
        tb.len() <= MAX_SEQUENCE_LENGTH,
        b == id_bytes(id) + text_bytes(ta) + text_bytes(tb) + tail,
    ensures
        id_and_two_texts(b) == Some((id, ta, tb, 32 + text_bytes(ta).len() as int + text_bytes(tb).len() as int)),
{
    reveal(id_and_two_texts);
    let o1: int = 32 + text_bytes(ta).len() as int;
    let o2: int = o1 + text_bytes(tb).len();
    assert(b.subrange(0, 32) =~= id_bytes(id));
    lemma_id_round_trip(b, 0, id);
    assert(b.subrange(32, o1) =~= text_bytes(ta));
    lemma_text_round_trip(b, 32, ta);
    assert(b.subrange(o1, o2) =~= text_bytes(tb));
    lemma_text_round_trip(b, o1, tb);
}

/// An oracle update of the time-weighted average price of a pool. The token
/// names are the UTF-8 bytes of their type names; prices are scaled by 1e9 and
/// the deviation is in basis points.
#[derive(Clone, Debug, PartialEq, Eq)]
pub struct TWAPUpdated {
    pub pool_id: ObjectId,
    pub token_a: Vec<u8>,
    pub token_b: Vec<u8>,
    pub twap_price_a: u64,
    pub twap_price_b: u64,
    pub spot_price_a: u64,
    pub spot_price_b: u64,
    pub price_deviation: u64,
    pub timestamp: u64,
}

/// The value of a `TWAPUpdated` record.
pub struct TWAPUpdatedView {
    pub pool_id: ObjectId,
    pub token_a: Seq<u8>,
    pub token_b: Seq<u8>,
    pub twap_price_a: u64,
    pub twap_price_b: u64,
    pub spot_price_a: u64,
    pub spot_price_b: u64,
    pub price_deviation: u64,
    pub timestamp: u64,
}

impl View for TWAPUpdated {
    type V = TWAPUpdatedView;

    open spec fn view(&self) -> TWAPUpdatedView {
        TWAPUpdatedView {
            pool_id: self.pool_id,
            token_a: self.token_a@,
            token_b: self.token_b@,
            twap_price_a: self.twap_price_a,
            twap_price_b: self.twap_price_b,
            spot_price_a: self.spot_price_a,
            spot_price_b: self.spot_price_b,
            price_deviation: self.price_deviation,
            timestamp: self.timestamp,
        }
    }
}

impl TWAPUpdated {
    /// The name under which the event is emitted.
    pub fn event_name() -> (r: &'static str)
        ensures
            r@ == "TWAPUpdated"@,
    {
        "TWAPUpdated"
    }

    /// The record that a payload holds, if it is well formed.
    pub open spec fn parse(b: Seq<u8>) -> Option<TWAPUpdatedView> {
        match id_and_two_texts(b) {
            Some((id, ta, tb, o)) => if b.len() == o + 48 {
                Some(TWAPUpdatedView {
                    pool_id: id,
                    token_a: ta,
                    token_b: tb,
                    twap_price_a: u64_at(b, o),
                    twap_price_b: u64_at(b, o + 8),
                    spot_price_a: u64_at(b, o + 16),
                    spot_price_b: u64_at(b, o + 24),
                    price_deviation: u64_at(b, o + 32),
                    timestamp: u64_at(b, o + 40),
                })
            } else {
                None
            },
            None => None,
        }
    }

    /// The canonical payload of a record.
    pub open spec fn encoding(v: TWAPUpdatedView) -> Seq<u8> {
        id_bytes(v.pool_id) + text_bytes(v.token_a) + text_bytes(v.token_b) + (u64_bytes(v.twap_price_a)
            + u64_bytes(v.twap_price_b) + u64_bytes(v.spot_price_a) + u64_bytes(v.spot_price_b)
            + u64_bytes(v.price_deviation) + u64_bytes(v.timestamp))
    }

    /// The record an event holds: its payload, when the event carries this name.
    pub open spec fn of_event(ev: ContractEvent) -> Option<TWAPUpdatedView> {
        if kind_of(ev.name@) == Some(EventKind::TWAPUpdated) {
            Self::parse(ev.contents@)
        } else {
            None
        }
    }

    pub fn decode(b: &[u8]) -> (r: Option<Self>)
        ensures
            match Self::parse(b@) {
                Some(v) => r matches Some(x) && x@ == v,
                None => r is None,
            },
    {
        match read_id_and_two_texts(b) {
            None => None,
            Some((pool_id, token_a, token_b, o)) => {
                if b.len() - o != 48 {
                    return None;
                }
                Some(TWAPUpdated {
                    pool_id,
                    token_a,
                    token_b,
                    twap_price_a: read_u64(b, o),
                    twap_price_b: read_u64(b, o + 8),
                    spot_price_a: read_u64(b, o + 16),
                    spot_price_b: read_u64(b, o + 24),
                    price_deviation: read_u64(b, o + 32),
                    timestamp: read_u64(b, o + 40),
                })
            },
        }
    }

    pub fn from_event(ev: &ContractEvent) -> (r: Option<Self>)
        ensures
            match Self::of_event(*ev) {
                Some(v) => r matches Some(x) && x@ == v,
                None => r is None,
            },
    {
        if matches!(classify(&ev.name), Some(EventKind::TWAPUpdated)) {
            Self::decode(ev.contents.as_slice())
        } else {
            None
        }
    }

    /// Decoding the canonical payload of a record gives the record back.
    #[verifier::rlimit(100)]
    #[verifier::spinoff_prover]
    pub proof fn lemma_round_trip(v: TWAPUpdatedView)
        requires
            v.token_a.len() <= MAX_SEQUENCE_LENGTH,
            v.token_b.len() <= MAX_SEQUENCE_LENGTH,
        ensures
            Self::parse(Self::encoding(v)) == Some(v),
    {
        let b = Self::encoding(v);
        let tail = u64_bytes(v.twap_price_a) + u64_bytes(v.twap_price_b) + u64_bytes(v.spot_price_a) + u64_bytes(v.spot_price_b) + u64_bytes(v.price_deviation) + u64_bytes(v.timestamp);
        let head = id_bytes(v.pool_id) + text_bytes(v.token_a) + text_bytes(v.token_b);
        lemma_id_and_two_texts(b, v.pool_id, v.token_a, v.token_b, tail);
        let o: int = head.len() as int;
        lemma_subrange_of_tail(head, tail, 0, 8);
        assert(tail.subrange(0, 8) =~= u64_bytes(v.twap_price_a));
        lemma_u64_at_round_trip(b, o + 0, v.twap_price_a);
        lemma_subrange_of_tail(head, tail, 8, 16);
        assert(tail.subrange(8, 16) =~= u64_bytes(v.twap_price_b));
        lemma_u64_at_round_trip(b, o + 8, v.twap_price_b);
        lemma_subrange_of_tail(head, tail, 16, 24);
        assert(tail.subrange(16, 24) =~= u64_bytes(v.spot_price_a));
        lemma_u64_at_round_trip(b, o + 16, v.spot_price_a);
        lemma_subrange_of_tail(head, tail, 24, 32);
        assert(tail.subrange(24, 32) =~= u64_bytes(v.spot_price_b));
        lemma_u64_at_round_trip(b, o + 24, v.spot_price_b);
        lemma_subrange_of_tail(head, tail, 32, 40);
        assert(tail.subrange(32, 40) =~= u64_bytes(v.price_deviation));
        lemma_u64_at_round_trip(b, o + 32, v.price_deviation);
        lemma_subrange_of_tail(head, tail, 40, 48);
        assert(tail.subrange(40, 48) =~= u64_bytes(v.timestamp));
        lemma_u64_at_round_trip(b, o + 40, v.timestamp);
    }
}

/// A deviation between the time-weighted average price and the spot price
/// that the oracle flagged, in basis points.
#[derive(Clone, Debug, PartialEq, Eq)]
pub struct PriceDeviationDetected {
    pub pool_id: ObjectId,
    pub token_a: Vec<u8>,
    pub token_b: Vec<u8>,
    pub twap_price: u64,
    pub spot_price: u64,
    pub deviation_bps: u64,
    pub timestamp: u64,
}

/// The value of a `PriceDeviationDetected` record.
pub struct PriceDeviationDetectedView {
    pub pool_id: ObjectId,
    pub token_a: Seq<u8>,
    pub token_b: Seq<u8>,
    pub twap_price: u64,
    pub spot_price: u64,
    pub deviation_bps: u64,
    pub timestamp: u64,
}

impl View for PriceDeviationDetected {
    type V = PriceDeviationDetectedView;

    open spec fn view(&self) -> PriceDeviationDetectedView {
        PriceDeviationDetectedView {
            pool_id: self.pool_id,
            token_a: self.token_a@,
            token_b: self.token_b@,
            twap_price: self.twap_price,
            spot_price: self.spot_price,
            deviation_bps: self.deviation_bps,
            timestamp: self.timestamp,
        }
    }
}

impl PriceDeviationDetected {
    /// The name under which the event is emitted.
    pub fn event_name() -> (r: &'static str)
        ensures
            r@ == "PriceDeviationDetected"@,
    {
        "PriceDeviationDetected"
    }

    /// The record that a payload holds, if it is well formed.
    pub open spec fn parse(b: Seq<u8>) -> Option<PriceDeviationDetectedView> {
        match id_and_two_texts(b) {
            Some((id, ta, tb, o)) => if b.len() == o + 32 {
                Some(PriceDeviationDetectedView {
                    pool_id: id,
                    token_a: ta,
                    token_b: tb,
                    twap_price: u64_at(b, o),
                    spot_price: u64_at(b, o + 8),
                    deviation_bps: u64_at(b, o + 16),
                    timestamp: u64_at(b, o + 24),
                })
            } else {
                None
            },
            None => None,
        }
    }

    /// The canonical payload of a record.
    pub open spec fn encoding(v: PriceDeviationDetectedView) -> Seq<u8> {
        id_bytes(v.pool_id) + text_bytes(v.token_a) + text_bytes(v.token_b) + (u64_bytes(v.twap_price)
            + u64_bytes(v.spot_price) + u64_bytes(v.deviation_bps) + u64_bytes(v.timestamp))
    }

    /// The record an event holds: its payload, when the event carries this name.
    pub open spec fn of_event(ev: ContractEvent) -> Option<PriceDeviationDetectedView> {
        if kind_of(ev.name@) == Some(EventKind::PriceDeviationDetected) {
            Self::parse(ev.contents@)
        } else {
            None
        }
    }

    pub fn decode(b: &[u8]) -> (r: Option<Self>)
        ensures
            match Self::parse(b@) {
                Some(v) => r matches Some(x) && x@ == v,
                None => r is None,
            },
    {
        match read_id_and_two_texts(b) {
            None => None,
            Some((pool_id, token_a, token_b, o)) => {
                if b.len() - o != 32 {
                    return None;
                }
                Some(PriceDeviationDetected {
                    pool_id,
                    token_a,
                    token_b,
                    twap_price: read_u64(b, o),
                    spot_price: read_u64(b, o + 8),
                    deviation_bps: read_u64(b, o + 16),
                    timestamp: read_u64(b, o + 24),
                })
            },
        }
    }

    pub fn from_event(ev: &ContractEvent) -> (r: Option<Self>)
        ensures
            match Self::of_event(*ev) {
                Some(v) => r matches Some(x) && x@ == v,
                None => r is None,
            },
    {
        if matches!(classify(&ev.name), Some(EventKind::PriceDeviationDetected)) {
            Self::decode(ev.contents.as_slice())
        } else {
            None
        }
    }

    /// Decoding the canonical payload of a record gives the record back.
    #[verifier::rlimit(100)]
    #[verifier::spinoff_prover]
    pub proof fn lemma_round_trip(v: PriceDeviationDetectedView)
        requires
            v.token_a.len() <= MAX_SEQUENCE_LENGTH,
            v.token_b.len() <= MAX_SEQUENCE_LENGTH,
        ensures
            Self::parse(Self::encoding(v)) == Some(v),
    {
        let b = Self::encoding(v);
        let tail = u64_bytes(v.twap_price) + u64_bytes(v.spot_price) + u64_bytes(v.deviation_bps) + u64_bytes(v.timestamp);
        let head = id_bytes(v.pool_id) + text_bytes(v.token_a) + text_bytes(v.token_b);
        lemma_id_and_two_texts(b, v.pool_id, v.token_a, v.token_b, tail);
        let o: int = head.len() as int;
        lemma_subrange_of_tail(head, tail, 0, 8);
        assert(tail.subrange(0, 8) =~= u64_bytes(v.twap_price));
        lemma_u64_at_round_trip(b, o + 0, v.twap_price);
        lemma_subrange_of_tail(head, tail, 8, 16);
        assert(tail.subrange(8, 16) =~= u64_bytes(v.spot_price));
        lemma_u64_at_round_trip(b, o + 8, v.spot_price);
        lemma_subrange_of_tail(head, tail, 16, 24);
        assert(tail.subrange(16, 24) =~= u64_bytes(v.deviation_bps));
        lemma_u64_at_round_trip(b, o + 16, v.deviation_bps);
        lemma_subrange_of_tail(head, tail, 24, 32);
        assert(tail.subrange(24, 32) =~= u64_bytes(v.timestamp));
        lemma_u64_at_round_trip(b, o + 24, v.timestamp);
    }
}

/// The `FlashLoanTaken` records that decode from the events, in order.
pub open spec fn flash_loans_taken_in(evs: Seq<ContractEvent>) -> Seq<FlashLoanTaken>
    decreases evs.len(),
{
    if evs.len() == 0 {
        Seq::empty()
    } else {
        match FlashLoanTaken::of_event(evs.last()) {
            Some(r) => flash_loans_taken_in(evs.drop_last()).push(r),
            None => flash_loans_taken_in(evs.drop_last()),
        }
    }
}
/// The `FlashLoanRepaid` records that decode from the events, in order.
pub open spec fn flash_loans_repaid_in(evs: Seq<ContractEvent>) -> Seq<FlashLoanRepaid>
    decreases evs.len(),
{
    if evs.len() == 0 {
        Seq::empty()
    } else {
        match FlashLoanRepaid::of_event(evs.last()) {
            Some(r) => flash_loans_repaid_in(evs.drop_last()).push(r),
            None => flash_loans_repaid_in(evs.drop_last()),
        }
    }
}
/// The `SwapExecuted` records that decode from the events, in order.
pub open spec fn swaps_in(evs: Seq<ContractEvent>) -> Seq<SwapExecuted>
    decreases evs.len(),
{
    if evs.len() == 0 {
        Seq::empty()
    } else {
        match SwapExecuted::of_event(evs.last()) {
            Some(r) => swaps_in(evs.drop_last()).push(r),
            None => swaps_in(evs.drop_last()),
        }
    }
}
/// The `TWAPUpdated` records that decode from the events, in order.
pub open spec fn twap_updates_in(evs: Seq<ContractEvent>) -> Seq<TWAPUpdatedView>
    decreases evs.len(),
{
    if evs.len() == 0 {
        Seq::empty()
    } else {
        match TWAPUpdated::of_event(evs.last()) {
            Some(r) => twap_updates_in(evs.drop_last()).push(r),
            None => twap_updates_in(evs.drop_last()),
        }
    }
}
/// The `PriceDeviationDetected` records that decode from the events, in order.
pub open spec fn price_deviations_in(evs: Seq<ContractEvent>) -> Seq<PriceDeviationDetectedView>
    decreases evs.len(),
{
    if evs.len() == 0 {
        Seq::empty()
    } else {
        match PriceDeviationDetected::of_event(evs.last()) {
            Some(r) => price_deviations_in(evs.drop_last()).push(r),
            None => price_deviations_in(evs.drop_last()),
        }
    }
}
/// The `BorrowEvent` records that decode from the events, in order.
pub open spec fn borrows_in(evs: Seq<ContractEvent>) -> Seq<BorrowEvent>
    decreases evs.len(),
{
    if evs.len() == 0 {
        Seq::empty()
    } else {
        match BorrowEvent::of_event(evs.last()) {
            Some(r) => borrows_in(evs.drop_last()).push(r),
            None => borrows_in(evs.drop_last()),
        }
    }
}
/// The `RepayEvent` records that decode from the events, in order.
pub open spec fn repays_in(evs: Seq<ContractEvent>) -> Seq<RepayEvent>
    decreases evs.len(),
{
    if evs.len() == 0 {
        Seq::empty()
    } else {
        match RepayEvent::of_event(evs.last()) {
            Some(r) => repays_in(evs.drop_last()).push(r),
            None => repays_in(evs.drop_last()),
        }
    }
}
/// The `LiquidationEvent` records that decode from the events, in order.
pub open spec fn liquidations_in(evs: Seq<ContractEvent>) -> Seq<LiquidationEvent>
    decreases evs.len(),
{
    if evs.len() == 0 {
        Seq::empty()
    } else {
        match LiquidationEvent::of_event(evs.last()) {
            Some(r) => liquidations_in(evs.drop_last()).push(r),
            None => liquidations_in(evs.drop_last()),
        }
    }
}
/// The `SupplyEvent` records that decode from the events, in order.
pub open spec fn supplies_in(evs: Seq<ContractEvent>) -> Seq<SupplyEvent>
    decreases evs.len(),
{
    if evs.len() == 0 {
        Seq::empty()
    } else {
        match SupplyEvent::of_event(evs.last()) {
            Some(r) => supplies_in(evs.drop_last()).push(r),
            None => supplies_in(evs.drop_last()),
        }
    }
}
/// Whether each record of `v` has the value of the matching entry of `s`.
pub open spec fn twap_views_match(v: Seq<TWAPUpdated>, s: Seq<TWAPUpdatedView>) -> bool {
    v.len() == s.len() && forall|k: int| 0 <= k < v.len() ==> #[trigger] v[k]@ == s[k]
}

/// Whether each record of `v` has the value of the matching entry of `s`.
pub open spec fn deviation_views_match(v: Seq<PriceDeviationDetected>, s: Seq<PriceDeviationDetectedView>) -> bool {
    v.len() == s.len() && forall|k: int| 0 <= k < v.len() ==> #[trigger] v[k]@ == s[k]
}

/// A natural number capped at the largest `u64`.
pub open spec fn clamp_u64(x: nat) -> u64 {
    if x > u64::MAX { u64::MAX } else { x as u64 }
}

/// The sum of the amounts of flash loans.
pub open spec fn loan_total(s: Seq<FlashLoanTaken>) -> nat
    decreases s.len(),
{
    if s.len() == 0 { 0 } else { loan_total(s.drop_last()) + s.last().amount as nat }
}

/// The sum of the price impacts of swaps.
pub open spec fn swap_impact_total(s: Seq<SwapExecuted>) -> nat
    decreases s.len(),
{
    if s.len() == 0 { 0 } else { swap_impact_total(s.drop_last()) + s.last().price_impact as nat }
}

/// The largest price impact among swaps, 0 when there are none.
pub open spec fn swap_impact_max(s: Seq<SwapExecuted>) -> u64
    decreases s.len(),
{
    if s.len() == 0 {
        0
    } else if s.last().price_impact > swap_impact_max(s.drop_last()) {
        s.last().price_impact
    } else {
        swap_impact_max(s.drop_last())
    }
}

/// The records of every kind decoded from one transaction's events, each
/// kind in emission order.
#[derive(Debug, Default)]
pub struct ParsedEvents {
    pub flash_loan_taken: Vec<FlashLoanTaken>,
    pub flash_loan_repaid: Vec<FlashLoanRepaid>,
    pub swaps: Vec<SwapExecuted>,
    pub twap_updates: Vec<TWAPUpdated>,
    pub price_deviations: Vec<PriceDeviationDetected>,
    pub borrows: Vec<BorrowEvent>,
    pub repays: Vec<RepayEvent>,
    pub liquidations: Vec<LiquidationEvent>,
    pub supplies: Vec<SupplyEvent>,
}

impl ParsedEvents {
    /// Decodes every event once; events with unknown names or malformed
    /// payloads are skipped.
    pub fn from_transaction(events: &Vec<ContractEvent>) -> (r: Self)
        ensures
            r.flash_loan_taken@ == flash_loans_taken_in(events@),
            r.flash_loan_repaid@ == flash_loans_repaid_in(events@),
            r.swaps@ == swaps_in(events@),
            twap_views_match(r.twap_updates@, twap_updates_in(events@)),
            deviation_views_match(r.price_deviations@, price_deviations_in(events@)),
            r.borrows@ == borrows_in(events@),
            r.repays@ == repays_in(events@),
            r.liquidations@ == liquidations_in(events@),
            r.supplies@ == supplies_in(events@),
    {
        let mut parsed = ParsedEvents {
            flash_loan_taken: Vec::new(),
            flash_loan_repaid: Vec::new(),
            swaps: Vec::new(),
            twap_updates: Vec::new(),
            price_deviations: Vec::new(),
            borrows: Vec::new(),
            repays: Vec::new(),
            liquidations: Vec::new(),
            supplies: Vec::new(),
        };
        let mut i: usize = 0;
        while i < events.len()
            invariant
                i <= events@.len(),
                parsed.flash_loan_taken@ == flash_loans_taken_in(events@.take(i as int)),
                parsed.flash_loan_repaid@ == flash_loans_repaid_in(events@.take(i as int)),
                parsed.swaps@ == swaps_in(events@.take(i as int)),
                twap_views_match(parsed.twap_updates@, twap_updates_in(events@.take(i as int))),
                deviation_views_match(parsed.price_deviations@, price_deviations_in(events@.take(i as int))),
                parsed.borrows@ == borrows_in(events@.take(i as int)),
                parsed.repays@ == repays_in(events@.take(i as int)),
                parsed.liquidations@ == liquidations_in(events@.take(i as int)),
                parsed.supplies@ == supplies_in(events@.take(i as int)),
            decreases events@.len() - i,
        {
            let ev = &events[i];
            proof {
                assert(events@.take(i + 1).drop_last() =~= events@.take(i as int));
                assert(events@.take(i + 1).last() == events@[i as int]);
            }
            match classify(&ev.name) {
                Some(EventKind::FlashLoanTaken) => {
                    if let Some(e) = FlashLoanTaken::decode(ev.contents.as_slice()) {
                        parsed.flash_loan_taken.push(e);
                    }
                },
                Some(EventKind::FlashLoanRepaid) => {
                    if let Some(e) = FlashLoanRepaid::decode(ev.contents.as_slice()) {
                        parsed.flash_loan_repaid.push(e);
                    }
                },
                Some(EventKind::SwapExecuted) => {
                    if let Some(e) = SwapExecuted::decode(ev.contents.as_slice()) {
                        parsed.swaps.push(e);
                    }
                },
                Some(EventKind::TWAPUpdated) => {
                    if let Some(e) = TWAPUpdated::decode(ev.contents.as_slice()) {
                        parsed.twap_updates.push(e);
                    }
                },
                Some(EventKind::PriceDeviationDetected) => {
                    if let Some(e) = PriceDeviationDetected::decode(ev.contents.as_slice()) {
                        parsed.price_deviations.push(e);
                    }
                },
                Some(EventKind::BorrowEvent) => {
                    if let Some(e) = BorrowEvent::decode(ev.contents.as_slice()) {
                        parsed.borrows.push(e);
                    }
                },
                Some(EventKind::RepayEvent) => {
                    if let Some(e) = RepayEvent::decode(ev.contents.as_slice()) {
                        parsed.repays.push(e);
                    }
                },
                Some(EventKind::LiquidationEvent) => {
                    if let Some(e) = LiquidationEvent::decode(ev.contents.as_slice()) {
                        parsed.liquidations.push(e);
                    }
                },
                Some(EventKind::SupplyEvent) => {
                    if let Some(e) = SupplyEvent::decode(ev.contents.as_slice()) {
                        parsed.supplies.push(e);
                    }
                },
                _ => {},
            }
            i = i + 1;
        }
        proof {
            assert(events@.take(events@.len() as int) =~= events@);
        }
        parsed
    }

    /// Whether a flash loan was both taken and repaid.
    pub fn has_complete_flash_loan(&self) -> (r: bool)
        ensures
            r == (self.flash_loan_taken@.len() > 0 && self.flash_loan_repaid@.len() > 0),
    {
        self.flash_loan_taken.len() > 0 && self.flash_loan_repaid.len() > 0
    }

    pub fn has_swaps(&self) -> (r: bool)
        ensures
            r == (self.swaps@.len() > 0),
    {
        self.swaps.len() > 0
    }

    pub fn has_borrows(&self) -> (r: bool)
        ensures
            r == (self.borrows@.len() > 0),
    {
        self.borrows.len() > 0
    }

    /// The total borrowed by flash loans, saturating at the largest `u64`.
    pub fn total_flash_loan_amount(&self) -> (r: u64)
        ensures
            r == clamp_u64(loan_total(self.flash_loan_taken@)),
    {
        let mut total: u64 = 0;
        let mut i: usize = 0;
        while i < self.flash_loan_taken.len()
            invariant
                i <= self.flash_loan_taken@.len(),
                total == clamp_u64(loan_total(self.flash_loan_taken@.take(i as int))),
            decreases self.flash_loan_taken@.len() - i,
        {
            proof {
                assert(self.flash_loan_taken@.take(i + 1).drop_last() =~= self.flash_loan_taken@.take(i as int));
            }
            total = total.saturating_add(self.flash_loan_taken[i].amount);
            i = i + 1;
        }
        proof {
            assert(self.flash_loan_taken@.take(i as int) =~= self.flash_loan_taken@);
        }
        total
    }

    /// The total price impact of the swaps, saturating at the largest `u64`.
    pub fn total_swap_price_impact(&self) -> (r: u64)
        ensures
            r == clamp_u64(swap_impact_total(self.swaps@)),
    {
        let mut total: u64 = 0;
        let mut i: usize = 0;
        while i < self.swaps.len()
            invariant
                i <= self.swaps@.len(),
                total == clamp_u64(swap_impact_total(self.swaps@.take(i as int))),
            decreases self.swaps@.len() - i,
        {
            proof {
                assert(self.swaps@.take(i + 1).drop_last() =~= self.swaps@.take(i as int));
            }
            total = total.saturating_add(self.swaps[i].price_impact);
            i = i + 1;
        }
        proof {
            assert(self.swaps@.take(i as int) =~= self.swaps@);
        }
        total
    }

    /// The largest price impact of a single swap, 0 when there is none.
    pub fn max_swap_price_impact(&self) -> (r: u64)
        ensures
            r == swap_impact_max(self.swaps@),
    {
        let mut best: u64 = 0;
        let mut i: usize = 0;
        while i < self.swaps.len()
            invariant
                i <= self.swaps@.len(),
                best == swap_impact_max(self.swaps@.take(i as int)),
            decreases self.swaps@.len() - i,
        {
            proof {
                assert(self.swaps@.take(i + 1).drop_last() =~= self.swaps@.take(i as int));
            }
            if self.swaps[i].price_impact > best {
                best = self.swaps[i].price_impact;
            }
            i = i + 1;
        }
        proof {
            assert(self.swaps@.take(i as int) =~= self.swaps@);
        }
        best
    }
}

} // verus!
