//! The flattened search document of a transaction, and the derived sets of
//! packages, modules and functions its move calls touch.

use vstd::prelude::*;

verus! {

/// Gas figures of a transaction.
#[derive(Clone, Debug)]
pub struct EsGas {
    pub owner: String,
    pub budget: i64,
    pub price: i64,
    pub used: Option<i64>,
    pub computation_cost: Option<i64>,
    pub storage_cost: Option<i64>,
    pub storage_rebate: Option<i64>,
}

/// One move call of a programmable transaction.
#[derive(Clone, Debug)]
pub struct EsMoveCall {
    pub package: String,
    pub module: String,
    pub function: String,
    pub full_name: String,
}

/// An object input of a transaction.
#[derive(Clone, Debug)]
pub struct EsObject {
    pub object_id: String,
    pub object_type: String,
    pub owner: Option<String>,
}

/// Object changes of a transaction.
#[derive(Clone, Debug)]
pub struct EsEffects {
    pub created_count: i32,
    pub mutated_count: i32,
    pub deleted_count: i32,
    pub all_changed_objects: Vec<EsChangedObject>,
    pub all_removed_objects: Vec<EsRemovedObject>,
}

/// A changed object with its state before and after the transaction.
#[derive(Clone, Debug)]
pub struct EsChangedObject {
    pub object_id: String,
    pub input_version: Option<u64>,
    pub input_digest: Option<String>,
    pub input_owner: Option<String>,
    pub input_state_type: String,
    pub output_version: Option<u64>,
    pub output_digest: Option<String>,
    pub output_owner: Option<String>,
    pub output_state_type: String,
    pub id_operation: String,
}

/// A removed object.
#[derive(Clone, Debug)]
pub struct EsRemovedObject {
    pub object_id: String,
    pub version: u64,
    pub digest: String,
    pub remove_kind: String,
}

/// An event of a transaction, by type and origin.
#[derive(Clone, Debug)]
pub struct EsEvent {
    pub event_type: String,
    pub package: String,
    pub module: String,
    pub sender: String,
}

/// Which part of a move call's name: package, module or function.
#[derive(Clone, Copy, Debug, PartialEq, Eq, Structural)]
pub enum CallPart {
    Package,
    Module,
    Function,
}

/// One part of a move call's name.
pub open spec fn part_of(c: EsMoveCall, part: CallPart) -> Seq<char> {
    match part {
        CallPart::Package => c.package@,
        CallPart::Module => c.module@,
        CallPart::Function => c.function@,
    }
}

/// One part of the name of each call, in order.
pub open spec fn parts_of(calls: Seq<EsMoveCall>, part: CallPart) -> Seq<Seq<char>>
    decreases calls.len(),
{
    if calls.len() == 0 {
        Seq::empty()
    } else {
        parts_of(calls.drop_last(), part).push(part_of(calls.last(), part))
    }
}

/// The distinct values of `s`, each at its first occurrence.
pub open spec fn distinct_in_order(s: Seq<Seq<char>>) -> Seq<Seq<char>>
    decreases s.len(),
{
    if s.len() == 0 {
        Seq::empty()
    } else {
        let rest = distinct_in_order(s.drop_last());
        if rest.contains(s.last()) { rest } else { rest.push(s.last()) }
    }
}

/// The values of a sequence of strings.
pub open spec fn texts(s: Seq<String>) -> Seq<Seq<char>>
    decreases s.len(),
{
    if s.len() == 0 {
        Seq::empty()
    } else {
        texts(s.drop_last()).push(s.last()@)
    }
}

pub proof fn lemma_texts(s: Seq<String>)
    ensures
        texts(s).len() == s.len(),
        forall|i: int| 0 <= i < s.len() ==> #[trigger] texts(s)[i] == s[i]@,
    decreases s.len(),
{
    if s.len() > 0 {
        lemma_texts(s.drop_last());
    }
}

/// Builds the search document of a transaction.
pub struct EsFlattener;

impl EsFlattener {
    /// The distinct values of one part of the calls' names, in order of
    /// first appearance.
    fn distinct_parts(calls: &[EsMoveCall], part: CallPart) -> (r: Vec<String>)
        ensures
            texts(r@) == distinct_in_order(parts_of(calls@, part)),
    {
        let mut out: Vec<String> = Vec::new();
        let mut i: usize = 0;
        while i < calls.len()
            invariant
                i <= calls@.len(),
                texts(out@) == distinct_in_order(parts_of(calls@.take(i as int), part)),
            decreases calls@.len() - i,
        {
            let c = &calls[i];
            let value = match part {
                CallPart::Package => &c.package,
                CallPart::Module => &c.module,
                CallPart::Function => &c.function,
            };
            proof {
                assert(calls@.take(i + 1).drop_last() =~= calls@.take(i as int));
                assert(calls@.take(i + 1).last() == calls@[i as int]);
                assert(value@ == part_of(calls@[i as int], part));
                assert(parts_of(calls@.take(i + 1), part) == parts_of(calls@.take(i as int), part).push(value@));
                assert(parts_of(calls@.take(i + 1), part).drop_last() =~= parts_of(calls@.take(i as int), part));
                lemma_texts(out@);
            }
            let mut seen = false;
            let mut j: usize = 0;
            while j < out.len()
                invariant
                    j <= out@.len(),
                    texts(out@).len() == out@.len(),
                    forall|q: int| 0 <= q < out@.len() ==> #[trigger] texts(out@)[q] == out@[q]@,
                    seen == exists|q: int| 0 <= q < j && #[trigger] out@[q]@ == value@,
                decreases out@.len() - j,
            {
                if out[j] == *value {
                    seen = true;
                }
                j = j + 1;
            }
            proof {
                let t = texts(out@);
                if seen {
                    let q = choose|q: int| 0 <= q < out@.len() && #[trigger] out@[q]@ == value@;
                    assert(t[q] == value@);
                    assert(t.contains(value@));
                } else {
                    assert forall|q: int| 0 <= q < t.len() implies t[q] != value@ by {
                        assert(t[q] == out@[q]@);
                    }
                    assert(!t.contains(value@));
                }
            }
            if !seen {
                let ghost o0 = out@;
                out.push(value.clone());
                proof {
                    assert(out@.drop_last() =~= o0);
                }
            }
            i = i + 1;
        }
        proof {
            assert(calls@.take(calls@.len() as int) =~= calls@);
        }
        out
    }

    /// The distinct packages the calls touch.
    pub fn extract_packages(calls: &[EsMoveCall]) -> (r: Vec<String>)
        ensures
            texts(r@) == distinct_in_order(parts_of(calls@, CallPart::Package)),
    {
        Self::distinct_parts(calls, CallPart::Package)
    }

    /// The distinct modules the calls touch.
    pub fn extract_modules(calls: &[EsMoveCall]) -> (r: Vec<String>)
        ensures
            texts(r@) == distinct_in_order(parts_of(calls@, CallPart::Module)),
    {
        Self::distinct_parts(calls, CallPart::Module)
    }

    /// The distinct functions the calls touch.
    pub fn extract_functions(calls: &[EsMoveCall]) -> (r: Vec<String>)
        ensures
            texts(r@) == distinct_in_order(parts_of(calls@, CallPart::Function)),
    {
        Self::distinct_parts(calls, CallPart::Function)
    }
}

} // verus!
