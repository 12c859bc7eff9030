//! The duration export: the ledger keyed by path name, in the order in which
//! each name first appeared.

use super::identity::position;
use super::ledger::{ledger_view, LedgerRecord, StepDuration};
use indexmap::IndexMap;
use vstd::prelude::*;

verus! {

/// `indexmap::IndexMap`, carried through as an opaque value.
#[verifier::external_type_specification]
#[verifier::external_body]
#[verifier::reject_recursive_types(K)]
#[verifier::reject_recursive_types(V)]
#[verifier::reject_recursive_types(S)]
pub struct ExIndexMap<K, V, S>(IndexMap<K, V, S>);

/// The entries of an export, in the map's own order.
pub uninterp spec fn export_entries(map: IndexMap<String, StepDuration>) -> Seq<LedgerRecord>;

/// The path names of a sequence of ledger lines.
pub open spec fn names_of(records: Seq<LedgerRecord>) -> Seq<Seq<char>> {
    Seq::new(records.len(), |i: int| records[i].name)
}

/// `entries` once `record` is inserted under its name: a name that is already
/// there keeps its place and takes the new durations, a new name goes last.
pub open spec fn inserted(entries: Seq<LedgerRecord>, record: LedgerRecord) -> Seq<LedgerRecord> {
    let k = position(names_of(entries), record.name);
    if k < entries.len() {
        entries.update(k, record)
    } else {
        entries.push(record)
    }
}

/// `base` once every line of `records` is inserted, first to last.
pub open spec fn collected_onto(base: Seq<LedgerRecord>, records: Seq<LedgerRecord>) -> Seq<
    LedgerRecord,
>
    decreases records.len(),
{
    if records.len() == 0 {
        base
    } else {
        inserted(collected_onto(base, records.drop_last()), records.last())
    }
}

/// The export of a ledger: its lines inserted, first to last, into an empty
/// map.
pub open spec fn collected(records: Seq<LedgerRecord>) -> Seq<LedgerRecord> {
    collected_onto(Seq::empty(), records)
}

/// Inserting two runs of lines one after the other is inserting their
/// concatenation.
pub proof fn lemma_collected_onto_concat(
    base: Seq<LedgerRecord>,
    first: Seq<LedgerRecord>,
    second: Seq<LedgerRecord>,
)
    ensures
        collected_onto(base, first + second) == collected_onto(
            collected_onto(base, first),
            second,
        ),
    decreases second.len(),
{
    if second.len() == 0 {
        assert(first + second =~= first);
    } else {
        lemma_collected_onto_concat(base, first, second.drop_last());
        assert((first + second).drop_last() =~= first + second.drop_last());
        assert((first + second).last() == second.last());
    }
}

/// An export with no entry.
///
/// Trusted: this is `IndexMap::new`, which makes an empty map.
#[verifier::external_body]
fn empty_export() -> (map: IndexMap<String, StepDuration>)
    ensures
        export_entries(map) == Seq::<LedgerRecord>::empty(),
{
    IndexMap::new()
}

/// Puts `duration` under `name`.
///
/// Trusted: this is `IndexMap::insert`. As its documentation says, a key that
/// is already in the map keeps its place in the order and has its value
/// replaced, and a key that is not is added last.
#[verifier::external_body]
fn export_insert(map: &mut IndexMap<String, StepDuration>, name: String, duration: StepDuration)
    ensures
        export_entries(*final(map)) == inserted(
            export_entries(*old(map)),
            LedgerRecord {
                name: name@,
                total: duration.total_duration as int,
                own: duration.self_duration as int,
            },
        ),
{
    map.insert(name, duration);
}

/// Inserts every line of `durations` into `map`, first to last.
fn export_extend(map: &mut IndexMap<String, StepDuration>, durations: &Vec<(String, StepDuration)>)
    ensures
        export_entries(*final(map)) == collected_onto(
            export_entries(*old(map)),
            ledger_view(durations@),
        ),
{
    let ghost base = export_entries(*map);
    let ghost records = ledger_view(durations@);
    let mut i: usize = 0;
    while i < durations.len()
        invariant
            i <= durations@.len(),
            records == ledger_view(durations@),
            export_entries(*map) == collected_onto(base, records.take(i as int)),
        decreases durations@.len() - i,
    {
        let name = durations[i].0.clone();
        let duration = durations[i].1;
        export_insert(map, name, duration);
        proof {
            assert(records.take(i + 1).drop_last() =~= records.take(i as int));
            assert(records.take(i + 1).last() == records[i as int]);
        }
        i = i + 1;
    }
    proof {
        assert(records.take(i as int) =~= records);
    }
}

/// The export of `durations` followed by `pending`: every line inserted under
/// its path name, in that order.
pub fn export_durations(
    durations: &Vec<(String, StepDuration)>,
    pending: &Vec<(String, StepDuration)>,
) -> (map: IndexMap<String, StepDuration>)
    ensures
        export_entries(map) == collected(ledger_view(durations@) + ledger_view(pending@)),
{
    let mut map = empty_export();
    export_extend(&mut map, durations);
    export_extend(&mut map, pending);
    proof {
        lemma_collected_onto_concat(
            Seq::empty(),
            ledger_view(durations@),
            ledger_view(pending@),
        );
    }
    map
}

} // verus!
