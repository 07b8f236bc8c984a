//! The index as a mathematical value: a sequence of records in ascending
//! order of their names, which read as a mapping from name to record.

use crate::invoice::InvoiceView;
use crate::names::{
    lemma_precedes_irreflexive, lemma_precedes_total, lemma_precedes_transitive, name_precedes,
};
use vstd::prelude::*;

verus! {

/// Each record's name stands before the names of all records after it. No
/// two records of such a sequence have one name.
pub open spec fn ascending(records: Seq<InvoiceView>) -> bool {
    forall|i: int, j: int|
        #![trigger records[i], records[j]]
        0 <= i < j < records.len() ==> name_precedes(records[i].name(), records[j].name())
}

/// The first position whose record's name does not stand before `name`; the
/// length where there is none. In an ascending sequence this is where a
/// record named `name` is, or else where it belongs.
pub open spec fn slot(records: Seq<InvoiceView>, name: Seq<char>) -> nat
    decreases records.len(),
{
    if records.len() == 0 || !name_precedes(records[0].name(), name) {
        0
    } else {
        1 + slot(records.drop_first(), name)
    }
}

/// The sequence after `record` was indexed: it takes the place of the record
/// of its name, or, where there is none, enters at the slot of its name.
pub open spec fn upsert(records: Seq<InvoiceView>, record: InvoiceView) -> Seq<InvoiceView> {
    let at = slot(records, record.name()) as int;
    if at < records.len() && records[at].name() == record.name() {
        records.update(at, record)
    } else {
        records.insert(at, record)
    }
}

/// Some record of the sequence has this name.
pub open spec fn holds(records: Seq<InvoiceView>, name: Seq<char>) -> bool {
    exists|i: int| 0 <= i < records.len() && (#[trigger] records[i]).name() == name
}

/// The sequence read as a mapping from each name it holds to a record of
/// that name, which in an ascending sequence is the only one.
pub open spec fn as_map(records: Seq<InvoiceView>) -> Map<Seq<char>, InvoiceView> {
    Map::new(
        |name: Seq<char>| holds(records, name),
        |name: Seq<char>|
            records[choose|i: int| 0 <= i < records.len() && (#[trigger] records[i]).name() == name],
    )
}

/// The slot of a name lies within the sequence or at its end, every record
/// before it has a name that stands before the name, and the record at it
/// has not.
pub proof fn lemma_slot_divides(records: Seq<InvoiceView>, name: Seq<char>)
    ensures
        slot(records, name) <= records.len(),
        forall|j: int|
            0 <= j < slot(records, name) ==> name_precedes((#[trigger] records[j]).name(), name),
        slot(records, name) < records.len() ==> !name_precedes(
            records[slot(records, name) as int].name(),
            name,
        ),
    decreases records.len(),
{
    if records.len() > 0 && name_precedes(records[0].name(), name) {
        let rest = records.drop_first();
        lemma_slot_divides(rest, name);
        assert forall|j: int| 0 <= j < slot(records, name) implies name_precedes(
            (#[trigger] records[j]).name(),
            name,
        ) by {
            if j > 0 {
                assert(records[j] == rest[j - 1]);
            }
        }
        if slot(records, name) < records.len() {
            assert(records[slot(records, name) as int] == rest[slot(rest, name) as int]);
        }
    }
}

/// A position that divides the sequence as the slot does is the slot.
pub proof fn lemma_slot_found(records: Seq<InvoiceView>, name: Seq<char>, at: int)
    requires
        0 <= at <= records.len(),
        forall|j: int| 0 <= j < at ==> name_precedes((#[trigger] records[j]).name(), name),
        at < records.len() ==> !name_precedes(records[at].name(), name),
    ensures
        slot(records, name) == at,
    decreases at,
{
    if at > 0 {
        let rest = records.drop_first();
        assert(name_precedes(records[0].name(), name));
        assert forall|j: int| 0 <= j < at - 1 implies name_precedes(
            (#[trigger] rest[j]).name(),
            name,
        ) by {
            assert(rest[j] == records[j + 1]);
        }
        if at < records.len() {
            assert(rest[at - 1] == records[at]);
        }
        lemma_slot_found(rest, name, at - 1);
    }
}

/// In an ascending sequence a name is held at one position at most.
pub proof fn lemma_ascending_names_differ(records: Seq<InvoiceView>, i: int, j: int)
    requires
        ascending(records),
        0 <= i < records.len(),
        0 <= j < records.len(),
        records[i].name() == records[j].name(),
    ensures
        i == j,
{
    lemma_precedes_irreflexive(records[i].name());
}

/// In an ascending sequence every record after the slot of a name has a name
/// that the name stands before, and so has the record at the slot unless it
/// bears the name itself.
proof fn lemma_after_slot(records: Seq<InvoiceView>, name: Seq<char>)
    requires
        ascending(records),
    ensures
        forall|j: int|
            slot(records, name) <= j < records.len() && (#[trigger] records[j]).name() != name
                ==> name_precedes(name, records[j].name()),
        forall|j: int|
            slot(records, name) < j < records.len() ==> (#[trigger] records[j]).name() != name,
{
    let at = slot(records, name) as int;
    lemma_slot_divides(records, name);
    assert forall|j: int| at <= j < records.len() && (#[trigger] records[j]).name() != name implies 
        name_precedes(name, records[j].name()) by {
        lemma_precedes_total(name, records[at].name());
        if j > at {
            assert(name_precedes(records[at].name(), records[j].name()));
            if records[at].name() != name {
                lemma_precedes_transitive(name, records[at].name(), records[j].name());
            }
        }
    }
    assert forall|j: int| at < j < records.len() implies (#[trigger] records[j]).name() != name by {
        assert(name_precedes(records[at].name(), records[j].name()));
        lemma_precedes_total(name, records[at].name());
        lemma_precedes_irreflexive(name);
        if records[at].name() != name && records[j].name() == name {
            lemma_precedes_transitive(name, records[at].name(), name);
        }
    }
}

/// Indexing a record keeps the sequence ascending.
pub proof fn lemma_upsert_ascending(records: Seq<InvoiceView>, record: InvoiceView)
    requires
        ascending(records),
    ensures
        ascending(upsert(records, record)),
{
    let name = record.name();
    let at = slot(records, name) as int;
    let after = upsert(records, record);
    lemma_slot_divides(records, name);
    lemma_after_slot(records, name);
    if at < records.len() && records[at].name() == name {
        assert forall|i: int, j: int|
            #![trigger after[i], after[j]]
            0 <= i < j < after.len() implies name_precedes(after[i].name(), after[j].name()) by {
            assert(name_precedes(records[i].name(), records[j].name()));
        }
    } else {
        assert forall|i: int, j: int|
            #![trigger after[i], after[j]]
            0 <= i < j < after.len() implies name_precedes(after[i].name(), after[j].name()) by {
            if j < at {
                assert(name_precedes(records[i].name(), records[j].name()));
            } else if j == at {
                assert(name_precedes(records[i].name(), name));
            } else if i < at {
                assert(name_precedes(records[i].name(), records[j - 1].name()));
            } else if i == at {
                assert(records[j - 1].name() != name);
                assert(name_precedes(name, records[j - 1].name()));
            } else {
                assert(name_precedes(records[i - 1].name(), records[j - 1].name()));
            }
        }
    }
}

/// After a record was indexed, the slot of its name is where it stands.
pub proof fn lemma_upsert_slot(records: Seq<InvoiceView>, record: InvoiceView)
    ensures
        slot(upsert(records, record), record.name()) == slot(records, record.name()),
        slot(records, record.name()) < upsert(records, record).len(),
        upsert(records, record)[slot(records, record.name()) as int] == record,
{
    let name = record.name();
    let at = slot(records, name) as int;
    let after = upsert(records, record);
    lemma_slot_divides(records, name);
    lemma_precedes_irreflexive(name);
    assert forall|j: int| 0 <= j < at implies name_precedes((#[trigger] after[j]).name(), name) by {
        assert(after[j] == records[j]);
    }
    lemma_slot_found(after, name, at);
}

/// Indexing a record and then another of the same name leaves what indexing
/// the second alone leaves: the later record replaces the earlier.
pub proof fn lemma_upsert_replaces(
    records: Seq<InvoiceView>,
    earlier: InvoiceView,
    later: InvoiceView,
)
    requires
        earlier.name() == later.name(),
    ensures
        upsert(upsert(records, earlier), later) == upsert(records, later),
{
    let at = slot(records, later.name()) as int;
    let between = upsert(records, earlier);
    lemma_slot_divides(records, later.name());
    lemma_upsert_slot(records, earlier);
    assert(upsert(between, later) == between.update(at, later));
    if at < records.len() && records[at].name() == later.name() {
        assert(between.update(at, later) =~= records.update(at, later));
    } else {
        assert(between.update(at, later) =~= records.insert(at, later));
    }
}

/// Indexing a record that bears a new name makes the sequence one longer;
/// indexing one whose name is held leaves its length.
pub proof fn lemma_upsert_len(records: Seq<InvoiceView>, record: InvoiceView)
    requires
        ascending(records),
    ensures
        upsert(records, record).len() == if holds(records, record.name()) {
            records.len()
        } else {
            records.len() + 1
        },
{
    let name = record.name();
    let at = slot(records, name) as int;
    lemma_slot_divides(records, name);
    lemma_after_slot(records, name);
    lemma_precedes_irreflexive(name);
    if holds(records, name) {
        let i = choose|i: int| 0 <= i < records.len() && (#[trigger] records[i]).name() == name;
        if i < at {
            assert(name_precedes(records[i].name(), name));
        }
    }
}

/// Read as a mapping, indexing a record maps its name to it and leaves every
/// other name as it was.
pub proof fn lemma_upsert_as_map(records: Seq<InvoiceView>, record: InvoiceView)
    requires
        ascending(records),
    ensures
        as_map(upsert(records, record)) == as_map(records).insert(record.name(), record),
{
    let name = record.name();
    let at = slot(records, name) as int;
    let after = upsert(records, record);
    let replaced = at < records.len() && records[at].name() == name;
    lemma_upsert_ascending(records, record);
    lemma_upsert_slot(records, record);
    lemma_slot_divides(records, name);
    assert forall|other: Seq<char>| holds(after, other) <==> (other == name || holds(
        records,
        other,
    )) by {
        if holds(after, other) && other != name {
            let i = choose|i: int| 0 <= i < after.len() && (#[trigger] after[i]).name() == other;
            if replaced {
                assert(records[i].name() == other);
            } else if i < at {
                assert(records[i].name() == other);
            } else {
                assert(records[i - 1].name() == other);
            }
        }
        if holds(records, other) && other != name {
            let i = choose|i: int|
                0 <= i < records.len() && (#[trigger] records[i]).name() == other;
            if replaced || i < at {
                assert(after[i].name() == other);
            } else {
                assert(after[i + 1].name() == other);
            }
        }
        if other == name {
            assert(after[at].name() == other);
        }
    }
    assert forall|other: Seq<char>| holds(after, other) implies #[trigger] as_map(after)[other]
        == as_map(records).insert(name, record)[other] by {
        let i = choose|i: int| 0 <= i < after.len() && (#[trigger] after[i]).name() == other;
        if other == name {
            lemma_ascending_names_differ(after, i, at);
        } else {
            let k = choose|k: int|
                0 <= k < records.len() && (#[trigger] records[k]).name() == other;
            let moved = if replaced || k < at { k } else { k + 1 };
            assert(after[moved] == records[k]);
            lemma_ascending_names_differ(after, i, moved);
        }
    }
    assert(as_map(after) =~= as_map(records).insert(name, record));
}

} // verus!
