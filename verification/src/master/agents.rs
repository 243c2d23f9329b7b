//! What the operator does with the registry: list the agents, accept one,
//! reject one, delete one.

use vstd::prelude::*;
use vstd::string::*;

use crate::errors::{Error, ErrorView};
use crate::orm::models::{
    decided, deleted, enabled, found, has_serial, id_index, lemma_enabled_wf, lemma_found_at,
    lemma_id_once, lemma_serial_once, now, registry_wf, serial_index, AgentView, Registry,
    RegistryView,
};

verus! {

/// The line of an agent in the operator's list.
pub open spec fn agent_line(row: AgentView) -> Seq<char> {
    if row.enable {
        "YES\t"@ + row.sn
    } else {
        "NO\t"@ + row.sn
    }
}

/// The operator's list: a heading, then a line for each agent, in the order
/// of the serials.
pub open spec fn listing(rows: Seq<AgentView>) -> Seq<Seq<char>> {
    seq!["ENABLE\tNAME"@] + Seq::new(rows.len(), |i: int| agent_line(rows[i]))
}

/// What the operator's decision on the agent with the serial `sn` comes to.
pub open spec fn decision(reg: RegistryView, sn: Seq<char>, ok: bool, now: int) -> Result<
    RegistryView,
    ErrorView,
> {
    match found(reg.rows, sn) {
        Err(e) => Err(e),
        Ok(row) => Ok(enabled(reg, row.id, ok, now)),
    }
}

/// What deleting the agent with the serial `sn` comes to.
pub open spec fn removal(reg: RegistryView, sn: Seq<char>) -> Result<RegistryView, ErrorView> {
    match found(reg.rows, sn) {
        Err(e) => Err(e),
        Ok(row) => Ok(deleted(reg, row.id)),
    }
}

/// Whether a change of the registry came to `outcome`.
pub open spec fn changed(
    before: RegistryView,
    after: RegistryView,
    r: Result<(), Error>,
    outcome: Result<RegistryView, ErrorView>,
) -> bool {
    match outcome {
        Ok(reg) => r is Ok && after == reg,
        Err(e) => r matches Err(x) && x@ == e && after == before,
    }
}

/// After the operator's decision the agent has the flag decided on, and
/// nothing else of its row but the time has changed; the other rows are as
/// they were.
pub proof fn lemma_decision(reg: RegistryView, sn: Seq<char>, ok: bool, now: int)
    requires
        registry_wf(reg),
        has_serial(reg.rows, sn),
    ensures
        decision(reg, sn, ok, now) matches Ok(after) && {
            &&& found(after.rows, sn) == Ok::<AgentView, ErrorView>(
                decided(found(reg.rows, sn)->Ok_0, ok, now),
            )
            &&& after.rows.len() == reg.rows.len()
            &&& forall|other: Seq<char>|
                other != sn ==> #[trigger] found(after.rows, other) == found(reg.rows, other)
        },
{
    let row = found(reg.rows, sn)->Ok_0;
    let at = serial_index(reg.rows, sn);
    assert(reg.rows[at].id == row.id);
    lemma_id_once(reg.rows, at, id_index(reg.rows, row.id));
    let after = enabled(reg, row.id, ok, now);
    lemma_enabled_wf(reg, row.id, ok, now);
    assert(after.rows[at] == decided(row, ok, now));
    lemma_found_at(after.rows, at);
    assert forall|other: Seq<char>| other != sn implies #[trigger] found(after.rows, other)
        == found(reg.rows, other) by {
        if has_serial(reg.rows, other) {
            let i = serial_index(reg.rows, other);
            assert(after.rows[i] == reg.rows[i]);
            lemma_found_at(after.rows, i);
        } else {
            if has_serial(after.rows, other) {
                let i = serial_index(after.rows, other);
                assert(reg.rows[i].sn == other);
            }
        }
    }
}

/// After a deletion the registry does not hold the serial any more.
pub proof fn lemma_removal(reg: RegistryView, sn: Seq<char>)
    requires
        registry_wf(reg),
        has_serial(reg.rows, sn),
    ensures
        removal(reg, sn) matches Ok(after) && !has_serial(after.rows, sn) && after.rows.len() + 1
            == reg.rows.len(),
{
    let row = found(reg.rows, sn)->Ok_0;
    let at = serial_index(reg.rows, sn);
    assert(reg.rows[at].id == row.id);
    lemma_id_once(reg.rows, at, id_index(reg.rows, row.id));
    let after = deleted(reg, row.id);
    if has_serial(after.rows, sn) {
        let i = serial_index(after.rows, sn);
        let j = if i < at {
            i
        } else {
            i + 1
        };
        assert(after.rows[i] == reg.rows[j]);
        lemma_serial_once(reg.rows, j, at);
    }
}

/// The operator's list of the agents.
pub fn list(db: &Registry) -> (r: Vec<String>)
    ensures
        r.deep_view() == listing(db@.rows),
{
    let rows = db.list();
    let mut out: Vec<String> = Vec::new();
    out.push("ENABLE\tNAME".to_owned());
    let mut i: usize = 0;
    while i < rows.len()
        invariant
            i <= rows.len(),
            out.len() == i + 1,
            out@[0]@ == "ENABLE\tNAME"@,
            forall|j: int| 0 <= j < i ==> (#[trigger] out@[j + 1])@ == agent_line(rows@[j]@),
        decreases rows.len() - i,
    {
        let mut line = if rows[i].enable {
            "YES\t".to_owned()
        } else {
            "NO\t".to_owned()
        };
        line.append(rows[i].sn.as_str());
        out.push(line);
        i += 1;
    }
    proof {
        let want = listing(db@.rows);
        assert(out.deep_view().len() == want.len());
        assert forall|k: int| 0 <= k < want.len() implies out.deep_view()[k] == want[k] by {
            if k > 0 {
                assert(out@[(k - 1) + 1]@ == agent_line(rows@[k - 1]@));
                assert(rows.deep_view()[k - 1] == rows@[k - 1]@);
            }
        }
        assert(out.deep_view() =~= want);
    }
    out
}

/// Sets, at the time `now`, whether tasks are sent to the agent with the
/// serial `sn`.
pub fn decide(db: &mut Registry, sn: &str, ok: bool, now: i64) -> (r: Result<(), Error>)
    ensures
        registry_wf(old(db)@),
        registry_wf(final(db)@),
        changed(old(db)@, final(db)@, r, decision(old(db)@, sn@, ok, now as int)),
{
    match db.by_sn(sn) {
        Err(e) => Err(e),
        Ok(row) => {
            db.enable_at(row.id, ok, now);
            Ok(())
        },
    }
}

/// Accepts the agent with the serial `sn`: tasks are sent to it from now on.
pub fn accept(db: &mut Registry, sn: &str) -> (r: Result<(), Error>)
    ensures
        registry_wf(old(db)@),
        registry_wf(final(db)@),
        exists|now: i64|
            changed(
                old(db)@,
                final(db)@,
                r,
                #[trigger] decision(old(db)@, sn@, true, now as int),
            ),
{
    let at = now();
    let r = decide(db, sn, true, at);
    assert(changed(old(db)@, db@, r, decision(old(db)@, sn@, true, at as int)));
    r
}

/// Rejects the agent with the serial `sn`: no task is sent to it from now
/// on.
pub fn reject(db: &mut Registry, sn: &str) -> (r: Result<(), Error>)
    ensures
        registry_wf(old(db)@),
        registry_wf(final(db)@),
        exists|now: i64|
            changed(
                old(db)@,
                final(db)@,
                r,
                #[trigger] decision(old(db)@, sn@, false, now as int),
            ),
{
    let at = now();
    let r = decide(db, sn, false, at);
    assert(changed(old(db)@, db@, r, decision(old(db)@, sn@, false, at as int)));
    r
}

/// Deletes the agent with the serial `sn`.
pub fn delete(db: &mut Registry, sn: &str) -> (r: Result<(), Error>)
    ensures
        registry_wf(old(db)@),
        registry_wf(final(db)@),
        changed(old(db)@, final(db)@, r, removal(old(db)@, sn@)),
{
    match db.by_sn(sn) {
        Err(e) => Err(e),
        Ok(row) => {
            db.delete(row.id);
            Ok(())
        },
    }
}

} // verus!
