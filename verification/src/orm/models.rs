//! The agent registry: one row for each agent that ever registered, with the
//! key it showed and whether the operator trusts it.
//!
//! No two rows have the same serial or the same id. The rows are kept in the
//! order of their serials, which is the order in which they are listed. A
//! row's key is never changed: an agent gets another key only by being
//! deleted and registering again.

use vstd::prelude::*;
use vstd::string::*;

use crate::errors::{plain, Error, ErrorView};
use crate::text::{
    lemma_text_lt_connected, lemma_text_lt_irreflexive, lemma_text_lt_transitive, same_text,
    text_below, text_lt,
};

verus! {

/// One row of the registry.
#[derive(Debug, PartialEq, Eq)]
pub struct Agent {
    /// The row's number, given when the row is made.
    pub id: i32,
    /// The name that the agent declares.
    pub sn: String,
    /// The agent's public key, as base64 text.
    pub key: String,
    /// Whether tasks are sent to the agent.
    pub enable: bool,
    /// When the row was last written, in seconds since 1970.
    pub updated_at: i64,
    /// When the row was made.
    pub created_at: i64,
}

/// A row as a plain value.
pub struct AgentView {
    pub id: int,
    pub sn: Seq<char>,
    pub key: Seq<char>,
    pub enable: bool,
    pub updated_at: int,
    pub created_at: int,
}

impl View for Agent {
    type V = AgentView;

    open spec fn view(&self) -> AgentView {
        AgentView {
            id: self.id as int,
            sn: self.sn@,
            key: self.key@,
            enable: self.enable,
            updated_at: self.updated_at as int,
            created_at: self.created_at as int,
        }
    }
}

impl DeepView for Agent {
    type V = AgentView;

    open spec fn deep_view(&self) -> AgentView {
        self@
    }
}

/// The registry as a plain value: its rows in order, and the id that the
/// next new row gets.
pub struct RegistryView {
    pub rows: Seq<AgentView>,
    pub next: int,
}

/// The rows stand in the order of their serials, so no serial is there twice.
pub open spec fn sorted(rows: Seq<AgentView>) -> bool {
    forall|i: int, j: int| 0 <= i < j < rows.len() ==> text_lt(rows[i].sn, rows[j].sn)
}

/// No id is there twice.
pub open spec fn ids_distinct(rows: Seq<AgentView>) -> bool {
    forall|i: int, j: int| 0 <= i < j < rows.len() ==> rows[i].id != rows[j].id
}

/// What holds of every registry.
pub open spec fn registry_wf(reg: RegistryView) -> bool {
    &&& sorted(reg.rows)
    &&& ids_distinct(reg.rows)
    &&& forall|i: int| 0 <= i < reg.rows.len() ==> (#[trigger] reg.rows[i]).id < reg.next
    &&& forall|i: int|
        0 <= i < reg.rows.len() ==> i32::MIN <= (#[trigger] reg.rows[i]).id
    &&& i32::MIN <= reg.next <= i32::MAX
}

/// Whether a row has the serial `sn`.
pub open spec fn has_serial(rows: Seq<AgentView>, sn: Seq<char>) -> bool {
    exists|i: int| 0 <= i < rows.len() && (#[trigger] rows[i]).sn == sn
}

/// Where the row with the serial `sn` stands.
pub open spec fn serial_index(rows: Seq<AgentView>, sn: Seq<char>) -> int {
    choose|i: int| 0 <= i < rows.len() && (#[trigger] rows[i]).sn == sn
}

/// Whether a row has the id `id`.
pub open spec fn has_id(rows: Seq<AgentView>, id: int) -> bool {
    exists|i: int| 0 <= i < rows.len() && (#[trigger] rows[i]).id == id
}

/// Where the row with the id `id` stands.
pub open spec fn id_index(rows: Seq<AgentView>, id: int) -> int {
    choose|i: int| 0 <= i < rows.len() && (#[trigger] rows[i]).id == id
}

/// How many rows have the serial `sn`.
pub open spec fn serial_count(rows: Seq<AgentView>, sn: Seq<char>) -> nat
    decreases rows.len(),
{
    if rows.len() == 0 {
        0
    } else {
        serial_count(rows.drop_last(), sn) + if rows.last().sn == sn {
            1nat
        } else {
            0nat
        }
    }
}

/// What a lookup by serial gives.
pub open spec fn found(rows: Seq<AgentView>, sn: Seq<char>) -> Result<AgentView, ErrorView> {
    if has_serial(rows, sn) {
        Ok(rows[serial_index(rows, sn)])
    } else {
        Err(ErrorView::NotFound)
    }
}

/// How many rows at the front have a serial that comes before `sn`: in a
/// registry, the place where a row of that serial belongs.
pub open spec fn rank(rows: Seq<AgentView>, sn: Seq<char>) -> int
    decreases rows.len(),
{
    if rows.len() == 0 {
        0
    } else if text_lt(rows[0].sn, sn) {
        1 + rank(rows.drop_first(), sn)
    } else {
        0
    }
}

/// The row that a registration makes: not trusted yet.
pub open spec fn fresh(id: int, sn: Seq<char>, key: Seq<char>, now: int) -> AgentView {
    AgentView { id, sn, key, enable: false, updated_at: now, created_at: now }
}

/// What adding an agent comes to: a new row in its place, unless the serial
/// is there already or no id is left.
pub open spec fn added(reg: RegistryView, sn: Seq<char>, key: Seq<char>, now: int) -> Result<
    RegistryView,
    ErrorView,
> {
    if has_serial(reg.rows, sn) {
        Err(ErrorView::Duplicate)
    } else if reg.next >= i32::MAX {
        Err(ErrorView::Exhausted)
    } else {
        Ok(
            RegistryView {
                rows: reg.rows.insert(rank(reg.rows, sn), fresh(reg.next, sn, key, now)),
                next: reg.next + 1,
            },
        )
    }
}

/// What putting a stored row into a registry comes to: the row in its
/// place with the id it has, unless its serial or its id is there already or
/// its id is the last one there is.
pub open spec fn placed(reg: RegistryView, row: AgentView) -> Result<RegistryView, ErrorView> {
    if has_serial(reg.rows, row.sn) || has_id(reg.rows, row.id) {
        Err(ErrorView::Duplicate)
    } else if row.id >= i32::MAX {
        Err(ErrorView::Exhausted)
    } else {
        Ok(
            RegistryView {
                rows: reg.rows.insert(rank(reg.rows, row.sn), row),
                next: if reg.next > row.id {
                    reg.next
                } else {
                    row.id + 1
                },
            },
        )
    }
}

/// The registry of stored rows: each put in turn into what the rows before
/// it made, or the first failure.
pub open spec fn loaded(rows: Seq<AgentView>) -> Result<RegistryView, ErrorView>
    decreases rows.len(),
{
    if rows.len() == 0 {
        Ok(RegistryView { rows: Seq::empty(), next: 1 })
    } else {
        match loaded(rows.drop_last()) {
            Err(e) => Err(e),
            Ok(reg) => placed(reg, rows.last()),
        }
    }
}

/// A row after the operator's decision.
pub open spec fn decided(row: AgentView, ok: bool, now: int) -> AgentView {
    AgentView { enable: ok, updated_at: now, ..row }
}

/// What enabling or disabling the row of an id comes to; nothing changes
/// where no row has the id.
pub open spec fn enabled(reg: RegistryView, id: int, ok: bool, now: int) -> RegistryView {
    if has_id(reg.rows, id) {
        let i = id_index(reg.rows, id);
        RegistryView { rows: reg.rows.update(i, decided(reg.rows[i], ok, now)), next: reg.next }
    } else {
        reg
    }
}

/// What deleting the row of an id comes to; nothing changes where no row has
/// the id.
pub open spec fn deleted(reg: RegistryView, id: int) -> RegistryView {
    if has_id(reg.rows, id) {
        RegistryView { rows: reg.rows.remove(id_index(reg.rows, id)), next: reg.next }
    } else {
        reg
    }
}

/// In sorted rows a serial stands at one place only.
pub proof fn lemma_serial_once(rows: Seq<AgentView>, i: int, j: int)
    requires
        sorted(rows),
        0 <= i < rows.len(),
        0 <= j < rows.len(),
        rows[i].sn == rows[j].sn,
    ensures
        i == j,
{
    lemma_text_lt_irreflexive(rows[i].sn);
}

/// The rows before the rank of `sn` come before `sn`; the row at the rank
/// does not.
pub proof fn lemma_rank(rows: Seq<AgentView>, sn: Seq<char>)
    ensures
        0 <= rank(rows, sn) <= rows.len(),
        forall|i: int| 0 <= i < rank(rows, sn) ==> text_lt((#[trigger] rows[i]).sn, sn),
        rank(rows, sn) < rows.len() ==> !text_lt(rows[rank(rows, sn)].sn, sn),
    decreases rows.len(),
{
    if rows.len() > 0 && text_lt(rows[0].sn, sn) {
        let tail = rows.drop_first();
        lemma_rank(tail, sn);
        assert forall|i: int| 0 <= i < rank(rows, sn) implies text_lt(
            (#[trigger] rows[i]).sn,
            sn,
        ) by {
            if i > 0 {
                assert(rows[i] == tail[i - 1]);
            }
        }
        if rank(rows, sn) < rows.len() {
            assert(rows[rank(rows, sn)] == tail[rank(tail, sn)]);
        }
    }
}

/// The rank is the one place before which every serial comes before `sn` and
/// at which the serial does not.
pub proof fn lemma_rank_is(rows: Seq<AgentView>, sn: Seq<char>, at: int)
    requires
        0 <= at <= rows.len(),
        forall|i: int| 0 <= i < at ==> text_lt((#[trigger] rows[i]).sn, sn),
        at < rows.len() ==> !text_lt(rows[at].sn, sn),
    ensures
        rank(rows, sn) == at,
{
    lemma_rank(rows, sn);
    let r = rank(rows, sn);
    if r < at {
        assert(text_lt(rows[r].sn, sn));
    } else if at < r {
        assert(text_lt(rows[at].sn, sn));
    }
}

/// In sorted rows that do not hold `sn`, every row from the rank of `sn` on
/// comes after `sn`.
pub proof fn lemma_rank_splits(rows: Seq<AgentView>, sn: Seq<char>)
    requires
        sorted(rows),
        !has_serial(rows, sn),
    ensures
        forall|i: int| rank(rows, sn) <= i < rows.len() ==> text_lt(sn, (#[trigger] rows[i]).sn),
{
    lemma_rank(rows, sn);
    let r = rank(rows, sn);
    assert forall|i: int| r <= i < rows.len() implies text_lt(sn, (#[trigger] rows[i]).sn) by {
        assert(rows[r].sn != sn);
        lemma_text_lt_connected(rows[r].sn, sn);
        if i > r {
            lemma_text_lt_transitive(sn, rows[r].sn, rows[i].sn);
        }
    }
}

/// Putting a row in keeps a registry a registry.
pub proof fn lemma_placed_wf(reg: RegistryView, row: AgentView)
    requires
        registry_wf(reg),
        i32::MIN <= row.id,
        placed(reg, row) is Ok,
    ensures
        registry_wf(placed(reg, row)->Ok_0),
{
    let sn = row.sn;
    let r = rank(reg.rows, sn);
    let after = reg.rows.insert(r, row);
    let next = placed(reg, row)->Ok_0.next;
    lemma_rank(reg.rows, sn);
    lemma_rank_splits(reg.rows, sn);
    assert forall|i: int, j: int| 0 <= i < j < after.len() implies text_lt(
        after[i].sn,
        after[j].sn,
    ) by {
        if j < r {
            assert(after[i] == reg.rows[i] && after[j] == reg.rows[j]);
        } else if j == r {
            assert(after[i] == reg.rows[i]);
        } else if i < r {
            assert(after[i] == reg.rows[i] && after[j] == reg.rows[j - 1]);
            assert(text_lt(reg.rows[i].sn, sn));
            assert(text_lt(sn, reg.rows[j - 1].sn));
            lemma_text_lt_transitive(after[i].sn, sn, after[j].sn);
        } else if i == r {
            assert(after[j] == reg.rows[j - 1]);
        } else {
            assert(after[i] == reg.rows[i - 1] && after[j] == reg.rows[j - 1]);
        }
    }
    assert forall|i: int, j: int| 0 <= i < j < after.len() implies after[i].id != after[j].id by {
        if i < r {
            assert(after[i] == reg.rows[i]);
        } else if i > r {
            assert(after[i] == reg.rows[i - 1]);
        }
        if j < r {
            assert(after[j] == reg.rows[j]);
        } else if j > r {
            assert(after[j] == reg.rows[j - 1]);
        }
    }
    assert forall|i: int| 0 <= i < after.len() implies (#[trigger] after[i]).id < next && i32::MIN
        <= after[i].id by {
        if i < r {
            assert(after[i] == reg.rows[i]);
        } else if i > r {
            assert(after[i] == reg.rows[i - 1]);
        }
    }
}

/// A row that was put in is found under its serial, and what is found under
/// any other serial is as it was.
pub proof fn lemma_placed(reg: RegistryView, row: AgentView)
    requires
        registry_wf(reg),
        i32::MIN <= row.id,
        placed(reg, row) is Ok,
    ensures
        ({
            let after = placed(reg, row)->Ok_0;
            &&& registry_wf(after)
            &&& after.rows.len() == reg.rows.len() + 1
            &&& found(after.rows, row.sn) == Ok::<AgentView, ErrorView>(row)
            &&& forall|other: Seq<char>|
                other != row.sn ==> #[trigger] found(after.rows, other) == found(reg.rows, other)
        }),
{
    let at = rank(reg.rows, row.sn);
    let after = placed(reg, row)->Ok_0;
    lemma_rank(reg.rows, row.sn);
    lemma_placed_wf(reg, row);
    assert(after.rows[at] == row);
    lemma_found_at(after.rows, at);
    assert forall|other: Seq<char>| other != row.sn implies #[trigger] found(after.rows, other)
        == found(reg.rows, other) by {
        if has_serial(reg.rows, other) {
            let i = serial_index(reg.rows, other);
            let j = if i < at {
                i
            } else {
                i + 1
            };
            assert(after.rows[j] == reg.rows[i]);
            lemma_found_at(after.rows, j);
        } else if has_serial(after.rows, other) {
            let j = serial_index(after.rows, other);
            let i = if j < at {
                j
            } else {
                j - 1
            };
            assert(after.rows[j] == reg.rows[i]);
        }
    }
}

/// Rows that were loaded make a registry with a row for each of them: every
/// one is found under its serial, as it was stored.
pub proof fn lemma_loaded(rows: Seq<AgentView>)
    requires
        forall|i: int| 0 <= i < rows.len() ==> i32::MIN <= (#[trigger] rows[i]).id,
        loaded(rows) is Ok,
    ensures
        ({
            let reg = loaded(rows)->Ok_0;
            &&& registry_wf(reg)
            &&& reg.rows.len() == rows.len()
            &&& forall|i: int|
                0 <= i < rows.len() ==> found(reg.rows, (#[trigger] rows[i]).sn) == Ok::<
                    AgentView,
                    ErrorView,
                >(rows[i])
        }),
    decreases rows.len(),
{
    if rows.len() > 0 {
        let front = rows.drop_last();
        let last = rows.last();
        assert forall|i: int| 0 <= i < front.len() implies i32::MIN <= (#[trigger] front[i]).id by {
            assert(front[i] == rows[i]);
        }
        lemma_loaded(front);
        let before = loaded(front)->Ok_0;
        lemma_placed(before, last);
        let reg = loaded(rows)->Ok_0;
        assert forall|i: int| 0 <= i < rows.len() implies found(
            reg.rows,
            (#[trigger] rows[i]).sn,
        ) == Ok::<AgentView, ErrorView>(rows[i]) by {
            if i < front.len() {
                assert(front[i] == rows[i]);
                assert(found(before.rows, rows[i].sn) == Ok::<AgentView, ErrorView>(rows[i]));
                lemma_found_serial(before.rows, rows[i].sn);
            }
        }
    }
}

/// Adding an agent is putting in a fresh row with the next id.
pub proof fn lemma_added_is_placed(reg: RegistryView, sn: Seq<char>, key: Seq<char>, now: int)
    requires
        registry_wf(reg),
    ensures
        added(reg, sn, key, now) == placed(reg, fresh(reg.next, sn, key, now)),
{
    if has_id(reg.rows, reg.next) {
        let i = id_index(reg.rows, reg.next);
        assert(reg.rows[i].id < reg.next);
    }
}

/// Adding keeps a registry a registry.
pub proof fn lemma_added_wf(reg: RegistryView, sn: Seq<char>, key: Seq<char>, now: int)
    requires
        registry_wf(reg),
        added(reg, sn, key, now) is Ok,
    ensures
        registry_wf(added(reg, sn, key, now)->Ok_0),
{
    lemma_added_is_placed(reg, sn, key, now);
    lemma_placed_wf(reg, fresh(reg.next, sn, key, now));
}

/// A serial that no row has is counted zero times.
pub proof fn lemma_serial_count_none(rows: Seq<AgentView>, sn: Seq<char>)
    requires
        !has_serial(rows, sn),
    ensures
        serial_count(rows, sn) == 0,
    decreases rows.len(),
{
    if rows.len() > 0 {
        let front = rows.drop_last();
        assert(rows.last() == rows[rows.len() - 1]);
        assert forall|i: int| 0 <= i < front.len() implies (#[trigger] front[i]).sn != sn by {
            assert(front[i] == rows[i]);
        }
        lemma_serial_count_none(front, sn);
    }
}

/// A new row is counted under its own serial and under no other.
pub proof fn lemma_serial_count_insert(
    rows: Seq<AgentView>,
    at: int,
    row: AgentView,
    sn: Seq<char>,
)
    requires
        0 <= at <= rows.len(),
    ensures
        serial_count(rows.insert(at, row), sn) == serial_count(rows, sn) + if row.sn == sn {
            1nat
        } else {
            0nat
        },
    decreases rows.len(),
{
    let after = rows.insert(at, row);
    if at == rows.len() {
        assert(after.drop_last() =~= rows);
    } else {
        assert(after.drop_last() =~= rows.drop_last().insert(at, row));
        assert(after.last() == rows.last());
        lemma_serial_count_insert(rows.drop_last(), at, row, sn);
    }
}

/// In a registry the row found under a serial is the row that has it.
pub proof fn lemma_found_at(rows: Seq<AgentView>, i: int)
    requires
        sorted(rows),
        0 <= i < rows.len(),
    ensures
        found(rows, rows[i].sn) == Ok::<AgentView, ErrorView>(rows[i]),
{
    lemma_serial_once(rows, i, serial_index(rows, rows[i].sn));
}

/// What is found under a serial has that serial.
pub proof fn lemma_found_serial(rows: Seq<AgentView>, sn: Seq<char>)
    ensures
        found(rows, sn) matches Ok(row) ==> row.sn == sn && rows.contains(row),
        found(rows, sn) is Ok <==> has_serial(rows, sn),
{
}

/// With distinct ids an id stands at one place only.
pub proof fn lemma_id_once(rows: Seq<AgentView>, i: int, j: int)
    requires
        ids_distinct(rows),
        0 <= i < rows.len(),
        0 <= j < rows.len(),
        rows[i].id == rows[j].id,
    ensures
        i == j,
{
}

/// The operator's decision keeps a registry a registry.
pub proof fn lemma_enabled_wf(reg: RegistryView, id: int, ok: bool, now: int)
    requires
        registry_wf(reg),
    ensures
        registry_wf(enabled(reg, id, ok, now)),
{
    if has_id(reg.rows, id) {
        let at = id_index(reg.rows, id);
        let after = enabled(reg, id, ok, now).rows;
        assert forall|i: int, j: int| 0 <= i < j < after.len() implies text_lt(
            after[i].sn,
            after[j].sn,
        ) && after[i].id != after[j].id by {
            assert(after[i].sn == reg.rows[i].sn && after[i].id == reg.rows[i].id);
            assert(after[j].sn == reg.rows[j].sn && after[j].id == reg.rows[j].id);
        }
        assert forall|i: int| 0 <= i < after.len() implies (#[trigger] after[i]).id < reg.next
            && i32::MIN <= after[i].id by {
            assert(after[i].id == reg.rows[i].id);
        }
    }
}

/// Deleting keeps a registry a registry.
pub proof fn lemma_deleted_wf(reg: RegistryView, id: int)
    requires
        registry_wf(reg),
    ensures
        registry_wf(deleted(reg, id)),
{
    if has_id(reg.rows, id) {
        let at = id_index(reg.rows, id);
        let after = deleted(reg, id).rows;
        assert forall|i: int| 0 <= i < after.len() implies #[trigger] after[i] == reg.rows[if i
            < at {
            i
        } else {
            i + 1
        }] by {}
        assert forall|i: int, j: int| 0 <= i < j < after.len() implies text_lt(
            after[i].sn,
            after[j].sn,
        ) && after[i].id != after[j].id by {
            let a = if i < at { i } else { i + 1 };
            let b = if j < at { j } else { j + 1 };
            assert(after[i] == reg.rows[a] && after[j] == reg.rows[b]);
        }
        assert forall|i: int| 0 <= i < after.len() implies (#[trigger] after[i]).id < reg.next
            && i32::MIN <= after[i].id by {
            let a = if i < at { i } else { i + 1 };
            assert(after[i] == reg.rows[a]);
        }
    }
}

/// Rows of which a first part cannot be loaded cannot be loaded.
pub proof fn lemma_loaded_fails_on(rows: Seq<AgentView>, n: int)
    requires
        0 <= n <= rows.len(),
        loaded(rows.take(n)) is Err,
    ensures
        loaded(rows) == loaded(rows.take(n)),
    decreases rows.len(),
{
    if n < rows.len() {
        assert(rows.drop_last().take(n) =~= rows.take(n));
        lemma_loaded_fails_on(rows.drop_last(), n);
    } else {
        assert(rows.take(n) =~= rows);
    }
}

/// The agent registry.
pub struct Registry {
    rows: Vec<Agent>,
    next: i32,
}

impl View for Registry {
    type V = RegistryView;

    closed spec fn view(&self) -> RegistryView {
        RegistryView { rows: self.rows.deep_view(), next: self.next as int }
    }
}

/// `chrono::Utc::now`, in seconds since 1970. Nothing is claimed of the time.
#[verifier::external_body]
pub(crate) fn now() -> (seconds: i64) {
    chrono::Utc::now().timestamp()
}

impl Agent {
    /// A copy of the row.
    pub fn copy(&self) -> (r: Agent)
        ensures
            r@ == self@,
    {
        Agent {
            id: self.id,
            sn: self.sn.clone(),
            key: self.key.clone(),
            enable: self.enable,
            updated_at: self.updated_at,
            created_at: self.created_at,
        }
    }
}

impl Registry {
    #[verifier::type_invariant]
    spec fn inv(self) -> bool {
        registry_wf(self@)
    }

    /// A registry without rows; its first row will get the id 1.
    pub fn new() -> (r: Registry)
        ensures
            r@ == (RegistryView { rows: Seq::empty(), next: 1 }),
            registry_wf(r@),
    {
        let rows: Vec<Agent> = Vec::new();
        assert(rows.deep_view() =~= Seq::<AgentView>::empty());
        Registry { rows, next: 1 }
    }

    /// The row of the agent with the serial `sn`.
    pub fn by_sn(&self, sn: &str) -> (r: Result<Agent, Error>)
        ensures
            registry_wf(self@),
            plain(r) == found(self@.rows, sn@),
    {
        proof {
            use_type_invariant(self);
        }
        let ghost rows = self@.rows;
        let mut i: usize = 0;
        while i < self.rows.len()
            invariant
                i <= self.rows.len(),
                registry_wf(self@),
                rows == self@.rows,
                rows == self.rows.deep_view(),
                forall|j: int| 0 <= j < i ==> (#[trigger] rows[j]).sn != sn@,
            decreases self.rows.len() - i,
        {
            if same_text(self.rows[i].sn.as_str(), sn) {
                let row = self.rows[i].copy();
                proof {
                    assert(rows[i as int].sn == sn@);
                    lemma_serial_once(rows, i as int, serial_index(rows, sn@));
                }
                return Ok(row);
            }
            i += 1;
        }
        Err(Error::NotFound)
    }

    /// Every row, in the order of the serials.
    pub fn list(&self) -> (r: Vec<Agent>)
        ensures
            registry_wf(self@),
            r.deep_view() == self@.rows,
    {
        proof {
            use_type_invariant(self);
        }
        let mut out: Vec<Agent> = Vec::new();
        let mut i: usize = 0;
        while i < self.rows.len()
            invariant
                i <= self.rows.len(),
                registry_wf(self@),
                out.len() == i,
                forall|j: int| 0 <= j < i ==> (#[trigger] out@[j])@ == self.rows@[j]@,
            decreases self.rows.len() - i,
        {
            out.push(self.rows[i].copy());
            i += 1;
        }
        assert(out.deep_view() =~= self.rows.deep_view());
        out
    }

    /// Puts a stored row into the registry, with the id it has.
    pub fn put(&mut self, row: Agent) -> (r: Result<(), Error>)
        ensures
            registry_wf(old(self)@),
            registry_wf(final(self)@),
            match placed(old(self)@, row@) {
                Ok(reg) => r is Ok && final(self)@ == reg,
                Err(e) => r matches Err(x) && x@ == e && final(self)@ == old(self)@,
            },
    {
        proof {
            use_type_invariant(&*self);
        }
        let ghost rows = self@.rows;
        let ghost sn = row@.sn;
        let mut i: usize = 0;
        while i < self.rows.len() && text_below(self.rows[i].sn.as_str(), row.sn.as_str())
            invariant
                i <= self.rows.len(),
                rows == self.rows.deep_view(),
                sn == row.sn@,
                forall|j: int| 0 <= j < i ==> text_lt((#[trigger] rows[j]).sn, sn),
            decreases self.rows.len() - i,
        {
            i += 1;
        }
        proof {
            lemma_rank_is(rows, sn, i as int);
        }
        if i < self.rows.len() && same_text(self.rows[i].sn.as_str(), row.sn.as_str()) {
            assert(rows[i as int].sn == sn);
            return Err(Error::Duplicate);
        }
        proof {
            assert forall|j: int| 0 <= j < rows.len() implies (#[trigger] rows[j]).sn != sn by {
                if j < i {
                    lemma_text_lt_irreflexive(sn);
                } else if j > i {
                    lemma_text_lt_connected(rows[i as int].sn, sn);
                    lemma_text_lt_transitive(sn, rows[i as int].sn, rows[j].sn);
                    lemma_text_lt_irreflexive(sn);
                }
            }
        }
        if self.position(row.id).is_some() {
            return Err(Error::Duplicate);
        }
        if row.id >= i32::MAX {
            return Err(Error::Exhausted);
        }
        proof {
            lemma_placed_wf(old(self)@, row@);
        }
        let ghost target = placed(old(self)@, row@)->Ok_0;
        let next = if self.next > row.id {
            self.next
        } else {
            row.id + 1
        };
        let mut rows_now: Vec<Agent> = Vec::new();
        core::mem::swap(&mut rows_now, &mut self.rows);
        rows_now.insert(i, row);
        assert(rows_now.deep_view() =~= target.rows);
        *self = Registry { rows: rows_now, next };
        Ok(())
    }

    /// The registry of stored rows, whatever their order.
    pub fn load(rows: Vec<Agent>) -> (r: Result<Registry, Error>)
        ensures
            match loaded(rows.deep_view()) {
                Ok(reg) => r matches Ok(made) && made@ == reg && registry_wf(reg),
                Err(e) => r matches Err(x) && x@ == e,
            },
    {
        let ghost all = rows.deep_view();
        let mut made = Registry::new();
        let mut i: usize = 0;
        assert(all.take(0) =~= Seq::<AgentView>::empty());
        while i < rows.len()
            invariant
                i <= rows.len(),
                all == rows.deep_view(),
                registry_wf(made@),
                loaded(all.take(i as int)) == Ok::<RegistryView, ErrorView>(made@),
            decreases rows.len() - i,
        {
            let row = rows[i].copy();
            proof {
                let upto = all.take(i + 1);
                assert(upto.drop_last() =~= all.take(i as int));
                assert(upto.last() == row@);
            }
            match made.put(row) {
                Ok(()) => {},
                Err(e) => {
                    proof {
                        lemma_loaded_fails_on(all, i + 1);
                    }
                    return Err(e);
                },
            }
            i += 1;
        }
        assert(all.take(i as int) =~= all);
        Ok(made)
    }

    /// Adds a row for a new agent, not trusted yet, written at `now`.
    pub fn add_at(&mut self, sn: &str, key: &str, now: i64) -> (r: Result<(), Error>)
        ensures
            registry_wf(old(self)@),
            registry_wf(final(self)@),
            match added(old(self)@, sn@, key@, now as int) {
                Ok(reg) => r is Ok && final(self)@ == reg,
                Err(e) => r matches Err(x) && x@ == e && final(self)@ == old(self)@,
            },
    {
        proof {
            use_type_invariant(&*self);
            lemma_added_is_placed(self@, sn@, key@, now as int);
        }
        let row = Agent {
            id: self.next,
            sn: sn.to_owned(),
            key: key.to_owned(),
            enable: false,
            updated_at: now,
            created_at: now,
        };
        self.put(row)
    }

    /// Adds a row for a new agent, not trusted yet, written now. The row is
    /// the one that `add_at` makes at some time.
    pub fn add(&mut self, sn: &str, key: &str) -> (r: Result<(), Error>)
        ensures
            registry_wf(old(self)@),
            registry_wf(final(self)@),
            exists|now: i64|
                match #[trigger] added(old(self)@, sn@, key@, now as int) {
                    Ok(reg) => r is Ok && final(self)@ == reg,
                    Err(e) => r matches Err(x) && x@ == e && final(self)@ == old(self)@,
                },
    {
        let now = now();
        let r = self.add_at(sn, key, now);
        assert(match added(old(self)@, sn@, key@, now as int) {
            Ok(reg) => r is Ok && self@ == reg,
            Err(e) => r matches Err(x) && x@ == e && self@ == old(self)@,
        });
        r
    }

    /// Where the row with the id `id` stands.
    fn position(&self, id: i32) -> (r: Option<usize>)
        ensures
            registry_wf(self@),
            match r {
                Some(i) => has_id(self@.rows, id as int) && i == id_index(self@.rows, id as int)
                    && i < self@.rows.len(),
                None => !has_id(self@.rows, id as int),
            },
    {
        proof {
            use_type_invariant(self);
        }
        let ghost rows = self@.rows;
        let mut i: usize = 0;
        while i < self.rows.len()
            invariant
                i <= self.rows.len(),
                registry_wf(self@),
                rows == self@.rows,
                rows == self.rows.deep_view(),
                forall|j: int| 0 <= j < i ==> (#[trigger] rows[j]).id != id,
            decreases self.rows.len() - i,
        {
            if self.rows[i].id == id {
                proof {
                    assert(rows[i as int].id == id);
                    lemma_id_once(rows, i as int, id_index(rows, id as int));
                }
                return Some(i);
            }
            i += 1;
        }
        None
    }

    /// Sets whether tasks are sent to the agent with the id `id`, at `now`.
    /// Nothing changes where no row has the id.
    pub fn enable_at(&mut self, id: i32, ok: bool, now: i64)
        ensures
            registry_wf(old(self)@),
            registry_wf(final(self)@),
            final(self)@ == enabled(old(self)@, id as int, ok, now as int),
    {
        proof {
            use_type_invariant(&*self);
            lemma_enabled_wf(self@, id as int, ok, now as int);
        }
        match self.position(id) {
            None => {},
            Some(i) => {
                let mut row = self.rows[i].copy();
                row.enable = ok;
                row.updated_at = now;
                let ghost target = enabled(old(self)@, id as int, ok, now as int);
                let next = self.next;
                let mut rows_now: Vec<Agent> = Vec::new();
                core::mem::swap(&mut rows_now, &mut self.rows);
                rows_now.set(i, row);
                assert(rows_now.deep_view() =~= target.rows);
                *self = Registry { rows: rows_now, next };
            },
        }
    }

    /// Sets whether tasks are sent to the agent with the id `id`, now: what
    /// `enable_at` does at some time.
    pub fn enable(&mut self, id: i32, ok: bool)
        ensures
            registry_wf(old(self)@),
            registry_wf(final(self)@),
            exists|now: i64| final(self)@ == #[trigger] enabled(old(self)@, id as int, ok, now as int),
    {
        let now = now();
        self.enable_at(id, ok, now);
        assert(self@ == enabled(old(self)@, id as int, ok, now as int));
    }

    /// Removes the row with the id `id`. Nothing changes where no row has
    /// the id.
    pub fn delete(&mut self, id: i32)
        ensures
            registry_wf(old(self)@),
            registry_wf(final(self)@),
            final(self)@ == deleted(old(self)@, id as int),
    {
        proof {
            use_type_invariant(&*self);
            lemma_deleted_wf(self@, id as int);
        }
        match self.position(id) {
            None => {},
            Some(i) => {
                let ghost target = deleted(old(self)@, id as int);
                let next = self.next;
                let mut rows_now: Vec<Agent> = Vec::new();
                core::mem::swap(&mut rows_now, &mut self.rows);
                let _ = rows_now.remove(i);
                assert(rows_now.deep_view() =~= target.rows);
                *self = Registry { rows: rows_now, next };
            },
        }
    }

    /// How many agents are registered.
    pub fn len(&self) -> (r: usize)
        ensures
            r == self@.rows.len(),
    {
        self.rows.len()
    }

    /// Every registry keeps its rows in the order of their serials and its
    /// ids apart. This does nothing when the program runs; it tells a proof
    /// what holds of the registry at hand.
    pub fn sound(&self)
        ensures
            registry_wf(self@),
    {
        proof {
            use_type_invariant(self);
        }
    }
}

} // verus!
