use vstd::prelude::*;
use crate::entity::{copy_strings, strs_view};
use crate::store::StoreError;

verus! {

/// The schema version this library brings stores up to.
pub const SCHEMA_VERSION: i64 = 2;

/// A column as the current schema declares it.
pub struct ColumnDef {
    pub name: String,
    /// Type and constraints, as written after the name in DDL.
    pub decl: String,
    /// What existing rows hold once the column is added.
    pub default_value: String,
}

pub struct ColumnDefView {
    pub name: Seq<char>,
    pub decl: Seq<char>,
    pub default_value: Seq<char>,
}

impl View for ColumnDef {
    type V = ColumnDefView;

    open spec fn view(&self) -> ColumnDefView {
        ColumnDefView { name: self.name@, decl: self.decl@, default_value: self.default_value@ }
    }
}

impl ColumnDef {
    pub fn duplicate(&self) -> (r: ColumnDef)
        ensures
            r@ == self@,
    {
        ColumnDef { name: self.name.clone(), decl: self.decl.clone(), default_value: self.default_value.clone() }
    }
}

/// A table as the current schema declares it, columns in the order they
/// were introduced.
pub struct TableDef {
    pub name: String,
    pub columns: Vec<ColumnDef>,
}

pub struct TableDefView {
    pub name: Seq<char>,
    pub columns: Seq<ColumnDefView>,
}

impl View for TableDef {
    type V = TableDefView;

    open spec fn view(&self) -> TableDefView {
        TableDefView { name: self.name@, columns: self.columns@.map_values(|c: ColumnDef| c@) }
    }
}

/// A table as it stands in a store: its column names and its rows, one cell
/// per column.
pub struct TableState {
    pub name: String,
    pub columns: Vec<String>,
    pub rows: Vec<Vec<String>>,
}

pub struct TableStateView {
    pub name: Seq<char>,
    pub columns: Seq<Seq<char>>,
    pub rows: Seq<Seq<Seq<char>>>,
}

impl View for TableState {
    type V = TableStateView;

    open spec fn view(&self) -> TableStateView {
        TableStateView {
            name: self.name@,
            columns: strs_view(self.columns@),
            rows: self.rows@.map_values(|r: Vec<String>| strs_view(r@)),
        }
    }
}

/// A store's schema: its persisted version and its tables.
pub struct SchemaState {
    pub version: i64,
    pub tables: Vec<TableState>,
}

pub struct SchemaStateView {
    pub version: i64,
    pub tables: Seq<TableStateView>,
}

impl View for SchemaState {
    type V = SchemaStateView;

    open spec fn view(&self) -> SchemaStateView {
        SchemaStateView { version: self.version, tables: self.tables@.map_values(|t: TableState| t@) }
    }
}

/// One change a migration makes to a store.
pub enum MigrationStep {
    /// Create a missing table with every declared column.
    CreateTable { table: String, columns: Vec<ColumnDef> },
    /// Add a missing column; existing rows take its default.
    AddColumn { table: String, column: ColumnDef },
}

/// One change, as the model sees it.
pub enum StepView {
    Create { table: Seq<char>, columns: Seq<ColumnDefView> },
    Add { table: Seq<char>, column: ColumnDefView },
}

impl View for MigrationStep {
    type V = StepView;

    open spec fn view(&self) -> StepView {
        match self {
            MigrationStep::CreateTable { table, columns } => StepView::Create {
                table: table@,
                columns: columns@.map_values(|c: ColumnDef| c@),
            },
            MigrationStep::AddColumn { table, column } => StepView::Add { table: table@, column: column@ },
        }
    }
}

pub open spec fn steps_view(s: Seq<MigrationStep>) -> Seq<StepView> {
    s.map_values(|m: MigrationStep| m@)
}

/// The position of the table named `name`.
pub open spec fn table_index(tables: Seq<TableStateView>, name: Seq<char>) -> int {
    choose|i: int| 0 <= i < tables.len() && tables[i].name == name
}

/// A schema with one change made: a created table comes last, empty, with
/// the declared column names; an added column comes last in its table and
/// every row holds its default there.
pub open spec fn apply_step(s: SchemaStateView, st: StepView) -> SchemaStateView {
    match st {
        StepView::Create { table, columns } => SchemaStateView {
            tables: s.tables.push(TableStateView { name: table, columns: column_names(columns), rows: Seq::empty() }),
            ..s
        },
        StepView::Add { table, column } => {
            let i = table_index(s.tables, table);
            let t = s.tables[i];
            SchemaStateView {
                tables: s.tables.update(
                    i,
                    TableStateView {
                        columns: t.columns.push(column.name),
                        rows: t.rows.map_values(|r: Seq<Seq<char>>| r.push(column.default_value)),
                        ..t
                    },
                ),
                ..s
            }
        },
    }
}

/// A schema with the changes made in order.
pub open spec fn apply_steps(s: SchemaStateView, steps: Seq<StepView>) -> SchemaStateView
    decreases steps.len(),
{
    if steps.len() == 0 {
        s
    } else {
        apply_step(apply_steps(s, steps.drop_last()), steps.last())
    }
}

/// A change that fits the schema it is made on: a table created is missing
/// and declared with exactly those columns; a column added is missing from
/// its (present) table and is one of that table's declared columns, with its
/// declaration and default.
pub open spec fn step_ok(s: SchemaStateView, st: StepView, defs: Seq<TableDefView>) -> bool {
    match st {
        StepView::Create { table, columns } => !has_table(s.tables, table) && exists|d: int|
            0 <= d < defs.len() && defs[d].name == table && defs[d].columns == columns,
        StepView::Add { table, column } => has_table(s.tables, table) && !s.tables[table_index(
            s.tables,
            table,
        )].columns.contains(column.name) && exists|d: int, k: int|
            0 <= d < defs.len() && 0 <= k < defs[d].columns.len() && defs[d].name == table && defs[d].columns[k]
                == column,
    }
}

/// Every change fits the schema that the changes before it left.
pub open spec fn steps_ok(s: SchemaStateView, steps: Seq<StepView>, defs: Seq<TableDefView>) -> bool
    decreases steps.len(),
{
    if steps.len() == 0 {
        true
    } else {
        steps_ok(s, steps.drop_last(), defs) && step_ok(apply_steps(s, steps.drop_last()), steps.last(), defs)
    }
}

/// Making `steps` on `before`, in order, gives the tables of `after`, and
/// each step fits the schema it is made on.
pub open spec fn replays(before: SchemaStateView, after: SchemaStateView, steps: Seq<StepView>, defs: Seq<TableDefView>) -> bool {
    &&& after.tables == apply_steps(before, steps).tables
    &&& steps_ok(before, steps, defs)
}

proof fn lemma_steps_push(s: SchemaStateView, steps: Seq<MigrationStep>, x: MigrationStep, defs: Seq<TableDefView>)
    ensures
        steps_view(steps.push(x)) == steps_view(steps).push(x@),
        apply_steps(s, steps_view(steps.push(x))) == apply_step(apply_steps(s, steps_view(steps)), x@),
        steps_ok(s, steps_view(steps.push(x)), defs) == (steps_ok(s, steps_view(steps), defs) && step_ok(
            apply_steps(s, steps_view(steps)),
            x@,
            defs,
        )),
{
    assert(steps_view(steps.push(x)) =~= steps_view(steps).push(x@));
    assert(steps_view(steps).push(x@).drop_last() =~= steps_view(steps));
}

pub open spec fn defs_view(defs: Seq<TableDef>) -> Seq<TableDefView> {
    defs.map_values(|d: TableDef| d@)
}

pub open spec fn column_names(cols: Seq<ColumnDefView>) -> Seq<Seq<char>> {
    cols.map_values(|c: ColumnDefView| c.name)
}

/// Table names are distinct, and so are the column names of each table.
pub open spec fn defs_wf(defs: Seq<TableDefView>) -> bool {
    &&& forall|i: int, j: int| 0 <= i < defs.len() && 0 <= j < defs.len() && i != j ==> defs[i].name != defs[j].name
    &&& forall|i: int| 0 <= i < defs.len() ==> column_names(#[trigger] defs[i].columns).no_duplicates()
}

/// Every row has one cell per column.
pub open spec fn table_wf(t: TableStateView) -> bool {
    forall|k: int| 0 <= k < t.rows.len() ==> (#[trigger] t.rows[k]).len() == t.columns.len()
}

/// Table names are distinct and every row has one cell per column.
pub open spec fn state_wf(s: SchemaStateView) -> bool {
    &&& forall|i: int, j: int| 0 <= i < s.tables.len() && 0 <= j < s.tables.len() && i != j ==> s.tables[i].name != s.tables[j].name
    &&& forall|i: int| 0 <= i < s.tables.len() ==> table_wf(#[trigger] s.tables[i])
}

/// The declared table `def` is there with every declared column.
pub open spec fn table_done(s: SchemaStateView, def: TableDefView) -> bool {
    &&& has_table(s.tables, def.name)
    &&& forall|c: int| 0 <= c < def.columns.len() ==> holds_column(s, def.name, #[trigger] def.columns[c].name)
}

/// Every declared table is there with every declared column.
pub open spec fn schema_complete(s: SchemaStateView, defs: Seq<TableDefView>) -> bool {
    forall|d: int| 0 <= d < defs.len() ==> table_done(s, #[trigger] defs[d])
}

/// Some table of `tables` is named `name`.
pub open spec fn has_table(tables: Seq<TableStateView>, name: Seq<char>) -> bool {
    exists|i: int| 0 <= i < tables.len() && tables[i].name == name
}

/// What a run of the migrations from `before` to `after`, making `n_steps`
/// changes, guarantees.
pub open spec fn migrated(before: SchemaStateView, after: SchemaStateView, n_steps: nat, defs: Seq<TableDefView>, target: i64) -> bool {
    &&& state_wf(after)
    &&& before.version >= target ==> after == before && n_steps == 0
    &&& before.version < target ==> {
        &&& after.version == target
        &&& schema_complete(after, defs)
        &&& extends(before, after, defs)
        &&& schema_complete(before, defs) ==> after.tables == before.tables && n_steps == 0
    }
}

/// The table named `name` is there and has column `col`.
pub open spec fn holds_column(s: SchemaStateView, name: Seq<char>, col: Seq<char>) -> bool {
    exists|i: int| 0 <= i < s.tables.len() && s.tables[i].name == name && s.tables[i].columns.contains(col)
}

/// The declared default of column `col` of the table named `name`.
pub open spec fn default_of(defs: Seq<TableDefView>, name: Seq<char>, col: Seq<char>) -> Seq<char> {
    let d = choose|d: int| 0 <= d < defs.len() && defs[d].name == name;
    let c = choose|c: int| 0 <= c < defs[d].columns.len() && defs[d].columns[c].name == col;
    defs[d].columns[c].default_value
}

/// `t1` extends `t0` without losing anything: same name, the old columns
/// first, every old cell kept, and each new column holding its declared
/// default in every old row.
pub open spec fn table_extends(t0: TableStateView, t1: TableStateView, defs: Seq<TableDefView>) -> bool {
    &&& t1.name == t0.name
    &&& t0.columns.len() <= t1.columns.len()
    &&& t1.columns.take(t0.columns.len() as int) == t0.columns
    &&& t1.rows.len() == t0.rows.len()
    &&& forall|k: int| 0 <= k < t0.rows.len() ==> (#[trigger] t1.rows[k]).take(t0.columns.len() as int) == t0.rows[k]
    &&& forall|k: int, c: int| 0 <= k < t0.rows.len() && t0.columns.len() <= c < t1.columns.len() ==>
        (#[trigger] t1.rows[k][c]) == default_of(defs, t0.name, t1.columns[c])
}

/// `after` extends `before` table by table; tables it adds come last, empty.
pub open spec fn extends(before: SchemaStateView, after: SchemaStateView, defs: Seq<TableDefView>) -> bool {
    &&& before.tables.len() <= after.tables.len()
    &&& forall|i: int| 0 <= i < before.tables.len() ==> table_extends(before.tables[i], #[trigger] after.tables[i], defs)
    &&& forall|i: int| before.tables.len() <= i < after.tables.len() ==> (#[trigger] after.tables[i]).rows.len() == 0
}

proof fn lemma_table_extends_refl(t: TableStateView, defs: Seq<TableDefView>)
    requires
        table_wf(t),
    ensures
        table_extends(t, t, defs),
{
    assert(t.columns.take(t.columns.len() as int) =~= t.columns);
    assert forall|k: int| 0 <= k < t.rows.len() implies (#[trigger] t.rows[k]).take(t.columns.len() as int) == t.rows[k] by {
        assert(t.rows[k].take(t.columns.len() as int) =~= t.rows[k]);
    }
}

proof fn lemma_extends_refl(s: SchemaStateView, defs: Seq<TableDefView>)
    requires
        state_wf(s),
    ensures
        extends(s, s, defs),
{
    assert forall|i: int| 0 <= i < s.tables.len() implies table_extends(s.tables[i], #[trigger] s.tables[i], defs) by {
        lemma_table_extends_refl(s.tables[i], defs);
    }
}

proof fn lemma_table_extends_trans(t0: TableStateView, t1: TableStateView, t2: TableStateView, defs: Seq<TableDefView>)
    requires
        table_wf(t0),
        table_wf(t1),
        table_wf(t2),
        table_extends(t0, t1, defs),
        table_extends(t1, t2, defs),
    ensures
        table_extends(t0, t2, defs),
{
    let n0 = t0.columns.len() as int;
    let n1 = t1.columns.len() as int;
    assert(t2.columns.take(n0) =~= t2.columns.take(n1).take(n0));
    assert forall|k: int| 0 <= k < t0.rows.len() implies (#[trigger] t2.rows[k]).take(n0) == t0.rows[k] by {
        assert(t2.rows[k].take(n0) =~= t2.rows[k].take(n1).take(n0));
    }
    assert forall|k: int, c: int| 0 <= k < t0.rows.len() && n0 <= c < t2.columns.len() implies (#[trigger] t2.rows[k][c])
        == default_of(defs, t0.name, t2.columns[c]) by {
        if c < n1 {
            assert(t2.rows[k][c] == t2.rows[k].take(n1)[c]);
            assert(t2.columns[c] == t2.columns.take(n1)[c]);
            assert(t1.rows[k][c] == default_of(defs, t0.name, t1.columns[c]));
        }
    }
}

proof fn lemma_extends_trans(a: SchemaStateView, b: SchemaStateView, c: SchemaStateView, defs: Seq<TableDefView>)
    requires
        state_wf(a),
        state_wf(b),
        state_wf(c),
        extends(a, b, defs),
        extends(b, c, defs),
    ensures
        extends(a, c, defs),
{
    assert forall|i: int| 0 <= i < a.tables.len() implies table_extends(a.tables[i], #[trigger] c.tables[i], defs) by {
        lemma_table_extends_trans(a.tables[i], b.tables[i], c.tables[i], defs);
    }
    assert forall|i: int| a.tables.len() <= i < c.tables.len() implies (#[trigger] c.tables[i]).rows.len() == 0 by {
        if i < b.tables.len() {
            assert(table_extends(b.tables[i], c.tables[i], defs));
        }
    }
}

/// Under distinct names, the default found by name is the declared one.
pub proof fn lemma_default_of(defs: Seq<TableDefView>, d: int, c: int)
    requires
        defs_wf(defs),
        0 <= d < defs.len(),
        0 <= c < defs[d].columns.len(),
    ensures
        default_of(defs, defs[d].name, defs[d].columns[c].name) == defs[d].columns[c].default_value,
{
    let name = defs[d].name;
    let col = defs[d].columns[c].name;
    let d2 = choose|d2: int| 0 <= d2 < defs.len() && defs[d2].name == name;
    assert(d2 == d);
    let c2 = choose|c2: int| 0 <= c2 < defs[d].columns.len() && defs[d].columns[c2].name == col;
    assert(column_names(defs[d].columns)[c2] == column_names(defs[d].columns)[c]);
    assert(c2 == c);
}

/// A table that only grew keeps every column it had.
proof fn lemma_holds_mono(a: SchemaStateView, b: SchemaStateView, defs: Seq<TableDefView>, name: Seq<char>, col: Seq<char>)
    requires
        extends(a, b, defs),
        holds_column(a, name, col),
    ensures
        holds_column(b, name, col),
{
    let i = choose|i: int| 0 <= i < a.tables.len() && a.tables[i].name == name && a.tables[i].columns.contains(col);
    assert(table_extends(a.tables[i], b.tables[i], defs));
    let k = choose|k: int| 0 <= k < a.tables[i].columns.len() && a.tables[i].columns[k] == col;
    assert(b.tables[i].columns.take(a.tables[i].columns.len() as int)[k] == col);
    assert(b.tables[i].columns[k] == col);
}

/// A table that only grew is still there.
proof fn lemma_has_table_mono(a: SchemaStateView, b: SchemaStateView, defs: Seq<TableDefView>, name: Seq<char>)
    requires
        extends(a, b, defs),
        has_table(a.tables, name),
    ensures
        has_table(b.tables, name),
{
    let i = choose|i: int| 0 <= i < a.tables.len() && a.tables[i].name == name;
    assert(table_extends(a.tables[i], b.tables[i], defs));
}

/// The position of the table named `name`.
fn find_table(tables: &Vec<TableState>, name: &String) -> (r: Option<usize>)
    ensures
        match r {
            Some(i) => i < tables@.len() && tables@[i as int]@.name == name@,
            None => forall|i: int| 0 <= i < tables@.len() ==> tables@[i]@.name != name@,
        },
{
    let mut i: usize = 0;
    while i < tables.len()
        invariant
            i <= tables@.len(),
            forall|k: int| 0 <= k < i ==> tables@[k]@.name != name@,
        decreases tables@.len() - i,
    {
        if tables[i].name == *name {
            return Some(i);
        }
        i = i + 1;
    }
    None
}

/// Whether `v` holds the string `x`.
fn contains_name(v: &Vec<String>, x: &String) -> (r: bool)
    ensures
        r == strs_view(v@).contains(x@),
{
    let mut i: usize = 0;
    while i < v.len()
        invariant
            i <= v@.len(),
            forall|k: int| 0 <= k < i ==> strs_view(v@)[k] != x@,
        decreases v@.len() - i,
    {
        if v[i] == *x {
            assert(strs_view(v@)[i as int] == x@);
            return true;
        }
        i = i + 1;
    }
    false
}

/// Adds column `col` (column `c` of declared table `d`) to table `t`; every
/// row takes the column's default.
fn add_column(state: &mut SchemaState, t: usize, col: &ColumnDef, Ghost(dv): Ghost<Seq<TableDefView>>, Ghost(d): Ghost<int>, Ghost(c): Ghost<int>)
    requires
        t < old(state).tables@.len(),
        state_wf(old(state)@),
        defs_wf(dv),
        0 <= d < dv.len(),
        0 <= c < dv[d].columns.len(),
        dv[d].name == old(state)@.tables[t as int].name,
        dv[d].columns[c] == col@,
    ensures
        state_wf(final(state)@),
        extends(old(state)@, final(state)@, dv),
        final(state)@.tables.len() == old(state)@.tables.len(),
        final(state).version == old(state).version,
        final(state)@.tables[t as int].columns.contains(col.name@),
        final(state)@ == apply_step(old(state)@, StepView::Add { table: old(state)@.tables[t as int].name, column: col@ }),
{
    let ghost t0 = state@.tables[t as int];
    let mut cols = copy_strings(&state.tables[t].columns);
    cols.push(col.name.clone());
    let mut rows: Vec<Vec<String>> = Vec::new();
    let mut k: usize = 0;
    while k < state.tables[t].rows.len()
        invariant
            t < state.tables@.len(),
            t0 == state@.tables[t as int],
            k <= t0.rows.len(),
            rows@.len() == k,
            forall|m: int| 0 <= m < k ==> strs_view(#[trigger] rows@[m]@) == t0.rows[m].push(col.default_value@),
        decreases t0.rows.len() - k,
    {
        let mut row = copy_strings(&state.tables[t].rows[k]);
        row.push(col.default_value.clone());
        assert(strs_view(row@) =~= t0.rows[k as int].push(col.default_value@));
        rows.push(row);
        k = k + 1;
    }
    let nt = TableState { name: state.tables[t].name.clone(), columns: cols, rows: rows };
    let ghost t1 = nt@;
    assert(t1.columns =~= t0.columns.push(col.name@));
    let ghost pre = state.tables@;
    state.tables.set(t, nt);
    proof {
        lemma_default_of(dv, d, c);
        let n0 = t0.columns.len() as int;
        assert(t1.columns.take(n0) =~= t0.columns);
        assert(t1.columns[n0] == col.name@);
        assert forall|m: int| 0 <= m < t0.rows.len() implies (#[trigger] t1.rows[m]).take(n0) == t0.rows[m] by {
            assert(t1.rows[m] == t0.rows[m].push(col.default_value@));
            assert(t0.rows[m].len() == n0);
            assert(t1.rows[m].take(n0) =~= t0.rows[m]);
        }
        assert forall|m: int, x: int| 0 <= m < t0.rows.len() && n0 <= x < t1.columns.len() implies (#[trigger] t1.rows[m][x])
            == default_of(dv, t0.name, t1.columns[x]) by {
            assert(t1.rows[m] == t0.rows[m].push(col.default_value@));
            assert(x == n0);
        }
        assert(table_extends(t0, t1, dv));
        assert forall|m: int| 0 <= m < t1.rows.len() implies (#[trigger] t1.rows[m]).len() == t1.columns.len() by {
            assert(t1.rows[m] == t0.rows[m].push(col.default_value@));
        }
        assert forall|i: int| 0 <= i < state@.tables.len() && i != t implies #[trigger] state@.tables[i] == old(state)@.tables[i] by {
            assert(state.tables@[i] == pre[i]);
        }
        assert forall|i: int| 0 <= i < old(state)@.tables.len() implies table_extends(old(state)@.tables[i], #[trigger] state@.tables[i], dv) by {
            if i != t {
                lemma_table_extends_refl(old(state)@.tables[i], dv);
            }
        }
        assert(t1.columns.contains(col.name@)) by {
            assert(t1.columns[n0] == col.name@);
        }
        let os = old(state)@;
        let ti = table_index(os.tables, t0.name);
        assert(os.tables[t as int].name == t0.name);
        assert(ti == t);
        assert(t1.rows =~= t0.rows.map_values(|r: Seq<Seq<char>>| r.push(col.default_value@)));
        assert(t1 == TableStateView {
            columns: t0.columns.push(col.name@),
            rows: t0.rows.map_values(|r: Seq<Seq<char>>| r.push(col.default_value@)),
            ..t0
        });
        assert(state@.tables =~= os.tables.update(t as int, t1));
    }
}

/// Creates or upgrades the table declared by `def` (declared table `d`),
/// recording each change in `steps`.
fn upgrade_table(
    state: &mut SchemaState,
    def: &TableDef,
    steps: &mut Vec<MigrationStep>,
    Ghost(s0): Ghost<SchemaStateView>,
    Ghost(dv): Ghost<Seq<TableDefView>>,
    Ghost(d): Ghost<int>,
)
    requires
        defs_wf(dv),
        0 <= d < dv.len(),
        dv[d] == def@,
        state_wf(s0),
        state_wf(old(state)@),
        extends(s0, old(state)@, dv),
        forall|e: int| 0 <= e < d ==> table_done(old(state)@, #[trigger] dv[e]),
        old(state)@ == apply_steps(s0, steps_view(old(steps)@)),
        steps_ok(s0, steps_view(old(steps)@), dv),
    ensures
        final(state)@ == apply_steps(s0, steps_view(final(steps)@)),
        steps_ok(s0, steps_view(final(steps)@), dv),
        state_wf(final(state)@),
        extends(s0, final(state)@, dv),
        final(state).version == old(state).version,
        forall|e: int| 0 <= e <= d ==> table_done(final(state)@, #[trigger] dv[e]),
        table_done(old(state)@, dv[d]) ==> final(state)@ == old(state)@ && final(steps)@.len() == old(steps)@.len(),
{
    let ghost st0 = state@;
    let ghost steps0 = steps@.len();
    match find_table(&state.tables, &def.name) {
        None => {
            assert(!has_table(st0.tables, def.name@));
            let mut names: Vec<String> = Vec::new();
            let mut c: usize = 0;
            while c < def.columns.len()
                invariant
                    0 <= d < dv.len(),
                    dv[d] == def@,
                    c <= def.columns@.len(),
                    strs_view(names@) == column_names(dv[d].columns).take(c as int),
                decreases def.columns@.len() - c,
            {
                let ghost prev = strs_view(names@);
                assert(dv[d].columns[c as int] == def.columns@[c as int]@);
                names.push(def.columns[c].name.clone());
                assert(strs_view(names@) =~= prev.push(dv[d].columns[c as int].name));
                assert(column_names(dv[d].columns).take(c + 1) =~= column_names(dv[d].columns).take(c as int).push(
                    dv[d].columns[c as int].name,
                ));
                c = c + 1;
                assert(strs_view(names@) =~= column_names(dv[d].columns).take(c as int));
            }
            assert(column_names(dv[d].columns).take(def.columns@.len() as int) =~= column_names(dv[d].columns));
            let mut cols: Vec<ColumnDef> = Vec::new();
            let mut c2: usize = 0;
            while c2 < def.columns.len()
                invariant
                    0 <= d < dv.len(),
                    dv[d] == def@,
                    c2 <= def.columns@.len(),
                    cols@.map_values(|x: ColumnDef| x@) == dv[d].columns.take(c2 as int),
                decreases def.columns@.len() - c2,
            {
                let ghost before = cols@.map_values(|x: ColumnDef| x@);
                let x = def.columns[c2].duplicate();
                assert(x@ == dv[d].columns[c2 as int]);
                cols.push(x);
                assert(cols@.map_values(|x: ColumnDef| x@) =~= before.push(x@));
                c2 = c2 + 1;
                assert(dv[d].columns.take(c2 as int) =~= dv[d].columns.take(c2 - 1).push(dv[d].columns[c2 - 1]));
            }
            assert(dv[d].columns.take(def.columns@.len() as int) =~= dv[d].columns);
            let ghost sv0 = steps@;
            let nt = TableState { name: def.name.clone(), columns: names, rows: Vec::new() };
            let ghost t1 = nt@;
            assert(t1.rows =~= Seq::<Seq<Seq<char>>>::empty());
            let ghost pre = state.tables@;
            state.tables.push(nt);
            let step = MigrationStep::CreateTable { table: def.name.clone(), columns: cols };
            let ghost stv = step@;
            steps.push(step);
            proof {
                assert(state@.tables =~= st0.tables.push(t1));
                assert(stv == StepView::Create { table: def.name@, columns: dv[d].columns });
                assert(steps@ == sv0.push(steps@.last()) && steps@.last()@ == stv);
                lemma_steps_push(s0, sv0, steps@.last(), dv);
                assert(step_ok(st0, stv, dv));
                assert(state@ == apply_step(st0, stv));
                assert forall|i: int| 0 <= i < st0.tables.len() implies table_extends(st0.tables[i], #[trigger] state@.tables[i], dv) by {
                    lemma_table_extends_refl(st0.tables[i], dv);
                }
                assert(extends(st0, state@, dv));
                lemma_extends_trans(s0, st0, state@, dv);
                let last = (state@.tables.len() - 1) as int;
                assert forall|e: int| 0 <= e <= d implies table_done(state@, #[trigger] dv[e]) by {
                    if e < d {
                        lemma_has_table_mono(st0, state@, dv, dv[e].name);
                        assert forall|c: int| 0 <= c < dv[e].columns.len() implies holds_column(state@, dv[e].name, #[trigger] dv[e].columns[c].name) by {
                            lemma_holds_mono(st0, state@, dv, dv[e].name, dv[e].columns[c].name);
                        }
                    } else {
                        assert(state@.tables[last].name == dv[d].name);
                        assert forall|c: int| 0 <= c < dv[e].columns.len() implies holds_column(state@, dv[e].name, #[trigger] dv[e].columns[c].name) by {
                            assert(column_names(dv[d].columns)[c] == dv[d].columns[c].name);
                            assert(state@.tables[last].columns.contains(dv[e].columns[c].name));
                        }
                    }
                }
            }
        },
        Some(t) => {
            let mut c: usize = 0;
            proof { lemma_extends_refl(st0, dv); }
            while c < def.columns.len()
                invariant
                    dv[d] == def@,
                    defs_wf(dv),
                    0 <= d < dv.len(),
                    c <= def.columns@.len(),
                    t < state.tables@.len(),
                    state@.tables[t as int].name == def.name@,
                    state.version == st0.version,
                    state_wf(s0),
                    state_wf(st0),
                    state_wf(state@),
                    extends(s0, st0, dv),
                    extends(st0, state@, dv),
                    forall|e: int| 0 <= e < d ==> table_done(st0, #[trigger] dv[e]),
                    forall|x: int| 0 <= x < c ==> state@.tables[t as int].columns.contains(#[trigger] dv[d].columns[x].name),
                    st0.tables[t as int].name == def.name@,
                    t < st0.tables.len(),
                    table_done(st0, dv[d]) ==> state@ == st0 && steps@.len() == steps0,
                    state@ == apply_steps(s0, steps_view(steps@)),
                    steps_ok(s0, steps_view(steps@), dv),
                decreases def.columns@.len() - c,
            {
                let ghost mid = state@;
                assert(dv[d].columns[c as int] == def.columns@[c as int]@);
                proof {
                    if table_done(st0, dv[d]) {
                        assert(holds_column(st0, def.name@, dv[d].columns[c as int].name));
                        let i = choose|i: int| 0 <= i < st0.tables.len() && st0.tables[i].name == def.name@
                            && st0.tables[i].columns.contains(dv[d].columns[c as int].name);
                        assert(i == t);
                    }
                }
                if !contains_name(&state.tables[t].columns, &def.columns[c].name) {
                    let ghost sv0 = steps@;
                    add_column(state, t, &def.columns[c], Ghost(dv), Ghost(d), Ghost(c as int));
                    let step = MigrationStep::AddColumn { table: def.name.clone(), column: def.columns[c].duplicate() };
                    let ghost stv = step@;
                    steps.push(step);
                    proof {
                        assert(stv == StepView::Add { table: def.name@, column: dv[d].columns[c as int] });
                        assert(table_index(mid.tables, def.name@) == t);
                        assert(step_ok(mid, stv, dv));
                        assert(steps@ == sv0.push(steps@.last()) && steps@.last()@ == stv);
                        lemma_steps_push(s0, sv0, steps@.last(), dv);
                        lemma_extends_trans(st0, mid, state@, dv);
                        assert forall|x: int| 0 <= x < c implies state@.tables[t as int].columns.contains(#[trigger] dv[d].columns[x].name) by {
                            assert(holds_column(mid, def.name@, dv[d].columns[x].name));
                            lemma_holds_mono(mid, state@, dv, def.name@, dv[d].columns[x].name);
                            let i = choose|i: int| 0 <= i < state@.tables.len() && state@.tables[i].name == def.name@
                                && state@.tables[i].columns.contains(dv[d].columns[x].name);
                            assert(i == t);
                        }
                    }
                }
                c = c + 1;
            }
            proof {
                lemma_extends_trans(s0, st0, state@, dv);
                assert forall|e: int| 0 <= e <= d implies table_done(state@, #[trigger] dv[e]) by {
                    if e < d {
                        lemma_has_table_mono(st0, state@, dv, dv[e].name);
                        assert forall|x: int| 0 <= x < dv[e].columns.len() implies holds_column(state@, dv[e].name, #[trigger] dv[e].columns[x].name) by {
                            lemma_holds_mono(st0, state@, dv, dv[e].name, dv[e].columns[x].name);
                        }
                    } else {
                        assert forall|x: int| 0 <= x < dv[e].columns.len() implies holds_column(state@, dv[e].name, #[trigger] dv[e].columns[x].name) by {
                            assert(state@.tables[t as int].columns.contains(dv[d].columns[x].name));
                        }
                    }
                }
            }
        },
    }
}

/// Brings a store's schema to `target`. A store already at `target` (or
/// past it) is left as it is. Otherwise every declared table that is
/// missing is created, every declared column that is missing is added, in
/// declaration order, and the version becomes `target`; nothing is ever
/// dropped or retyped. The changes made are returned in order (replaying
/// them on the old schema gives the new one, each on a table or column
/// that was missing), for the
/// store's engine to replay.
pub fn run_migrations(state: &mut SchemaState, defs: &Vec<TableDef>, target: i64) -> (r: Vec<MigrationStep>)
    requires
        defs_wf(defs_view(defs@)),
        state_wf(old(state)@),
    ensures
        migrated(old(state)@, final(state)@, r@.len(), defs_view(defs@), target),
        replays(old(state)@, final(state)@, steps_view(r@), defs_view(defs@)),
{
    if state.version >= target {
        let none: Vec<MigrationStep> = Vec::new();
        assert(steps_view(none@) =~= Seq::<StepView>::empty());
        return none;
    }
    let ghost dv = defs_view(defs@);
    let ghost s0 = state@;
    let mut steps: Vec<MigrationStep> = Vec::new();
    assert(steps_view(steps@) =~= Seq::<StepView>::empty());
    proof { lemma_extends_refl(s0, dv); }
    let mut d: usize = 0;
    while d < defs.len()
        invariant
            d <= defs@.len(),
            dv == defs_view(defs@),
            defs_wf(dv),
            state_wf(s0),
            state_wf(state@),
            state.version == s0.version,
            extends(s0, state@, dv),
            forall|e: int| 0 <= e < d ==> table_done(state@, #[trigger] dv[e]),
            schema_complete(s0, dv) ==> state@ == s0 && steps@.len() == 0,
            state@ == apply_steps(s0, steps_view(steps@)),
            steps_ok(s0, steps_view(steps@), dv),
        decreases defs@.len() - d,
    {
        upgrade_table(state, &defs[d], &mut steps, Ghost(s0), Ghost(dv), Ghost(d as int));
        d = d + 1;
    }
    state.version = target;
    steps
}

/// Whether the declared tables have distinct names, and each its distinct
/// column names.
pub fn check_defs(defs: &Vec<TableDef>) -> (r: bool)
    ensures
        r == defs_wf(defs_view(defs@)),
{
    let ghost dv = defs_view(defs@);
    let mut i: usize = 0;
    while i < defs.len()
        invariant
            i <= defs@.len(),
            dv == defs_view(defs@),
            forall|a: int, b: int| 0 <= a < i && 0 <= b < i && a != b ==> dv[a].name != dv[b].name,
            forall|a: int| 0 <= a < i ==> column_names(#[trigger] dv[a].columns).no_duplicates(),
        decreases defs@.len() - i,
    {
        let mut j: usize = 0;
        while j < i
            invariant
                j <= i < defs@.len(),
                dv == defs_view(defs@),
                forall|b: int| 0 <= b < j ==> dv[i as int].name != dv[b].name,
            decreases i - j,
        {
            if defs[i].name == defs[j].name {
                assert(dv[i as int].name == dv[j as int].name);
                assert(!defs_wf(dv));
                return false;
            }
            j = j + 1;
        }
        let ghost names = column_names(dv[i as int].columns);
        let cols = &defs[i].columns;
        assert(names.len() == cols@.len());
        let mut a: usize = 0;
        while a < cols.len()
            invariant
                a <= cols@.len(),
                i < defs@.len(),
                dv == defs_view(defs@),
                names == column_names(dv[i as int].columns),
                names.len() == cols@.len(),
                forall|x: int| 0 <= x < cols@.len() ==> #[trigger] names[x] == cols@[x].name@,
                forall|x: int, y: int| 0 <= x < a && 0 <= y < cols@.len() && x != y ==> names[x] != names[y],
            decreases cols@.len() - a,
        {
            let mut b: usize = 0;
            while b < cols.len()
                invariant
                    a < cols@.len(),
                    b <= cols@.len(),
                    i < defs@.len(),
                    dv == defs_view(defs@),
                    names == column_names(dv[i as int].columns),
                    names.len() == cols@.len(),
                    forall|x: int| 0 <= x < cols@.len() ==> #[trigger] names[x] == cols@[x].name@,
                    forall|y: int| 0 <= y < b && y != a ==> names[a as int] != names[y],
                decreases cols@.len() - b,
            {
                if b != a && cols[a].name == cols[b].name {
                    assert(names[a as int] == names[b as int]);
                    assert(!names.no_duplicates());
                    assert(!defs_wf(dv));
                    return false;
                }
                b = b + 1;
            }
            a = a + 1;
        }
        i = i + 1;
    }
    true
}

/// Whether the tables have distinct names and every row one cell per column.
pub fn check_state(state: &SchemaState) -> (r: bool)
    ensures
        r == state_wf(state@),
{
    let ghost sv = state@;
    let mut i: usize = 0;
    while i < state.tables.len()
        invariant
            i <= state.tables@.len(),
            sv == state@,
            forall|a: int, b: int| 0 <= a < i && 0 <= b < i && a != b ==> sv.tables[a].name != sv.tables[b].name,
            forall|a: int| 0 <= a < i ==> table_wf(#[trigger] sv.tables[a]),
        decreases state.tables@.len() - i,
    {
        let mut j: usize = 0;
        while j < i
            invariant
                j <= i < state.tables@.len(),
                sv == state@,
                forall|b: int| 0 <= b < j ==> sv.tables[i as int].name != sv.tables[b].name,
            decreases i - j,
        {
            if state.tables[i].name == state.tables[j].name {
                assert(sv.tables[i as int].name == sv.tables[j as int].name);
                assert(!state_wf(sv));
                return false;
            }
            j = j + 1;
        }
        let t = &state.tables[i];
        let mut k: usize = 0;
        while k < t.rows.len()
            invariant
                i < sv.tables.len(),
                sv == state@,
                k <= t.rows@.len(),
                sv.tables[i as int] == t@,
                forall|m: int| 0 <= m < k ==> (#[trigger] t@.rows[m]).len() == t@.columns.len(),
            decreases t.rows@.len() - k,
        {
            if t.rows[k].len() != t.columns.len() {
                assert(t@.rows[k as int].len() == t.rows@[k as int]@.len());
                assert(!table_wf(sv.tables[i as int]));
                assert(!state_wf(sv));
                return false;
            }
            k = k + 1;
        }
        i = i + 1;
    }
    true
}

/// Brings a store's schema to `target` after checking its inputs: a
/// schema whose declared or stored names repeat, or whose rows do not fit
/// their columns, is refused with `SchemaError` and left as it is.
pub fn migrate(state: &mut SchemaState, defs: &Vec<TableDef>, target: i64) -> (r: Result<Vec<MigrationStep>, StoreError>)
    ensures
        !defs_wf(defs_view(defs@)) || !state_wf(old(state)@) ==> r == Err::<Vec<MigrationStep>, StoreError>(
            StoreError::SchemaError,
        ) && final(state)@ == old(state)@,
        defs_wf(defs_view(defs@)) && state_wf(old(state)@) ==> r is Ok && migrated(
            old(state)@,
            final(state)@,
            r->Ok_0@.len(),
            defs_view(defs@),
            target,
        ) && replays(old(state)@, final(state)@, steps_view(r->Ok_0@), defs_view(defs@)),
{
    if !check_defs(defs) || !check_state(state) {
        return Err(StoreError::SchemaError);
    }
    Ok(run_migrations(state, defs, target))
}

/// The declared schema: each table with its columns, declarations and
/// defaults, in the order they were introduced.
pub open spec fn declared_tables() -> Seq<TableDefView> {
    seq![
        TableDefView {
            name: "cards"@,
            columns: seq![
                col_view("id"@, "INTEGER PRIMARY KEY"@, ""@),
                col_view("create_time"@, "INTEGER NOT NULL DEFAULT 0"@, "0"@),
                col_view("update_time"@, "INTEGER NOT NULL DEFAULT 0"@, "0"@),
                col_view("tags"@, "TEXT"@, ""@),
                col_view("links"@, "TEXT"@, ""@),
                col_view("content"@, "TEXT"@, ""@),
                col_view("category"@, "TEXT DEFAULT 'permanent'"@, "permanent"@),
            ],
        },
        TableDefView {
            name: "articles"@,
            columns: seq![
                col_view("id"@, "INTEGER PRIMARY KEY"@, ""@),
                col_view("title"@, "TEXT NOT NULL DEFAULT ''"@, ""@),
                col_view("author"@, "TEXT"@, ""@),
                col_view("create_time"@, "INTEGER NOT NULL DEFAULT 0"@, "0"@),
                col_view("update_time"@, "INTEGER NOT NULL DEFAULT 0"@, "0"@),
                col_view("tags"@, "TEXT"@, ""@),
                col_view("links"@, "TEXT"@, ""@),
                col_view("content"@, "TEXT"@, ""@),
                col_view("banner_bg"@, "TEXT DEFAULT ''"@, ""@),
                col_view("is_top"@, "INTEGER DEFAULT 0"@, "0"@),
                col_view("is_delete"@, "INTEGER DEFAULT 0"@, "0"@),
            ],
        },
        TableDefView {
            name: "documents"@,
            columns: seq![
                col_view("id"@, "INTEGER PRIMARY KEY NOT NULL"@, ""@),
                col_view("create_time"@, "INTEGER NOT NULL DEFAULT 0"@, "0"@),
                col_view("update_time"@, "INTEGER NOT NULL DEFAULT 0"@, "0"@),
                col_view("title"@, "TEXT NOT NULL DEFAULT ''"@, ""@),
                col_view("desc"@, "TEXT"@, ""@),
                col_view("authors"@, "TEXT"@, ""@),
                col_view("children"@, "TEXT"@, ""@),
                col_view("tags"@, "TEXT"@, ""@),
                col_view("links"@, "TEXT"@, ""@),
                col_view("content"@, "TEXT"@, ""@),
                col_view("banner_bg"@, "TEXT"@, ""@),
                col_view("icon"@, "TEXT"@, ""@),
                col_view("is_top"@, "INTEGER DEFAULT 0"@, "0"@),
                col_view("is_delete"@, "INTEGER DEFAULT 0"@, "0"@),
            ],
        },
        TableDefView {
            name: "document_items"@,
            columns: seq![
                col_view("id"@, "INTEGER PRIMARY KEY NOT NULL"@, ""@),
                col_view("create_time"@, "INTEGER NOT NULL DEFAULT 0"@, "0"@),
                col_view("update_time"@, "INTEGER NOT NULL DEFAULT 0"@, "0"@),
                col_view("title"@, "TEXT NOT NULL DEFAULT ''"@, ""@),
                col_view("authors"@, "TEXT"@, ""@),
                col_view("tags"@, "TEXT"@, ""@),
                col_view("is_directory"@, "INTEGER DEFAULT 0"@, "0"@),
                col_view("children"@, "TEXT"@, ""@),
                col_view("is_article"@, "INTEGER DEFAULT 0"@, "0"@),
                col_view("article_id"@, "INTEGER DEFAULT 0"@, "0"@),
                col_view("is_card"@, "INTEGER DEFAULT 0"@, "0"@),
                col_view("card_id"@, "INTEGER DEFAULT 0"@, "0"@),
                col_view("content"@, "TEXT"@, ""@),
                col_view("banner_bg"@, "TEXT"@, ""@),
                col_view("icon"@, "TEXT"@, ""@),
                col_view("is_delete"@, "INTEGER DEFAULT 0"@, "0"@),
                col_view("parents"@, "TEXT DEFAULT '[]'"@, "[]"@),
            ],
        },
        TableDefView {
            name: "project_item"@,
            columns: seq![
                col_view("id"@, "INTEGER PRIMARY KEY"@, ""@),
                col_view("create_time"@, "INTEGER NOT NULL DEFAULT 0"@, "0"@),
                col_view("update_time"@, "INTEGER NOT NULL DEFAULT 0"@, "0"@),
                col_view("title"@, "TEXT NOT NULL DEFAULT ''"@, ""@),
                col_view("content"@, "TEXT"@, ""@),
                col_view("children"@, "TEXT"@, ""@),
                col_view("parents"@, "TEXT"@, ""@),
                col_view("projects"@, "TEXT"@, ""@),
                col_view("ref_type"@, "TEXT"@, ""@),
                col_view("ref_id"@, "INTEGER"@, ""@),
            ],
        },
        TableDefView {
            name: "operation"@,
            columns: seq![
                col_view("id"@, "INTEGER PRIMARY KEY"@, ""@),
                col_view("operation_time"@, "INTEGER NOT NULL DEFAULT 0"@, "0"@),
                col_view("operation_id"@, "INTEGER"@, ""@),
                col_view("operation_content_type"@, "TEXT"@, ""@),
                col_view("operation_action"@, "TEXT"@, ""@),
            ],
        },
        TableDefView {
            name: "time_records"@,
            columns: seq![
                col_view("id"@, "INTEGER PRIMARY KEY"@, ""@),
                col_view("date"@, "TEXT NOT NULL DEFAULT ''"@, ""@),
                col_view("cost"@, "INTEGER NOT NULL DEFAULT 0"@, "0"@),
                col_view("content"@, "TEXT"@, ""@),
                col_view("event_type"@, "TEXT NOT NULL DEFAULT ''"@, ""@),
                col_view("time_type"@, "TEXT NOT NULL DEFAULT ''"@, ""@),
            ],
        },
        TableDefView {
            name: "daily_notes"@,
            columns: seq![
                col_view("id"@, "INTEGER PRIMARY KEY"@, ""@),
                col_view("date"@, "TEXT NOT NULL DEFAULT ''"@, ""@),
                col_view("content"@, "TEXT"@, ""@),
            ],
        },
        TableDefView {
            name: "white_boards"@,
            columns: seq![
                col_view("id"@, "INTEGER PRIMARY KEY NOT NULL"@, ""@),
                col_view("create_time"@, "INTEGER NOT NULL DEFAULT 0"@, "0"@),
                col_view("update_time"@, "INTEGER NOT NULL DEFAULT 0"@, "0"@),
                col_view("tags"@, "TEXT"@, ""@),
                col_view("data"@, "TEXT"@, ""@),
                col_view("title"@, "TEXT"@, ""@),
                col_view("description"@, "TEXT"@, ""@),
                col_view("snapshot"@, "TEXT"@, ""@),
            ],
        },
        TableDefView {
            name: "pdfs"@,
            columns: seq![
                col_view("id"@, "INTEGER PRIMARY KEY"@, ""@),
                col_view("create_time"@, "INTEGER NOT NULL DEFAULT 0"@, "0"@),
                col_view("update_time"@, "INTEGER NOT NULL DEFAULT 0"@, "0"@),
                col_view("tags"@, "TEXT"@, ""@),
                col_view("is_local"@, "INTEGER NOT NULL DEFAULT 0"@, "0"@),
                col_view("category"@, "TEXT DEFAULT 'default'"@, "default"@),
                col_view("file_name"@, "TEXT"@, ""@),
                col_view("file_path"@, "TEXT"@, ""@),
                col_view("remote_url"@, "TEXT"@, ""@),
            ],
        },
        TableDefView {
            name: "pdf_highlights"@,
            columns: seq![
                col_view("id"@, "INTEGER PRIMARY KEY"@, ""@),
                col_view("create_time"@, "INTEGER NOT NULL DEFAULT 0"@, "0"@),
                col_view("update_time"@, "INTEGER NOT NULL DEFAULT 0"@, "0"@),
                col_view("pdf_id"@, "INTEGER NOT NULL DEFAULT 0"@, "0"@),
                col_view("color"@, "TEXT NOT NULL DEFAULT ''"@, ""@),
                col_view("highlight_type"@, "TEXT NOT NULL DEFAULT ''"@, ""@),
                col_view("rects"@, "TEXT NOT NULL DEFAULT ''"@, ""@),
                col_view("bounding_client_rect"@, "TEXT NOT NULL DEFAULT ''"@, ""@),
                col_view("highlight_text_style"@, "TEXT NOT NULL DEFAULT ''"@, ""@),
                col_view("page_num"@, "INTEGER NOT NULL DEFAULT 0"@, "0"@),
                col_view("content"@, "TEXT NOT NULL DEFAULT ''"@, ""@),
                col_view("image"@, "TEXT NOT NULL DEFAULT ''"@, ""@),
                col_view("notes"@, "TEXT NOT NULL DEFAULT ''"@, ""@),
            ],
        },
        TableDefView {
            name: "chat_message"@,
            columns: seq![
                col_view("id"@, "INTEGER PRIMARY KEY"@, ""@),
                col_view("create_time"@, "INTEGER NOT NULL DEFAULT 0"@, "0"@),
                col_view("update_time"@, "INTEGER NOT NULL DEFAULT 0"@, "0"@),
                col_view("messages"@, "TEXT"@, ""@),
                col_view("title"@, "TEXT"@, ""@),
            ],
        },
    ]
}

/// Every entry of `s` differs from `x`.
pub open spec fn all_differ(x: Seq<char>, s: Seq<Seq<char>>) -> bool
    decreases s.len(),
{
    s.len() == 0 || (s.last() != x && all_differ(x, s.drop_last()))
}

/// No two entries of `s` are equal, stated entry by entry.
pub open spec fn pairwise_distinct(s: Seq<Seq<char>>) -> bool
    decreases s.len(),
{
    s.len() == 0 || (all_differ(s.last(), s.drop_last()) && pairwise_distinct(s.drop_last()))
}

proof fn lemma_all_differ(x: Seq<char>, s: Seq<Seq<char>>)
    requires
        all_differ(x, s),
    ensures
        !s.contains(x),
    decreases s.len(),
{
    if s.len() > 0 {
        lemma_all_differ(x, s.drop_last());
        if s.contains(x) {
            let k = choose|k: int| 0 <= k < s.len() && s[k] == x;
            if k < s.len() - 1 {
                assert(s.drop_last()[k] == x);
            }
        }
    }
}

proof fn lemma_distinct_no_dup(s: Seq<Seq<char>>)
    requires
        pairwise_distinct(s),
    ensures
        s.no_duplicates(),
    decreases s.len(),
{
    if s.len() > 0 {
        let t = s.drop_last();
        lemma_distinct_no_dup(t);
        lemma_all_differ(s.last(), t);
        assert forall|i: int, j: int| 0 <= i < s.len() && 0 <= j < s.len() && i != j implies s[i] != s[j] by {
            if i < s.len() - 1 && j < s.len() - 1 {
                assert(t[i] == s[i] && t[j] == s[j]);
            } else if i == s.len() - 1 {
                assert(t[j] == s[j]);
            } else {
                assert(t[i] == s[i]);
            }
        }
    }
}

/// The declared tables have distinct names, and each its distinct column
/// names, so `migrate` accepts `schema_registry()`.
pub proof fn lemma_declared_tables_wf()
    ensures
        defs_wf(declared_tables()),
{
    reveal_strlit("article_id");
    reveal_strlit("articles");
    reveal_strlit("author");
    reveal_strlit("authors");
    reveal_strlit("banner_bg");
    reveal_strlit("bounding_client_rect");
    reveal_strlit("card_id");
    reveal_strlit("cards");
    reveal_strlit("category");
    reveal_strlit("chat_message");
    reveal_strlit("children");
    reveal_strlit("color");
    reveal_strlit("content");
    reveal_strlit("cost");
    reveal_strlit("create_time");
    reveal_strlit("daily_notes");
    reveal_strlit("data");
    reveal_strlit("date");
    reveal_strlit("desc");
    reveal_strlit("description");
    reveal_strlit("document_items");
    reveal_strlit("documents");
    reveal_strlit("event_type");
    reveal_strlit("file_name");
    reveal_strlit("file_path");
    reveal_strlit("highlight_text_style");
    reveal_strlit("highlight_type");
    reveal_strlit("icon");
    reveal_strlit("id");
    reveal_strlit("image");
    reveal_strlit("is_article");
    reveal_strlit("is_card");
    reveal_strlit("is_delete");
    reveal_strlit("is_directory");
    reveal_strlit("is_local");
    reveal_strlit("is_top");
    reveal_strlit("links");
    reveal_strlit("messages");
    reveal_strlit("notes");
    reveal_strlit("operation");
    reveal_strlit("operation_action");
    reveal_strlit("operation_content_type");
    reveal_strlit("operation_id");
    reveal_strlit("operation_time");
    reveal_strlit("page_num");
    reveal_strlit("parents");
    reveal_strlit("pdf_highlights");
    reveal_strlit("pdf_id");
    reveal_strlit("pdfs");
    reveal_strlit("project_item");
    reveal_strlit("projects");
    reveal_strlit("rects");
    reveal_strlit("ref_id");
    reveal_strlit("ref_type");
    reveal_strlit("remote_url");
    reveal_strlit("snapshot");
    reveal_strlit("tags");
    reveal_strlit("time_records");
    reveal_strlit("time_type");
    reveal_strlit("title");
    reveal_strlit("update_time");
    reveal_strlit("white_boards");
    assert("article_id"@.len() == 10);
    assert("articles"@.len() == 8);
    assert("author"@.len() == 6);
    assert("authors"@.len() == 7);
    assert("banner_bg"@.len() == 9);
    assert("bounding_client_rect"@.len() == 20);
    assert("card_id"@.len() == 7);
    assert("cards"@.len() == 5);
    assert("category"@.len() == 8);
    assert("chat_message"@.len() == 12);
    assert("children"@.len() == 8);
    assert("color"@.len() == 5);
    assert("content"@.len() == 7);
    assert("cost"@.len() == 4);
    assert("create_time"@.len() == 11);
    assert("daily_notes"@.len() == 11);
    assert("data"@.len() == 4);
    assert("date"@.len() == 4);
    assert("desc"@.len() == 4);
    assert("description"@.len() == 11);
    assert("document_items"@.len() == 14);
    assert("documents"@.len() == 9);
    assert("event_type"@.len() == 10);
    assert("file_name"@.len() == 9);
    assert("file_path"@.len() == 9);
    assert("highlight_text_style"@.len() == 20);
    assert("highlight_type"@.len() == 14);
    assert("icon"@.len() == 4);
    assert("id"@.len() == 2);
    assert("image"@.len() == 5);
    assert("is_article"@.len() == 10);
    assert("is_card"@.len() == 7);
    assert("is_delete"@.len() == 9);
    assert("is_directory"@.len() == 12);
    assert("is_local"@.len() == 8);
    assert("is_top"@.len() == 6);
    assert("links"@.len() == 5);
    assert("messages"@.len() == 8);
    assert("notes"@.len() == 5);
    assert("operation"@.len() == 9);
    assert("operation_action"@.len() == 16);
    assert("operation_content_type"@.len() == 22);
    assert("operation_id"@.len() == 12);
    assert("operation_time"@.len() == 14);
    assert("page_num"@.len() == 8);
    assert("parents"@.len() == 7);
    assert("pdf_highlights"@.len() == 14);
    assert("pdf_id"@.len() == 6);
    assert("pdfs"@.len() == 4);
    assert("project_item"@.len() == 12);
    assert("projects"@.len() == 8);
    assert("rects"@.len() == 5);
    assert("ref_id"@.len() == 6);
    assert("ref_type"@.len() == 8);
    assert("remote_url"@.len() == 10);
    assert("snapshot"@.len() == 8);
    assert("tags"@.len() == 4);
    assert("time_records"@.len() == 12);
    assert("time_type"@.len() == 9);
    assert("title"@.len() == 5);
    assert("update_time"@.len() == 11);
    assert("white_boards"@.len() == 12);
    let d = declared_tables();
    assert("cards"@ != "articles"@);
    assert("cards"@ != "documents"@);
    assert("cards"@ != "document_items"@);
    assert("cards"@ != "project_item"@);
    assert("cards"@ != "operation"@);
    assert("cards"@ != "time_records"@);
    assert("cards"@ != "daily_notes"@);
    assert("cards"@ != "white_boards"@);
    assert("cards"@ != "pdfs"@);
    assert("cards"@ != "pdf_highlights"@);
    assert("cards"@ != "chat_message"@);
    assert("articles"@ != "documents"@);
    assert("articles"@ != "document_items"@);
    assert("articles"@ != "project_item"@);
    assert("articles"@ != "operation"@);
    assert("articles"@ != "time_records"@);
    assert("articles"@ != "daily_notes"@);
    assert("articles"@ != "white_boards"@);
    assert("articles"@ != "pdfs"@);
    assert("articles"@ != "pdf_highlights"@);
    assert("articles"@ != "chat_message"@);
    assert("documents"@ != "document_items"@);
    assert("documents"@ != "project_item"@);
    assert("documents"@[0] == 'd' && "operation"@[0] == 'o');
    assert("documents"@ != "operation"@);
    assert("documents"@ != "time_records"@);
    assert("documents"@ != "daily_notes"@);
    assert("documents"@ != "white_boards"@);
    assert("documents"@ != "pdfs"@);
    assert("documents"@ != "pdf_highlights"@);
    assert("documents"@ != "chat_message"@);
    assert("document_items"@ != "project_item"@);
    assert("document_items"@ != "operation"@);
    assert("document_items"@ != "time_records"@);
    assert("document_items"@ != "daily_notes"@);
    assert("document_items"@ != "white_boards"@);
    assert("document_items"@ != "pdfs"@);
    assert("document_items"@[0] == 'd' && "pdf_highlights"@[0] == 'p');
    assert("document_items"@ != "pdf_highlights"@);
    assert("document_items"@ != "chat_message"@);
    assert("project_item"@ != "operation"@);
    assert("project_item"@[0] == 'p' && "time_records"@[0] == 't');
    assert("project_item"@ != "time_records"@);
    assert("project_item"@ != "daily_notes"@);
    assert("project_item"@[0] == 'p' && "white_boards"@[0] == 'w');
    assert("project_item"@ != "white_boards"@);
    assert("project_item"@ != "pdfs"@);
    assert("project_item"@ != "pdf_highlights"@);
    assert("project_item"@[0] == 'p' && "chat_message"@[0] == 'c');
    assert("project_item"@ != "chat_message"@);
    assert("operation"@ != "time_records"@);
    assert("operation"@ != "daily_notes"@);
    assert("operation"@ != "white_boards"@);
    assert("operation"@ != "pdfs"@);
    assert("operation"@ != "pdf_highlights"@);
    assert("operation"@ != "chat_message"@);
    assert("time_records"@ != "daily_notes"@);
    assert("time_records"@[0] == 't' && "white_boards"@[0] == 'w');
    assert("time_records"@ != "white_boards"@);
    assert("time_records"@ != "pdfs"@);
    assert("time_records"@ != "pdf_highlights"@);
    assert("time_records"@[0] == 't' && "chat_message"@[0] == 'c');
    assert("time_records"@ != "chat_message"@);
    assert("daily_notes"@ != "white_boards"@);
    assert("daily_notes"@ != "pdfs"@);
    assert("daily_notes"@ != "pdf_highlights"@);
    assert("daily_notes"@ != "chat_message"@);
    assert("white_boards"@ != "pdfs"@);
    assert("white_boards"@ != "pdf_highlights"@);
    assert("white_boards"@[0] == 'w' && "chat_message"@[0] == 'c');
    assert("white_boards"@ != "chat_message"@);
    assert("pdfs"@ != "pdf_highlights"@);
    assert("pdfs"@ != "chat_message"@);
    assert("pdf_highlights"@ != "chat_message"@);
    let tn = seq!["cards"@, "articles"@, "documents"@, "document_items"@, "project_item"@, "operation"@, "time_records"@, "daily_notes"@, "white_boards"@, "pdfs"@, "pdf_highlights"@, "chat_message"@];
    assert(pairwise_distinct(tn)) by {
        reveal_with_fuel(pairwise_distinct, 13);
        reveal_with_fuel(all_differ, 13);
    }
    lemma_distinct_no_dup(tn);
    assert forall|i: int| 0 <= i < d.len() implies #[trigger] d[i].name == tn[i] by {}
    assert("id"@ != "create_time"@);
    assert("id"@ != "update_time"@);
    assert("id"@ != "tags"@);
    assert("id"@ != "links"@);
    assert("id"@ != "content"@);
    assert("id"@ != "category"@);
    assert("create_time"@[0] == 'c' && "update_time"@[0] == 'u');
    assert("create_time"@ != "update_time"@);
    assert("create_time"@ != "tags"@);
    assert("create_time"@ != "links"@);
    assert("create_time"@ != "content"@);
    assert("create_time"@ != "category"@);
    assert("update_time"@ != "tags"@);
    assert("update_time"@ != "links"@);
    assert("update_time"@ != "content"@);
    assert("update_time"@ != "category"@);
    assert("tags"@ != "links"@);
    assert("tags"@ != "content"@);
    assert("tags"@ != "category"@);
    assert("links"@ != "content"@);
    assert("links"@ != "category"@);
    assert("content"@ != "category"@);
    let c0 = seq!["id"@, "create_time"@, "update_time"@, "tags"@, "links"@, "content"@, "category"@];
    assert(pairwise_distinct(c0)) by {
        reveal_with_fuel(pairwise_distinct, 8);
        reveal_with_fuel(all_differ, 8);
    }
    lemma_distinct_no_dup(c0);
    assert(column_names(d[0].columns) =~= c0);
    assert("id"@ != "title"@);
    assert("id"@ != "author"@);
    assert("id"@ != "create_time"@);
    assert("id"@ != "update_time"@);
    assert("id"@ != "tags"@);
    assert("id"@ != "links"@);
    assert("id"@ != "content"@);
    assert("id"@ != "banner_bg"@);
    assert("id"@ != "is_top"@);
    assert("id"@ != "is_delete"@);
    assert("title"@ != "author"@);
    assert("title"@ != "create_time"@);
    assert("title"@ != "update_time"@);
    assert("title"@ != "tags"@);
    assert("title"@[0] == 't' && "links"@[0] == 'l');
    assert("title"@ != "links"@);
    assert("title"@ != "content"@);
    assert("title"@ != "banner_bg"@);
    assert("title"@ != "is_top"@);
    assert("title"@ != "is_delete"@);
    assert("author"@ != "create_time"@);
    assert("author"@ != "update_time"@);
    assert("author"@ != "tags"@);
    assert("author"@ != "links"@);
    assert("author"@ != "content"@);
    assert("author"@ != "banner_bg"@);
    assert("author"@[0] == 'a' && "is_top"@[0] == 'i');
    assert("author"@ != "is_top"@);
    assert("author"@ != "is_delete"@);
    assert("create_time"@[0] == 'c' && "update_time"@[0] == 'u');
    assert("create_time"@ != "update_time"@);
    assert("create_time"@ != "tags"@);
    assert("create_time"@ != "links"@);
    assert("create_time"@ != "content"@);
    assert("create_time"@ != "banner_bg"@);
    assert("create_time"@ != "is_top"@);
    assert("create_time"@ != "is_delete"@);
    assert("update_time"@ != "tags"@);
    assert("update_time"@ != "links"@);
    assert("update_time"@ != "content"@);
    assert("update_time"@ != "banner_bg"@);
    assert("update_time"@ != "is_top"@);
    assert("update_time"@ != "is_delete"@);
    assert("tags"@ != "links"@);
    assert("tags"@ != "content"@);
    assert("tags"@ != "banner_bg"@);
    assert("tags"@ != "is_top"@);
    assert("tags"@ != "is_delete"@);
    assert("links"@ != "content"@);
    assert("links"@ != "banner_bg"@);
    assert("links"@ != "is_top"@);
    assert("links"@ != "is_delete"@);
    assert("content"@ != "banner_bg"@);
    assert("content"@ != "is_top"@);
    assert("content"@ != "is_delete"@);
    assert("banner_bg"@ != "is_top"@);
    assert("banner_bg"@[0] == 'b' && "is_delete"@[0] == 'i');
    assert("banner_bg"@ != "is_delete"@);
    assert("is_top"@ != "is_delete"@);
    let c1 = seq!["id"@, "title"@, "author"@, "create_time"@, "update_time"@, "tags"@, "links"@, "content"@, "banner_bg"@, "is_top"@, "is_delete"@];
    assert(pairwise_distinct(c1)) by {
        reveal_with_fuel(pairwise_distinct, 12);
        reveal_with_fuel(all_differ, 12);
    }
    lemma_distinct_no_dup(c1);
    assert(column_names(d[1].columns) =~= c1);
    assert("id"@ != "create_time"@);
    assert("id"@ != "update_time"@);
    assert("id"@ != "title"@);
    assert("id"@ != "desc"@);
    assert("id"@ != "authors"@);
    assert("id"@ != "children"@);
    assert("id"@ != "tags"@);
    assert("id"@ != "links"@);
    assert("id"@ != "content"@);
    assert("id"@ != "banner_bg"@);
    assert("id"@ != "icon"@);
    assert("id"@ != "is_top"@);
    assert("id"@ != "is_delete"@);
    assert("create_time"@[0] == 'c' && "update_time"@[0] == 'u');
    assert("create_time"@ != "update_time"@);
    assert("create_time"@ != "title"@);
    assert("create_time"@ != "desc"@);
    assert("create_time"@ != "authors"@);
    assert("create_time"@ != "children"@);
    assert("create_time"@ != "tags"@);
    assert("create_time"@ != "links"@);
    assert("create_time"@ != "content"@);
    assert("create_time"@ != "banner_bg"@);
    assert("create_time"@ != "icon"@);
    assert("create_time"@ != "is_top"@);
    assert("create_time"@ != "is_delete"@);
    assert("update_time"@ != "title"@);
    assert("update_time"@ != "desc"@);
    assert("update_time"@ != "authors"@);
    assert("update_time"@ != "children"@);
    assert("update_time"@ != "tags"@);
    assert("update_time"@ != "links"@);
    assert("update_time"@ != "content"@);
    assert("update_time"@ != "banner_bg"@);
    assert("update_time"@ != "icon"@);
    assert("update_time"@ != "is_top"@);
    assert("update_time"@ != "is_delete"@);
    assert("title"@ != "desc"@);
    assert("title"@ != "authors"@);
    assert("title"@ != "children"@);
    assert("title"@ != "tags"@);
    assert("title"@[0] == 't' && "links"@[0] == 'l');
    assert("title"@ != "links"@);
    assert("title"@ != "content"@);
    assert("title"@ != "banner_bg"@);
    assert("title"@ != "icon"@);
    assert("title"@ != "is_top"@);
    assert("title"@ != "is_delete"@);
    assert("desc"@ != "authors"@);
    assert("desc"@ != "children"@);
    assert("desc"@[0] == 'd' && "tags"@[0] == 't');
    assert("desc"@ != "tags"@);
    assert("desc"@ != "links"@);
    assert("desc"@ != "content"@);
    assert("desc"@ != "banner_bg"@);
    assert("desc"@[0] == 'd' && "icon"@[0] == 'i');
    assert("desc"@ != "icon"@);
    assert("desc"@ != "is_top"@);
    assert("desc"@ != "is_delete"@);
    assert("authors"@ != "children"@);
    assert("authors"@ != "tags"@);
    assert("authors"@ != "links"@);
    assert("authors"@[0] == 'a' && "content"@[0] == 'c');
    assert("authors"@ != "content"@);
    assert("authors"@ != "banner_bg"@);
    assert("authors"@ != "icon"@);
    assert("authors"@ != "is_top"@);
    assert("authors"@ != "is_delete"@);
    assert("children"@ != "tags"@);
    assert("children"@ != "links"@);
    assert("children"@ != "content"@);
    assert("children"@ != "banner_bg"@);
    assert("children"@ != "icon"@);
    assert("children"@ != "is_top"@);
    assert("children"@ != "is_delete"@);
    assert("tags"@ != "links"@);
    assert("tags"@ != "content"@);
    assert("tags"@ != "banner_bg"@);
    assert("tags"@[0] == 't' && "icon"@[0] == 'i');
    assert("tags"@ != "icon"@);
    assert("tags"@ != "is_top"@);
    assert("tags"@ != "is_delete"@);
    assert("links"@ != "content"@);
    assert("links"@ != "banner_bg"@);
    assert("links"@ != "icon"@);
    assert("links"@ != "is_top"@);
    assert("links"@ != "is_delete"@);
    assert("content"@ != "banner_bg"@);
    assert("content"@ != "icon"@);
    assert("content"@ != "is_top"@);
    assert("content"@ != "is_delete"@);
    assert("banner_bg"@ != "icon"@);
    assert("banner_bg"@ != "is_top"@);
    assert("banner_bg"@[0] == 'b' && "is_delete"@[0] == 'i');
    assert("banner_bg"@ != "is_delete"@);
    assert("icon"@ != "is_top"@);
    assert("icon"@ != "is_delete"@);
    assert("is_top"@ != "is_delete"@);
    let c2 = seq!["id"@, "create_time"@, "update_time"@, "title"@, "desc"@, "authors"@, "children"@, "tags"@, "links"@, "content"@, "banner_bg"@, "icon"@, "is_top"@, "is_delete"@];
    assert(pairwise_distinct(c2)) by {
        reveal_with_fuel(pairwise_distinct, 15);
        reveal_with_fuel(all_differ, 15);
    }
    lemma_distinct_no_dup(c2);
    assert(column_names(d[2].columns) =~= c2);
    assert("id"@ != "create_time"@);
    assert("id"@ != "update_time"@);
    assert("id"@ != "title"@);
    assert("id"@ != "authors"@);
    assert("id"@ != "tags"@);
    assert("id"@ != "is_directory"@);
    assert("id"@ != "children"@);
    assert("id"@ != "is_article"@);
    assert("id"@ != "article_id"@);
    assert("id"@ != "is_card"@);
    assert("id"@ != "card_id"@);
    assert("id"@ != "content"@);
    assert("id"@ != "banner_bg"@);
    assert("id"@ != "icon"@);
    assert("id"@ != "is_delete"@);
    assert("id"@ != "parents"@);
    assert("create_time"@[0] == 'c' && "update_time"@[0] == 'u');
    assert("create_time"@ != "update_time"@);
    assert("create_time"@ != "title"@);
    assert("create_time"@ != "authors"@);
    assert("create_time"@ != "tags"@);
    assert("create_time"@ != "is_directory"@);
    assert("create_time"@ != "children"@);
    assert("create_time"@ != "is_article"@);
    assert("create_time"@ != "article_id"@);
    assert("create_time"@ != "is_card"@);
    assert("create_time"@ != "card_id"@);
    assert("create_time"@ != "content"@);
    assert("create_time"@ != "banner_bg"@);
    assert("create_time"@ != "icon"@);
    assert("create_time"@ != "is_delete"@);
    assert("create_time"@ != "parents"@);
    assert("update_time"@ != "title"@);
    assert("update_time"@ != "authors"@);
    assert("update_time"@ != "tags"@);
    assert("update_time"@ != "is_directory"@);
    assert("update_time"@ != "children"@);
    assert("update_time"@ != "is_article"@);
    assert("update_time"@ != "article_id"@);
    assert("update_time"@ != "is_card"@);
    assert("update_time"@ != "card_id"@);
    assert("update_time"@ != "content"@);
    assert("update_time"@ != "banner_bg"@);
    assert("update_time"@ != "icon"@);
    assert("update_time"@ != "is_delete"@);
    assert("update_time"@ != "parents"@);
    assert("title"@ != "authors"@);
    assert("title"@ != "tags"@);
    assert("title"@ != "is_directory"@);
    assert("title"@ != "children"@);
    assert("title"@ != "is_article"@);
    assert("title"@ != "article_id"@);
    assert("title"@ != "is_card"@);
    assert("title"@ != "card_id"@);
    assert("title"@ != "content"@);
    assert("title"@ != "banner_bg"@);
    assert("title"@ != "icon"@);
    assert("title"@ != "is_delete"@);
    assert("title"@ != "parents"@);
    assert("authors"@ != "tags"@);
    assert("authors"@ != "is_directory"@);
    assert("authors"@ != "children"@);
    assert("authors"@ != "is_article"@);
    assert("authors"@ != "article_id"@);
    assert("authors"@[0] == 'a' && "is_card"@[0] == 'i');
    assert("authors"@ != "is_card"@);
    assert("authors"@[0] == 'a' && "card_id"@[0] == 'c');
    assert("authors"@ != "card_id"@);
    assert("authors"@[0] == 'a' && "content"@[0] == 'c');
    assert("authors"@ != "content"@);
    assert("authors"@ != "banner_bg"@);
    assert("authors"@ != "icon"@);
    assert("authors"@ != "is_delete"@);
    assert("authors"@[0] == 'a' && "parents"@[0] == 'p');
    assert("authors"@ != "parents"@);
    assert("tags"@ != "is_directory"@);
    assert("tags"@ != "children"@);
    assert("tags"@ != "is_article"@);
    assert("tags"@ != "article_id"@);
    assert("tags"@ != "is_card"@);
    assert("tags"@ != "card_id"@);
    assert("tags"@ != "content"@);
    assert("tags"@ != "banner_bg"@);
    assert("tags"@[0] == 't' && "icon"@[0] == 'i');
    assert("tags"@ != "icon"@);
    assert("tags"@ != "is_delete"@);
    assert("tags"@ != "parents"@);
    assert("is_directory"@ != "children"@);
    assert("is_directory"@ != "is_article"@);
    assert("is_directory"@ != "article_id"@);
    assert("is_directory"@ != "is_card"@);
    assert("is_directory"@ != "card_id"@);
    assert("is_directory"@ != "content"@);
    assert("is_directory"@ != "banner_bg"@);
    assert("is_directory"@ != "icon"@);
    assert("is_directory"@ != "is_delete"@);
    assert("is_directory"@ != "parents"@);
    assert("children"@ != "is_article"@);
    assert("children"@ != "article_id"@);
    assert("children"@ != "is_card"@);
    assert("children"@ != "card_id"@);
    assert("children"@ != "content"@);
    assert("children"@ != "banner_bg"@);
    assert("children"@ != "icon"@);
    assert("children"@ != "is_delete"@);
    assert("children"@ != "parents"@);
    assert("is_article"@[0] == 'i' && "article_id"@[0] == 'a');
    assert("is_article"@ != "article_id"@);
    assert("is_article"@ != "is_card"@);
    assert("is_article"@ != "card_id"@);
    assert("is_article"@ != "content"@);
    assert("is_article"@ != "banner_bg"@);
    assert("is_article"@ != "icon"@);
    assert("is_article"@ != "is_delete"@);
    assert("is_article"@ != "parents"@);
    assert("article_id"@ != "is_card"@);
    assert("article_id"@ != "card_id"@);
    assert("article_id"@ != "content"@);
    assert("article_id"@ != "banner_bg"@);
    assert("article_id"@ != "icon"@);
    assert("article_id"@ != "is_delete"@);
    assert("article_id"@ != "parents"@);
    assert("is_card"@[0] == 'i' && "card_id"@[0] == 'c');
    assert("is_card"@ != "card_id"@);
    assert("is_card"@[0] == 'i' && "content"@[0] == 'c');
    assert("is_card"@ != "content"@);
    assert("is_card"@ != "banner_bg"@);
    assert("is_card"@ != "icon"@);
    assert("is_card"@ != "is_delete"@);
    assert("is_card"@[0] == 'i' && "parents"@[0] == 'p');
    assert("is_card"@ != "parents"@);
    assert("card_id"@[1] == 'a' && "content"@[1] == 'o');
    assert("card_id"@ != "content"@);
    assert("card_id"@ != "banner_bg"@);
    assert("card_id"@ != "icon"@);
    assert("card_id"@ != "is_delete"@);
    assert("card_id"@[0] == 'c' && "parents"@[0] == 'p');
    assert("card_id"@ != "parents"@);
    assert("content"@ != "banner_bg"@);
    assert("content"@ != "icon"@);
    assert("content"@ != "is_delete"@);
    assert("content"@[0] == 'c' && "parents"@[0] == 'p');
    assert("content"@ != "parents"@);
    assert("banner_bg"@ != "icon"@);
    assert("banner_bg"@[0] == 'b' && "is_delete"@[0] == 'i');
    assert("banner_bg"@ != "is_delete"@);
    assert("banner_bg"@ != "parents"@);
    assert("icon"@ != "is_delete"@);
    assert("icon"@ != "parents"@);
    assert("is_delete"@ != "parents"@);
    let c3 = seq!["id"@, "create_time"@, "update_time"@, "title"@, "authors"@, "tags"@, "is_directory"@, "children"@, "is_article"@, "article_id"@, "is_card"@, "card_id"@, "content"@, "banner_bg"@, "icon"@, "is_delete"@, "parents"@];
    assert(pairwise_distinct(c3)) by {
        reveal_with_fuel(pairwise_distinct, 18);
        reveal_with_fuel(all_differ, 18);
    }
    lemma_distinct_no_dup(c3);
    assert(column_names(d[3].columns) =~= c3);
    assert("id"@ != "create_time"@);
    assert("id"@ != "update_time"@);
    assert("id"@ != "title"@);
    assert("id"@ != "content"@);
    assert("id"@ != "children"@);
    assert("id"@ != "parents"@);
    assert("id"@ != "projects"@);
    assert("id"@ != "ref_type"@);
    assert("id"@ != "ref_id"@);
    assert("create_time"@[0] == 'c' && "update_time"@[0] == 'u');
    assert("create_time"@ != "update_time"@);
    assert("create_time"@ != "title"@);
    assert("create_time"@ != "content"@);
    assert("create_time"@ != "children"@);
    assert("create_time"@ != "parents"@);
    assert("create_time"@ != "projects"@);
    assert("create_time"@ != "ref_type"@);
    assert("create_time"@ != "ref_id"@);
    assert("update_time"@ != "title"@);
    assert("update_time"@ != "content"@);
    assert("update_time"@ != "children"@);
    assert("update_time"@ != "parents"@);
    assert("update_time"@ != "projects"@);
    assert("update_time"@ != "ref_type"@);
    assert("update_time"@ != "ref_id"@);
    assert("title"@ != "content"@);
    assert("title"@ != "children"@);
    assert("title"@ != "parents"@);
    assert("title"@ != "projects"@);
    assert("title"@ != "ref_type"@);
    assert("title"@ != "ref_id"@);
    assert("content"@ != "children"@);
    assert("content"@[0] == 'c' && "parents"@[0] == 'p');
    assert("content"@ != "parents"@);
    assert("content"@ != "projects"@);
    assert("content"@ != "ref_type"@);
    assert("content"@ != "ref_id"@);
    assert("children"@ != "parents"@);
    assert("children"@[0] == 'c' && "projects"@[0] == 'p');
    assert("children"@ != "projects"@);
    assert("children"@[0] == 'c' && "ref_type"@[0] == 'r');
    assert("children"@ != "ref_type"@);
    assert("children"@ != "ref_id"@);
    assert("parents"@ != "projects"@);
    assert("parents"@ != "ref_type"@);
    assert("parents"@ != "ref_id"@);
    assert("projects"@[0] == 'p' && "ref_type"@[0] == 'r');
    assert("projects"@ != "ref_type"@);
    assert("projects"@ != "ref_id"@);
    assert("ref_type"@ != "ref_id"@);
    let c4 = seq!["id"@, "create_time"@, "update_time"@, "title"@, "content"@, "children"@, "parents"@, "projects"@, "ref_type"@, "ref_id"@];
    assert(pairwise_distinct(c4)) by {
        reveal_with_fuel(pairwise_distinct, 11);
        reveal_with_fuel(all_differ, 11);
    }
    lemma_distinct_no_dup(c4);
    assert(column_names(d[4].columns) =~= c4);
    assert("id"@ != "operation_time"@);
    assert("id"@ != "operation_id"@);
    assert("id"@ != "operation_content_type"@);
    assert("id"@ != "operation_action"@);
    assert("operation_time"@ != "operation_id"@);
    assert("operation_time"@ != "operation_content_type"@);
    assert("operation_time"@ != "operation_action"@);
    assert("operation_id"@ != "operation_content_type"@);
    assert("operation_id"@ != "operation_action"@);
    assert("operation_content_type"@ != "operation_action"@);
    let c5 = seq!["id"@, "operation_time"@, "operation_id"@, "operation_content_type"@, "operation_action"@];
    assert(pairwise_distinct(c5)) by {
        reveal_with_fuel(pairwise_distinct, 6);
        reveal_with_fuel(all_differ, 6);
    }
    lemma_distinct_no_dup(c5);
    assert(column_names(d[5].columns) =~= c5);
    assert("id"@ != "date"@);
    assert("id"@ != "cost"@);
    assert("id"@ != "content"@);
    assert("id"@ != "event_type"@);
    assert("id"@ != "time_type"@);
    assert("date"@[0] == 'd' && "cost"@[0] == 'c');
    assert("date"@ != "cost"@);
    assert("date"@ != "content"@);
    assert("date"@ != "event_type"@);
    assert("date"@ != "time_type"@);
    assert("cost"@ != "content"@);
    assert("cost"@ != "event_type"@);
    assert("cost"@ != "time_type"@);
    assert("content"@ != "event_type"@);
    assert("content"@ != "time_type"@);
    assert("event_type"@ != "time_type"@);
    let c6 = seq!["id"@, "date"@, "cost"@, "content"@, "event_type"@, "time_type"@];
    assert(pairwise_distinct(c6)) by {
        reveal_with_fuel(pairwise_distinct, 7);
        reveal_with_fuel(all_differ, 7);
    }
    lemma_distinct_no_dup(c6);
    assert(column_names(d[6].columns) =~= c6);
    assert("id"@ != "date"@);
    assert("id"@ != "content"@);
    assert("date"@ != "content"@);
    let c7 = seq!["id"@, "date"@, "content"@];
    assert(pairwise_distinct(c7)) by {
        reveal_with_fuel(pairwise_distinct, 4);
        reveal_with_fuel(all_differ, 4);
    }
    lemma_distinct_no_dup(c7);
    assert(column_names(d[7].columns) =~= c7);
    assert("id"@ != "create_time"@);
    assert("id"@ != "update_time"@);
    assert("id"@ != "tags"@);
    assert("id"@ != "data"@);
    assert("id"@ != "title"@);
    assert("id"@ != "description"@);
    assert("id"@ != "snapshot"@);
    assert("create_time"@[0] == 'c' && "update_time"@[0] == 'u');
    assert("create_time"@ != "update_time"@);
    assert("create_time"@ != "tags"@);
    assert("create_time"@ != "data"@);
    assert("create_time"@ != "title"@);
    assert("create_time"@[0] == 'c' && "description"@[0] == 'd');
    assert("create_time"@ != "description"@);
    assert("create_time"@ != "snapshot"@);
    assert("update_time"@ != "tags"@);
    assert("update_time"@ != "data"@);
    assert("update_time"@ != "title"@);
    assert("update_time"@[0] == 'u' && "description"@[0] == 'd');
    assert("update_time"@ != "description"@);
    assert("update_time"@ != "snapshot"@);
    assert("tags"@[0] == 't' && "data"@[0] == 'd');
    assert("tags"@ != "data"@);
    assert("tags"@ != "title"@);
    assert("tags"@ != "description"@);
    assert("tags"@ != "snapshot"@);
    assert("data"@ != "title"@);
    assert("data"@ != "description"@);
    assert("data"@ != "snapshot"@);
    assert("title"@ != "description"@);
    assert("title"@ != "snapshot"@);
    assert("description"@ != "snapshot"@);
    let c8 = seq!["id"@, "create_time"@, "update_time"@, "tags"@, "data"@, "title"@, "description"@, "snapshot"@];
    assert(pairwise_distinct(c8)) by {
        reveal_with_fuel(pairwise_distinct, 9);
        reveal_with_fuel(all_differ, 9);
    }
    lemma_distinct_no_dup(c8);
    assert(column_names(d[8].columns) =~= c8);
    assert("id"@ != "create_time"@);
    assert("id"@ != "update_time"@);
    assert("id"@ != "tags"@);
    assert("id"@ != "is_local"@);
    assert("id"@ != "category"@);
    assert("id"@ != "file_name"@);
    assert("id"@ != "file_path"@);
    assert("id"@ != "remote_url"@);
    assert("create_time"@[0] == 'c' && "update_time"@[0] == 'u');
    assert("create_time"@ != "update_time"@);
    assert("create_time"@ != "tags"@);
    assert("create_time"@ != "is_local"@);
    assert("create_time"@ != "category"@);
    assert("create_time"@ != "file_name"@);
    assert("create_time"@ != "file_path"@);
    assert("create_time"@ != "remote_url"@);
    assert("update_time"@ != "tags"@);
    assert("update_time"@ != "is_local"@);
    assert("update_time"@ != "category"@);
    assert("update_time"@ != "file_name"@);
    assert("update_time"@ != "file_path"@);
    assert("update_time"@ != "remote_url"@);
    assert("tags"@ != "is_local"@);
    assert("tags"@ != "category"@);
    assert("tags"@ != "file_name"@);
    assert("tags"@ != "file_path"@);
    assert("tags"@ != "remote_url"@);
    assert("is_local"@[0] == 'i' && "category"@[0] == 'c');
    assert("is_local"@ != "category"@);
    assert("is_local"@ != "file_name"@);
    assert("is_local"@ != "file_path"@);
    assert("is_local"@ != "remote_url"@);
    assert("category"@ != "file_name"@);
    assert("category"@ != "file_path"@);
    assert("category"@ != "remote_url"@);
    assert("file_name"@[5] == 'n' && "file_path"@[5] == 'p');
    assert("file_name"@ != "file_path"@);
    assert("file_name"@ != "remote_url"@);
    assert("file_path"@ != "remote_url"@);
    let c9 = seq!["id"@, "create_time"@, "update_time"@, "tags"@, "is_local"@, "category"@, "file_name"@, "file_path"@, "remote_url"@];
    assert(pairwise_distinct(c9)) by {
        reveal_with_fuel(pairwise_distinct, 10);
        reveal_with_fuel(all_differ, 10);
    }
    lemma_distinct_no_dup(c9);
    assert(column_names(d[9].columns) =~= c9);
    assert("id"@ != "create_time"@);
    assert("id"@ != "update_time"@);
    assert("id"@ != "pdf_id"@);
    assert("id"@ != "color"@);
    assert("id"@ != "highlight_type"@);
    assert("id"@ != "rects"@);
    assert("id"@ != "bounding_client_rect"@);
    assert("id"@ != "highlight_text_style"@);
    assert("id"@ != "page_num"@);
    assert("id"@ != "content"@);
    assert("id"@ != "image"@);
    assert("id"@ != "notes"@);
    assert("create_time"@[0] == 'c' && "update_time"@[0] == 'u');
    assert("create_time"@ != "update_time"@);
    assert("create_time"@ != "pdf_id"@);
    assert("create_time"@ != "color"@);
    assert("create_time"@ != "highlight_type"@);
    assert("create_time"@ != "rects"@);
    assert("create_time"@ != "bounding_client_rect"@);
    assert("create_time"@ != "highlight_text_style"@);
    assert("create_time"@ != "page_num"@);
    assert("create_time"@ != "content"@);
    assert("create_time"@ != "image"@);
    assert("create_time"@ != "notes"@);
    assert("update_time"@ != "pdf_id"@);
    assert("update_time"@ != "color"@);
    assert("update_time"@ != "highlight_type"@);
    assert("update_time"@ != "rects"@);
    assert("update_time"@ != "bounding_client_rect"@);
    assert("update_time"@ != "highlight_text_style"@);
    assert("update_time"@ != "page_num"@);
    assert("update_time"@ != "content"@);
    assert("update_time"@ != "image"@);
    assert("update_time"@ != "notes"@);
    assert("pdf_id"@ != "color"@);
    assert("pdf_id"@ != "highlight_type"@);
    assert("pdf_id"@ != "rects"@);
    assert("pdf_id"@ != "bounding_client_rect"@);
    assert("pdf_id"@ != "highlight_text_style"@);
    assert("pdf_id"@ != "page_num"@);
    assert("pdf_id"@ != "content"@);
    assert("pdf_id"@ != "image"@);
    assert("pdf_id"@ != "notes"@);
    assert("color"@ != "highlight_type"@);
    assert("color"@[0] == 'c' && "rects"@[0] == 'r');
    assert("color"@ != "rects"@);
    assert("color"@ != "bounding_client_rect"@);
    assert("color"@ != "highlight_text_style"@);
    assert("color"@ != "page_num"@);
    assert("color"@ != "content"@);
    assert("color"@[0] == 'c' && "image"@[0] == 'i');
    assert("color"@ != "image"@);
    assert("color"@[0] == 'c' && "notes"@[0] == 'n');
    assert("color"@ != "notes"@);
    assert("highlight_type"@ != "rects"@);
    assert("highlight_type"@ != "bounding_client_rect"@);
    assert("highlight_type"@ != "highlight_text_style"@);
    assert("highlight_type"@ != "page_num"@);
    assert("highlight_type"@ != "content"@);
    assert("highlight_type"@ != "image"@);
    assert("highlight_type"@ != "notes"@);
    assert("rects"@ != "bounding_client_rect"@);
    assert("rects"@ != "highlight_text_style"@);
    assert("rects"@ != "page_num"@);
    assert("rects"@ != "content"@);
    assert("rects"@[0] == 'r' && "image"@[0] == 'i');
    assert("rects"@ != "image"@);
    assert("rects"@[0] == 'r' && "notes"@[0] == 'n');
    assert("rects"@ != "notes"@);
    assert("bounding_client_rect"@[0] == 'b' && "highlight_text_style"@[0] == 'h');
    assert("bounding_client_rect"@ != "highlight_text_style"@);
    assert("bounding_client_rect"@ != "page_num"@);
    assert("bounding_client_rect"@ != "content"@);
    assert("bounding_client_rect"@ != "image"@);
    assert("bounding_client_rect"@ != "notes"@);
    assert("highlight_text_style"@ != "page_num"@);
    assert("highlight_text_style"@ != "content"@);
    assert("highlight_text_style"@ != "image"@);
    assert("highlight_text_style"@ != "notes"@);
    assert("page_num"@ != "content"@);
    assert("page_num"@ != "image"@);
    assert("page_num"@ != "notes"@);
    assert("content"@ != "image"@);
    assert("content"@ != "notes"@);
    assert("image"@[0] == 'i' && "notes"@[0] == 'n');
    assert("image"@ != "notes"@);
    let c10 = seq!["id"@, "create_time"@, "update_time"@, "pdf_id"@, "color"@, "highlight_type"@, "rects"@, "bounding_client_rect"@, "highlight_text_style"@, "page_num"@, "content"@, "image"@, "notes"@];
    assert(pairwise_distinct(c10)) by {
        reveal_with_fuel(pairwise_distinct, 14);
        reveal_with_fuel(all_differ, 14);
    }
    lemma_distinct_no_dup(c10);
    assert(column_names(d[10].columns) =~= c10);
    assert("id"@ != "create_time"@);
    assert("id"@ != "update_time"@);
    assert("id"@ != "messages"@);
    assert("id"@ != "title"@);
    assert("create_time"@[0] == 'c' && "update_time"@[0] == 'u');
    assert("create_time"@ != "update_time"@);
    assert("create_time"@ != "messages"@);
    assert("create_time"@ != "title"@);
    assert("update_time"@ != "messages"@);
    assert("update_time"@ != "title"@);
    assert("messages"@ != "title"@);
    let c11 = seq!["id"@, "create_time"@, "update_time"@, "messages"@, "title"@];
    assert(pairwise_distinct(c11)) by {
        reveal_with_fuel(pairwise_distinct, 6);
        reveal_with_fuel(all_differ, 6);
    }
    lemma_distinct_no_dup(c11);
    assert(column_names(d[11].columns) =~= c11);
    assert forall|i: int| 0 <= i < d.len() implies column_names(#[trigger] d[i].columns).no_duplicates() by {
        if i == 0 {
            assert(column_names(d[i].columns) == c0);
        } else if i == 1 {
            assert(column_names(d[i].columns) == c1);
        } else if i == 2 {
            assert(column_names(d[i].columns) == c2);
        } else if i == 3 {
            assert(column_names(d[i].columns) == c3);
        } else if i == 4 {
            assert(column_names(d[i].columns) == c4);
        } else if i == 5 {
            assert(column_names(d[i].columns) == c5);
        } else if i == 6 {
            assert(column_names(d[i].columns) == c6);
        } else if i == 7 {
            assert(column_names(d[i].columns) == c7);
        } else if i == 8 {
            assert(column_names(d[i].columns) == c8);
        } else if i == 9 {
            assert(column_names(d[i].columns) == c9);
        } else if i == 10 {
            assert(column_names(d[i].columns) == c10);
        } else if i == 11 {
            assert(column_names(d[i].columns) == c11);
        }
    }
}


/// A declared column.
pub open spec fn col_view(name: Seq<char>, decl: Seq<char>, default_value: Seq<char>) -> ColumnDefView {
    ColumnDefView { name: name, decl: decl, default_value: default_value }
}

fn column(name: &str, decl: &str, default_value: &str) -> (r: ColumnDef)
    ensures
        r@ == (ColumnDefView { name: name@, decl: decl@, default_value: default_value@ }),
{
    ColumnDef { name: name.to_owned(), decl: decl.to_owned(), default_value: default_value.to_owned() }
}

/// The tables of the current schema, each with its columns in the order
/// they were introduced.
pub fn schema_registry() -> (r: Vec<TableDef>)
    ensures
        defs_view(r@) == declared_tables(),
        defs_wf(defs_view(r@)),
{
    proof { lemma_declared_tables_wf(); }
    let cols0 = vec![
        column("id", "INTEGER PRIMARY KEY", ""),
        column("create_time", "INTEGER NOT NULL DEFAULT 0", "0"),
        column("update_time", "INTEGER NOT NULL DEFAULT 0", "0"),
        column("tags", "TEXT", ""),
        column("links", "TEXT", ""),
        column("content", "TEXT", ""),
        column("category", "TEXT DEFAULT 'permanent'", "permanent"),
    ];
    assert(cols0@.map_values(|c: ColumnDef| c@) =~= declared_tables()[0].columns);
    let t0 = TableDef { name: "cards".to_owned(), columns: cols0 };
    assert(t0@ == declared_tables()[0]);
    let cols1 = vec![
        column("id", "INTEGER PRIMARY KEY", ""),
        column("title", "TEXT NOT NULL DEFAULT ''", ""),
        column("author", "TEXT", ""),
        column("create_time", "INTEGER NOT NULL DEFAULT 0", "0"),
        column("update_time", "INTEGER NOT NULL DEFAULT 0", "0"),
        column("tags", "TEXT", ""),
        column("links", "TEXT", ""),
        column("content", "TEXT", ""),
        column("banner_bg", "TEXT DEFAULT ''", ""),
        column("is_top", "INTEGER DEFAULT 0", "0"),
        column("is_delete", "INTEGER DEFAULT 0", "0"),
    ];
    assert(cols1@.map_values(|c: ColumnDef| c@) =~= declared_tables()[1].columns);
    let t1 = TableDef { name: "articles".to_owned(), columns: cols1 };
    assert(t1@ == declared_tables()[1]);
    let cols2 = vec![
        column("id", "INTEGER PRIMARY KEY NOT NULL", ""),
        column("create_time", "INTEGER NOT NULL DEFAULT 0", "0"),
        column("update_time", "INTEGER NOT NULL DEFAULT 0", "0"),
        column("title", "TEXT NOT NULL DEFAULT ''", ""),
        column("desc", "TEXT", ""),
        column("authors", "TEXT", ""),
        column("children", "TEXT", ""),
        column("tags", "TEXT", ""),
        column("links", "TEXT", ""),
        column("content", "TEXT", ""),
        column("banner_bg", "TEXT", ""),
        column("icon", "TEXT", ""),
        column("is_top", "INTEGER DEFAULT 0", "0"),
        column("is_delete", "INTEGER DEFAULT 0", "0"),
    ];
    assert(cols2@.map_values(|c: ColumnDef| c@) =~= declared_tables()[2].columns);
    let t2 = TableDef { name: "documents".to_owned(), columns: cols2 };
    assert(t2@ == declared_tables()[2]);
    let cols3 = vec![
        column("id", "INTEGER PRIMARY KEY NOT NULL", ""),
        column("create_time", "INTEGER NOT NULL DEFAULT 0", "0"),
        column("update_time", "INTEGER NOT NULL DEFAULT 0", "0"),
        column("title", "TEXT NOT NULL DEFAULT ''", ""),
        column("authors", "TEXT", ""),
        column("tags", "TEXT", ""),
        column("is_directory", "INTEGER DEFAULT 0", "0"),
        column("children", "TEXT", ""),
        column("is_article", "INTEGER DEFAULT 0", "0"),
        column("article_id", "INTEGER DEFAULT 0", "0"),
        column("is_card", "INTEGER DEFAULT 0", "0"),
        column("card_id", "INTEGER DEFAULT 0", "0"),
        column("content", "TEXT", ""),
        column("banner_bg", "TEXT", ""),
        column("icon", "TEXT", ""),
        column("is_delete", "INTEGER DEFAULT 0", "0"),
        column("parents", "TEXT DEFAULT '[]'", "[]"),
    ];
    assert(cols3@.map_values(|c: ColumnDef| c@) =~= declared_tables()[3].columns);
    let t3 = TableDef { name: "document_items".to_owned(), columns: cols3 };
    assert(t3@ == declared_tables()[3]);
    let cols4 = vec![
        column("id", "INTEGER PRIMARY KEY", ""),
        column("create_time", "INTEGER NOT NULL DEFAULT 0", "0"),
        column("update_time", "INTEGER NOT NULL DEFAULT 0", "0"),
        column("title", "TEXT NOT NULL DEFAULT ''", ""),
        column("content", "TEXT", ""),
        column("children", "TEXT", ""),
        column("parents", "TEXT", ""),
        column("projects", "TEXT", ""),
        column("ref_type", "TEXT", ""),
        column("ref_id", "INTEGER", ""),
    ];
    assert(cols4@.map_values(|c: ColumnDef| c@) =~= declared_tables()[4].columns);
    let t4 = TableDef { name: "project_item".to_owned(), columns: cols4 };
    assert(t4@ == declared_tables()[4]);
    let cols5 = vec![
        column("id", "INTEGER PRIMARY KEY", ""),
        column("operation_time", "INTEGER NOT NULL DEFAULT 0", "0"),
        column("operation_id", "INTEGER", ""),
        column("operation_content_type", "TEXT", ""),
        column("operation_action", "TEXT", ""),
    ];
    assert(cols5@.map_values(|c: ColumnDef| c@) =~= declared_tables()[5].columns);
    let t5 = TableDef { name: "operation".to_owned(), columns: cols5 };
    assert(t5@ == declared_tables()[5]);
    let cols6 = vec![
        column("id", "INTEGER PRIMARY KEY", ""),
        column("date", "TEXT NOT NULL DEFAULT ''", ""),
        column("cost", "INTEGER NOT NULL DEFAULT 0", "0"),
        column("content", "TEXT", ""),
        column("event_type", "TEXT NOT NULL DEFAULT ''", ""),
        column("time_type", "TEXT NOT NULL DEFAULT ''", ""),
    ];
    assert(cols6@.map_values(|c: ColumnDef| c@) =~= declared_tables()[6].columns);
    let t6 = TableDef { name: "time_records".to_owned(), columns: cols6 };
    assert(t6@ == declared_tables()[6]);
    let cols7 = vec![
        column("id", "INTEGER PRIMARY KEY", ""),
        column("date", "TEXT NOT NULL DEFAULT ''", ""),
        column("content", "TEXT", ""),
    ];
    assert(cols7@.map_values(|c: ColumnDef| c@) =~= declared_tables()[7].columns);
    let t7 = TableDef { name: "daily_notes".to_owned(), columns: cols7 };
    assert(t7@ == declared_tables()[7]);
    let cols8 = vec![
        column("id", "INTEGER PRIMARY KEY NOT NULL", ""),
        column("create_time", "INTEGER NOT NULL DEFAULT 0", "0"),
        column("update_time", "INTEGER NOT NULL DEFAULT 0", "0"),
        column("tags", "TEXT", ""),
        column("data", "TEXT", ""),
        column("title", "TEXT", ""),
        column("description", "TEXT", ""),
        column("snapshot", "TEXT", ""),
    ];
    assert(cols8@.map_values(|c: ColumnDef| c@) =~= declared_tables()[8].columns);
    let t8 = TableDef { name: "white_boards".to_owned(), columns: cols8 };
    assert(t8@ == declared_tables()[8]);
    let cols9 = vec![
        column("id", "INTEGER PRIMARY KEY", ""),
        column("create_time", "INTEGER NOT NULL DEFAULT 0", "0"),
        column("update_time", "INTEGER NOT NULL DEFAULT 0", "0"),
        column("tags", "TEXT", ""),
        column("is_local", "INTEGER NOT NULL DEFAULT 0", "0"),
        column("category", "TEXT DEFAULT 'default'", "default"),
        column("file_name", "TEXT", ""),
        column("file_path", "TEXT", ""),
        column("remote_url", "TEXT", ""),
    ];
    assert(cols9@.map_values(|c: ColumnDef| c@) =~= declared_tables()[9].columns);
    let t9 = TableDef { name: "pdfs".to_owned(), columns: cols9 };
    assert(t9@ == declared_tables()[9]);
    let cols10 = vec![
        column("id", "INTEGER PRIMARY KEY", ""),
        column("create_time", "INTEGER NOT NULL DEFAULT 0", "0"),
        column("update_time", "INTEGER NOT NULL DEFAULT 0", "0"),
        column("pdf_id", "INTEGER NOT NULL DEFAULT 0", "0"),
        column("color", "TEXT NOT NULL DEFAULT ''", ""),
        column("highlight_type", "TEXT NOT NULL DEFAULT ''", ""),
        column("rects", "TEXT NOT NULL DEFAULT ''", ""),
        column("bounding_client_rect", "TEXT NOT NULL DEFAULT ''", ""),
        column("highlight_text_style", "TEXT NOT NULL DEFAULT ''", ""),
        column("page_num", "INTEGER NOT NULL DEFAULT 0", "0"),
        column("content", "TEXT NOT NULL DEFAULT ''", ""),
        column("image", "TEXT NOT NULL DEFAULT ''", ""),
        column("notes", "TEXT NOT NULL DEFAULT ''", ""),
    ];
    assert(cols10@.map_values(|c: ColumnDef| c@) =~= declared_tables()[10].columns);
    let t10 = TableDef { name: "pdf_highlights".to_owned(), columns: cols10 };
    assert(t10@ == declared_tables()[10]);
    let cols11 = vec![
        column("id", "INTEGER PRIMARY KEY", ""),
        column("create_time", "INTEGER NOT NULL DEFAULT 0", "0"),
        column("update_time", "INTEGER NOT NULL DEFAULT 0", "0"),
        column("messages", "TEXT", ""),
        column("title", "TEXT", ""),
    ];
    assert(cols11@.map_values(|c: ColumnDef| c@) =~= declared_tables()[11].columns);
    let t11 = TableDef { name: "chat_message".to_owned(), columns: cols11 };
    assert(t11@ == declared_tables()[11]);
    let r = vec![t0, t1, t2, t3, t4, t5, t6, t7, t8, t9, t10, t11];
    assert(defs_view(r@) =~= declared_tables());
    r
}

} // verus!
