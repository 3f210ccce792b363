//! The schema layer: projecting decoded records into the fixed
//! five-column schema-row shape, building the table/column/index catalog
//! from those rows in two passes, and matching a single-field filter to
//! an applicable index.
//!
//! The page layer hands in `(rowid, payload)` cells, and a DDL parser
//! collaborator hands in the structured command each row's `sql` text
//! parses to; both live outside this crate.

use vstd::prelude::*;

use crate::error::{Error, SchemaField};
use crate::record::{
    decode_record_spec, is_number_spec, to_i64_spec, ColumnValue, ColumnValueModel, Record,
};

verus! {

/// What `String::from_utf8_lossy` yields for a byte sequence: UTF-8
/// decoding with invalid sequences replaced leniently; a function of the
/// bytes alone.
pub uninterp spec fn utf8_lossy(bytes: Seq<u8>) -> Seq<char>;

/// Relies on String::from_utf8_lossy: decodes bytes as UTF-8, replacing
/// invalid sequences with replacement characters; the result depends on
/// the bytes alone.
#[verifier::external_body]
fn utf8_lossy_string(bytes: &Vec<u8>) -> (r: String)
    ensures
        r@ == utf8_lossy(bytes@),
{
    String::from_utf8_lossy(bytes.as_slice()).into_owned()
}

/// Relies on str::eq: string slices compare equal exactly when their
/// character sequences do.
#[verifier::external_body]
fn str_eq(a: &str, b: &str) -> (r: bool)
    ensures
        r == (a@ == b@),
{
    a == b
}

/// One column of a table: its name and whether the DDL marked it as the
/// primary key.
#[derive(Debug)]
pub struct Column {
    pub name: String,
    pub is_primary_key: bool,
}

pub struct ColumnModel {
    pub name: Seq<char>,
    pub is_primary_key: bool,
}

impl View for Column {
    type V = ColumnModel;

    open spec fn view(&self) -> ColumnModel {
        ColumnModel { name: self.name@, is_primary_key: self.is_primary_key }
    }
}

/// An index over one table: its name, its ordered column names (the
/// leading one is the match key), the owning table's name, and the page
/// where its data begins.
#[derive(Debug)]
pub struct Index {
    pub name: String,
    pub columns: Vec<String>,
    pub table_name: String,
    pub rootpage: u32,
}

pub struct IndexModel {
    pub name: Seq<char>,
    pub columns: Seq<Seq<char>>,
    pub table_name: Seq<char>,
    pub rootpage: u32,
}

/// The character sequences of a sequence of strings.
pub open spec fn strings_view(ss: Seq<String>) -> Seq<Seq<char>> {
    Seq::new(ss.len(), |i: int| ss[i]@)
}

impl View for Index {
    type V = IndexModel;

    open spec fn view(&self) -> IndexModel {
        IndexModel {
            name: self.name@,
            columns: strings_view(self.columns@),
            table_name: self.table_name@,
            rootpage: self.rootpage,
        }
    }
}

/// One table of the catalog: its name, its ordered columns, the indexes
/// attached to it, and the page where its data begins.
#[derive(Debug)]
pub struct Table {
    pub name: String,
    pub columns: Vec<Column>,
    pub indexes: Vec<Index>,
    pub rootpage: u32,
}

pub struct TableModel {
    pub name: Seq<char>,
    pub columns: Seq<ColumnModel>,
    pub indexes: Seq<IndexModel>,
    pub rootpage: u32,
}

/// The models of a sequence of columns.
pub open spec fn columns_view(cs: Seq<Column>) -> Seq<ColumnModel> {
    Seq::new(cs.len(), |i: int| cs[i]@)
}

/// The models of a sequence of indexes.
pub open spec fn indexes_view(is: Seq<Index>) -> Seq<IndexModel> {
    Seq::new(is.len(), |i: int| is[i]@)
}

impl View for Table {
    type V = TableModel;

    open spec fn view(&self) -> TableModel {
        TableModel {
            name: self.name@,
            columns: columns_view(self.columns@),
            indexes: indexes_view(self.indexes@),
            rootpage: self.rootpage,
        }
    }
}

/// A single-field equality filter, as the query layer hands it in.
#[derive(Debug)]
pub struct WhereClause {
    pub field: String,
}

/// The reserved prefix that marks a table as internal to the format.
pub open spec fn reserved_prefix() -> Seq<char> {
    "sqlite_"@
}

/// A table name is a user table name unless it starts with the reserved
/// prefix.
pub open spec fn is_user_name(name: Seq<char>) -> bool {
    !(name.len() >= 7 && name.subrange(0, 7) == reserved_prefix())
}

/// The first position at or after `i` whose column model bears `name`.
pub open spec fn first_col_match(cols: Seq<ColumnModel>, name: Seq<char>, i: int) -> Option<int>
    decreases cols.len() - i,
{
    if i < 0 || i >= cols.len() {
        None
    } else if cols[i].name == name {
        Some(i)
    } else {
        first_col_match(cols, name, i + 1)
    }
}

/// The first position at or after `i` whose name bears `name`.
pub open spec fn first_name_match(names: Seq<Seq<char>>, name: Seq<char>, i: int) -> Option<int>
    decreases names.len() - i,
{
    if i < 0 || i >= names.len() {
        None
    } else if names[i] == name {
        Some(i)
    } else {
        first_name_match(names, name, i + 1)
    }
}

/// The first position at or after `i` of an index whose leading column
/// is `field`.
pub open spec fn first_index_match(indexes: Seq<IndexModel>, field: Seq<char>, i: int) -> Option<
    int,
>
    decreases indexes.len() - i,
{
    if i < 0 || i >= indexes.len() {
        None
    } else if indexes[i].columns.len() > 0 && indexes[i].columns[0] == field {
        Some(i)
    } else {
        first_index_match(indexes, field, i + 1)
    }
}

impl Table {
    /// The position and column of the first column named `column_name`.
    #[verifier::loop_isolation(false)]
    pub fn find_column<'a>(&'a self, column_name: &str) -> (r: Option<(usize, &'a Column)>)
        ensures
            match r {
                Some(p) => first_col_match(self@.columns, column_name@, 0) == Some(p.0 as int)
                    && p.0 < self.columns@.len() && p.1@ == self@.columns[p.0 as int],
                None => first_col_match(self@.columns, column_name@, 0) is None,
            },
    {
        let mut i: usize = 0;
        while i < self.columns.len()
            invariant
                i <= self.columns@.len(),
                first_col_match(self@.columns, column_name@, 0) == first_col_match(
                    self@.columns,
                    column_name@,
                    i as int,
                ),
            decreases self.columns@.len() - i,
        {
            if str_eq(self.columns[i].name.as_str(), column_name) {
                return Some((i, &self.columns[i]));
            }
            i = i + 1;
        }
        None
    }

    /// True unless the table's name starts with the reserved prefix.
    #[verifier::loop_isolation(false)]
    pub fn is_user_table(&self) -> (r: bool)
        ensures
            r == is_user_name(self.name@),
    {
        proof {
            reveal_strlit("sqlite_");
        }
        let s = self.name.as_str();
        let n = s.unicode_len();
        if n < 7 {
            return true;
        }
        let prefix = "sqlite_";
        let mut i: usize = 0;
        while i < 7
            invariant
                i <= 7,
                forall|k: int| 0 <= k < i ==> self.name@[k] == reserved_prefix()[k],
            decreases 7 - i,
        {
            if s.get_char(i) != prefix.get_char(i) {
                proof {
                    assert(self.name@.subrange(0, 7)[i as int] != reserved_prefix()[i as int]);
                }
                return true;
            }
            i = i + 1;
        }
        proof {
            assert(self.name@.subrange(0, 7) =~= reserved_prefix());
        }
        false
    }

    /// The first index, in declaration order, whose leading column
    /// equals the filter's field; `None` without a filter or without a
    /// match. Every index of a well-formed table has a leading column.
    #[verifier::loop_isolation(false)]
    pub fn find_applicable_index<'a>(&'a self, filter: &Option<WhereClause>) -> (r: Option<
        &'a Index,
    >)
        requires
            forall|k: int|
                0 <= k < self@.indexes.len() ==> #[trigger] self@.indexes[k].columns.len() > 0,
        ensures
            match *filter {
                None => r is None,
                Some(f) => match r {
                    Some(idx) => first_index_match(self@.indexes, f.field@, 0) matches Some(j)
                        && idx@ == self@.indexes[j],
                    None => first_index_match(self@.indexes, f.field@, 0) is None,
                },
            },
    {
        let filter = match filter {
            None => {
                return None;
            },
            Some(f) => f,
        };
        let mut i: usize = 0;
        while i < self.indexes.len()
            invariant
                i <= self.indexes@.len(),
                first_index_match(self@.indexes, filter.field@, 0) == first_index_match(
                    self@.indexes,
                    filter.field@,
                    i as int,
                ),
            decreases self.indexes@.len() - i,
        {
            if str_eq(self.indexes[i].columns[0].as_str(), filter.field.as_str()) {
                return Some(&self.indexes[i]);
            }
            i = i + 1;
        }
        None
    }
}

impl Table {
    /// A placeholder table built around an index whose owner is not yet
    /// known: it takes the index's table name, no columns, and no data
    /// page.
    pub fn from_index(index: Index) -> (r: Table)
        ensures
            r@.name == index@.table_name,
            r@.columns.len() == 0,
            r@.indexes.len() == 1,
            r@.indexes[0] == index@,
            r@.rootpage == 0,
    {
        let name = index.table_name.clone();
        let mut indexes: Vec<Index> = Vec::new();
        let ghost index_model = index@;
        indexes.push(index);
        proof {
            assert(columns_view(Seq::<Column>::empty()) =~= Seq::<ColumnModel>::empty());
            assert(indexes_view(indexes@) =~= seq![index_model]);
        }
        Table { name, columns: Vec::new(), indexes, rootpage: 0 }
    }
}

impl Index {
    /// The position and name of the first indexed column named
    /// `column_name`.
    #[verifier::loop_isolation(false)]
    pub fn find_column<'a>(&'a self, column_name: &str) -> (r: Option<(usize, &'a String)>)
        ensures
            match r {
                Some(p) => first_name_match(self@.columns, column_name@, 0) == Some(p.0 as int)
                    && p.0 < self.columns@.len() && p.1@ == self@.columns[p.0 as int],
                None => first_name_match(self@.columns, column_name@, 0) is None,
            },
    {
        let mut i: usize = 0;
        while i < self.columns.len()
            invariant
                i <= self.columns@.len(),
                first_name_match(self@.columns, column_name@, 0) == first_name_match(
                    self@.columns,
                    column_name@,
                    i as int,
                ),
            decreases self.columns@.len() - i,
        {
            if str_eq(self.columns[i].as_str(), column_name) {
                return Some((i, &self.columns[i]));
            }
            i = i + 1;
        }
        None
    }
}

/// The mathematical shape of one schema-table row.
pub struct SchemaRowModel {
    pub rowid: i64,
    pub kind: Seq<char>,
    pub name: Seq<char>,
    pub tbl_name: Seq<char>,
    pub rootpage: u32,
    pub sql: Seq<char>,
}

/// One row of the schema table: the fixed five-column projection of a
/// decoded record, plus the rowid the page layer supplied.
#[derive(Debug)]
pub struct SQLiteSchemaRow {
    pub rowid: i64,
    pub kind: String,
    pub name: String,
    pub tbl_name: String,
    pub rootpage: u32,
    pub sql: String,
}

impl View for SQLiteSchemaRow {
    type V = SchemaRowModel;

    open spec fn view(&self) -> SchemaRowModel {
        SchemaRowModel {
            rowid: self.rowid,
            kind: self.kind@,
            name: self.name@,
            tbl_name: self.tbl_name@,
            rootpage: self.rootpage,
            sql: self.sql@,
        }
    }
}

/// What projecting a decoded record onto the schema-row shape yields:
/// positions 0, 1, 2 and 4 must be text, position 3 must be numeric and
/// is coerced to an unsigned 32-bit root page id. A position of the
/// wrong kind names its field.
pub open spec fn project_row_spec(rowid: i64, values: Seq<ColumnValueModel>) -> Result<
    SchemaRowModel,
    Error,
> {
    if !(values.len() > 0 && values[0] is Text) {
        Err(Error::InvalidSchemaShape(SchemaField::Kind))
    } else if !(values.len() > 1 && values[1] is Text) {
        Err(Error::InvalidSchemaShape(SchemaField::Name))
    } else if !(values.len() > 2 && values[2] is Text) {
        Err(Error::InvalidSchemaShape(SchemaField::TblName))
    } else if !(values.len() > 3 && is_number_spec(values[3])) {
        Err(Error::InvalidSchemaShape(SchemaField::Rootpage))
    } else if !(values.len() > 4 && values[4] is Text) {
        Err(Error::InvalidSchemaShape(SchemaField::Sql))
    } else {
        Ok(
            SchemaRowModel {
                rowid: rowid,
                kind: utf8_lossy(values[0]->Text_0),
                name: utf8_lossy(values[1]->Text_0),
                tbl_name: utf8_lossy(values[2]->Text_0),
                rootpage: to_i64_spec(values[3]) as u32,
                sql: utf8_lossy(values[4]->Text_0),
            },
        )
    }
}

impl SQLiteSchemaRow {
    /// Projects a decoded record onto the fixed five-column schema-row
    /// shape; any extra trailing values are ignored.
    pub fn from_record(record: &Record) -> (r: Result<SQLiteSchemaRow, Error>)
        ensures
            match r {
                Ok(row) => project_row_spec(record@.rowid, record@.values) == Ok::<
                    SchemaRowModel,
                    Error,
                >(row@),
                Err(e) => project_row_spec(record@.rowid, record@.values) == Err::<
                    SchemaRowModel,
                    Error,
                >(e),
            },
    {
        if record.values.len() < 1 {
            return Err(Error::InvalidSchemaShape(SchemaField::Kind));
        }
        let kind = match &record.values[0] {
            ColumnValue::Text(b) => utf8_lossy_string(b),
            _ => {
                return Err(Error::InvalidSchemaShape(SchemaField::Kind));
            },
        };
        if record.values.len() < 2 {
            return Err(Error::InvalidSchemaShape(SchemaField::Name));
        }
        let name = match &record.values[1] {
            ColumnValue::Text(b) => utf8_lossy_string(b),
            _ => {
                return Err(Error::InvalidSchemaShape(SchemaField::Name));
            },
        };
        if record.values.len() < 3 {
            return Err(Error::InvalidSchemaShape(SchemaField::TblName));
        }
        let tbl_name = match &record.values[2] {
            ColumnValue::Text(b) => utf8_lossy_string(b),
            _ => {
                return Err(Error::InvalidSchemaShape(SchemaField::TblName));
            },
        };
        if record.values.len() < 4 {
            return Err(Error::InvalidSchemaShape(SchemaField::Rootpage));
        }
        if !record.values[3].is_number() {
            return Err(Error::InvalidSchemaShape(SchemaField::Rootpage));
        }
        let page_number: i64 = record.values[3].to_i64();
        let rootpage: u32 = #[verifier::truncate] (page_number as u32);
        if record.values.len() < 5 {
            return Err(Error::InvalidSchemaShape(SchemaField::Sql));
        }
        let sql = match &record.values[4] {
            ColumnValue::Text(b) => utf8_lossy_string(b),
            _ => {
                return Err(Error::InvalidSchemaShape(SchemaField::Sql));
            },
        };
        Ok(SQLiteSchemaRow { rowid: record.rowid, kind, name, tbl_name, rootpage, sql })
    }
}

/// The models of a sequence of schema rows.
pub open spec fn rows_view(rs: Seq<SQLiteSchemaRow>) -> Seq<SchemaRowModel> {
    Seq::new(rs.len(), |i: int| rs[i]@)
}

/// What reading the whole schema table yields: each cell's payload is
/// decoded as a record and projected onto the schema-row shape, in
/// order; the first failure aborts.
pub open spec fn read_rows_rec(cells: Seq<(i64, Vec<u8>)>, i: int) -> Result<
    Seq<SchemaRowModel>,
    Error,
>
    decreases cells.len() - i,
{
    if i < 0 || i >= cells.len() {
        Ok(Seq::empty())
    } else {
        match decode_record_spec(cells[i].1@) {
            Err(e) => Err(e),
            Ok(vals) => match project_row_spec(cells[i].0, vals) {
                Err(e) => Err(e),
                Ok(row) => match read_rows_rec(cells, i + 1) {
                    Err(e) => Err(e),
                    Ok(rows) => Ok(seq![row] + rows),
                },
            },
        }
    }
}

/// The decoded schema table: one row per leaf-table cell of the schema
/// page.
#[derive(Debug)]
pub struct SQLiteSchema {
    pub rows: Vec<SQLiteSchemaRow>,
}

impl View for SQLiteSchema {
    type V = Seq<SchemaRowModel>;

    open spec fn view(&self) -> Seq<SchemaRowModel> {
        rows_view(self.rows@)
    }
}

impl SQLiteSchema {
    /// Decodes every `(rowid, payload)` cell of the schema page into a
    /// schema row; the first cell that fails aborts the read.
    #[verifier::loop_isolation(false)]
    pub fn read(cells: &Vec<(i64, Vec<u8>)>) -> (r: Result<SQLiteSchema, Error>)
        ensures
            match r {
                Ok(s) => read_rows_rec(cells@, 0) == Ok::<Seq<SchemaRowModel>, Error>(s@),
                Err(e) => read_rows_rec(cells@, 0) == Err::<Seq<SchemaRowModel>, Error>(e),
            },
    {
        let ghost whole = read_rows_rec(cells@, 0);
        let mut rows: Vec<SQLiteSchemaRow> = Vec::new();
        let mut i: usize = 0;
        proof {
            if let Ok(rs) = whole {
                assert(rows_view(rows@) + rs =~= rs);
            }
        }
        while i < cells.len()
            invariant
                i <= cells@.len(),
                rows@.len() == i,
                whole == match read_rows_rec(cells@, i as int) {
                    Ok(rs) => Ok::<Seq<SchemaRowModel>, Error>(rows_view(rows@) + rs),
                    Err(e) => Err::<Seq<SchemaRowModel>, Error>(e),
                },
            decreases cells@.len() - i,
        {
            let rec = match Record::read(cells[i].0, cells[i].1.as_slice()) {
                Err(e) => {
                    return Err(e);
                },
                Ok(rec) => rec,
            };
            let row = match SQLiteSchemaRow::from_record(&rec) {
                Err(e) => {
                    return Err(e);
                },
                Ok(row) => row,
            };
            let ghost old_rows = rows@;
            let ghost tail = read_rows_rec(cells@, i as int + 1);
            rows.push(row);
            i = i + 1;
            proof {
                if let Ok(rs) = tail {
                    assert(rows_view(old_rows) + (seq![row@] + rs) =~= rows_view(rows@) + rs);
                }
            }
        }
        proof {
            assert(rows_view(rows@) + Seq::<SchemaRowModel>::empty() =~= rows_view(rows@));
        }
        Ok(SQLiteSchema { rows })
    }
}

/// A table-creation command, as the external DDL parser hands it in:
/// the table's name and its ordered fields.
#[derive(Debug)]
pub struct CreateTableCmd {
    pub table: String,
    pub fields: Vec<Column>,
}

/// An index-creation command, as the external DDL parser hands it in:
/// the index's name, the owning table's name, and the ordered column
/// names.
#[derive(Debug)]
pub struct CreateIndexCmd {
    pub name: String,
    pub table: String,
    pub fields: Vec<String>,
}

/// The structured command a schema row's DDL text parses to. Commands
/// that create neither a table nor an index (views, triggers) are
/// carried as `Other` and ignored by the catalog builder.
#[derive(Debug)]
pub enum DdlCommand {
    CreateTable(CreateTableCmd),
    CreateIndex(CreateIndexCmd),
    Other,
}

/// One schema row together with what its `sql` text parsed to; `None`
/// records that the text failed to parse at all.
#[derive(Debug)]
pub struct SchemaEntry {
    pub row: SQLiteSchemaRow,
    pub ddl: Option<DdlCommand>,
}

/// The models of a sequence of tables.
pub open spec fn tables_view(ts: Seq<Table>) -> Seq<TableModel> {
    Seq::new(ts.len(), |i: int| ts[i]@)
}

/// The table a creation command builds, before any index is attached.
pub open spec fn table_model_of(ct: CreateTableCmd, rootpage: u32) -> TableModel {
    TableModel {
        name: ct.table@,
        columns: columns_view(ct.fields@),
        indexes: Seq::empty(),
        rootpage: rootpage,
    }
}

/// The index a creation command builds.
pub open spec fn index_model_of(ci: CreateIndexCmd, rootpage: u32) -> IndexModel {
    IndexModel {
        name: ci.name@,
        columns: strings_view(ci.fields@),
        table_name: ci.table@,
        rootpage: rootpage,
    }
}

/// The first position at or after `i` of a table named `name`.
pub open spec fn find_table_name(tables: Seq<TableModel>, name: Seq<char>, i: int) -> Option<int>
    decreases tables.len() - i,
{
    if i < 0 || i >= tables.len() {
        None
    } else if tables[i].name == name {
        Some(i)
    } else {
        find_table_name(tables, name, i + 1)
    }
}

/// The table pass: every row whose command creates a table registers it,
/// keyed by name with the last registration winning; a user table's
/// first registration also records its name in encounter order. A row
/// whose text failed to parse aborts the build.
pub open spec fn pass1_rec(
    entries: Seq<SchemaEntry>,
    i: int,
    tables: Seq<TableModel>,
    names: Seq<Seq<char>>,
) -> Result<(Seq<TableModel>, Seq<Seq<char>>), Error>
    decreases entries.len() - i,
{
    if i < 0 || i >= entries.len() {
        Ok((tables, names))
    } else {
        match entries[i].ddl {
            None => Err(Error::SchemaParseError),
            Some(DdlCommand::CreateTable(ct)) => {
                let t = table_model_of(ct, entries[i].row.rootpage);
                match find_table_name(tables, t.name, 0) {
                    Some(j) => pass1_rec(entries, i + 1, tables.update(j, t), names),
                    None => pass1_rec(
                        entries,
                        i + 1,
                        tables.push(t),
                        if is_user_name(t.name) {
                            names.push(t.name)
                        } else {
                            names
                        },
                    ),
                }
            },
            Some(_) => pass1_rec(entries, i + 1, tables, names),
        }
    }
}

/// The index pass: every row whose command creates an index attaches it
/// to the owning table, which the table pass must have registered; an
/// owner absent from the catalog aborts the build.
pub open spec fn pass2_rec(entries: Seq<SchemaEntry>, i: int, tables: Seq<TableModel>) -> Result<
    Seq<TableModel>,
    Error,
>
    decreases entries.len() - i,
{
    if i < 0 || i >= entries.len() {
        Ok(tables)
    } else {
        match entries[i].ddl {
            None => Err(Error::SchemaParseError),
            Some(DdlCommand::CreateIndex(ci)) => {
                let idx = index_model_of(ci, entries[i].row.rootpage);
                match find_table_name(tables, idx.table_name, 0) {
                    None => Err(Error::OrphanIndex),
                    Some(j) => pass2_rec(
                        entries,
                        i + 1,
                        tables.update(
                            j,
                            TableModel {
                                name: tables[j].name,
                                columns: tables[j].columns,
                                indexes: tables[j].indexes.push(idx),
                                rootpage: tables[j].rootpage,
                            },
                        ),
                    ),
                }
            },
            Some(_) => pass2_rec(entries, i + 1, tables),
        }
    }
}

/// The mathematical shape of the catalog.
pub struct StoreModel {
    pub tables: Seq<TableModel>,
    pub table_names: Seq<Seq<char>>,
}

/// What building the catalog from schema entries yields: the table pass
/// over all entries, then the index pass; either pass's failure is the
/// build's failure, and no partial catalog is returned.
pub open spec fn build_spec(entries: Seq<SchemaEntry>) -> Result<StoreModel, Error> {
    match pass1_rec(entries, 0, Seq::empty(), Seq::empty()) {
        Err(e) => Err(e),
        Ok(p) => match pass2_rec(entries, 0, p.0) {
            Err(e) => Err(e),
            Ok(tables) => Ok(StoreModel { tables: tables, table_names: p.1 }),
        },
    }
}

/// The catalog: every registered table keyed by its unique name, and the
/// user tables' names in first-registration order.
#[derive(Debug)]
pub struct SchemaStore {
    pub tables: Vec<Table>,
    pub table_names: Vec<String>,
}

impl View for SchemaStore {
    type V = StoreModel;

    open spec fn view(&self) -> StoreModel {
        StoreModel {
            tables: tables_view(self.tables@),
            table_names: strings_view(self.table_names@),
        }
    }
}

fn clone_columns(cols: &Vec<Column>) -> (r: Vec<Column>)
    ensures
        columns_view(r@) == columns_view(cols@),
{
    let mut out: Vec<Column> = Vec::new();
    let mut i: usize = 0;
    while i < cols.len()
        invariant
            i <= cols@.len(),
            out@.len() == i,
            forall|k: int| 0 <= k < i ==> #[trigger] out@[k]@ == cols@[k]@,
        decreases cols@.len() - i,
    {
        out.push(Column { name: cols[i].name.clone(), is_primary_key: cols[i].is_primary_key });
        i = i + 1;
    }
    proof {
        assert(columns_view(out@) =~= columns_view(cols@));
    }
    out
}

fn clone_strings(ss: &Vec<String>) -> (r: Vec<String>)
    ensures
        strings_view(r@) == strings_view(ss@),
{
    let mut out: Vec<String> = Vec::new();
    let mut i: usize = 0;
    while i < ss.len()
        invariant
            i <= ss@.len(),
            out@.len() == i,
            forall|k: int| 0 <= k < i ==> #[trigger] out@[k]@ == ss@[k]@,
        decreases ss@.len() - i,
    {
        out.push(ss[i].clone());
        i = i + 1;
    }
    proof {
        assert(strings_view(out@) =~= strings_view(ss@));
    }
    out
}

#[verifier::loop_isolation(false)]
fn find_position(tables: &Vec<Table>, name: &String) -> (r: Option<usize>)
    ensures
        match r {
            Some(j) => find_table_name(tables_view(tables@), name@, 0) == Some(j as int) && j
                < tables@.len(),
            None => find_table_name(tables_view(tables@), name@, 0) is None,
        },
{
    let mut i: usize = 0;
    while i < tables.len()
        invariant
            i <= tables@.len(),
            find_table_name(tables_view(tables@), name@, 0) == find_table_name(
                tables_view(tables@),
                name@,
                i as int,
            ),
        decreases tables@.len() - i,
    {
        if str_eq(tables[i].name.as_str(), name.as_str()) {
            return Some(i);
        }
        i = i + 1;
    }
    None
}

impl SchemaStore {
    /// Builds the catalog from the schema rows and their parsed
    /// commands, in two passes: all tables first, then all indexes. A
    /// row whose text failed to parse, or an index whose table the first
    /// pass never registered, aborts the whole build.
    #[verifier::loop_isolation(false)]
    pub fn read(entries: &Vec<SchemaEntry>) -> (r: Result<SchemaStore, Error>)
        ensures
            match r {
                Ok(s) => build_spec(entries@) == Ok::<StoreModel, Error>(s@),
                Err(e) => build_spec(entries@) == Err::<StoreModel, Error>(e),
            },
    {
        let ghost p1 = pass1_rec(entries@, 0, Seq::empty(), Seq::empty());
        let mut tables: Vec<Table> = Vec::new();
        let mut table_names: Vec<String> = Vec::new();
        proof {
            assert(tables_view(tables@) =~= Seq::<TableModel>::empty());
            assert(strings_view(table_names@) =~= Seq::<Seq<char>>::empty());
        }
        let mut i: usize = 0;
        while i < entries.len()
            invariant
                i <= entries@.len(),
                p1 == pass1_rec(
                    entries@,
                    i as int,
                    tables_view(tables@),
                    strings_view(table_names@),
                ),
            decreases entries@.len() - i,
        {
            let ghost old_tables = tables_view(tables@);
            let ghost old_names = strings_view(table_names@);
            match &entries[i].ddl {
                None => {
                    return Err(Error::SchemaParseError);
                },
                Some(DdlCommand::CreateTable(ct)) => {
                    let table = Table {
                        name: ct.table.clone(),
                        columns: clone_columns(&ct.fields),
                        indexes: Vec::new(),
                        rootpage: entries[i].row.rootpage,
                    };
                    proof {
                        assert(indexes_view(table.indexes@) =~= Seq::<IndexModel>::empty());
                        assert(table@ == table_model_of(
                            entries@[i as int].ddl->0->CreateTable_0,
                            entries@[i as int].row.rootpage,
                        ));
                    }
                    match find_position(&tables, &ct.table) {
                        Some(j) => {
                            let ghost old_seq = tables@;
                            let _replaced = tables.remove(j);
                            tables.insert(j, table);
                            proof {
                                assert(tables@ =~= old_seq.update(
                                    j as int,
                                    tables@[j as int],
                                ));
                                assert(tables_view(tables@) =~= old_tables.update(
                                    j as int,
                                    tables@[j as int]@,
                                ));
                            }
                        },
                        None => {
                            let is_user = table.is_user_table();
                            if is_user {
                                table_names.push(table.name.clone());
                                proof {
                                    assert(strings_view(table_names@) =~= old_names.push(
                                        table.name@,
                                    ));
                                }
                            }
                            tables.push(table);
                            proof {
                                assert(tables_view(tables@) =~= old_tables.push(
                                    tables@[tables@.len() - 1]@,
                                ));
                            }
                        },
                    }
                },
                Some(_) => {},
            }
            i = i + 1;
        }
        proof {
            assert(p1 == Ok::<(Seq<TableModel>, Seq<Seq<char>>), Error>(
                (tables_view(tables@), strings_view(table_names@)),
            ));
        }
        let ghost pass1_tables = tables_view(tables@);
        let ghost p2 = pass2_rec(entries@, 0, pass1_tables);
        let mut j: usize = 0;
        while j < entries.len()
            invariant
                j <= entries@.len(),
                p2 == pass2_rec(entries@, j as int, tables_view(tables@)),
            decreases entries@.len() - j,
        {
            let ghost old_tables = tables_view(tables@);
            match &entries[j].ddl {
                None => {
                    return Err(Error::SchemaParseError);
                },
                Some(DdlCommand::CreateIndex(ci)) => {
                    let index = Index {
                        name: ci.name.clone(),
                        columns: clone_strings(&ci.fields),
                        table_name: ci.table.clone(),
                        rootpage: entries[j].row.rootpage,
                    };
                    proof {
                        assert(index@ == index_model_of(
                            entries@[j as int].ddl->0->CreateIndex_0,
                            entries@[j as int].row.rootpage,
                        ));
                    }
                    match find_position(&tables, &ci.table) {
                        None => {
                            return Err(Error::OrphanIndex);
                        },
                        Some(k) => {
                            let ghost old_seq = tables@;
                            let mut owner = tables.remove(k);
                            let ghost old_indexes = indexes_view(owner.indexes@);
                            owner.indexes.push(index);
                            proof {
                                assert(indexes_view(owner.indexes@) =~= old_indexes.push(
                                    index@,
                                ));
                            }
                            tables.insert(k, owner);
                            proof {
                                assert(tables@ =~= old_seq.update(k as int, tables@[k as int]));
                                assert(tables_view(tables@) =~= old_tables.update(
                                    k as int,
                                    tables@[k as int]@,
                                ));
                                assert(tables@[k as int]@ == TableModel {
                                    name: old_tables[k as int].name,
                                    columns: old_tables[k as int].columns,
                                    indexes: old_tables[k as int].indexes.push(index@),
                                    rootpage: old_tables[k as int].rootpage,
                                });
                            }
                        },
                    }
                },
                Some(_) => {},
            }
            j = j + 1;
        }
        Ok(SchemaStore { tables, table_names })
    }
}

/// The subsequence of tables whose names are user names, in stored
/// order.
pub open spec fn user_filter(tables: Seq<TableModel>) -> Seq<TableModel>
    decreases tables.len(),
{
    if tables.len() == 0 {
        Seq::empty()
    } else {
        let rest = user_filter(tables.drop_last());
        if is_user_name(tables.last().name) {
            rest.push(tables.last())
        } else {
            rest
        }
    }
}

/// Every table the user filter keeps has a user name: a table in the
/// reserved namespace never appears, however it entered the catalog.
pub proof fn lemma_user_filter_excludes_reserved(tables: Seq<TableModel>, k: int)
    requires
        0 <= k < user_filter(tables).len(),
    ensures
        is_user_name(user_filter(tables)[k].name),
    decreases tables.len(),
{
    if tables.len() > 0 {
        let rest = user_filter(tables.drop_last());
        if is_user_name(tables.last().name) {
            if k < rest.len() {
                lemma_user_filter_excludes_reserved(tables.drop_last(), k);
            }
        } else {
            lemma_user_filter_excludes_reserved(tables.drop_last(), k);
        }
    }
}

/// The models of a sequence of table references.
pub open spec fn tables_ref_view(ts: Seq<&Table>) -> Seq<TableModel> {
    Seq::new(ts.len(), |i: int| (*ts[i])@)
}

/// The first position at or after `i` of a user table named `name`.
pub open spec fn find_user_table(tables: Seq<TableModel>, name: Seq<char>, i: int) -> Option<int>
    decreases tables.len() - i,
{
    if i < 0 || i >= tables.len() {
        None
    } else if is_user_name(tables[i].name) && tables[i].name == name {
        Some(i)
    } else {
        find_user_table(tables, name, i + 1)
    }
}

impl SchemaStore {
    /// The user tables in stored order; tables in the reserved namespace
    /// are excluded even though the catalog stores them.
    #[verifier::loop_isolation(false)]
    pub fn user_tables<'a>(&'a self) -> (r: Vec<&'a Table>)
        ensures
            tables_ref_view(r@) == user_filter(self@.tables),
    {
        let mut out: Vec<&Table> = Vec::new();
        let mut i: usize = 0;
        proof {
            assert(tables_view(self.tables@).subrange(0, 0) =~= Seq::<TableModel>::empty());
            assert(tables_ref_view(out@) =~= user_filter(tables_view(self.tables@).subrange(0, 0)));
        }
        while i < self.tables.len()
            invariant
                i <= self.tables@.len(),
                tables_ref_view(out@) == user_filter(
                    tables_view(self.tables@).subrange(0, i as int),
                ),
            decreases self.tables@.len() - i,
        {
            let ghost pre = tables_view(self.tables@).subrange(0, i as int);
            let ghost post = tables_view(self.tables@).subrange(0, i as int + 1);
            proof {
                assert(post.drop_last() =~= pre);
                assert(post.last() == self.tables@[i as int]@);
            }
            let ghost old_out = out@;
            if self.tables[i].is_user_table() {
                out.push(&self.tables[i]);
                proof {
                    assert(tables_ref_view(out@) =~= tables_ref_view(old_out).push(
                        self.tables@[i as int]@,
                    ));
                }
            }
            i = i + 1;
        }
        proof {
            assert(tables_view(self.tables@).subrange(0, self.tables@.len() as int) =~= tables_view(
                self.tables@,
            ));
        }
        out
    }

    /// The user table named `table_name`, if the catalog holds one;
    /// reserved-namespace tables are never returned.
    #[verifier::loop_isolation(false)]
    pub fn find_table<'a>(&'a self, table_name: &str) -> (r: Option<&'a Table>)
        ensures
            match r {
                Some(t) => find_user_table(self@.tables, table_name@, 0) matches Some(j) && t@
                    == self@.tables[j],
                None => find_user_table(self@.tables, table_name@, 0) is None,
            },
    {
        let mut i: usize = 0;
        while i < self.tables.len()
            invariant
                i <= self.tables@.len(),
                find_user_table(self@.tables, table_name@, 0) == find_user_table(
                    self@.tables,
                    table_name@,
                    i as int,
                ),
            decreases self.tables@.len() - i,
        {
            if self.tables[i].is_user_table() && str_eq(self.tables[i].name.as_str(), table_name) {
                return Some(&self.tables[i]);
            }
            i = i + 1;
        }
        None
    }
}

impl Default for SchemaStore {
    /// The empty catalog.
    fn default() -> (r: SchemaStore)
        ensures
            r@.tables.len() == 0,
            r@.table_names.len() == 0,
    {
        SchemaStore { tables: Vec::new(), table_names: Vec::new() }
    }
}

proof fn lemma_find_some(tables: Seq<TableModel>, name: Seq<char>, i: int)
    requires
        find_table_name(tables, name, i) is Some,
    ensures
        find_table_name(tables, name, i) matches Some(j) && i <= j < tables.len()
            && tables[j].name == name,
    decreases tables.len() - i,
{
    if 0 <= i < tables.len() && tables[i].name != name {
        lemma_find_some(tables, name, i + 1);
    }
}

proof fn lemma_find_same_names(
    a: Seq<TableModel>,
    b: Seq<TableModel>,
    name: Seq<char>,
    i: int,
)
    requires
        a.len() == b.len(),
        forall|m: int| 0 <= m < a.len() ==> (#[trigger] b[m]).name == a[m].name,
    ensures
        find_table_name(b, name, i) == find_table_name(a, name, i),
    decreases a.len() - i,
{
    if 0 <= i < a.len() {
        assert(b[i].name == a[i].name);
        lemma_find_same_names(a, b, name, i + 1);
    }
}

proof fn lemma_find_push_none(tables: Seq<TableModel>, t: TableModel, name: Seq<char>, i: int)
    requires
        0 <= i,
        find_table_name(tables, name, i) is None,
        t.name != name,
    ensures
        find_table_name(tables.push(t), name, i) is None,
    decreases tables.len() + 1 - i,
{
    if i < tables.len() {
        assert(tables.push(t)[i] == tables[i]);
        lemma_find_push_none(tables, t, name, i + 1);
    } else if i == tables.len() {
        assert(tables.push(t)[i] == t);
        assert(find_table_name(tables.push(t), name, i + 1) is None);
    }
}

proof fn lemma_pass1_no_such_table(
    entries: Seq<SchemaEntry>,
    i: int,
    tables: Seq<TableModel>,
    names: Seq<Seq<char>>,
    name: Seq<char>,
)
    requires
        0 <= i <= entries.len(),
        forall|k: int| 0 <= k < entries.len() ==> (#[trigger] entries[k].ddl) is Some,
        forall|k: int|
            i <= k < entries.len() ==> !((#[trigger] entries[k].ddl)->0 is CreateTable
                && entries[k].ddl->0->CreateTable_0.table@ == name),
        find_table_name(tables, name, 0) is None,
    ensures
        pass1_rec(entries, i, tables, names) matches Ok(p) && find_table_name(p.0, name, 0)
            is None,
    decreases entries.len() - i,
{
    if i < entries.len() {
        match entries[i].ddl {
            None => {
                assert(false);
            },
            Some(DdlCommand::CreateTable(ct)) => {
                let t = table_model_of(ct, entries[i].row.rootpage);
                assert(entries[i].ddl->0 is CreateTable);
                assert(t.name != name);
                match find_table_name(tables, t.name, 0) {
                    Some(j) => {
                        lemma_find_some(tables, t.name, 0);
                        let updated = tables.update(j, t);
                        assert forall|m: int|
                            0 <= m < updated.len() implies (#[trigger] updated[m]).name
                            == tables[m].name by {}
                        lemma_find_same_names(tables, updated, name, 0);
                        lemma_pass1_no_such_table(entries, i + 1, updated, names, name);
                    },
                    None => {
                        lemma_find_push_none(tables, t, name, 0);
                        lemma_pass1_no_such_table(
                            entries,
                            i + 1,
                            tables.push(t),
                            if is_user_name(t.name) {
                                names.push(t.name)
                            } else {
                                names
                            },
                            name,
                        );
                    },
                }
            },
            Some(_) => {
                lemma_pass1_no_such_table(entries, i + 1, tables, names, name);
            },
        }
    }
}

proof fn lemma_pass2_orphan(entries: Seq<SchemaEntry>, k: int, tables: Seq<TableModel>, i: int)
    requires
        0 <= k <= i < entries.len(),
        forall|m: int| 0 <= m < entries.len() ==> (#[trigger] entries[m].ddl) is Some,
        entries[i].ddl->0 is CreateIndex,
        find_table_name(tables, entries[i].ddl->0->CreateIndex_0.table@, 0) is None,
    ensures
        pass2_rec(entries, k, tables) == Err::<Seq<TableModel>, Error>(Error::OrphanIndex),
    decreases i - k,
{
    let orphan = entries[i].ddl->0->CreateIndex_0.table@;
    match entries[k].ddl {
        None => {
            assert(false);
        },
        Some(DdlCommand::CreateIndex(ci)) => {
            let idx = index_model_of(ci, entries[k].row.rootpage);
            match find_table_name(tables, idx.table_name, 0) {
                None => {
                },
                Some(j) => {
                    assert(k < i);
                    lemma_find_some(tables, idx.table_name, 0);
                    let updated = tables.update(
                        j,
                        TableModel {
                            name: tables[j].name,
                            columns: tables[j].columns,
                            indexes: tables[j].indexes.push(idx),
                            rootpage: tables[j].rootpage,
                        },
                    );
                    assert forall|m: int|
                        0 <= m < updated.len() implies (#[trigger] updated[m]).name
                        == tables[m].name by {}
                    lemma_find_same_names(tables, updated, orphan, 0);
                    lemma_pass2_orphan(entries, k + 1, updated, i);
                },
            }
        },
        Some(DdlCommand::CreateTable(_)) => {
            assert(k < i);
            lemma_pass2_orphan(entries, k + 1, tables, i);
        },
        Some(DdlCommand::Other) => {
            assert(k < i);
            lemma_pass2_orphan(entries, k + 1, tables, i);
        },
    }
}

/// An index row that names a table no row of the table pass created
/// makes the whole build fail with `OrphanIndex`: no catalog is
/// returned.
pub proof fn lemma_orphan_index_fails(entries: Seq<SchemaEntry>, i: int)
    requires
        forall|k: int| 0 <= k < entries.len() ==> (#[trigger] entries[k].ddl) is Some,
        0 <= i < entries.len(),
        entries[i].ddl->0 is CreateIndex,
        forall|k: int|
            0 <= k < entries.len() ==> !((#[trigger] entries[k].ddl)->0 is CreateTable
                && entries[k].ddl->0->CreateTable_0.table@
                == entries[i].ddl->0->CreateIndex_0.table@),
    ensures
        build_spec(entries) == Err::<StoreModel, Error>(Error::OrphanIndex),
{
    let orphan = entries[i].ddl->0->CreateIndex_0.table@;
    lemma_pass1_no_such_table(entries, 0, Seq::empty(), Seq::empty(), orphan);
    let p = pass1_rec(entries, 0, Seq::empty(), Seq::empty())->Ok_0;
    lemma_pass2_orphan(entries, 0, p.0, i);
}

} // verus!
