//! The columns of a data file, as they are laid out from a batch of records.

use vstd::prelude::*;

use crate::process::opt_text;
use crate::process::ProcRecord;
use crate::process::RecordView;
use crate::text::decimal;
use crate::text::is_digit;
use crate::text::law_numerals_differ;
use crate::text::lemma_decimal_digits;

verus! {

/// The type of the values of a column.
#[derive(Debug, Clone, Copy, PartialEq, Eq, Structural)]
pub enum ColumnType {
    Float32,
    Float64,
    UInt32,
    UInt64,
    Utf8,
}

/// The name of a column, the type of its values and whether they may be missing.
#[derive(Debug, Clone)]
pub struct ColumnField {
    pub name: String,
    pub data_type: ColumnType,
    pub nullable: bool,
}

/// The contents of a [`ColumnField`].
pub struct FieldView {
    pub name: Seq<char>,
    pub data_type: ColumnType,
    pub nullable: bool,
}

impl View for ColumnField {
    type V = FieldView;

    open spec fn view(&self) -> FieldView {
        FieldView { name: self.name@, data_type: self.data_type, nullable: self.nullable }
    }
}

/// One column description.
pub open spec fn field_view(name: Seq<char>, data_type: ColumnType, nullable: bool) -> FieldView {
    FieldView { name, data_type, nullable }
}

fn field(name: &str, data_type: ColumnType, nullable: bool) -> (field: ColumnField)
    ensures
        field@ == field_view(name@, data_type, nullable),
{
    ColumnField { name: name.to_owned(), data_type, nullable }
}

/// The columns of every data file, in their order.
pub open spec fn schema_view() -> Seq<FieldView> {
    seq![
        field_view("ts"@, ColumnType::Float64, false),
        field_view("pid"@, ColumnType::UInt32, false),
        field_view("ppid"@, ColumnType::UInt32, true),
        field_view("name"@, ColumnType::Utf8, true),
        field_view("user_name"@, ColumnType::Utf8, true),
        field_view("status"@, ColumnType::Utf8, true),
        field_view("cpu_percent"@, ColumnType::Float32, true),
        field_view("mem_rss"@, ColumnType::UInt64, false),
        field_view("mem_vms"@, ColumnType::UInt64, false),
        field_view("num_threads"@, ColumnType::UInt64, false),
        field_view("create_time"@, ColumnType::Float64, false),
        field_view("cwd"@, ColumnType::Utf8, true),
        field_view("num_fds"@, ColumnType::UInt32, true),
        field_view("children"@, ColumnType::Utf8, true),
    ]
}

/// The views of a list of column descriptions.
pub open spec fn field_views(fields: Seq<ColumnField>) -> Seq<FieldView> {
    fields.map_values(|f: ColumnField| f@)
}

/// The columns of every data file, in their order.
pub fn parquet_schema() -> (fields: Vec<ColumnField>)
    ensures
        field_views(fields@) == schema_view(),
{
    let mut fields: Vec<ColumnField> = Vec::new();
    fields.push(field("ts", ColumnType::Float64, false));
    fields.push(field("pid", ColumnType::UInt32, false));
    fields.push(field("ppid", ColumnType::UInt32, true));
    fields.push(field("name", ColumnType::Utf8, true));
    fields.push(field("user_name", ColumnType::Utf8, true));
    fields.push(field("status", ColumnType::Utf8, true));
    fields.push(field("cpu_percent", ColumnType::Float32, true));
    fields.push(field("mem_rss", ColumnType::UInt64, false));
    fields.push(field("mem_vms", ColumnType::UInt64, false));
    fields.push(field("num_threads", ColumnType::UInt64, false));
    fields.push(field("create_time", ColumnType::Float64, false));
    fields.push(field("cwd", ColumnType::Utf8, true));
    fields.push(field("num_fds", ColumnType::UInt32, true));
    fields.push(field("children", ColumnType::Utf8, true));
    assert(field_views(fields@) =~= schema_view());
    fields
}

/// The values of a column.
#[derive(Debug, Clone)]
pub enum Column {
    /// Points in time in nanoseconds, which the file holds in seconds as 64-bit IEEE 754
    /// numbers.
    Times(Vec<u128>),
    /// Points in time in whole seconds, which the file holds as 64-bit IEEE 754 numbers.
    Seconds(Vec<u64>),
    /// Bit patterns of 32-bit IEEE 754 numbers, which may be missing.
    Shares(Vec<Option<u32>>),
    /// Numbers of 32 bits.
    Ids(Vec<u32>),
    /// Numbers of 32 bits, which may be missing.
    Counts(Vec<Option<u32>>),
    /// Numbers of 64 bits.
    Sizes(Vec<u64>),
    /// Texts, which may be missing.
    Texts(Vec<Option<String>>),
}

/// The contents of a [`Column`].
pub enum ColumnView {
    Times(Seq<u128>),
    Seconds(Seq<u64>),
    Shares(Seq<Option<u32>>),
    Ids(Seq<u32>),
    Counts(Seq<Option<u32>>),
    Sizes(Seq<u64>),
    Texts(Seq<Option<Seq<char>>>),
}

/// The contents of a list of optional texts.
pub open spec fn opt_texts(list: Seq<Option<String>>) -> Seq<Option<Seq<char>>> {
    list.map_values(|t: Option<String>| opt_text(t))
}

impl View for Column {
    type V = ColumnView;

    open spec fn view(&self) -> ColumnView {
        match self {
            Column::Times(list) => ColumnView::Times(list@),
            Column::Seconds(list) => ColumnView::Seconds(list@),
            Column::Shares(list) => ColumnView::Shares(list@),
            Column::Ids(list) => ColumnView::Ids(list@),
            Column::Counts(list) => ColumnView::Counts(list@),
            Column::Sizes(list) => ColumnView::Sizes(list@),
            Column::Texts(list) => ColumnView::Texts(opt_texts(list@)),
        }
    }
}

impl ColumnView {
    /// The number of values.
    pub open spec fn len(self) -> nat {
        match self {
            ColumnView::Times(list) => list.len(),
            ColumnView::Seconds(list) => list.len(),
            ColumnView::Shares(list) => list.len(),
            ColumnView::Ids(list) => list.len(),
            ColumnView::Counts(list) => list.len(),
            ColumnView::Sizes(list) => list.len(),
            ColumnView::Texts(list) => list.len(),
        }
    }

    /// The type of the values.
    pub open spec fn data_type(self) -> ColumnType {
        match self {
            ColumnView::Times(_) | ColumnView::Seconds(_) => ColumnType::Float64,
            ColumnView::Shares(_) => ColumnType::Float32,
            ColumnView::Ids(_) | ColumnView::Counts(_) => ColumnType::UInt32,
            ColumnView::Sizes(_) => ColumnType::UInt64,
            ColumnView::Texts(_) => ColumnType::Utf8,
        }
    }

    /// Whether the value in a row is missing.
    pub open spec fn is_missing(self, row: int) -> bool {
        match self {
            ColumnView::Shares(list) => list[row] is None,
            ColumnView::Counts(list) => list[row] is None,
            ColumnView::Texts(list) => list[row] is None,
            _ => false,
        }
    }

    /// Whether the column can stand under a description.
    pub open spec fn fits(self, field: FieldView) -> bool {
        &&& self.data_type() == field.data_type
        &&& !field.nullable ==> forall|row: int| 0 <= row < self.len()
            ==> !#[trigger] self.is_missing(row)
    }
}

/// The numbers of a list as decimal numerals with commas between them.
pub open spec fn comma_separated(list: Seq<u32>) -> Seq<char>
    decreases list.len(),
{
    if list.len() == 0 {
        Seq::empty()
    } else if list.len() == 1 {
        decimal(list[0] as nat)
    } else {
        comma_separated(list.drop_last()).push(',') + decimal(list.last() as nat)
    }
}

/// A list of numbers as a JSON array.
pub open spec fn json_array(list: Seq<u32>) -> Seq<char> {
    seq!['['] + comma_separated(list) + seq![']']
}

/// `serde_json::Error`, which serde_json reports when a value cannot be written.
#[verifier::external_type_specification]
#[verifier::external_body]
pub struct ExJsonError(serde_json::Error);

/// Writes a list of numbers as JSON.
///
/// Calls `serde_json::to_string`. A list of integers is always written: as an array in
/// square brackets, the decimal numerals separated by commas, without blanks.
#[verifier::external_body]
fn write_json(list: &Vec<u32>) -> (text: Result<String, serde_json::Error>)
    ensures
        text is Ok,
        text->Ok_0@ == json_array(list@),
{
    serde_json::to_string(list)
}

/// The text that a data file holds for a list of child processes.
pub fn children_text(children: &Vec<u32>) -> (text: String)
    ensures
        text@ == json_array(children@),
{
    match write_json(children) {
        Ok(text) => text,
        Err(_) => "[]".to_string(),
    }
}

/// The views of a list of records.
pub open spec fn record_views(records: Seq<ProcRecord>) -> Seq<RecordView> {
    records.map_values(|r: ProcRecord| r@)
}

/// The columns that hold a list of records: row `i` of each belongs to record `i`.
pub open spec fn columns_view(records: Seq<RecordView>) -> Seq<ColumnView> {
    seq![
        ColumnView::Times(records.map_values(|r: RecordView| r.ts_nanos)),
        ColumnView::Ids(records.map_values(|r: RecordView| r.pid)),
        ColumnView::Counts(records.map_values(|r: RecordView| r.ppid)),
        ColumnView::Texts(records.map_values(|r: RecordView| Some(r.name))),
        ColumnView::Texts(records.map_values(|r: RecordView| r.user)),
        ColumnView::Texts(records.map_values(|r: RecordView| Some(r.status))),
        ColumnView::Shares(records.map_values(|r: RecordView| Some(r.cpu_bits))),
        ColumnView::Sizes(records.map_values(|r: RecordView| r.mem_rss)),
        ColumnView::Sizes(records.map_values(|r: RecordView| r.mem_vms)),
        ColumnView::Sizes(records.map_values(|r: RecordView| r.num_threads)),
        ColumnView::Seconds(records.map_values(|r: RecordView| r.create_time)),
        ColumnView::Texts(records.map_values(|r: RecordView| r.cwd)),
        ColumnView::Counts(records.map_values(|r: RecordView| r.num_fds)),
        ColumnView::Texts(records.map_values(|r: RecordView| Some(json_array(r.children)))),
    ]
}

/// The views of a list of columns.
pub open spec fn column_views(columns: Seq<Column>) -> Seq<ColumnView> {
    columns.map_values(|c: Column| c@)
}

fn push_text(list: &mut Vec<Option<String>>, text: Option<String>)
    ensures
        opt_texts(final(list)@) == opt_texts(old(list)@).push(opt_text(text)),
{
    list.push(text);
    assert(opt_texts(list@) =~= opt_texts(old(list)@).push(opt_text(text)));
}

/// Lays a list of records out in columns.
pub fn columns_of(records: &Vec<ProcRecord>) -> (columns: Vec<Column>)
    ensures
        column_views(columns@) == columns_view(record_views(records@)),
{
    let ghost all = record_views(records@);
    let mut ts: Vec<u128> = Vec::new();
    let mut pid: Vec<u32> = Vec::new();
    let mut ppid: Vec<Option<u32>> = Vec::new();
    let mut name: Vec<Option<String>> = Vec::new();
    let mut user_name: Vec<Option<String>> = Vec::new();
    let mut status: Vec<Option<String>> = Vec::new();
    let mut cpu_percent: Vec<Option<u32>> = Vec::new();
    let mut mem_rss: Vec<u64> = Vec::new();
    let mut mem_vms: Vec<u64> = Vec::new();
    let mut num_threads: Vec<u64> = Vec::new();
    let mut create_time: Vec<u64> = Vec::new();
    let mut cwd: Vec<Option<String>> = Vec::new();
    let mut num_fds: Vec<Option<u32>> = Vec::new();
    let mut children: Vec<Option<String>> = Vec::new();
    let mut i: usize = 0;
    while i < records.len()
        invariant
            i <= records.len(),
            all == record_views(records@),
            ts@ =~= all.take(i as int).map_values(|r: RecordView| r.ts_nanos),
            pid@ =~= all.take(i as int).map_values(|r: RecordView| r.pid),
            ppid@ =~= all.take(i as int).map_values(|r: RecordView| r.ppid),
            opt_texts(name@) =~= all.take(i as int).map_values(|r: RecordView| Some(r.name)),
            opt_texts(user_name@) =~= all.take(i as int).map_values(|r: RecordView| r.user),
            opt_texts(status@) =~= all.take(i as int).map_values(|r: RecordView| Some(r.status)),
            cpu_percent@ =~= all.take(i as int).map_values(|r: RecordView| Some(r.cpu_bits)),
            mem_rss@ =~= all.take(i as int).map_values(|r: RecordView| r.mem_rss),
            mem_vms@ =~= all.take(i as int).map_values(|r: RecordView| r.mem_vms),
            num_threads@ =~= all.take(i as int).map_values(|r: RecordView| r.num_threads),
            create_time@ =~= all.take(i as int).map_values(|r: RecordView| r.create_time),
            opt_texts(cwd@) =~= all.take(i as int).map_values(|r: RecordView| r.cwd),
            num_fds@ =~= all.take(i as int).map_values(|r: RecordView| r.num_fds),
            opt_texts(children@) =~= all.take(i as int).map_values(
                |r: RecordView| Some(json_array(r.children)),
            ),
        decreases records.len() - i,
    {
        let r = &records[i];
        assert(all[i as int] == r@);
        ts.push(r.ts_nanos);
        pid.push(r.pid);
        ppid.push(r.ppid);
        push_text(&mut name, Some(r.name.clone()));
        push_text(&mut user_name, r.user.clone());
        push_text(&mut status, Some(r.status.clone()));
        cpu_percent.push(Some(r.cpu_bits));
        mem_rss.push(r.mem_rss);
        mem_vms.push(r.mem_vms);
        num_threads.push(r.num_threads);
        create_time.push(r.create_time);
        push_text(&mut cwd, r.cwd.clone());
        num_fds.push(r.num_fds);
        push_text(&mut children, Some(children_text(&r.children)));
        i = i + 1;
    }
    assert(all.take(i as int) =~= all);
    let mut columns: Vec<Column> = Vec::new();
    columns.push(Column::Times(ts));
    columns.push(Column::Ids(pid));
    columns.push(Column::Counts(ppid));
    columns.push(Column::Texts(name));
    columns.push(Column::Texts(user_name));
    columns.push(Column::Texts(status));
    columns.push(Column::Shares(cpu_percent));
    columns.push(Column::Sizes(mem_rss));
    columns.push(Column::Sizes(mem_vms));
    columns.push(Column::Sizes(num_threads));
    columns.push(Column::Seconds(create_time));
    columns.push(Column::Texts(cwd));
    columns.push(Column::Counts(num_fds));
    columns.push(Column::Texts(children));
    assert(column_views(columns@) =~= columns_view(all));
    columns
}

/// What a data file is to hold.
#[derive(Debug, Clone)]
pub struct Table {
    pub fields: Vec<ColumnField>,
    pub columns: Vec<Column>,
}

/// The data file of a batch of records; there is none for an empty batch.
pub fn parquet_table(records: &Vec<ProcRecord>) -> (table: Option<Table>)
    ensures
        table is Some <==> records@.len() > 0,
        table matches Some(t) ==> {
            &&& field_views(t.fields@) == schema_view()
            &&& column_views(t.columns@) == columns_view(record_views(records@))
        },
{
    if records.len() == 0 {
        return None;
    }
    Some(Table { fields: parquet_schema(), columns: columns_of(records) })
}

/// The columns of a batch of records fit the schema: there are as many of them, each has
/// the type and the number of rows that it should, and no value is missing where none may.
pub proof fn law_columns_fit_the_schema(records: Seq<RecordView>)
    ensures
        columns_view(records).len() == schema_view().len(),
        forall|i: int|
            0 <= i < schema_view().len() ==> (#[trigger] columns_view(records)[i]).fits(
                schema_view()[i],
            ),
        forall|i: int|
            0 <= i < schema_view().len() ==> (#[trigger] columns_view(records)[i]).len()
                == records.len(),
{
}

proof fn lemma_comma_separated_has_comma(list: Seq<u32>)
    requires
        list.len() >= 2,
    ensures
        ({
            let text = comma_separated(list);
            let last = decimal(list.last() as nat);
            &&& text.len() > last.len()
            &&& text[text.len() - last.len() - 1] == ','
            &&& text.take(text.len() - last.len() - 1) == comma_separated(list.drop_last())
            &&& text.skip(text.len() - last.len()) == last
        }),
{
    let text = comma_separated(list);
    let last = decimal(list.last() as nat);
    let front = comma_separated(list.drop_last());
    assert(text.take(text.len() - last.len() - 1) =~= front);
    assert(text.skip(text.len() - last.len()) =~= last);
}

proof fn lemma_comma_separated_tells_apart(a: Seq<u32>, b: Seq<u32>)
    requires
        comma_separated(a) == comma_separated(b),
    ensures
        a == b,
    decreases a.len(),
{
    let text = comma_separated(a);
    if a.len() >= 1 {
        lemma_decimal_digits(a.last() as nat);
    }
    if b.len() >= 1 {
        lemma_decimal_digits(b.last() as nat);
    }
    if a.len() >= 2 {
        lemma_comma_separated_has_comma(a);
    }
    if b.len() >= 2 {
        lemma_comma_separated_has_comma(b);
    }
    if a.len() >= 2 && b.len() >= 2 {
        let x = decimal(a.last() as nat);
        let y = decimal(b.last() as nat);
        let n = text.len();
        if x.len() < y.len() {
            assert(text[n - x.len() - 1] == text.skip(n - y.len())[y.len() - x.len() - 1]);
            assert(is_digit(y[y.len() - x.len() - 1]));
        } else if y.len() < x.len() {
            assert(text[n - y.len() - 1] == text.skip(n - x.len())[x.len() - y.len() - 1]);
            assert(is_digit(x[x.len() - y.len() - 1]));
        }
        lemma_comma_separated_tells_apart(a.drop_last(), b.drop_last());
        law_numerals_differ(a.last() as nat, b.last() as nat);
        assert(a =~= a.drop_last().push(a.last()));
        assert(b =~= b.drop_last().push(b.last()));
    } else if a.len() == 1 && b.len() == 1 {
        law_numerals_differ(a[0] as nat, b[0] as nat);
        assert(a =~= b);
    } else if a.len() == 0 && b.len() == 0 {
        assert(a =~= b);
    } else if a.len() == 1 && b.len() >= 2 {
        let y = decimal(b.last() as nat);
        assert(is_digit(text[text.len() - y.len() - 1]));
    } else if a.len() >= 2 && b.len() == 1 {
        let x = decimal(a.last() as nat);
        assert(is_digit(text[text.len() - x.len() - 1]));
    }
}

/// The text of a list of child processes tells the lists apart.
pub proof fn law_json_arrays_tell_lists_apart(a: Seq<u32>, b: Seq<u32>)
    requires
        json_array(a) == json_array(b),
    ensures
        a == b,
{
    let text = json_array(a);
    assert(text.subrange(1, text.len() - 1) =~= comma_separated(a));
    assert(json_array(b).subrange(1, text.len() - 1) =~= comma_separated(b));
    lemma_comma_separated_tells_apart(a, b);
}

/// Nothing of a record gets lost in a data file: batches that make the same columns are the
/// same.
pub proof fn law_columns_tell_batches_apart(a: Seq<RecordView>, b: Seq<RecordView>)
    requires
        columns_view(a) == columns_view(b),
    ensures
        a == b,
{
    let x = columns_view(a);
    let y = columns_view(b);
    assert(x[0] == y[0] && x[1] == y[1] && x[2] == y[2] && x[3] == y[3] && x[4] == y[4]);
    assert(x[5] == y[5] && x[6] == y[6] && x[7] == y[7] && x[8] == y[8] && x[9] == y[9]);
    assert(x[10] == y[10] && x[11] == y[11] && x[12] == y[12] && x[13] == y[13]);
    assert(x[0].len() == a.len() && y[0].len() == b.len());
    assert forall|i: int| 0 <= i < a.len() implies a[i] == b[i] by {
        assert(x[0]->Times_0[i] == a[i].ts_nanos && y[0]->Times_0[i] == b[i].ts_nanos);
        assert(x[1]->Ids_0[i] == a[i].pid && y[1]->Ids_0[i] == b[i].pid);
        assert(x[2]->Counts_0[i] == a[i].ppid && y[2]->Counts_0[i] == b[i].ppid);
        assert(x[3]->Texts_0[i] == Some(a[i].name) && y[3]->Texts_0[i] == Some(b[i].name));
        assert(x[4]->Texts_0[i] == a[i].user && y[4]->Texts_0[i] == b[i].user);
        assert(x[5]->Texts_0[i] == Some(a[i].status) && y[5]->Texts_0[i] == Some(b[i].status));
        assert(x[6]->Shares_0[i] == Some(a[i].cpu_bits)
            && y[6]->Shares_0[i] == Some(b[i].cpu_bits));
        assert(x[7]->Sizes_0[i] == a[i].mem_rss && y[7]->Sizes_0[i] == b[i].mem_rss);
        assert(x[8]->Sizes_0[i] == a[i].mem_vms && y[8]->Sizes_0[i] == b[i].mem_vms);
        assert(x[9]->Sizes_0[i] == a[i].num_threads && y[9]->Sizes_0[i] == b[i].num_threads);
        assert(x[10]->Seconds_0[i] == a[i].create_time && y[10]->Seconds_0[i] == b[i].create_time);
        assert(x[11]->Texts_0[i] == a[i].cwd && y[11]->Texts_0[i] == b[i].cwd);
        assert(x[12]->Counts_0[i] == a[i].num_fds && y[12]->Counts_0[i] == b[i].num_fds);
        assert(x[13]->Texts_0[i] == Some(json_array(a[i].children)));
        assert(y[13]->Texts_0[i] == Some(json_array(b[i].children)));
        law_json_arrays_tell_lists_apart(a[i].children, b[i].children);
    }
    assert(a =~= b);
}

/// Each column has the name, the type and the values that belong together: in row `i` stands
/// what record `i` holds, whatever the values are.
pub proof fn law_rows_show_their_records(
    records: Seq<ProcRecord>,
    fields: Seq<ColumnField>,
    columns: Seq<Column>,
    i: int,
)
    requires
        field_views(fields) == schema_view(),
        column_views(columns) == columns_view(record_views(records)),
        0 <= i < records.len(),
    ensures
        fields.len() == 14,
        columns.len() == 14,
        fields[0].name@ == "ts"@ && fields[0].data_type == ColumnType::Float64
            && fields[0].nullable == false,
        columns[0] is Times && columns[0]->Times_0@.len() == records.len(),
        columns[0]->Times_0@[i] == records[i].ts_nanos,
        fields[1].name@ == "pid"@ && fields[1].data_type == ColumnType::UInt32
            && fields[1].nullable == false,
        columns[1] is Ids && columns[1]->Ids_0@.len() == records.len(),
        columns[1]->Ids_0@[i] == records[i].pid,
        fields[2].name@ == "ppid"@ && fields[2].data_type == ColumnType::UInt32
            && fields[2].nullable == true,
        columns[2] is Counts && columns[2]->Counts_0@.len() == records.len(),
        columns[2]->Counts_0@[i] == records[i].ppid,
        fields[3].name@ == "name"@ && fields[3].data_type == ColumnType::Utf8
            && fields[3].nullable == true,
        columns[3] is Texts && columns[3]->Texts_0@.len() == records.len(),
        columns[3]->Texts_0@[i] is Some && columns[3]->Texts_0@[i]->0@ == records[i].name@,
        fields[4].name@ == "user_name"@ && fields[4].data_type == ColumnType::Utf8
            && fields[4].nullable == true,
        columns[4] is Texts && columns[4]->Texts_0@.len() == records.len(),
        (columns[4]->Texts_0@[i] is Some <==> records[i].user is Some) && (records[i].user is Some
            ==> columns[4]->Texts_0@[i]->0@ == records[i].user->0@),
        fields[5].name@ == "status"@ && fields[5].data_type == ColumnType::Utf8
            && fields[5].nullable == true,
        columns[5] is Texts && columns[5]->Texts_0@.len() == records.len(),
        columns[5]->Texts_0@[i] is Some && columns[5]->Texts_0@[i]->0@ == records[i].status@,
        fields[6].name@ == "cpu_percent"@ && fields[6].data_type == ColumnType::Float32
            && fields[6].nullable == true,
        columns[6] is Shares && columns[6]->Shares_0@.len() == records.len(),
        columns[6]->Shares_0@[i] == Some(records[i].cpu_bits),
        fields[7].name@ == "mem_rss"@ && fields[7].data_type == ColumnType::UInt64
            && fields[7].nullable == false,
        columns[7] is Sizes && columns[7]->Sizes_0@.len() == records.len(),
        columns[7]->Sizes_0@[i] == records[i].mem_rss,
        fields[8].name@ == "mem_vms"@ && fields[8].data_type == ColumnType::UInt64
            && fields[8].nullable == false,
        columns[8] is Sizes && columns[8]->Sizes_0@.len() == records.len(),
        columns[8]->Sizes_0@[i] == records[i].mem_vms,
        fields[9].name@ == "num_threads"@ && fields[9].data_type == ColumnType::UInt64
            && fields[9].nullable == false,
        columns[9] is Sizes && columns[9]->Sizes_0@.len() == records.len(),
        columns[9]->Sizes_0@[i] == records[i].num_threads,
        fields[10].name@ == "create_time"@ && fields[10].data_type == ColumnType::Float64
            && fields[10].nullable == false,
        columns[10] is Seconds && columns[10]->Seconds_0@.len() == records.len(),
        columns[10]->Seconds_0@[i] == records[i].create_time,
        fields[11].name@ == "cwd"@ && fields[11].data_type == ColumnType::Utf8
            && fields[11].nullable == true,
        columns[11] is Texts && columns[11]->Texts_0@.len() == records.len(),
        (columns[11]->Texts_0@[i] is Some <==> records[i].cwd is Some) && (records[i].cwd is Some
            ==> columns[11]->Texts_0@[i]->0@ == records[i].cwd->0@),
        fields[12].name@ == "num_fds"@ && fields[12].data_type == ColumnType::UInt32
            && fields[12].nullable == true,
        columns[12] is Counts && columns[12]->Counts_0@.len() == records.len(),
        columns[12]->Counts_0@[i] == records[i].num_fds,
        fields[13].name@ == "children"@ && fields[13].data_type == ColumnType::Utf8
            && fields[13].nullable == true,
        columns[13] is Texts && columns[13]->Texts_0@.len() == records.len(),
        columns[13]->Texts_0@[i] is Some
            && columns[13]->Texts_0@[i]->0@ == json_array(records[i].children@),
{
    let views = record_views(records);
    let rows = columns_view(views);
    assert(views[i] == records[i]@);
    assert(field_views(fields).len() == 14 && column_views(columns).len() == 14);
    assert(field_views(fields)[0] == fields[0]@);
    assert(column_views(columns)[0] == columns[0]@);
    assert(field_views(fields)[1] == fields[1]@);
    assert(column_views(columns)[1] == columns[1]@);
    assert(field_views(fields)[2] == fields[2]@);
    assert(column_views(columns)[2] == columns[2]@);
    assert(field_views(fields)[3] == fields[3]@);
    assert(column_views(columns)[3] == columns[3]@);
    lemma_text_column(columns[3], rows[3]->Texts_0, i);
    assert(field_views(fields)[4] == fields[4]@);
    assert(column_views(columns)[4] == columns[4]@);
    lemma_text_column(columns[4], rows[4]->Texts_0, i);
    assert(field_views(fields)[5] == fields[5]@);
    assert(column_views(columns)[5] == columns[5]@);
    lemma_text_column(columns[5], rows[5]->Texts_0, i);
    assert(field_views(fields)[6] == fields[6]@);
    assert(column_views(columns)[6] == columns[6]@);
    assert(field_views(fields)[7] == fields[7]@);
    assert(column_views(columns)[7] == columns[7]@);
    assert(field_views(fields)[8] == fields[8]@);
    assert(column_views(columns)[8] == columns[8]@);
    assert(field_views(fields)[9] == fields[9]@);
    assert(column_views(columns)[9] == columns[9]@);
    assert(field_views(fields)[10] == fields[10]@);
    assert(column_views(columns)[10] == columns[10]@);
    assert(field_views(fields)[11] == fields[11]@);
    assert(column_views(columns)[11] == columns[11]@);
    lemma_text_column(columns[11], rows[11]->Texts_0, i);
    assert(field_views(fields)[12] == fields[12]@);
    assert(column_views(columns)[12] == columns[12]@);
    assert(field_views(fields)[13] == fields[13]@);
    assert(column_views(columns)[13] == columns[13]@);
    lemma_text_column(columns[13], rows[13]->Texts_0, i);
}

proof fn lemma_text_column(column: Column, texts: Seq<Option<Seq<char>>>, i: int)
    requires
        column@ == ColumnView::Texts(texts),
        0 <= i < texts.len(),
    ensures
        column is Texts,
        column->Texts_0@.len() == texts.len(),
        opt_text(column->Texts_0@[i]) == texts[i],
{
    assert(opt_texts(column->Texts_0@) == texts);
    assert(opt_texts(column->Texts_0@).len() == column->Texts_0@.len());
    assert(opt_texts(column->Texts_0@)[i] == opt_text(column->Texts_0@[i]));
}

/// The text of a list of child processes is an array in square brackets. The lists on either
/// side of a comma stand as they would alone, and one number as its numeral.
pub proof fn law_json_array_is_put_together(one: Seq<u32>, other: Seq<u32>, pid: u32)
    ensures
        json_array(Seq::empty()) == seq!['[', ']'],
        json_array(seq![pid]) == seq!['['] + decimal(pid as nat) + seq![']'],
        one.len() > 0 && other.len() > 0 ==> json_array(one + other) == json_array(
            one,
        ).drop_last() + seq![','] + json_array(other).skip(1),
    decreases other.len(),
{
    assert(json_array(Seq::empty()) =~= seq!['[', ']']);
    if one.len() > 0 && other.len() > 0 {
        lemma_comma_between(one, other);
        let a = comma_separated(one);
        let b = comma_separated(other);
        assert(json_array(one).drop_last() =~= seq!['['] + a);
        assert(json_array(other).skip(1) =~= b + seq![']']);
        assert(json_array(one + other) =~= json_array(one).drop_last() + seq![','] + json_array(
            other,
        ).skip(1));
    }
}

proof fn lemma_comma_between(one: Seq<u32>, other: Seq<u32>)
    requires
        one.len() > 0,
        other.len() > 0,
    ensures
        comma_separated(one + other) == comma_separated(one) + seq![','] + comma_separated(other),
    decreases other.len(),
{
    let all = one + other;
    assert(all.drop_last() =~= one + other.drop_last());
    assert(all.last() == other.last());
    if other.len() == 1 {
        assert(all.drop_last() =~= one);
        assert(comma_separated(all) =~= comma_separated(one) + seq![','] + comma_separated(other));
    } else {
        lemma_comma_between(one, other.drop_last());
        assert(comma_separated(all) =~= comma_separated(one) + seq![','] + comma_separated(other));
    }
}

/// A list of records holds what each of them holds, in their order.
pub proof fn law_views_are_those_of_the_records(records: Seq<ProcRecord>, i: int)
    requires
        0 <= i < records.len(),
    ensures
        record_views(records).len() == records.len(),
        record_views(records)[i] == records[i]@,
{
}

} // verus!
