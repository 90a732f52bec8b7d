//! The telemetry table: the statements that write, read and prune it, and the way a
//! measurement lies in a row.
use crate::numbers::{signed_of, to_signed, to_unsigned};
use crate::telemetry::{Float32, Float64, NodeTelemetry};
use crate::text::texts;
use vstd::prelude::*;

verus! {

/// A value that is bound to a statement or read from a row.
#[derive(Debug, Clone)]
pub enum SqlValue {
    Text(String),
    Integer(i64),
    Single(Float32),
    Double(Float64),
}

/// A statement with the values for its placeholders, in their order.
#[derive(Debug, Clone)]
pub struct Statement {
    pub sql: String,
    pub args: Vec<SqlValue>,
}

/// A counter as the database holds it.
pub open spec fn counter(count: u64) -> SqlValue {
    SqlValue::Integer(signed_of(count) as i64)
}

/// A measurement as it lies in the table: the columns that it fills, each with its value.
pub open spec fn telemetry_row(node: NodeTelemetry) -> Seq<(Seq<char>, SqlValue)> {
    seq![
        ("hostname"@, SqlValue::Text(node.hostname)),
        ("cpu_usage"@, SqlValue::Single(node.cpu_usage)),
        ("ram_used_mb"@, counter(node.ram_used_mb)),
        ("ram_total_mb"@, counter(node.ram_total_mb)),
        ("load_avg_1m"@, SqlValue::Double(node.load_avg_1m)),
        ("load_avg_5m"@, SqlValue::Double(node.load_avg_5m)),
        ("load_avg_15m"@, SqlValue::Double(node.load_avg_15m)),
        ("uptime_secs"@, counter(node.uptime_secs)),
        ("disk_used_gb"@, SqlValue::Double(node.disk_used_gb)),
        ("disk_total_gb"@, SqlValue::Double(node.disk_total_gb)),
        ("tailscale_ip"@, SqlValue::Text(node.tailscale_ip)),
        ("timestamp_sec"@, SqlValue::Integer(node.timestamp_sec)),
    ]
}

/// The columns that a measurement fills.
pub open spec fn columns() -> Seq<Seq<char>> {
    telemetry_row(arbitrary()).map_values(|cell: (Seq<char>, SqlValue)| cell.0)
}

/// The values of a measurement in the order of its columns.
pub open spec fn row_values(node: NodeTelemetry) -> Seq<SqlValue> {
    telemetry_row(node).map_values(|cell: (Seq<char>, SqlValue)| cell.1)
}

/// `parts` in a row, with a comma between any two of them.
pub open spec fn listed(parts: Seq<Seq<char>>) -> Seq<char>
    decreases parts.len(),
{
    if parts.len() == 0 {
        Seq::empty()
    } else if parts.len() == 1 {
        parts[0]
    } else {
        listed(parts.drop_last()) + ", "@ + parts.last()
    }
}

/// `count` placeholders.
pub open spec fn placeholders(count: nat) -> Seq<Seq<char>> {
    Seq::new(count, |i: int| "?"@)
}

/// The columns of a new row: its key, then those of the measurement.
pub open spec fn insert_columns() -> Seq<Seq<char>> {
    seq!["id"@] + columns()
}

/// The text of the statement that adds a row.
pub open spec fn insert_sql() -> Seq<char> {
    "INSERT INTO telemetry ("@ + listed(insert_columns()) + ") VALUES ("@ + listed(
        placeholders(insert_columns().len()),
    ) + ")"@
}

/// The text of the statement that reads every row from a moment on, by host name and then
/// by time.
pub open spec fn select_sql() -> Seq<char> {
    "SELECT "@ + listed(columns())
        + " FROM telemetry WHERE timestamp_sec >= ? ORDER BY hostname ASC, timestamp_sec ASC"@
}

/// The text of the statement that removes every row from before a moment.
pub open spec fn delete_sql() -> Seq<char> {
    "DELETE FROM telemetry WHERE timestamp_sec < ?"@
}

/// Lists `parts` with a comma between any two of them.
fn list_text(parts: &Vec<&str>) -> (text: String)
    ensures
        text@ == listed(texts(parts@)),
{
    let mut text = String::new();
    let mut i: usize = 0;
    assert(texts(parts@).take(0) =~= Seq::empty());
    while i < parts.len()
        invariant
            i <= parts.len(),
            text@ == listed(texts(parts@).take(i as int)),
        decreases parts.len() - i,
    {
        proof {
            assert(texts(parts@).take(i + 1).drop_last() =~= texts(parts@).take(i as int));
            assert(texts(parts@).take(i + 1).last() == parts@[i as int]@);
        }
        if i > 0 {
            text.append(", ");
        } else {
            assert(text@ + parts@[0]@ =~= parts@[0]@);
        }
        text.append(parts[i]);
        i += 1;
    }
    assert(texts(parts@).take(i as int) =~= texts(parts@));
    text
}

/// The columns that a measurement fills.
fn column_names() -> (names: Vec<&'static str>)
    ensures
        texts(names@) == columns(),
{
    let mut names: Vec<&'static str> = Vec::new();
    names.push("hostname");
    names.push("cpu_usage");
    names.push("ram_used_mb");
    names.push("ram_total_mb");
    names.push("load_avg_1m");
    names.push("load_avg_5m");
    names.push("load_avg_15m");
    names.push("uptime_secs");
    names.push("disk_used_gb");
    names.push("disk_total_gb");
    names.push("tailscale_ip");
    names.push("timestamp_sec");
    assert(texts(names@) =~= columns());
    names
}

/// The text of the statement that adds a row.
fn insert_text() -> (sql: String)
    ensures
        sql@ == insert_sql(),
{
    let mut names: Vec<&'static str> = Vec::new();
    names.push("id");
    let mut rest: Vec<&'static str> = column_names();
    let mut marks: Vec<&'static str> = Vec::new();
    let ghost all = texts(names@) + texts(rest@);
    names.append(&mut rest);
    assert(texts(names@) =~= all);
    assert(texts(names@) =~= insert_columns());
    let mut i: usize = 0;
    while i < names.len()
        invariant
            i <= names.len(),
            texts(marks@) == placeholders(i as nat),
        decreases names.len() - i,
    {
        let ghost fewer = marks@;
        marks.push("?");
        i += 1;
        proof {
            assert(texts(marks@) =~= texts(fewer).push("?"@));
            assert(texts(marks@) =~= placeholders(i as nat));
        }
    }
    let mut sql = String::from_str("INSERT INTO telemetry (");
    sql.append(list_text(&names).as_str());
    sql.append(") VALUES (");
    sql.append(list_text(&marks).as_str());
    sql.append(")");
    sql
}

/// The statement that stores `node` in a row of its own under the key `id`.
pub fn insert_statement(id: String, node: &NodeTelemetry) -> (statement: Statement)
    ensures
        statement.sql@ == insert_sql(),
        statement.args@ == seq![SqlValue::Text(id)] + row_values(*node),
{
    let mut args: Vec<SqlValue> = Vec::new();
    args.push(SqlValue::Text(id));
    args.push(SqlValue::Text(node.hostname.clone()));
    args.push(SqlValue::Single(node.cpu_usage));
    args.push(SqlValue::Integer(to_signed(node.ram_used_mb)));
    args.push(SqlValue::Integer(to_signed(node.ram_total_mb)));
    args.push(SqlValue::Double(node.load_avg_1m));
    args.push(SqlValue::Double(node.load_avg_5m));
    args.push(SqlValue::Double(node.load_avg_15m));
    args.push(SqlValue::Integer(to_signed(node.uptime_secs)));
    args.push(SqlValue::Double(node.disk_used_gb));
    args.push(SqlValue::Double(node.disk_total_gb));
    args.push(SqlValue::Text(node.tailscale_ip.clone()));
    args.push(SqlValue::Integer(node.timestamp_sec));
    assert(args@ =~= seq![SqlValue::Text(id)] + row_values(*node));
    Statement { sql: insert_text(), args }
}

/// The statement that reads every row from `min_timestamp` on.
pub fn select_statement(min_timestamp: i64) -> (statement: Statement)
    ensures
        statement.sql@ == select_sql(),
        statement.args@ == seq![SqlValue::Integer(min_timestamp)],
{
    let names: Vec<&'static str> = column_names();
    let mut sql = String::from_str("SELECT ");
    sql.append(list_text(&names).as_str());
    sql.append(
        " FROM telemetry WHERE timestamp_sec >= ? ORDER BY hostname ASC, timestamp_sec ASC",
    );
    let mut args: Vec<SqlValue> = Vec::new();
    args.push(SqlValue::Integer(min_timestamp));
    assert(args@ =~= seq![SqlValue::Integer(min_timestamp)]);
    Statement { sql, args }
}

/// The statement that removes every row from before `cutoff`.
pub fn delete_statement(cutoff: i64) -> (statement: Statement)
    ensures
        statement.sql@ == delete_sql(),
        statement.args@ == seq![SqlValue::Integer(cutoff)],
{
    let mut args: Vec<SqlValue> = Vec::new();
    args.push(SqlValue::Integer(cutoff));
    assert(args@ =~= seq![SqlValue::Integer(cutoff)]);
    Statement { sql: String::from_str("DELETE FROM telemetry WHERE timestamp_sec < ?"), args }
}

/// The text in column `at` of a row.
pub open spec fn text_at(row: Seq<SqlValue>, at: int) -> Option<String> {
    match row[at] {
        SqlValue::Text(text) => Some(text),
        _ => None,
    }
}

/// The integer in column `at` of a row.
pub open spec fn integer_at(row: Seq<SqlValue>, at: int) -> Option<i64> {
    match row[at] {
        SqlValue::Integer(value) => Some(value),
        _ => None,
    }
}

/// The counter in column `at` of a row: a negative integer is none.
pub open spec fn counter_at(row: Seq<SqlValue>, at: int) -> Option<u64> {
    match row[at] {
        SqlValue::Integer(value) => if value >= 0 {
            Some(value as u64)
        } else {
            None
        },
        _ => None,
    }
}

/// The single-precision number in column `at` of a row.
pub open spec fn single_at(row: Seq<SqlValue>, at: int) -> Option<Float32> {
    match row[at] {
        SqlValue::Single(value) => Some(value),
        _ => None,
    }
}

/// The double-precision number in column `at` of a row.
pub open spec fn double_at(row: Seq<SqlValue>, at: int) -> Option<Float64> {
    match row[at] {
        SqlValue::Double(value) => Some(value),
        _ => None,
    }
}

/// Whether a row holds a measurement: a value of the right kind in every column, and no
/// negative counter.
pub open spec fn holds_node(row: Seq<SqlValue>) -> bool {
    &&& row.len() == columns().len()
    &&& text_at(row, 0) is Some
    &&& single_at(row, 1) is Some
    &&& counter_at(row, 2) is Some
    &&& counter_at(row, 3) is Some
    &&& double_at(row, 4) is Some
    &&& double_at(row, 5) is Some
    &&& double_at(row, 6) is Some
    &&& counter_at(row, 7) is Some
    &&& double_at(row, 8) is Some
    &&& double_at(row, 9) is Some
    &&& text_at(row, 10) is Some
    &&& integer_at(row, 11) is Some
}

/// The measurement that a row holds.
pub open spec fn node_of(row: Seq<SqlValue>) -> NodeTelemetry {
    NodeTelemetry {
        hostname: text_at(row, 0)->0,
        cpu_usage: single_at(row, 1)->0,
        ram_used_mb: counter_at(row, 2)->0,
        ram_total_mb: counter_at(row, 3)->0,
        load_avg_1m: double_at(row, 4)->0,
        load_avg_5m: double_at(row, 5)->0,
        load_avg_15m: double_at(row, 6)->0,
        uptime_secs: counter_at(row, 7)->0,
        disk_used_gb: double_at(row, 8)->0,
        disk_total_gb: double_at(row, 9)->0,
        tailscale_ip: text_at(row, 10)->0,
        timestamp_sec: integer_at(row, 11)->0,
    }
}

fn read_text(row: &Vec<SqlValue>, at: usize) -> (text: Option<String>)
    requires
        at < row.len(),
    ensures
        text == text_at(row@, at as int),
{
    match &row[at] {
        SqlValue::Text(text) => Some(text.clone()),
        _ => None,
    }
}

fn read_integer(row: &Vec<SqlValue>, at: usize) -> (value: Option<i64>)
    requires
        at < row.len(),
    ensures
        value == integer_at(row@, at as int),
{
    match &row[at] {
        SqlValue::Integer(value) => Some(*value),
        _ => None,
    }
}

fn read_counter(row: &Vec<SqlValue>, at: usize) -> (count: Option<u64>)
    requires
        at < row.len(),
    ensures
        count == counter_at(row@, at as int),
{
    match &row[at] {
        SqlValue::Integer(value) => to_unsigned(*value),
        _ => None,
    }
}

fn read_single(row: &Vec<SqlValue>, at: usize) -> (value: Option<Float32>)
    requires
        at < row.len(),
    ensures
        value == single_at(row@, at as int),
{
    match &row[at] {
        SqlValue::Single(value) => Some(*value),
        _ => None,
    }
}

fn read_double(row: &Vec<SqlValue>, at: usize) -> (value: Option<Float64>)
    requires
        at < row.len(),
    ensures
        value == double_at(row@, at as int),
{
    match &row[at] {
        SqlValue::Double(value) => Some(*value),
        _ => None,
    }
}

/// Reads a measurement from a row.
pub fn node_from_row(row: &Vec<SqlValue>) -> (node: Option<NodeTelemetry>)
    ensures
        match node {
            Some(read) => holds_node(row@) && read == node_of(row@),
            None => !holds_node(row@),
        },
{
    if row.len() != 12 {
        return None;
    }
    Some(NodeTelemetry {
        hostname: read_text(row, 0)?,
        cpu_usage: read_single(row, 1)?,
        ram_used_mb: read_counter(row, 2)?,
        ram_total_mb: read_counter(row, 3)?,
        load_avg_1m: read_double(row, 4)?,
        load_avg_5m: read_double(row, 5)?,
        load_avg_15m: read_double(row, 6)?,
        uptime_secs: read_counter(row, 7)?,
        disk_used_gb: read_double(row, 8)?,
        disk_total_gb: read_double(row, 9)?,
        tailscale_ip: read_text(row, 10)?,
        timestamp_sec: read_integer(row, 11)?,
    })
}

/// The columns do not depend on the measurement, no column occurs twice, and each column of
/// a measurement is bound to the value that belongs in it.
pub proof fn law_columns_line_up(node: NodeTelemetry)
    ensures
        telemetry_row(node).len() == columns().len(),
        row_values(node).len() == columns().len(),
        forall|i: int|
            0 <= i < columns().len() ==> #[trigger] telemetry_row(node)[i] == (
                columns()[i],
                row_values(node)[i],
            ),
        insert_columns().no_duplicates(),
{
    reveal_strlit("id");
    reveal_strlit("hostname");
    reveal_strlit("cpu_usage");
    reveal_strlit("ram_used_mb");
    reveal_strlit("ram_total_mb");
    reveal_strlit("load_avg_1m");
    reveal_strlit("load_avg_5m");
    reveal_strlit("load_avg_15m");
    reveal_strlit("uptime_secs");
    reveal_strlit("disk_used_gb");
    reveal_strlit("disk_total_gb");
    reveal_strlit("tailscale_ip");
    reveal_strlit("timestamp_sec");
    let names = insert_columns();
    assert(names.len() == 13);
    assert(names[0].len() == 2 && names[1].len() == 8 && names[2].len() == 9);
    assert(names[3].len() == 11 && names[3][9] == 'm');
    assert(names[5].len() == 11 && names[5][9] == '1');
    assert(names[6].len() == 11 && names[6][9] == '5');
    assert(names[8].len() == 11 && names[8][9] == 'c');
    assert(names[4].len() == 12 && names[4][0] == 'r');
    assert(names[7].len() == 12 && names[7][0] == 'l');
    assert(names[9].len() == 12 && names[9][0] == 'd');
    assert(names[11].len() == 12 && names[11][0] == 't');
    assert(names[10].len() == 13 && names[10][0] == 'd');
    assert(names[12].len() == 13 && names[12][0] == 't');
}

/// The counters of a measurement fit the signed integers of the database.
pub open spec fn counters_fit(node: NodeTelemetry) -> bool {
    &&& node.ram_used_mb <= i64::MAX
    &&& node.ram_total_mb <= i64::MAX
    &&& node.uptime_secs <= i64::MAX
}

/// What is read back of a stored measurement is that measurement, and a row that was
/// written with a counter of 2^63 or more cannot be read back.
pub proof fn law_stored_node_reads_back(node: NodeTelemetry)
    ensures
        holds_node(row_values(node)) <==> counters_fit(node),
        counters_fit(node) ==> node_of(row_values(node)) == node,
{
    let row = row_values(node);
    assert(row.len() == 12 && columns().len() == 12);
    assert(counter_at(row, 2) is Some <==> node.ram_used_mb <= i64::MAX);
    assert(counter_at(row, 3) is Some <==> node.ram_total_mb <= i64::MAX);
    assert(counter_at(row, 7) is Some <==> node.uptime_secs <= i64::MAX);
}

/// The measurements from a moment on, in their order: what is read of them from that moment,
/// and what is left of them when everything from before it is removed.
pub open spec fn since(records: Seq<NodeTelemetry>, moment: int) -> Seq<NodeTelemetry> {
    records.filter(|record: NodeTelemetry| record.timestamp_sec >= moment)
}

/// What is left from a moment on are the measurements that were not taken earlier, and no
/// others.
pub proof fn law_since_keeps_what_is_not_earlier(
    records: Seq<NodeTelemetry>,
    moment: int,
    record: NodeTelemetry,
)
    ensures
        since(records, moment).contains(record) <==> records.contains(record)
            && record.timestamp_sec >= moment,
    decreases records.len(),
{
    reveal(Seq::filter);
    if records.len() > 0 {
        let fewer = records.drop_last();
        let last = records.last();
        law_since_keeps_what_is_not_earlier(fewer, moment, record);
        assert(records =~= fewer.push(last));
        assert(records.contains(record) <==> fewer.contains(record) || record == last) by {
            if fewer.contains(record) {
                let i = choose|i: int| 0 <= i < fewer.len() && fewer[i] == record;
                assert(records[i] == record);
            }
            assert(records[records.len() - 1] == last);
        }
        let left = since(fewer, moment);
        if last.timestamp_sec >= moment {
            assert(since(records, moment) == left.push(last));
            assert(left.push(last).contains(record) <==> left.contains(record) || record
                == last) by {
                if left.contains(record) {
                    let i = choose|i: int| 0 <= i < left.len() && left[i] == record;
                    assert(left.push(last)[i] == record);
                }
                assert(left.push(last)[left.len() as int] == last);
            }
        } else {
            assert(since(records, moment) == left);
        }
    }
}

/// Of two moments, the later one decides what is left.
pub proof fn law_later_moment_decides(records: Seq<NodeTelemetry>, first: int, second: int)
    ensures
        since(since(records, first), second) == since(
            records,
            if first <= second {
                second
            } else {
                first
            },
        ),
    decreases records.len(),
{
    reveal(Seq::filter);
    if records.len() > 0 {
        let fewer = records.drop_last();
        law_later_moment_decides(fewer, first, second);
        if records.last().timestamp_sec >= first {
            let left = since(fewer, first);
            assert(since(records, first) == left.push(records.last()));
            assert(left.push(records.last()).drop_last() =~= left);
        }
    }
}

/// How many placeholders a text holds.
pub open spec fn marks_in(text: Seq<char>) -> nat
    decreases text.len(),
{
    if text.len() == 0 {
        0
    } else {
        marks_in(text.drop_last()) + if text.last() == '?' {
            1nat
        } else {
            0nat
        }
    }
}

proof fn lemma_marks_in_concat(a: Seq<char>, b: Seq<char>)
    ensures
        marks_in(a + b) == marks_in(a) + marks_in(b),
    decreases b.len(),
{
    if b.len() == 0 {
        assert(a + b =~= a);
    } else {
        assert((a + b).drop_last() =~= a + b.drop_last());
        lemma_marks_in_concat(a, b.drop_last());
    }
}

proof fn lemma_no_marks(text: Seq<char>)
    requires
        !text.contains('?'),
    ensures
        marks_in(text) == 0,
    decreases text.len(),
{
    if text.len() > 0 {
        assert(text[text.len() - 1] != '?');
        assert forall|i: int| 0 <= i < text.len() - 1 implies text.drop_last()[i] != '?' by {
            assert(text[i] != '?');
        }
        lemma_no_marks(text.drop_last());
    }
}

/// A text with its only placeholder at `at`.
proof fn lemma_one_mark(text: Seq<char>, at: int)
    requires
        0 <= at < text.len(),
        text[at] == '?',
        forall|i: int| 0 <= i < text.len() && i != at ==> text[i] != '?',
    ensures
        marks_in(text) == 1,
{
    let before = text.take(at);
    let after = text.skip(at + 1);
    assert(text =~= before.push('?') + after);
    assert(before.push('?').drop_last() =~= before);
    lemma_no_marks(before);
    lemma_no_marks(after);
    lemma_marks_in_concat(before.push('?'), after);
}

proof fn lemma_column_has_no_marks(at: int)
    requires
        0 <= at < insert_columns().len(),
    ensures
        marks_in(insert_columns()[at]) == 0,
{
    reveal_strlit("id");
    reveal_strlit("hostname");
    reveal_strlit("cpu_usage");
    reveal_strlit("ram_used_mb");
    reveal_strlit("ram_total_mb");
    reveal_strlit("load_avg_1m");
    reveal_strlit("load_avg_5m");
    reveal_strlit("load_avg_15m");
    reveal_strlit("uptime_secs");
    reveal_strlit("disk_used_gb");
    reveal_strlit("disk_total_gb");
    reveal_strlit("tailscale_ip");
    reveal_strlit("timestamp_sec");
    lemma_no_marks(insert_columns()[at]);
}

/// A list holds as many placeholders as its parts together; here each part holds `each`.
proof fn lemma_marks_in_list(parts: Seq<Seq<char>>, each: nat)
    requires
        forall|i: int| 0 <= i < parts.len() ==> marks_in(#[trigger] parts[i]) == each,
    ensures
        marks_in(listed(parts)) == each * parts.len(),
    decreases parts.len(),
{
    if parts.len() == 1 {
        assert(each * 1 == each) by (nonlinear_arith);
    } else if parts.len() > 1 {
        let fewer = parts.drop_last();
        assert forall|i: int| 0 <= i < fewer.len() implies marks_in(#[trigger] fewer[i])
            == each by {
            assert(fewer[i] == parts[i]);
        }
        lemma_marks_in_list(fewer, each);
        reveal_strlit(", ");
        assert(!", "@.contains('?'));
        lemma_no_marks(", "@);
        lemma_marks_in_concat(listed(fewer), ", "@);
        lemma_marks_in_concat(listed(fewer) + ", "@, parts.last());
        assert(each * parts.len() == each * fewer.len() + each) by (nonlinear_arith)
            requires
                parts.len() == fewer.len() + 1,
        ;
    }
}

/// Every statement binds one value to each of its placeholders.
pub proof fn law_placeholders_are_bound(id: String, node: NodeTelemetry)
    ensures
        marks_in(insert_sql()) == (seq![SqlValue::Text(id)] + row_values(node)).len(),
        marks_in(select_sql()) == 1,
        marks_in(delete_sql()) == 1,
{
    let names = insert_columns();
    assert forall|i: int| 0 <= i < names.len() implies marks_in(#[trigger] names[i]) == 0 by {
        lemma_column_has_no_marks(i);
    }
    lemma_marks_in_list(names, 0);
    assert forall|i: int| 0 <= i < columns().len() implies marks_in(#[trigger] columns()[i])
        == 0 by {
        assert(columns()[i] == names[i + 1]);
        lemma_column_has_no_marks(i + 1);
    }
    lemma_marks_in_list(columns(), 0);
    let marks = placeholders(names.len());
    reveal_strlit("?");
    reveal_with_fuel(marks_in, 2);
    lemma_marks_in_list(marks, 1);

    let head = "INSERT INTO telemetry (";
    let middle = ") VALUES (";
    let tail = ")";
    reveal_strlit("INSERT INTO telemetry (");
    reveal_strlit(") VALUES (");
    reveal_strlit(")");
    lemma_no_marks(head@);
    lemma_no_marks(middle@);
    lemma_no_marks(tail@);
    lemma_marks_in_concat(head@, listed(names));
    lemma_marks_in_concat(head@ + listed(names), middle@);
    lemma_marks_in_concat(head@ + listed(names) + middle@, listed(marks));
    lemma_marks_in_concat(head@ + listed(names) + middle@ + listed(marks), tail@);
    assert(names.len() == 13 && row_values(node).len() == 12);

    let select = "SELECT ";
    let rest = " FROM telemetry WHERE timestamp_sec >= ? ORDER BY hostname ASC, timestamp_sec ASC";
    reveal_strlit("SELECT ");
    reveal_strlit(
        " FROM telemetry WHERE timestamp_sec >= ? ORDER BY hostname ASC, timestamp_sec ASC",
    );
    lemma_no_marks(select@);
    lemma_one_mark(rest@, 39);
    lemma_marks_in_concat(select@, listed(columns()));
    lemma_marks_in_concat(select@ + listed(columns()), rest@);

    let delete = "DELETE FROM telemetry WHERE timestamp_sec < ?";
    reveal_strlit("DELETE FROM telemetry WHERE timestamp_sec < ?");
    lemma_one_mark(delete@, 44);
}

/// Every field of a measurement is bound to the column of its name, whatever the order of the
/// columns: numbers and texts as they are, counters as the same 64 bits. The key stands in the
/// column of its own.
pub proof fn law_columns_hold_the_fields_of_their_names(id: String, node: NodeTelemetry, at: int)
    requires
        0 <= at < insert_columns().len(),
    ensures
        ({
            let name = insert_columns()[at];
            let value = (seq![SqlValue::Text(id)] + row_values(node))[at];
            &&& name == "id"@ ==> value == SqlValue::Text(id)
            &&& name == "hostname"@ ==> value == SqlValue::Text(node.hostname)
            &&& name == "cpu_usage"@ ==> value == SqlValue::Single(node.cpu_usage)
            &&& name == "ram_used_mb"@ ==> (value matches SqlValue::Integer(held) && (held
                == node.ram_used_mb || held + 0x1_0000_0000_0000_0000 == node.ram_used_mb))
            &&& name == "ram_total_mb"@ ==> (value matches SqlValue::Integer(held) && (held
                == node.ram_total_mb || held + 0x1_0000_0000_0000_0000 == node.ram_total_mb))
            &&& name == "load_avg_1m"@ ==> value == SqlValue::Double(node.load_avg_1m)
            &&& name == "load_avg_5m"@ ==> value == SqlValue::Double(node.load_avg_5m)
            &&& name == "load_avg_15m"@ ==> value == SqlValue::Double(node.load_avg_15m)
            &&& name == "uptime_secs"@ ==> (value matches SqlValue::Integer(held) && (held
                == node.uptime_secs || held + 0x1_0000_0000_0000_0000 == node.uptime_secs))
            &&& name == "disk_used_gb"@ ==> value == SqlValue::Double(node.disk_used_gb)
            &&& name == "disk_total_gb"@ ==> value == SqlValue::Double(node.disk_total_gb)
            &&& name == "tailscale_ip"@ ==> value == SqlValue::Text(node.tailscale_ip)
            &&& name == "timestamp_sec"@ ==> value == SqlValue::Integer(node.timestamp_sec)
        }),
        insert_columns() == seq![
            "id"@,
            "hostname"@,
            "cpu_usage"@,
            "ram_used_mb"@,
            "ram_total_mb"@,
            "load_avg_1m"@,
            "load_avg_5m"@,
            "load_avg_15m"@,
            "uptime_secs"@,
            "disk_used_gb"@,
            "disk_total_gb"@,
            "tailscale_ip"@,
            "timestamp_sec"@,
        ],
{
    law_columns_line_up(node);
    let names = insert_columns();
    let expected = seq![
        "id"@,
        "hostname"@,
        "cpu_usage"@,
        "ram_used_mb"@,
        "ram_total_mb"@,
        "load_avg_1m"@,
        "load_avg_5m"@,
        "load_avg_15m"@,
        "uptime_secs"@,
        "disk_used_gb"@,
        "disk_total_gb"@,
        "tailscale_ip"@,
        "timestamp_sec"@,
    ];
    assert(names =~= expected);
    assert forall|i: int, j: int|
        0 <= i < names.len() && 0 <= j < names.len() && names[i] == names[j] implies i == j by {}
    assert(names[at] == names[0] ==> at == 0);
    assert(names[at] == names[1] ==> at == 1);
    assert(names[at] == names[2] ==> at == 2);
    assert(names[at] == names[3] ==> at == 3);
    assert(names[at] == names[4] ==> at == 4);
    assert(names[at] == names[5] ==> at == 5);
    assert(names[at] == names[6] ==> at == 6);
    assert(names[at] == names[7] ==> at == 7);
    assert(names[at] == names[8] ==> at == 8);
    assert(names[at] == names[9] ==> at == 9);
    assert(names[at] == names[10] ==> at == 10);
    assert(names[at] == names[11] ==> at == 11);
    assert(names[at] == names[12] ==> at == 12);
}

/// A measurement is read back from the columns of its fields' names, whatever the order of the
/// columns.
pub proof fn law_fields_are_read_from_the_columns_of_their_names(row: Seq<SqlValue>, at: int)
    requires
        holds_node(row),
        0 <= at < columns().len(),
    ensures
        row.len() == columns().len(),
        ({
            let name = columns()[at];
            let value = row[at];
            let node = node_of(row);
            &&& name == "hostname"@ ==> value == SqlValue::Text(node.hostname)
            &&& name == "cpu_usage"@ ==> value == SqlValue::Single(node.cpu_usage)
            &&& name == "ram_used_mb"@ ==> (value matches SqlValue::Integer(held) && held
                == node.ram_used_mb)
            &&& name == "ram_total_mb"@ ==> (value matches SqlValue::Integer(held) && held
                == node.ram_total_mb)
            &&& name == "load_avg_1m"@ ==> value == SqlValue::Double(node.load_avg_1m)
            &&& name == "load_avg_5m"@ ==> value == SqlValue::Double(node.load_avg_5m)
            &&& name == "load_avg_15m"@ ==> value == SqlValue::Double(node.load_avg_15m)
            &&& name == "uptime_secs"@ ==> (value matches SqlValue::Integer(held) && held
                == node.uptime_secs)
            &&& name == "disk_used_gb"@ ==> value == SqlValue::Double(node.disk_used_gb)
            &&& name == "disk_total_gb"@ ==> value == SqlValue::Double(node.disk_total_gb)
            &&& name == "tailscale_ip"@ ==> value == SqlValue::Text(node.tailscale_ip)
            &&& name == "timestamp_sec"@ ==> value == SqlValue::Integer(node.timestamp_sec)
        }),
{
    let names = columns();
    law_columns_line_up(node_of(row));
    assert forall|i: int, j: int|
        0 <= i < names.len() && 0 <= j < names.len() && names[i] == names[j] implies i == j by {
        assert(insert_columns()[i + 1] == names[i] && insert_columns()[j + 1] == names[j]);
    }
    assert(names[at] == names[0] ==> at == 0);
    assert(names[at] == names[1] ==> at == 1);
    assert(names[at] == names[2] ==> at == 2);
    assert(names[at] == names[3] ==> at == 3);
    assert(names[at] == names[4] ==> at == 4);
    assert(names[at] == names[5] ==> at == 5);
    assert(names[at] == names[6] ==> at == 6);
    assert(names[at] == names[7] ==> at == 7);
    assert(names[at] == names[8] ==> at == 8);
    assert(names[at] == names[9] ==> at == 9);
    assert(names[at] == names[10] ==> at == 10);
    assert(names[at] == names[11] ==> at == 11);
}

/// The rows that hold a measurement are exactly those that can be written from one whose
/// counters stay below 2^63; what is read from such a row is the measurement that it was
/// written from.
pub proof fn law_rows_and_measurements_correspond(row: Seq<SqlValue>, node: NodeTelemetry)
    ensures
        node.ram_used_mb < 0x8000_0000_0000_0000 && node.ram_total_mb < 0x8000_0000_0000_0000
            && node.uptime_secs < 0x8000_0000_0000_0000 ==> holds_node(row_values(node))
            && node_of(row_values(node)) == node,
        holds_node(row) ==> row_values(node_of(row)) == row,
        holds_node(row) ==> node_of(row).ram_used_mb < 0x8000_0000_0000_0000
            && node_of(row).ram_total_mb < 0x8000_0000_0000_0000 && node_of(row).uptime_secs
            < 0x8000_0000_0000_0000,
{
    law_stored_node_reads_back(node);
    if holds_node(row) {
        assert(row_values(node_of(row)) =~= row);
    }
}

/// A list of two lists, neither of them empty.
proof fn lemma_listed_concat(a: Seq<Seq<char>>, b: Seq<Seq<char>>)
    requires
        a.len() > 0,
        b.len() > 0,
    ensures
        listed(a + b) == listed(a) + ", "@ + listed(b),
    decreases b.len(),
{
    assert((a + b).drop_last() =~= a + b.drop_last());
    assert((a + b).last() == b.last());
    if b.len() == 1 {
        assert(a + b.drop_last() =~= a);
    } else {
        lemma_listed_concat(a, b.drop_last());
        assert(listed(a) + ", "@ + listed(b.drop_last()) + ", "@ + b.last() =~= listed(a) + ", "@
            + (listed(b.drop_last()) + ", "@ + b.last()));
    }
}

/// A list of four.
proof fn lemma_listed_four(a: Seq<char>, b: Seq<char>, c: Seq<char>, d: Seq<char>)
    ensures
        listed(seq![a, b, c, d]) == a + ", "@ + b + ", "@ + c + ", "@ + d,
{
    reveal_with_fuel(listed, 5);
    assert(seq![a, b, c, d].drop_last() =~= seq![a, b, c]);
    assert(seq![a, b, c].drop_last() =~= seq![a, b]);
    assert(seq![a, b].drop_last() =~= seq![a]);
}

proof fn lemma_first_columns()
    ensures
        listed(seq!["hostname"@, "cpu_usage"@, "ram_used_mb"@, "ram_total_mb"@])
            == "hostname, cpu_usage, ram_used_mb, ram_total_mb"@,
{
    lemma_listed_four("hostname"@, "cpu_usage"@, "ram_used_mb"@, "ram_total_mb"@);
    reveal_strlit(", ");
    reveal_strlit("hostname");
    reveal_strlit("cpu_usage");
    reveal_strlit("ram_used_mb");
    reveal_strlit("ram_total_mb");
    reveal_strlit("hostname, cpu_usage, ram_used_mb, ram_total_mb");
    assert("hostname"@ + ", "@ + "cpu_usage"@ + ", "@ + "ram_used_mb"@ + ", "@ + "ram_total_mb"@
        =~= "hostname, cpu_usage, ram_used_mb, ram_total_mb"@);
}

proof fn lemma_middle_columns()
    ensures
        listed(seq!["load_avg_1m"@, "load_avg_5m"@, "load_avg_15m"@, "uptime_secs"@])
            == "load_avg_1m, load_avg_5m, load_avg_15m, uptime_secs"@,
{
    lemma_listed_four("load_avg_1m"@, "load_avg_5m"@, "load_avg_15m"@, "uptime_secs"@);
    reveal_strlit(", ");
    reveal_strlit("load_avg_1m");
    reveal_strlit("load_avg_5m");
    reveal_strlit("load_avg_15m");
    reveal_strlit("uptime_secs");
    reveal_strlit("load_avg_1m, load_avg_5m, load_avg_15m, uptime_secs");
    assert("load_avg_1m"@ + ", "@ + "load_avg_5m"@ + ", "@ + "load_avg_15m"@ + ", "@ + "uptime_secs"@
        =~= "load_avg_1m, load_avg_5m, load_avg_15m, uptime_secs"@);
}

proof fn lemma_last_columns()
    ensures
        listed(seq!["disk_used_gb"@, "disk_total_gb"@, "tailscale_ip"@, "timestamp_sec"@])
            == "disk_used_gb, disk_total_gb, tailscale_ip, timestamp_sec"@,
{
    lemma_listed_four("disk_used_gb"@, "disk_total_gb"@, "tailscale_ip"@, "timestamp_sec"@);
    reveal_strlit(", ");
    reveal_strlit("disk_used_gb");
    reveal_strlit("disk_total_gb");
    reveal_strlit("tailscale_ip");
    reveal_strlit("timestamp_sec");
    reveal_strlit("disk_used_gb, disk_total_gb, tailscale_ip, timestamp_sec");
    assert("disk_used_gb"@ + ", "@ + "disk_total_gb"@ + ", "@ + "tailscale_ip"@ + ", "@ + "timestamp_sec"@
        =~= "disk_used_gb, disk_total_gb, tailscale_ip, timestamp_sec"@);
}

/// The columns of a measurement, listed.
proof fn lemma_listed_columns()
    ensures
        listed(columns())
            == "hostname, cpu_usage, ram_used_mb, ram_total_mb, load_avg_1m, load_avg_5m, load_avg_15m, uptime_secs, disk_used_gb, disk_total_gb, tailscale_ip, timestamp_sec"@,
{
    let first = seq!["hostname"@, "cpu_usage"@, "ram_used_mb"@, "ram_total_mb"@];
    let middle = seq!["load_avg_1m"@, "load_avg_5m"@, "load_avg_15m"@, "uptime_secs"@];
    let last = seq!["disk_used_gb"@, "disk_total_gb"@, "tailscale_ip"@, "timestamp_sec"@];
    assert(columns() =~= first + middle + last);
    lemma_listed_concat(first, middle);
    lemma_listed_concat(first + middle, last);
    lemma_first_columns();
    lemma_middle_columns();
    lemma_last_columns();
    reveal_strlit(", ");
    reveal_strlit("hostname, cpu_usage, ram_used_mb, ram_total_mb");
    reveal_strlit("load_avg_1m, load_avg_5m, load_avg_15m, uptime_secs");
    reveal_strlit("disk_used_gb, disk_total_gb, tailscale_ip, timestamp_sec");
    reveal_strlit("hostname, cpu_usage, ram_used_mb, ram_total_mb, load_avg_1m, load_avg_5m, load_avg_15m, uptime_secs, disk_used_gb, disk_total_gb, tailscale_ip, timestamp_sec");
    assert("hostname, cpu_usage, ram_used_mb, ram_total_mb"@ + ", "@ + "load_avg_1m, load_avg_5m, load_avg_15m, uptime_secs"@ + ", "@
        + "disk_used_gb, disk_total_gb, tailscale_ip, timestamp_sec"@
        =~= "hostname, cpu_usage, ram_used_mb, ram_total_mb, load_avg_1m, load_avg_5m, load_avg_15m, uptime_secs, disk_used_gb, disk_total_gb, tailscale_ip, timestamp_sec"@);
}

/// The placeholders of a new row, listed.
proof fn lemma_listed_placeholders()
    ensures
        listed(placeholders(13)) == "?, ?, ?, ?, ?, ?, ?, ?, ?, ?, ?, ?, ?"@,
{
    let four = seq!["?"@, "?"@, "?"@, "?"@];
    let one = seq!["?"@];
    assert(placeholders(13) =~= one + four + four + four);
    lemma_listed_four("?"@, "?"@, "?"@, "?"@);
    lemma_listed_concat(one, four);
    lemma_listed_concat(one + four, four);
    lemma_listed_concat(one + four + four, four);
    reveal_strlit("?");
    reveal_strlit(", ");
    reveal_strlit("?, ?, ?, ?, ?, ?, ?, ?, ?, ?, ?, ?, ?");
    assert(listed(one) =~= "?"@);
    assert(listed(one + four + four + four) =~= "?, ?, ?, ?, ?, ?, ?, ?, ?, ?, ?, ?, ?"@);
}

/// The statements, letter for letter.
pub proof fn law_statement_texts()
    ensures
        insert_sql()
            == "INSERT INTO telemetry (id, hostname, cpu_usage, ram_used_mb, ram_total_mb, load_avg_1m, load_avg_5m, load_avg_15m, uptime_secs, disk_used_gb, disk_total_gb, tailscale_ip, timestamp_sec) VALUES (?, ?, ?, ?, ?, ?, ?, ?, ?, ?, ?, ?, ?)"@,
        select_sql()
            == "SELECT hostname, cpu_usage, ram_used_mb, ram_total_mb, load_avg_1m, load_avg_5m, load_avg_15m, uptime_secs, disk_used_gb, disk_total_gb, tailscale_ip, timestamp_sec FROM telemetry WHERE timestamp_sec >= ? ORDER BY hostname ASC, timestamp_sec ASC"@,
        delete_sql() == "DELETE FROM telemetry WHERE timestamp_sec < ?"@,
{
    lemma_listed_columns();
    lemma_listed_placeholders();
    lemma_listed_concat(seq!["id"@], columns());
    assert(insert_columns().len() == 13);
    reveal_strlit(", ");
    reveal_strlit("id");
    reveal_strlit("INSERT INTO telemetry (");
    reveal_strlit(") VALUES (");
    reveal_strlit(")");
    reveal_strlit("SELECT ");
    reveal_strlit("?, ?, ?, ?, ?, ?, ?, ?, ?, ?, ?, ?, ?");
    reveal_strlit("hostname, cpu_usage, ram_used_mb, ram_total_mb, load_avg_1m, load_avg_5m, load_avg_15m, uptime_secs, disk_used_gb, disk_total_gb, tailscale_ip, timestamp_sec");
    reveal_strlit(
        " FROM telemetry WHERE timestamp_sec >= ? ORDER BY hostname ASC, timestamp_sec ASC",
    );
    reveal_strlit("INSERT INTO telemetry (id, hostname, cpu_usage, ram_used_mb, ram_total_mb, load_avg_1m, load_avg_5m, load_avg_15m, uptime_secs, disk_used_gb, disk_total_gb, tailscale_ip, timestamp_sec) VALUES (?, ?, ?, ?, ?, ?, ?, ?, ?, ?, ?, ?, ?)");
    reveal_strlit("SELECT hostname, cpu_usage, ram_used_mb, ram_total_mb, load_avg_1m, load_avg_5m, load_avg_15m, uptime_secs, disk_used_gb, disk_total_gb, tailscale_ip, timestamp_sec FROM telemetry WHERE timestamp_sec >= ? ORDER BY hostname ASC, timestamp_sec ASC");
    assert(insert_sql()
        =~= "INSERT INTO telemetry (id, hostname, cpu_usage, ram_used_mb, ram_total_mb, load_avg_1m, load_avg_5m, load_avg_15m, uptime_secs, disk_used_gb, disk_total_gb, tailscale_ip, timestamp_sec) VALUES (?, ?, ?, ?, ?, ?, ?, ?, ?, ?, ?, ?, ?)"@);
    assert(select_sql()
        =~= "SELECT hostname, cpu_usage, ram_used_mb, ram_total_mb, load_avg_1m, load_avg_5m, load_avg_15m, uptime_secs, disk_used_gb, disk_total_gb, tailscale_ip, timestamp_sec FROM telemetry WHERE timestamp_sec >= ? ORDER BY hostname ASC, timestamp_sec ASC"@);
}

} // verus!
