//! Taking in a measurement.
use crate::status::Status;
use crate::store::{
    insert_columns, insert_sql, insert_statement, law_columns_hold_the_fields_of_their_names,
    law_statement_texts, row_values, SqlValue, Statement,
};
use crate::telemetry::NodeTelemetry;
use vstd::prelude::*;

verus! {

/// A lower-case hexadecimal digit.
pub open spec fn is_hex_digit(c: char) -> bool {
    '0' <= c <= '9' || 'a' <= c <= 'f'
}

/// A random (version 4) UUID in its hyphenated form.
pub open spec fn is_record_id(id: Seq<char>) -> bool {
    &&& id.len() == 36
    &&& forall|i: int|
        0 <= i < 36 ==> if i == 8 || i == 13 || i == 18 || i == 23 {
            #[trigger] id[i] == '-'
        } else {
            is_hex_digit(id[i])
        }
    &&& id[14] == '4'
    &&& id[19] == '8' || id[19] == '9' || id[19] == 'a' || id[19] == 'b'
}

/// `uuid::Uuid::new_v4`, written out by its `Display`: a version 4 UUID in lower case with
/// hyphens. Its other digits are random; nothing is said of them. The call panics if the
/// system has no random numbers to give.
#[verifier::external_body]
fn new_record_id() -> (id: String)
    ensures
        is_record_id(id@),
{
    uuid::Uuid::new_v4().to_string()
}

/// A key that was drawn: one that `uuid::Uuid::new_v4` gives back.
pub closed spec fn is_drawn_id(id: String) -> bool {
    call_ensures(new_record_id, (), id)
}

/// A key is drawn exactly if the generator can give it back, and is then a version 4 UUID.
proof fn lemma_drawn_ids(id: String)
    ensures
        is_drawn_id(id) <==> call_ensures(new_record_id, (), id),
        is_drawn_id(id) ==> is_record_id(id@),
{
}

/// A drawn key is a version 4 UUID in its hyphenated form.
pub proof fn law_drawn_keys_are_uuids(id: String)
    requires
        is_drawn_id(id),
    ensures
        is_record_id(id@),
{
    lemma_drawn_ids(id);
}

/// A statement that stores a measurement under a random key.
pub open spec fn is_post(statement: Statement, payload: NodeTelemetry) -> bool {
    &&& statement.sql@ == insert_sql()
    &&& statement.args@.len() == 1 + row_values(payload).len()
    &&& statement.args@[0] matches SqlValue::Text(id)
    &&& is_record_id(id@)
    &&& statement.args@.skip(1) == row_values(payload)
}

/// The statement that stores a measurement under a new random key.
pub fn post_telemetry(payload: &NodeTelemetry) -> (statement: Statement)
    ensures
        is_post(statement, *payload),
        statement.sql@ == insert_sql(),
        statement.args@.len() == 1 + row_values(*payload).len(),
        statement.args@[0] matches SqlValue::Text(id) && is_record_id(id@),
        statement.args@[0] matches SqlValue::Text(id) && is_drawn_id(id),
        statement.args@.skip(1) == row_values(*payload),
{
    let id = new_record_id();
    proof {
        lemma_drawn_ids(id);
    }
    let statement = insert_statement(id, payload);
    assert(statement.args@.skip(1) =~= row_values(*payload));
    statement
}

/// The answer to a measurement that was stored or not.
pub open spec fn post_reply(stored: bool) -> Result<Status, Status> {
    if stored {
        Ok(Status::Success)
    } else {
        Err(Status::InternalServerError)
    }
}

/// The answer to a measurement, which the database has stored or failed to store.
pub fn post_telemetry_reply(stored: bool) -> (reply: Result<Status, Status>)
    ensures
        reply == post_reply(stored),
{
    if stored {
        Ok(Status::Success)
    } else {
        Err(Status::InternalServerError)
    }
}

/// The key under which a statement stores a row.
pub open spec fn key_of(statement: Statement) -> Seq<char> {
    statement.args@[0]->Text_0@
}

/// The rows of a table, by their keys, after a statement that adds a row: none of the others
/// changes. A key that is taken is not taken again, and the statement fails.
pub open spec fn with_row(
    table: Map<Seq<char>, Seq<SqlValue>>,
    statement: Statement,
) -> Option<Map<Seq<char>, Seq<SqlValue>>> {
    if table.contains_key(key_of(statement)) {
        None
    } else {
        Some(table.insert(key_of(statement), statement.args@.skip(1)))
    }
}

/// Two posts of one measurement run the same text and bind the same values, but for the key.
pub proof fn law_repeated_posts_differ_in_their_keys(
    payload: NodeTelemetry,
    first: Statement,
    second: Statement,
)
    requires
        is_post(first, payload),
        is_post(second, payload),
    ensures
        first.sql@ == second.sql@,
        first.args@.len() == second.args@.len(),
        forall|i: int| 1 <= i < first.args@.len() ==> first.args@[i] == second.args@[i],
{
    assert forall|i: int| 1 <= i < first.args@.len() implies first.args@[i] == second.args@[i] by {
        assert(first.args@.skip(1)[i - 1] == second.args@.skip(1)[i - 1]);
    }
}

/// A measurement that is posted twice, under two keys that are free, is accepted both times
/// and lies in the table twice: nothing is merged or overwritten. Under one key, the second
/// post fails.
pub proof fn law_repeated_posts_add_two_rows(
    table: Map<Seq<char>, Seq<SqlValue>>,
    payload: NodeTelemetry,
    first: Statement,
    second: Statement,
)
    requires
        table.dom().finite(),
        is_post(first, payload),
        is_post(second, payload),
        !table.contains_key(key_of(first)),
        !table.contains_key(key_of(second)),
    ensures
        with_row(table, first) is Some,
        post_reply(with_row(table, first) is Some) == Ok::<Status, Status>(Status::Success),
        post_reply(with_row(with_row(table, first)->0, second) is Some) == if key_of(first)
            != key_of(second) {
            Ok::<Status, Status>(Status::Success)
        } else {
            Err(Status::InternalServerError)
        },
        key_of(first) != key_of(second) ==> {
            let after = with_row(with_row(table, first)->0, second)->0;
            &&& after.dom().finite()
            &&& after.len() == table.len() + 2
            &&& after.contains_key(key_of(first))
            &&& after.contains_key(key_of(second))
            &&& after[key_of(first)] == row_values(payload)
            &&& after[key_of(second)] == row_values(payload)
            &&& forall|key: Seq<char>| #[trigger]
                table.contains_key(key) ==> after.contains_key(key) && after[key] == table[key]
        },
{
}

/// A post adds one row to the table and binds to each of its columns the field of the same
/// name: nothing of the measurement is lost, changed or put elsewhere.
pub proof fn law_post_binds_every_field(payload: NodeTelemetry, statement: Statement, at: int)
    requires
        is_post(statement, payload),
        0 <= at < insert_columns().len(),
    ensures
        statement.sql@
            == "INSERT INTO telemetry (id, hostname, cpu_usage, ram_used_mb, ram_total_mb, load_avg_1m, load_avg_5m, load_avg_15m, uptime_secs, disk_used_gb, disk_total_gb, tailscale_ip, timestamp_sec) VALUES (?, ?, ?, ?, ?, ?, ?, ?, ?, ?, ?, ?, ?)"@,
        statement.args@.len() == 13,
        ({
            let name = insert_columns()[at];
            let value = statement.args@[at];
            &&& name == "id"@ ==> value is Text
            &&& name == "hostname"@ ==> value == SqlValue::Text(payload.hostname)
            &&& name == "cpu_usage"@ ==> value == SqlValue::Single(payload.cpu_usage)
            &&& name == "ram_used_mb"@ ==> (value matches SqlValue::Integer(held) && (held
                == payload.ram_used_mb || held + 0x1_0000_0000_0000_0000 == payload.ram_used_mb))
            &&& name == "ram_total_mb"@ ==> (value matches SqlValue::Integer(held) && (held
                == payload.ram_total_mb || held + 0x1_0000_0000_0000_0000 == payload.ram_total_mb))
            &&& name == "load_avg_1m"@ ==> value == SqlValue::Double(payload.load_avg_1m)
            &&& name == "load_avg_5m"@ ==> value == SqlValue::Double(payload.load_avg_5m)
            &&& name == "load_avg_15m"@ ==> value == SqlValue::Double(payload.load_avg_15m)
            &&& name == "uptime_secs"@ ==> (value matches SqlValue::Integer(held) && (held
                == payload.uptime_secs || held + 0x1_0000_0000_0000_0000 == payload.uptime_secs))
            &&& name == "disk_used_gb"@ ==> value == SqlValue::Double(payload.disk_used_gb)
            &&& name == "disk_total_gb"@ ==> value == SqlValue::Double(payload.disk_total_gb)
            &&& name == "tailscale_ip"@ ==> value == SqlValue::Text(payload.tailscale_ip)
            &&& name == "timestamp_sec"@ ==> value == SqlValue::Integer(payload.timestamp_sec)
        }),
{
    law_statement_texts();
    let id = statement.args@[0]->Text_0;
    law_columns_hold_the_fields_of_their_names(id, payload, at);
    let bound = seq![SqlValue::Text(id)] + row_values(payload);
    assert(bound.len() == 13);
    assert(statement.args@ =~= bound) by {
        assert forall|i: int| 1 <= i < 13 implies statement.args@[i] == bound[i] by {
            assert(statement.args@.skip(1)[i - 1] == row_values(payload)[i - 1]);
        }
    }
}

/// A measurement that the database has stored is answered with 200, one that it has not with
/// 500.
pub proof fn law_posts_are_answered_by_their_outcome(stored: bool)
    ensures
        post_reply(stored) is Ok == stored,
        post_reply(stored) matches Ok(status) ==> status.spec_code() == 200,
        post_reply(stored) matches Err(status) ==> status.spec_code() == 500,
{
}

} // verus!
