//! Pruning: how long measurements are kept, and what is said of a round of pruning.
use crate::history::{window_hours, window_start, MAX_HISTORY_HOURS};
use crate::store::{
    delete_sql, delete_statement, law_later_moment_decides, law_since_keeps_what_is_not_earlier,
    since, SqlValue, Statement,
};
use crate::telemetry::NodeTelemetry;
use vstd::prelude::*;

verus! {

/// How many days measurements are kept.
pub const RETENTION_DAYS: i64 = 14;

/// How many seconds lie between two rounds of pruning.
pub const CLEANUP_INTERVAL_SECS: u64 = 60 * 60;

/// The moment, at time `now`, before which measurements are removed.
pub open spec fn retention_cutoff(now: int) -> int {
    now - RETENTION_DAYS * 24 * 60 * 60
}

/// The statement that removes, at time `now`, the measurements that are no longer kept.
pub fn cleanup_old_telemetry(now: i64) -> (statement: Statement)
    requires
        retention_cutoff(now as int) >= i64::MIN,
    ensures
        statement.sql@ == delete_sql(),
        statement.args@ == seq![SqlValue::Integer(retention_cutoff(now as int) as i64)],
        statement.args@[0] matches SqlValue::Integer(cutoff) && now - cutoff == 14 * 86_400,
{
    delete_statement(now - (RETENTION_DAYS * 24 * 60 * 60))
}

/// What is said of a round of pruning.
#[derive(Debug, Clone)]
pub enum RetentionReport {
    /// Rows older than so many days were removed.
    Pruned { rows: u64, days: i64 },
    /// There was nothing to remove, and nothing is said.
    Quiet,
    /// The rows could not be removed, for the reason that the database gave.
    Failed { reason: String },
}

/// Reports on a round of pruning that removed so many rows, or failed.
pub fn retention_report(outcome: Result<u64, String>) -> (report: RetentionReport)
    ensures
        report == (match outcome {
            Ok(rows) => if rows > 0 {
                (RetentionReport::Pruned { rows, days: RETENTION_DAYS })
            } else {
                RetentionReport::Quiet
            },
            Err(reason) => (RetentionReport::Failed { reason }),
        }),
{
    match outcome {
        Ok(rows) => if rows > 0 {
            RetentionReport::Pruned { rows, days: RETENTION_DAYS }
        } else {
            RetentionReport::Quiet
        },
        Err(reason) => RetentionReport::Failed { reason },
    }
}

/// Pruning never reaches into a window that can be asked for: what a reader may still see
/// at time `read_at` has not been removed by any round of pruning up to a week later.
pub proof fn law_windows_are_kept(
    requested: Option<u64>,
    read_at: int,
    pruned_at: int,
    timestamp: int,
)
    requires
        pruned_at <= read_at + (RETENTION_DAYS * 24 - MAX_HISTORY_HOURS) * 60 * 60,
        timestamp >= window_start(read_at, window_hours(requested)),
    ensures
        timestamp >= retention_cutoff(pruned_at),
{
}

/// A reader of any window at time `read_at` finds the same measurements whether or not there
/// was a round of pruning up to a week later.
pub proof fn law_pruning_is_not_seen(
    records: Seq<NodeTelemetry>,
    requested: Option<u64>,
    read_at: int,
    pruned_at: int,
)
    requires
        pruned_at <= read_at + (RETENTION_DAYS * 24 - MAX_HISTORY_HOURS) * 60 * 60,
    ensures
        since(
            since(records, retention_cutoff(pruned_at)),
            window_start(read_at, window_hours(requested)),
        ) == since(records, window_start(read_at, window_hours(requested))),
{
    law_later_moment_decides(
        records,
        retention_cutoff(pruned_at),
        window_start(read_at, window_hours(requested)),
    );
}

/// Two rounds of pruning, in either order, leave what the later one alone would leave; and a
/// round that is repeated removes nothing more.
pub proof fn law_later_round_decides(records: Seq<NodeTelemetry>, earlier: int, later: int)
    requires
        earlier <= later,
    ensures
        since(since(records, retention_cutoff(earlier)), retention_cutoff(later)) == since(
            records,
            retention_cutoff(later),
        ),
        since(since(records, retention_cutoff(later)), retention_cutoff(earlier)) == since(
            records,
            retention_cutoff(later),
        ),
{
    law_later_moment_decides(records, retention_cutoff(earlier), retention_cutoff(later));
    law_later_moment_decides(records, retention_cutoff(later), retention_cutoff(earlier));
}

/// Later rounds of pruning remove whatever earlier ones would have removed.
pub proof fn law_cutoff_advances(earlier: int, later: int, timestamp: int)
    requires
        earlier <= later,
        timestamp < retention_cutoff(earlier),
    ensures
        timestamp < retention_cutoff(later),
{
}

/// A round of pruning removes a measurement exactly if it is older than fourteen days.
pub proof fn law_what_is_older_than_two_weeks_goes(
    records: Seq<NodeTelemetry>,
    now: int,
    record: NodeTelemetry,
)
    requires
        records.contains(record),
    ensures
        since(records, retention_cutoff(now)).contains(record) <==> now - record.timestamp_sec <= 14
            * 86_400,
        record.timestamp_sec < retention_cutoff(now) <==> now - record.timestamp_sec > 14 * 86_400,
{
    law_since_keeps_what_is_not_earlier(records, retention_cutoff(now), record);
}

} // verus!
