//! The history of the fleet: the time window that a reader asks for, and the measurements
//! of that window grouped by node.
use crate::status::Status;
use crate::store::{
    counters_fit, holds_node, law_later_moment_decides, law_since_keeps_what_is_not_earlier,
    law_stored_node_reads_back, node_from_row, node_of, row_values, select_sql, select_statement,
    since, SqlValue, Statement,
};
use crate::telemetry::NodeTelemetry;
use crate::text::{
    lemma_bytes_before_irreflexive, lemma_bytes_before_transitive, order_text, text_before, Order,
};
use vstd::prelude::*;
use vstd::utf8::*;

verus! {

/// The window, in hours, of a reader who asks for none.
pub const DEFAULT_HISTORY_HOURS: u64 = 24;

/// The widest window, in hours.
pub const MAX_HISTORY_HOURS: u64 = 24 * 7;

/// What a reader asks for.
#[derive(Debug, Clone, Copy)]
pub struct TelemetryQuery {
    pub hours: Option<u64>,
}

/// The window, in hours, that a request is given: what was asked for, or the default, kept
/// between one hour and the widest window.
pub open spec fn window_hours(requested: Option<u64>) -> int {
    let hours = match requested {
        Some(hours) => hours,
        None => DEFAULT_HISTORY_HOURS,
    };
    if hours < 1 {
        1
    } else if hours > MAX_HISTORY_HOURS {
        MAX_HISTORY_HOURS as int
    } else {
        hours as int
    }
}

/// The moment at which a window of so many hours, read at time `now`, starts.
pub open spec fn window_start(now: int, hours: int) -> int {
    now - hours * 60 * 60
}

/// A time window, read at a given moment.
#[derive(Debug, Clone, Copy)]
pub struct HistoryWindow {
    pub hours: u64,
    pub now: i64,
    pub min_timestamp: i64,
}

/// The width, in hours, of the window that a request is given.
pub fn history_hours(query: &TelemetryQuery) -> (hours: u64)
    ensures
        hours == window_hours(query.hours),
{
    let requested: u64 = query.hours.unwrap_or(DEFAULT_HISTORY_HOURS);
    if requested < 1 {
        1
    } else if requested > MAX_HISTORY_HOURS {
        MAX_HISTORY_HOURS
    } else {
        requested
    }
}

/// The window that a request made at time `now` is given.
pub fn history_window(query: &TelemetryQuery, now: i64) -> (window: HistoryWindow)
    requires
        window_start(now as int, window_hours(query.hours)) >= i64::MIN,
    ensures
        window.hours == window_hours(query.hours),
        window.now == now,
        window.min_timestamp == window_start(now as int, window_hours(query.hours)),
        now - window.min_timestamp == 3600 * window.hours,
{
    let hours: u64 = history_hours(query);
    let min_timestamp: i64 = now - (hours as i64 * 60 * 60);
    HistoryWindow { hours, now, min_timestamp }
}

/// The statement that reads the measurements of a window.
pub fn history_statement(window: &HistoryWindow) -> (statement: Statement)
    ensures
        statement.sql@ == select_sql(),
        statement.args@ == seq![SqlValue::Integer(window.min_timestamp)],
{
    select_statement(window.min_timestamp)
}

/// The measurements of `records` that were taken on the node `hostname`, in their order.
pub open spec fn records_of(records: Seq<NodeTelemetry>, hostname: Seq<char>) -> Seq<
    NodeTelemetry,
> {
    records.filter(|record: NodeTelemetry| record.hostname@ == hostname)
}

/// Some measurement of `records` was taken on the node `hostname`.
pub open spec fn reports(records: Seq<NodeTelemetry>, hostname: Seq<char>) -> bool {
    exists|i: int| 0 <= i < records.len() && (#[trigger] records[i]).hostname@ == hostname
}

/// `records` grouped by node: each node that occurs, with its measurements in their order.
pub open spec fn grouped(records: Seq<NodeTelemetry>) -> Map<Seq<char>, Seq<NodeTelemetry>> {
    Map::new(
        |hostname: Seq<char>| reports(records, hostname),
        |hostname: Seq<char>| records_of(records, hostname),
    )
}

/// The measurements of one node.
#[derive(Debug, Clone)]
pub struct NodeHistory {
    pub hostname: String,
    pub records: Vec<NodeTelemetry>,
}

/// The host names of `entries` ascend strictly in byte order.
pub open spec fn ascending(entries: Seq<NodeHistory>) -> bool {
    forall|i: int, j: int|
        #![trigger entries[i], entries[j]]
        0 <= i < j < entries.len() ==> text_before(entries[i].hostname@, entries[j].hostname@)
}

/// `entries` lists the node `hostname` at position `i`.
pub open spec fn listed_at(entries: Seq<NodeHistory>, hostname: Seq<char>, i: int) -> bool {
    0 <= i < entries.len() && entries[i].hostname@ == hostname
}

/// `entries` read as a map from host name to measurements.
pub open spec fn entries_map(entries: Seq<NodeHistory>) -> Map<Seq<char>, Seq<NodeTelemetry>> {
    Map::new(
        |hostname: Seq<char>| exists|i: int| listed_at(entries, hostname, i),
        |hostname: Seq<char>| entries[choose|i: int| listed_at(entries, hostname, i)].records@,
    )
}

/// Measurements by host name. Every name occurs once, and the names are kept in ascending
/// byte order.
#[derive(Debug, Clone)]
pub struct NodeHistories {
    entries: Vec<NodeHistory>,
}

impl View for NodeHistories {
    type V = Map<Seq<char>, Seq<NodeTelemetry>>;

    closed spec fn view(&self) -> Map<Seq<char>, Seq<NodeTelemetry>> {
        entries_map(self.entries@)
    }
}

/// In an ascending list a name has one position only.
proof fn lemma_listed_once(entries: Seq<NodeHistory>, i: int, j: int)
    requires
        ascending(entries),
        0 <= i < entries.len(),
        0 <= j < entries.len(),
        entries[i].hostname@ == entries[j].hostname@,
    ensures
        i == j,
{
    lemma_bytes_before_irreflexive(encode_utf8(entries[i].hostname@));
}

/// In an ascending list the map holds at each listed name what the list holds there.
proof fn lemma_entries_map_at(entries: Seq<NodeHistory>, i: int)
    requires
        ascending(entries),
        0 <= i < entries.len(),
    ensures
        entries_map(entries).contains_key(entries[i].hostname@),
        entries_map(entries)[entries[i].hostname@] == entries[i].records@,
{
    let hostname = entries[i].hostname@;
    assert(listed_at(entries, hostname, i));
    let j = choose|j: int| listed_at(entries, hostname, j);
    lemma_listed_once(entries, i, j);
}

/// A map that agrees with an ascending list is the map of that list.
proof fn lemma_entries_map_is(
    entries: Seq<NodeHistory>,
    expected: Map<Seq<char>, Seq<NodeTelemetry>>,
)
    requires
        ascending(entries),
        forall|i: int|
            0 <= i < entries.len() ==> expected.contains_key((#[trigger] entries[i]).hostname@)
                && expected[entries[i].hostname@] == entries[i].records@,
        forall|hostname: Seq<char>| #[trigger]
            expected.contains_key(hostname) ==> exists|i: int| listed_at(entries, hostname, i),
    ensures
        entries_map(entries) == expected,
{
    let actual = entries_map(entries);
    assert forall|hostname: Seq<char>|
        #![trigger actual.contains_key(hostname)]
        actual.contains_key(hostname) implies expected.contains_key(hostname)
        && actual[hostname] == expected[hostname] by {
        let i = choose|i: int| listed_at(entries, hostname, i);
        lemma_entries_map_at(entries, i);
        assert(expected.contains_key(entries[i].hostname@));
    }
    assert(actual =~= expected);
}

/// Changing the measurements at one place of an ascending list changes the map there, and
/// nowhere else.
proof fn lemma_entries_map_updated(before: Seq<NodeHistory>, after: Seq<NodeHistory>, at: int)
    requires
        ascending(before),
        0 <= at < before.len(),
        after == before.update(at, after[at]),
        after[at].hostname@ == before[at].hostname@,
    ensures
        ascending(after),
        entries_map(after) == entries_map(before).insert(
            before[at].hostname@,
            after[at].records@,
        ),
{
    let hostname = before[at].hostname@;
    let expected = entries_map(before).insert(hostname, after[at].records@);
    assert forall|i: int, j: int|
        #![trigger after[i], after[j]]
        0 <= i < j < after.len() implies text_before(after[i].hostname@, after[j].hostname@) by {
        assert(text_before(before[i].hostname@, before[j].hostname@));
    }
    assert forall|i: int| 0 <= i < after.len() implies expected.contains_key(
        (#[trigger] after[i]).hostname@,
    ) && expected[after[i].hostname@] == after[i].records@ by {
        lemma_entries_map_at(before, i);
        if before[i].hostname@ == hostname {
            lemma_listed_once(before, i, at);
        }
    }
    assert forall|name: Seq<char>| #[trigger] expected.contains_key(name) implies exists|i: int|
        listed_at(after, name, i) by {
        if name == hostname {
            assert(listed_at(after, name, at));
        } else {
            let i = choose|i: int| listed_at(before, name, i);
            assert(listed_at(after, name, i));
        }
    }
    lemma_entries_map_is(after, expected);
}

/// Putting a new name where it belongs in an ascending list adds it to the map.
proof fn lemma_entries_map_inserted(before: Seq<NodeHistory>, entry: NodeHistory, at: int)
    requires
        ascending(before),
        0 <= at <= before.len(),
        forall|k: int|
            0 <= k < at ==> text_before((#[trigger] before[k]).hostname@, entry.hostname@),
        forall|k: int|
            at <= k < before.len() ==> text_before(
                entry.hostname@,
                (#[trigger] before[k]).hostname@,
            ),
    ensures
        ascending(before.insert(at, entry)),
        !entries_map(before).contains_key(entry.hostname@),
        entries_map(before.insert(at, entry)) == entries_map(before).insert(
            entry.hostname@,
            entry.records@,
        ),
{
    let hostname = entry.hostname@;
    let after = before.insert(at, entry);
    assert forall|i: int| 0 <= i < before.len() implies (#[trigger] before[i]).hostname@
        != hostname by {
        lemma_bytes_before_irreflexive(encode_utf8(hostname));
    }
    let expected = entries_map(before).insert(hostname, entry.records@);
    assert forall|i: int, j: int|
        #![trigger after[i], after[j]]
        0 <= i < j < after.len() implies text_before(after[i].hostname@, after[j].hostname@) by {
        if i < at && j > at {
            assert(text_before(before[i].hostname@, before[j - 1].hostname@));
        } else if i < at && j < at {
            assert(text_before(before[i].hostname@, before[j].hostname@));
        } else if i > at {
            assert(text_before(before[i - 1].hostname@, before[j - 1].hostname@));
        }
    }
    assert forall|i: int| 0 <= i < after.len() implies expected.contains_key(
        (#[trigger] after[i]).hostname@,
    ) && expected[after[i].hostname@] == after[i].records@ by {
        if i < at {
            lemma_entries_map_at(before, i);
        } else if i > at {
            lemma_entries_map_at(before, i - 1);
        }
    }
    assert forall|name: Seq<char>| #[trigger] expected.contains_key(name) implies exists|i: int|
        listed_at(after, name, i) by {
        if name == hostname {
            assert(listed_at(after, name, at));
        } else {
            let i = choose|i: int| listed_at(before, name, i);
            assert(listed_at(after, name, if i < at { i } else { i + 1 }));
        }
    }
    lemma_entries_map_is(after, expected);
}

/// The map of an ascending list has as many names as the list is long.
proof fn lemma_entries_map_size(entries: Seq<NodeHistory>)
    requires
        ascending(entries),
    ensures
        entries_map(entries).dom().finite(),
        entries_map(entries).dom().len() == entries.len(),
{
    let names = entries.map_values(|entry: NodeHistory| entry.hostname@);
    assert forall|i: int, j: int|
        0 <= i < names.len() && 0 <= j < names.len() && i != j implies names[i] != names[j] by {
        if names[i] == names[j] {
            lemma_listed_once(entries, i, j);
        }
    }
    names.unique_seq_to_set();
    assert forall|hostname: Seq<char>| names.to_set().contains(hostname) == (exists|i: int|
        listed_at(entries, hostname, i)) by {
        if names.to_set().contains(hostname) {
            let i = choose|i: int| 0 <= i < names.len() && names[i] == hostname;
            assert(listed_at(entries, hostname, i));
        }
        if exists|i: int| listed_at(entries, hostname, i) {
            let i = choose|i: int| listed_at(entries, hostname, i);
            assert(names[i] == hostname);
        }
    }
    assert(entries_map(entries).dom() =~= names.to_set());
    vstd::seq_lib::seq_to_set_is_finite(names);
}

impl NodeHistories {
    /// The names ascend strictly.
    pub closed spec fn wf(&self) -> bool {
        ascending(self.entries@)
    }

    /// No measurements.
    pub fn new() -> (histories: Self)
        ensures
            histories.wf(),
            histories@ == Map::<Seq<char>, Seq<NodeTelemetry>>::empty(),
    {
        let histories = NodeHistories { entries: Vec::new() };
        assert(histories@ =~= Map::<Seq<char>, Seq<NodeTelemetry>>::empty());
        histories
    }

    /// Where `hostname` is listed, or else where it belongs: the flag tells which.
    fn locate(&self, hostname: &str) -> (place: (bool, usize))
        requires
            self.wf(),
        ensures
            place.1 <= self.entries@.len(),
            place.0 ==> listed_at(self.entries@, hostname@, place.1 as int),
            !place.0 ==> {
                &&& forall|k: int|
                    0 <= k < place.1 ==> text_before(
                        (#[trigger] self.entries@[k]).hostname@,
                        hostname@,
                    )
                &&& forall|k: int|
                    place.1 <= k < self.entries@.len() ==> text_before(
                        hostname@,
                        (#[trigger] self.entries@[k]).hostname@,
                    )
            },
    {
        let mut low: usize = 0;
        let mut high: usize = self.entries.len();
        while low < high
            invariant
                self.wf(),
                low <= high <= self.entries@.len(),
                forall|k: int|
                    0 <= k < low ==> text_before(
                        (#[trigger] self.entries@[k]).hostname@,
                        hostname@,
                    ),
                forall|k: int|
                    high <= k < self.entries@.len() ==> text_before(
                        hostname@,
                        (#[trigger] self.entries@[k]).hostname@,
                    ),
            decreases high - low,
        {
            let middle: usize = low + (high - low) / 2;
            let ghost found = self.entries@[middle as int].hostname@;
            match order_text(self.entries[middle].hostname.as_str(), hostname) {
                Order::Same => {
                    return (true, middle);
                },
                Order::Before => {
                    assert forall|k: int| 0 <= k <= middle implies text_before(
                        (#[trigger] self.entries@[k]).hostname@,
                        hostname@,
                    ) by {
                        if k < middle {
                            lemma_bytes_before_transitive(
                                encode_utf8(self.entries@[k].hostname@),
                                encode_utf8(found),
                                encode_utf8(hostname@),
                            );
                        }
                    }
                    low = middle + 1;
                },
                Order::After => {
                    assert forall|k: int| middle <= k < self.entries@.len() implies text_before(
                        hostname@,
                        (#[trigger] self.entries@[k]).hostname@,
                    ) by {
                        if k > middle {
                            lemma_bytes_before_transitive(
                                encode_utf8(hostname@),
                                encode_utf8(found),
                                encode_utf8(self.entries@[k].hostname@),
                            );
                        }
                    }
                    high = middle;
                },
            }
        }
        (false, low)
    }

    /// Adds a measurement behind those of its node.
    pub fn push(&mut self, record: NodeTelemetry)
        requires
            old(self).wf(),
        ensures
            final(self).wf(),
            final(self)@ == old(self)@.insert(
                record.hostname@,
                (if old(self)@.contains_key(record.hostname@) {
                    old(self)@[record.hostname@]
                } else {
                    Seq::<NodeTelemetry>::empty()
                }).push(record),
            ),
    {
        let ghost before = self.entries@;
        let (found, at) = self.locate(record.hostname.as_str());
        if found {
            self.entries[at].records.push(record);
            proof {
                lemma_entries_map_at(before, at as int);
                assert(self.entries@ =~= before.update(at as int, self.entries@[at as int]));
                lemma_entries_map_updated(before, self.entries@, at as int);
            }
        } else {
            let hostname = record.hostname.clone();
            let mut records: Vec<NodeTelemetry> = Vec::new();
            records.push(record);
            let entry = NodeHistory { hostname, records };
            proof {
                lemma_entries_map_inserted(before, entry, at as int);
                assert(records@ =~= Seq::<NodeTelemetry>::empty().push(record));
            }
            self.entries.insert(at, entry);
        }
    }

    /// The measurements of the node `hostname`.
    pub fn get(&self, hostname: &str) -> (records: Option<&Vec<NodeTelemetry>>)
        requires
            self.wf(),
        ensures
            match records {
                Some(found) => self@.contains_key(hostname@) && found@ == self@[hostname@],
                None => !self@.contains_key(hostname@),
            },
    {
        let (found, at) = self.locate(hostname);
        if found {
            proof {
                lemma_entries_map_at(self.entries@, at as int);
            }
            Some(&self.entries[at].records)
        } else {
            proof {
                assert forall|k: int| !listed_at(self.entries@, hostname@, k) by {
                    lemma_bytes_before_irreflexive(encode_utf8(hostname@));
                }
            }
            None
        }
    }

    /// How many nodes there are.
    pub fn len(&self) -> (nodes: usize)
        requires
            self.wf(),
        ensures
            self@.dom().finite(),
            nodes == self@.dom().len(),
    {
        proof {
            lemma_entries_map_size(self.entries@);
        }
        self.entries.len()
    }

    /// The nodes in ascending order of their names, each with its measurements.
    pub fn into_entries(self) -> (entries: Vec<NodeHistory>)
        requires
            self.wf(),
        ensures
            ascending(entries@),
            entries_map(entries@) == self@,
    {
        self.entries
    }
}

/// One more measurement joins the group of its node and leaves the other groups alone.
proof fn lemma_grouped_push(records: Seq<NodeTelemetry>, record: NodeTelemetry)
    ensures
        grouped(records.push(record)) == grouped(records).insert(
            record.hostname@,
            (if grouped(records).contains_key(record.hostname@) {
                grouped(records)[record.hostname@]
            } else {
                Seq::<NodeTelemetry>::empty()
            }).push(record),
        ),
{
    let more = records.push(record);
    let expected = grouped(records).insert(
        record.hostname@,
        (if grouped(records).contains_key(record.hostname@) {
            grouped(records)[record.hostname@]
        } else {
            Seq::<NodeTelemetry>::empty()
        }).push(record),
    );
    assert forall|hostname: Seq<char>| records_of(more, hostname) == if record.hostname@
        == hostname {
        records_of(records, hostname).push(record)
    } else {
        records_of(records, hostname)
    } by {
        reveal(Seq::filter);
        assert(more.drop_last() =~= records);
    }
    assert forall|hostname: Seq<char>| reports(more, hostname) == (reports(records, hostname)
        || record.hostname@ == hostname) by {
        if reports(records, hostname) {
            let i = choose|i: int|
                0 <= i < records.len() && (#[trigger] records[i]).hostname@ == hostname;
            assert(more[i] == records[i]);
        }
        if record.hostname@ == hostname {
            assert(more[records.len() as int] == record);
        }
        if reports(more, hostname) && record.hostname@ != hostname {
            let i = choose|i: int|
                0 <= i < more.len() && (#[trigger] more[i]).hostname@ == hostname;
            assert(records[i] == more[i]);
        }
    }
    if !reports(records, record.hostname@) {
        lemma_no_records(records, record.hostname@);
    }
    assert(grouped(more) =~= expected);
}

/// A node that does not occur has no measurements.
proof fn lemma_no_records(records: Seq<NodeTelemetry>, hostname: Seq<char>)
    requires
        !reports(records, hostname),
    ensures
        records_of(records, hostname) == Seq::<NodeTelemetry>::empty(),
    decreases records.len(),
{
    reveal(Seq::filter);
    if records.len() > 0 {
        let fewer = records.drop_last();
        assert(records[records.len() - 1].hostname@ != hostname);
        assert forall|i: int| 0 <= i < fewer.len() implies (#[trigger] fewer[i]).hostname@
            != hostname by {
            assert(records[i] == fewer[i]);
        }
        lemma_no_records(fewer, hostname);
    }
}

/// Groups measurements by node.
pub fn group_by_hostname(records: Vec<NodeTelemetry>) -> (histories: NodeHistories)
    ensures
        histories.wf(),
        histories@ == grouped(records@),
{
    let mut histories = NodeHistories::new();
    let ghost all = records@;
    proof {
        assert(all.take(0) =~= Seq::<NodeTelemetry>::empty());
        assert(grouped(all.take(0)) =~= Map::<Seq<char>, Seq<NodeTelemetry>>::empty());
    }
    for record in iter: records
        invariant
            iter.seq() == all,
            histories.wf(),
            histories@ == grouped(all.take(iter.index())),
    {
        proof {
            lemma_grouped_push(all.take(iter.index()), record);
            assert(all.take(iter.index() + 1) =~= all.take(iter.index()).push(record));
        }
        histories.push(record);
    }
    assert(all.take(all.len() as int) =~= all);
    histories
}

/// The history of the fleet over a window.
#[derive(Debug, Clone)]
pub struct TelemetryHistoryResponse {
    pub window_hours: u64,
    pub generated_at_sec: i64,
    pub nodes: NodeHistories,
}

/// Every row holds a measurement.
pub open spec fn all_hold_nodes(rows: Seq<Vec<SqlValue>>) -> bool {
    forall|i: int| 0 <= i < rows.len() ==> holds_node((#[trigger] rows[i])@)
}

/// The measurements that the rows hold.
pub open spec fn nodes_of(rows: Seq<Vec<SqlValue>>) -> Seq<NodeTelemetry> {
    rows.map_values(|row: Vec<SqlValue>| node_of(row@))
}

/// Reads a measurement from every row, or none if some row holds none.
fn read_rows(rows: &Vec<Vec<SqlValue>>) -> (records: Option<Vec<NodeTelemetry>>)
    ensures
        match records {
            Some(read) => all_hold_nodes(rows@) && read@ == nodes_of(rows@),
            None => !all_hold_nodes(rows@),
        },
{
    let mut records: Vec<NodeTelemetry> = Vec::new();
    let mut i: usize = 0;
    while i < rows.len()
        invariant
            i <= rows.len(),
            records@.len() == i,
            forall|k: int| 0 <= k < i ==> holds_node((#[trigger] rows@[k])@),
            forall|k: int| 0 <= k < i ==> #[trigger] records@[k] == node_of(rows@[k]@),
        decreases rows.len() - i,
    {
        match node_from_row(&rows[i]) {
            Some(node) => {
                records.push(node);
            },
            None => {
                assert(!holds_node(rows@[i as int]@));
                return None;
            },
        }
        i += 1;
    }
    assert(records@ =~= nodes_of(rows@));
    Some(records)
}

/// The answer to a reader: the rows that the database gave for the window, grouped by node,
/// or an error if it gave none or a row that holds no measurement.
pub fn get_telemetry(window: &HistoryWindow, rows: Option<Vec<Vec<SqlValue>>>) -> (reply: Result<
    TelemetryHistoryResponse,
    Status,
>)
    ensures
        match reply {
            Ok(history) => {
                &&& rows is Some
                &&& all_hold_nodes(rows->0@)
                &&& history.window_hours == window.hours
                &&& history.generated_at_sec == window.now
                &&& history.nodes.wf()
                &&& history.nodes@ == grouped(nodes_of(rows->0@))
            },
            Err(status) => {
                &&& status == Status::InternalServerError
                &&& rows is None || !all_hold_nodes(rows->0@)
            },
        },
{
    match rows {
        None => Err(Status::InternalServerError),
        Some(rows) => match read_rows(&rows) {
            None => Err(Status::InternalServerError),
            Some(records) => Ok(
                TelemetryHistoryResponse {
                    window_hours: window.hours,
                    generated_at_sec: window.now,
                    nodes: group_by_hostname(records),
                },
            ),
        },
    }
}

/// Whatever is asked for, the window lies between one hour and the widest; a width in that
/// range is given as it is, and the default is one of them.
pub proof fn law_window_is_bounded(requested: Option<u64>)
    ensures
        1 <= window_hours(requested) <= MAX_HISTORY_HOURS,
        requested matches Some(hours) && 1 <= hours <= MAX_HISTORY_HOURS ==> window_hours(requested)
            == requested->0,
        window_hours(None) == DEFAULT_HISTORY_HOURS,
        window_hours(Some(window_hours(requested) as u64)) == window_hours(requested),
{
}

/// A wider window starts no later: who asks for more hours sees no less.
pub proof fn law_wider_window_sees_more(now: int, fewer: u64, more: u64, timestamp: int)
    requires
        fewer <= more,
        timestamp >= window_start(now, window_hours(Some(fewer))),
    ensures
        timestamp >= window_start(now, window_hours(Some(more))),
{
}

/// The group of a node, cut at a moment, is the group among the measurements from that
/// moment on.
proof fn lemma_group_since(records: Seq<NodeTelemetry>, moment: int, hostname: Seq<char>)
    ensures
        records_of(since(records, moment), hostname) == since(
            records_of(records, hostname),
            moment,
        ),
    decreases records.len(),
{
    reveal(Seq::filter);
    if records.len() > 0 {
        let fewer = records.drop_last();
        let last = records.last();
        lemma_group_since(fewer, moment, hostname);
        if last.timestamp_sec >= moment {
            let left = since(fewer, moment);
            assert(since(records, moment) == left.push(last));
            assert(left.push(last).drop_last() =~= left);
        }
        if last.hostname@ == hostname {
            let group = records_of(fewer, hostname);
            assert(records_of(records, hostname) == group.push(last));
            assert(group.push(last).drop_last() =~= group);
        }
    }
}

/// Of the same measurements, read at the same time, the groups of a narrower window are those
/// of a wider one cut at the start of the narrower, without the nodes of which nothing is left.
pub proof fn law_narrower_groups_are_cut(
    records: Seq<NodeTelemetry>,
    now: int,
    narrower: Option<u64>,
    wider: Option<u64>,
    hostname: Seq<char>,
)
    requires
        window_hours(narrower) <= window_hours(wider),
    ensures
        ({
            let start = window_start(now, window_hours(narrower));
            let fewer = grouped(since(records, start));
            let more = grouped(since(records, window_start(now, window_hours(wider))));
            &&& fewer.contains_key(hostname) <==> more.contains_key(hostname) && since(
                more[hostname],
                start,
            ).len() > 0
            &&& fewer.contains_key(hostname) ==> fewer[hostname] == since(more[hostname], start)
        }),
{
    let start = window_start(now, window_hours(narrower));
    let wide = since(records, window_start(now, window_hours(wider)));
    let narrow = since(records, start);
    law_later_moment_decides(records, window_start(now, window_hours(wider)), start);
    assert(since(wide, start) == narrow);
    lemma_group_since(wide, start, hostname);
    if reports(narrow, hostname) {
        lemma_group_is_not_empty(narrow, hostname);
    }
    if records_of(narrow, hostname).len() > 0 {
        lemma_group_member(narrow, hostname, 0);
        let record = records_of(narrow, hostname)[0];
        let i = choose|i: int| 0 <= i < narrow.len() && narrow[i] == record;
        assert(narrow[i].hostname@ == hostname);
    }
    if records_of(wide, hostname).len() > 0 {
        lemma_group_member(wide, hostname, 0);
        let record = records_of(wide, hostname)[0];
        let i = choose|i: int| 0 <= i < wide.len() && wide[i] == record;
        assert(wide[i].hostname@ == hostname);
    } else {
        reveal(Seq::filter);
        assert(since(records_of(wide, hostname), start).len() == 0);
    }
}

/// Every measurement of a group is one of those that were grouped, and was taken on the node
/// of the group.
proof fn lemma_group_member(records: Seq<NodeTelemetry>, hostname: Seq<char>, at: int)
    requires
        0 <= at < records_of(records, hostname).len(),
    ensures
        records_of(records, hostname)[at].hostname@ == hostname,
        records.contains(records_of(records, hostname)[at]),
    decreases records.len(),
{
    reveal(Seq::filter);
    if records.len() > 0 {
        let fewer = records.drop_last();
        let group = records_of(fewer, hostname);
        if at < group.len() {
            lemma_group_member(fewer, hostname, at);
            let i = choose|i: int| 0 <= i < fewer.len() && fewer[i] == group[at];
            assert(records[i] == group[at]);
        } else {
            assert(records[records.len() - 1] == records.last());
        }
    }
}

/// Grouping neither loses nor adds a measurement: each one occurs in the group of its node
/// exactly as often as it was handed in, and in no other group.
pub proof fn law_grouping_keeps_every_record(
    records: Seq<NodeTelemetry>,
    record: NodeTelemetry,
    hostname: Seq<char>,
)
    ensures
        records.contains(record) ==> grouped(records).contains_key(record.hostname@),
        grouped(records).contains_key(hostname) ==> {
            &&& grouped(records)[hostname].len() > 0
            &&& grouped(records)[hostname].to_multiset().count(record) == if record.hostname@
                == hostname {
                records.to_multiset().count(record)
            } else {
                0
            }
        },
{
    if records.contains(record) {
        let i = choose|i: int| 0 <= i < records.len() && records[i] == record;
        assert(reports(records, record.hostname@));
    }
    if grouped(records).contains_key(hostname) {
        lemma_group_counts(records, record, hostname);
        lemma_group_is_not_empty(records, hostname);
    }
}

proof fn lemma_group_is_not_empty(records: Seq<NodeTelemetry>, hostname: Seq<char>)
    requires
        reports(records, hostname),
    ensures
        records_of(records, hostname).len() > 0,
    decreases records.len(),
{
    reveal(Seq::filter);
    let fewer = records.drop_last();
    if records.last().hostname@ != hostname {
        let i = choose|i: int|
            0 <= i < records.len() && (#[trigger] records[i]).hostname@ == hostname;
        assert(fewer[i] == records[i]);
        lemma_group_is_not_empty(fewer, hostname);
    }
}

proof fn lemma_group_counts(
    records: Seq<NodeTelemetry>,
    record: NodeTelemetry,
    hostname: Seq<char>,
)
    ensures
        records_of(records, hostname).to_multiset().count(record) == if record.hostname@
            == hostname {
            records.to_multiset().count(record)
        } else {
            0
        },
    decreases records.len(),
{
    broadcast use vstd::seq_lib::group_to_multiset_ensures;

    reveal(Seq::filter);
    if records.len() > 0 {
        let fewer = records.drop_last();
        lemma_group_counts(fewer, record, hostname);
        assert(records =~= fewer.push(records.last()));
    } else {
        assert(records =~= Seq::<NodeTelemetry>::empty());
    }
}

/// The measurements of each node come one after the other in time.
pub open spec fn in_time_order(records: Seq<NodeTelemetry>) -> bool {
    forall|i: int, j: int|
        #![trigger records[i], records[j]]
        0 <= i < j < records.len() && records[i].hostname@ == records[j].hostname@
            ==> records[i].timestamp_sec <= records[j].timestamp_sec
}

/// Rows that come by host name and then by time make groups that are in order of time.
pub proof fn law_groups_are_in_time_order(records: Seq<NodeTelemetry>, hostname: Seq<char>)
    requires
        in_time_order(records),
        grouped(records).contains_key(hostname),
    ensures
        forall|i: int, j: int|
            0 <= i < j < grouped(records)[hostname].len()
                ==> grouped(records)[hostname][i].timestamp_sec
                <= grouped(records)[hostname][j].timestamp_sec,
{
    lemma_group_in_time_order(records, hostname);
}

proof fn lemma_group_in_time_order(records: Seq<NodeTelemetry>, hostname: Seq<char>)
    requires
        in_time_order(records),
    ensures
        forall|i: int, j: int|
            0 <= i < j < records_of(records, hostname).len() ==> records_of(
                records,
                hostname,
            )[i].timestamp_sec <= records_of(records, hostname)[j].timestamp_sec,
    decreases records.len(),
{
    reveal(Seq::filter);
    if records.len() > 0 {
        let fewer = records.drop_last();
        let group = records_of(fewer, hostname);
        assert forall|i: int, j: int|
            #![trigger fewer[i], fewer[j]]
            0 <= i < j < fewer.len() && fewer[i].hostname@ == fewer[j].hostname@ implies {
            fewer[i].timestamp_sec <= fewer[j].timestamp_sec
        } by {
            assert(records[i] == fewer[i] && records[j] == fewer[j]);
        }
        lemma_group_in_time_order(fewer, hostname);
        if records.last().hostname@ == hostname {
            assert forall|i: int| 0 <= i < group.len() implies group[i].timestamp_sec
                <= records.last().timestamp_sec by {
                lemma_group_member(fewer, hostname, i);
                let k = choose|k: int| 0 <= k < fewer.len() && fewer[k] == group[i];
                assert(records[k] == group[i]);
                assert(records[records.len() - 1] == records.last());
            }
        }
    }
}

/// If all rows lie in the window, so does every measurement of every group.
pub proof fn law_groups_stay_in_window(
    records: Seq<NodeTelemetry>,
    start: int,
    hostname: Seq<char>,
    at: int,
)
    requires
        forall|i: int| 0 <= i < records.len() ==> (#[trigger] records[i]).timestamp_sec >= start,
        grouped(records).contains_key(hostname),
        0 <= at < grouped(records)[hostname].len(),
    ensures
        grouped(records)[hostname][at].timestamp_sec >= start,
        grouped(records)[hostname][at].hostname@ == hostname,
{
    lemma_group_member(records, hostname, at);
    let record = grouped(records)[hostname][at];
    let i = choose|i: int| 0 <= i < records.len() && records[i] == record;
    assert(records[i].timestamp_sec >= start);
}

/// A history gives back the measurements that were stored: rows written from them read as
/// those measurements. If one of them had a counter of 2^63 or more, none can be read.
pub proof fn law_history_gives_back_what_was_stored(
    nodes: Seq<NodeTelemetry>,
    rows: Seq<Vec<SqlValue>>,
)
    requires
        rows.len() == nodes.len(),
        forall|i: int| 0 <= i < rows.len() ==> (#[trigger] rows[i])@ == row_values(nodes[i]),
    ensures
        all_hold_nodes(rows) <==> forall|i: int|
            0 <= i < nodes.len() ==> counters_fit(#[trigger] nodes[i]),
        all_hold_nodes(rows) ==> nodes_of(rows) == nodes,
{
    assert forall|i: int| 0 <= i < rows.len() implies {
        &&& holds_node((#[trigger] rows[i])@) <==> counters_fit(nodes[i])
        &&& counters_fit(nodes[i]) ==> node_of(rows[i]@) == nodes[i]
    } by {
        law_stored_node_reads_back(nodes[i]);
    }
    if forall|i: int| 0 <= i < nodes.len() ==> counters_fit(#[trigger] nodes[i]) {
        assert forall|i: int| 0 <= i < rows.len() implies holds_node((#[trigger] rows[i])@) by {
            assert(counters_fit(nodes[i]));
        }
    }
    if all_hold_nodes(rows) {
        assert forall|i: int| 0 <= i < nodes.len() implies counters_fit(#[trigger] nodes[i]) by {
            assert(holds_node(rows[i]@));
        }
        assert forall|i: int| 0 <= i < nodes.len() implies nodes_of(rows)[i] == nodes[i] by {
            assert(holds_node(rows[i]@));
        }
        assert(nodes_of(rows) =~= nodes);
    }
}

/// The window is as wide as was asked for, hour for hour: from one hour to 168; less is taken
/// as one, more as 168, and nothing as 24.
pub proof fn law_window_is_as_wide_as_asked(requested: Option<u64>)
    ensures
        match requested {
            None => window_hours(requested) == 24,
            Some(hours) => {
                &&& 1 <= hours <= 168 ==> window_hours(requested) == hours
                &&& hours < 1 ==> window_hours(requested) == 1
                &&& hours > 168 ==> window_hours(requested) == 168
            },
        },
{
}

/// A measurement lies in a window of so many hours exactly if it is no older than that many
/// times 3600 seconds.
pub proof fn law_window_holds_what_is_young_enough(now: int, hours: int, timestamp: int)
    ensures
        timestamp >= window_start(now, hours) <==> now - timestamp <= 3600 * hours,
{
}

/// A reader is shown a measurement exactly if its age is at most the hours that were asked
/// for, between one hour and a week: it stands in the group of its node, and in no other.
pub proof fn law_reader_sees_the_last_hours(
    records: Seq<NodeTelemetry>,
    now: int,
    requested: Option<u64>,
    record: NodeTelemetry,
    hostname: Seq<char>,
)
    requires
        records.contains(record),
    ensures
        ({
            let hours: int = match requested {
                None => 24,
                Some(asked) => if asked < 1 {
                    1
                } else if asked > 168 {
                    168
                } else {
                    asked as int
                },
            };
            let shown = grouped(since(records, window_start(now, window_hours(requested))));
            shown.contains_key(hostname) && shown[hostname].contains(record) <==> now
                - record.timestamp_sec <= 3600 * hours && record.hostname@ == hostname
        }),
{
    let start = window_start(now, window_hours(requested));
    let left = since(records, start);
    law_since_keeps_what_is_not_earlier(records, start, record);
    lemma_group_holds(left, record, hostname);
    if left.contains(record) && record.hostname@ == hostname {
        let i = choose|i: int| 0 <= i < left.len() && left[i] == record;
        assert(left[i].hostname@ == hostname);
    }
}

proof fn lemma_group_holds(records: Seq<NodeTelemetry>, record: NodeTelemetry, hostname: Seq<char>)
    ensures
        records_of(records, hostname).contains(record) <==> records.contains(record)
            && record.hostname@ == hostname,
{
    broadcast use vstd::seq_lib::group_to_multiset_ensures;

    lemma_group_counts(records, record, hostname);
    assert(records.contains(record) <==> records.to_multiset().count(record) > 0);
    let group = records_of(records, hostname);
    assert(group.contains(record) <==> group.to_multiset().count(record) > 0);
}

/// One measurement makes one group, and no measurements make none.
pub proof fn law_one_record_makes_one_group(record: NodeTelemetry)
    ensures
        grouped(seq![record]) == Map::<Seq<char>, Seq<NodeTelemetry>>::empty().insert(
            record.hostname@,
            seq![record],
        ),
        grouped(Seq::<NodeTelemetry>::empty()) == Map::<Seq<char>, Seq<NodeTelemetry>>::empty(),
{
    let none = Seq::<NodeTelemetry>::empty();
    let empty = Map::<Seq<char>, Seq<NodeTelemetry>>::empty();
    assert(grouped(none) =~= empty);
    lemma_grouped_push(none, record);
    assert(none.push(record) =~= seq![record]);
}

/// The groups of two runs of measurements, one behind the other, are the groups of the first
/// continued by those of the second: a node occurs if it occurs in either, and its measurements
/// keep their order.
pub proof fn law_groups_are_continued(
    first: Seq<NodeTelemetry>,
    second: Seq<NodeTelemetry>,
    hostname: Seq<char>,
)
    ensures
        ({
            let both = grouped(first + second);
            let a = grouped(first);
            let b = grouped(second);
            &&& both.contains_key(hostname) <==> a.contains_key(hostname) || b.contains_key(
                hostname,
            )
            &&& both.contains_key(hostname) ==> both[hostname] == (if a.contains_key(hostname) {
                a[hostname]
            } else {
                Seq::empty()
            }) + (if b.contains_key(hostname) {
                b[hostname]
            } else {
                Seq::empty()
            })
        }),
    decreases second.len(),
{
    if second.len() == 0 {
        assert(first + second =~= first);
        if grouped(first).contains_key(hostname) {
            assert(grouped(first)[hostname] + Seq::<NodeTelemetry>::empty() =~= grouped(
                first,
            )[hostname]);
        }
        assert(!reports(second, hostname));
    } else {
        let fewer = second.drop_last();
        let last = second.last();
        law_groups_are_continued(first, fewer, hostname);
        assert(first + second =~= (first + fewer).push(last));
        assert(second =~= fewer.push(last));
        lemma_grouped_push(first + fewer, last);
        lemma_grouped_push(fewer, last);
        let a = grouped(first);
        let b = grouped(fewer);
        let left: Seq<NodeTelemetry> = if a.contains_key(hostname) {
            a[hostname]
        } else {
            Seq::empty()
        };
        let right: Seq<NodeTelemetry> = if b.contains_key(hostname) {
            b[hostname]
        } else {
            Seq::empty()
        };
        assert(left + right.push(last) =~= (left + right).push(last));
        assert(Seq::<NodeTelemetry>::empty() + Seq::<NodeTelemetry>::empty() =~= Seq::<
            NodeTelemetry,
        >::empty());
    }
}

/// The list of a history names every node of it once, in ascending order of the bytes of the
/// names, and gives each the measurements of its group.
pub proof fn law_listed_nodes_are_the_groups(entries: Seq<NodeHistory>, i: int, j: int)
    requires
        ascending(entries),
        0 <= i < j < entries.len(),
    ensures
        entries[i].hostname@ != entries[j].hostname@,
        text_before(entries[i].hostname@, entries[j].hostname@),
        entries_map(entries).contains_key(entries[i].hostname@),
        entries_map(entries)[entries[i].hostname@] == entries[i].records@,
        entries_map(entries)[entries[j].hostname@] == entries[j].records@,
{
    lemma_entries_map_at(entries, i);
    lemma_entries_map_at(entries, j);
    lemma_bytes_before_irreflexive(encode_utf8(entries[i].hostname@));
}

/// A list of nodes and the map of its groups hold the same: every name of the one is a name of
/// the other, with the same measurements, and the list is no longer than the map.
pub proof fn law_every_group_is_listed(entries: Seq<NodeHistory>, hostname: Seq<char>)
    requires
        ascending(entries),
    ensures
        entries_map(entries).contains_key(hostname) <==> exists|i: int|
            0 <= i < entries.len() && (#[trigger] entries[i]).hostname@ == hostname
                && entries[i].records@ == entries_map(entries)[hostname],
        entries_map(entries).dom().finite(),
        entries_map(entries).dom().len() == entries.len(),
{
    lemma_entries_map_size(entries);
    if entries_map(entries).contains_key(hostname) {
        let i = choose|i: int| listed_at(entries, hostname, i);
        lemma_entries_map_at(entries, i);
        assert(entries[i].hostname@ == hostname);
    }
    if exists|i: int|
        0 <= i < entries.len() && (#[trigger] entries[i]).hostname@ == hostname
            && entries[i].records@ == entries_map(entries)[hostname] {
        let i = choose|i: int|
            0 <= i < entries.len() && (#[trigger] entries[i]).hostname@ == hostname
                && entries[i].records@ == entries_map(entries)[hostname];
        assert(listed_at(entries, hostname, i));
    }
}

/// The rows of a history are read one by one: each gives the measurement that it was written
/// from, in the order of the rows, as long as no counter reaches 2^63; one that does spoils the
/// whole reading.
pub proof fn law_rows_are_read_in_their_order(
    nodes: Seq<NodeTelemetry>,
    rows: Seq<Vec<SqlValue>>,
    at: int,
)
    requires
        rows.len() == nodes.len(),
        forall|i: int| 0 <= i < rows.len() ==> (#[trigger] rows[i])@ == row_values(nodes[i]),
        0 <= at < nodes.len(),
    ensures
        nodes_of(rows).len() == nodes.len(),
        all_hold_nodes(rows) ==> nodes_of(rows)[at] == nodes[at],
        all_hold_nodes(rows) ==> nodes[at].ram_used_mb < 0x8000_0000_0000_0000
            && nodes[at].ram_total_mb < 0x8000_0000_0000_0000 && nodes[at].uptime_secs
            < 0x8000_0000_0000_0000,
        (forall|i: int|
            0 <= i < nodes.len() ==> (#[trigger] nodes[i]).ram_used_mb < 0x8000_0000_0000_0000
                && nodes[i].ram_total_mb < 0x8000_0000_0000_0000 && nodes[i].uptime_secs
                < 0x8000_0000_0000_0000) ==> all_hold_nodes(rows),
{
    law_history_gives_back_what_was_stored(nodes, rows);
    if all_hold_nodes(rows) {
        assert(counters_fit(nodes[at]));
    }
}

} // verus!
