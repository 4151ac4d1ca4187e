//! The counters as text, for a monitoring system to fetch.

use vstd::prelude::*;
use vstd::slice::slice_subrange;
use vstd::utf8::encode_utf8;

use crate::metrics::{Metrics, MetricsSnapshot};
use crate::text::{decimal, push_decimal};
use crate::wire::same_bytes;

verus! {

/// The most bytes of a request that are read.
pub const MAX_HTTP_HEADER_SIZE: usize = 8192;

/// What a request for the counters starts with: `GET /metrics HTTP/1.`
pub const METRICS_REQUEST: [u8; 20] = [
    0x47, 0x45, 0x54, 0x20, 0x2f, 0x6d, 0x65, 0x74, 0x72, 0x69, 0x63, 0x73,
    0x20, 0x48, 0x54, 0x54, 0x50, 0x2f, 0x31, 0x2e,
];

/// A counter as it is shown: its name, its type, and its value.
pub struct Shown {
    pub name: Seq<char>,
    pub kind: Seq<char>,
    pub value: u64,
}

/// The text of a counter: a line with its type, and a line with its value.
pub open spec fn shown_text(shown: Shown) -> Seq<char> {
    "# TYPE "@ + shown.name + seq![' '] + shown.kind + seq!['\n'] + shown.name + seq![' ']
        + decimal(shown.value as nat) + seq!['\n']
}

/// The text of counters, one after another.
pub open spec fn page(list: Seq<Shown>) -> Seq<char>
    decreases list.len(),
{
    if list.len() == 0 {
        seq![]
    } else {
        page(list.drop_last()) + shown_text(list.last())
    }
}

/// The counters in the order in which they are shown.
pub open spec fn shown_counters(c: MetricsSnapshot) -> Seq<Shown> {
    seq![
        Shown { name: "forgekv_connections_total"@, kind: "counter"@, value: c.connections_total },
        Shown { name: "forgekv_connections_active"@, kind: "gauge"@, value: c.connections_active },
        Shown { name: "forgekv_connections_rejected_total"@, kind: "counter"@, value: c.connections_rejected_total },
        Shown { name: "forgekv_commands_total"@, kind: "counter"@, value: c.commands_total },
        Shown { name: "forgekv_gets_total"@, kind: "counter"@, value: c.gets_total },
        Shown { name: "forgekv_sets_total"@, kind: "counter"@, value: c.sets_total },
        Shown { name: "forgekv_deletes_total"@, kind: "counter"@, value: c.deletes_total },
        Shown { name: "forgekv_hits_total"@, kind: "counter"@, value: c.hits_total },
        Shown { name: "forgekv_misses_total"@, kind: "counter"@, value: c.misses_total },
        Shown { name: "forgekv_expired_keys_total"@, kind: "counter"@, value: c.expired_keys_total },
        Shown { name: "forgekv_protocol_errors_total"@, kind: "counter"@, value: c.protocol_errors_total },
        Shown { name: "forgekv_wal_records_written"@, kind: "counter"@, value: c.wal_records_written },
        Shown { name: "forgekv_wal_bytes_written"@, kind: "counter"@, value: c.wal_bytes_written },
        Shown { name: "forgekv_snapshots_created_total"@, kind: "counter"@, value: c.snapshots_created_total },
        Shown { name: "forgekv_wal_compactions_total"@, kind: "counter"@, value: c.wal_compactions_total },
        Shown { name: "forgekv_snapshot_entries_written"@, kind: "counter"@, value: c.snapshot_entries_written },
        Shown { name: "forgekv_cluster_redirects_total"@, kind: "counter"@, value: c.cluster_redirects_total },
        Shown { name: "forgekv_cluster_local_commands_total"@, kind: "counter"@, value: c.cluster_local_commands_total },
    ]
}

struct Line {
    name: &'static str,
    kind: &'static str,
    value: u64,
}

impl View for Line {
    type V = Shown;

    closed spec fn view(&self) -> Shown {
        Shown { name: self.name@, kind: self.kind@, value: self.value }
    }
}

spec fn shown_lines(lines: Seq<Line>) -> Seq<Shown> {
    lines.map_values(|line: Line| line@)
}

fn put_line(lines: &mut Vec<Line>, name: &'static str, kind: &'static str, value: u64)
    ensures
        shown_lines(final(lines)@) == shown_lines(old(lines)@).push(
            Shown { name: name@, kind: kind@, value },
        ),
{
    lines.push(Line { name, kind, value });
    assert(shown_lines(lines@) =~= shown_lines(old(lines)@).push(
        Shown { name: name@, kind: kind@, value },
    ));
}

fn list_lines(c: MetricsSnapshot) -> (lines: Vec<Line>)
    ensures
        shown_lines(lines@) == shown_counters(c),
{
    let mut lines: Vec<Line> = Vec::new();
    put_line(&mut lines, "forgekv_connections_total", "counter", c.connections_total);
    put_line(&mut lines, "forgekv_connections_active", "gauge", c.connections_active);
    put_line(&mut lines, "forgekv_connections_rejected_total", "counter", c.connections_rejected_total);
    put_line(&mut lines, "forgekv_commands_total", "counter", c.commands_total);
    put_line(&mut lines, "forgekv_gets_total", "counter", c.gets_total);
    put_line(&mut lines, "forgekv_sets_total", "counter", c.sets_total);
    put_line(&mut lines, "forgekv_deletes_total", "counter", c.deletes_total);
    put_line(&mut lines, "forgekv_hits_total", "counter", c.hits_total);
    put_line(&mut lines, "forgekv_misses_total", "counter", c.misses_total);
    put_line(&mut lines, "forgekv_expired_keys_total", "counter", c.expired_keys_total);
    put_line(&mut lines, "forgekv_protocol_errors_total", "counter", c.protocol_errors_total);
    put_line(&mut lines, "forgekv_wal_records_written", "counter", c.wal_records_written);
    put_line(&mut lines, "forgekv_wal_bytes_written", "counter", c.wal_bytes_written);
    put_line(&mut lines, "forgekv_snapshots_created_total", "counter", c.snapshots_created_total);
    put_line(&mut lines, "forgekv_wal_compactions_total", "counter", c.wal_compactions_total);
    put_line(&mut lines, "forgekv_snapshot_entries_written", "counter", c.snapshot_entries_written);
    put_line(&mut lines, "forgekv_cluster_redirects_total", "counter", c.cluster_redirects_total);
    put_line(&mut lines, "forgekv_cluster_local_commands_total", "counter", c.cluster_local_commands_total);
    assert(shown_lines(lines@) =~= shown_counters(c));
    lines
}

/// The text of all counters.
pub fn render_prometheus(metrics: &Metrics) -> (output: String)
    ensures
        output@ == page(shown_counters(metrics@)),
{
    let lines: Vec<Line> = list_lines(metrics.snapshot());
    let ghost all = shown_lines(lines@);
    let mut output: String = String::new();
    assert(all.take(0) =~= seq![]);
    assert(output@ =~= page(all.take(0)));
    for index in 0..lines.len()
        invariant
            all == shown_lines(lines@),
            output@ == page(all.take(index as int)),
    {
        let line: &Line = &lines[index];
        let ghost before = output@;
        output.push_str("# TYPE ");
        output.push_str(line.name);
        output.push(' ');
        output.push_str(line.kind);
        output.push('\n');
        output.push_str(line.name);
        output.push(' ');
        push_decimal(&mut output, line.value);
        output.push('\n');
        proof {
            let next = all.take(index + 1);
            assert(next.drop_last() =~= all.take(index as int));
            assert(next.last() == line@);
            assert(output@ =~= before + shown_text(line@));
        }
    }
    assert(all.take(lines@.len() as int) =~= all);
    output
}

/// Whether a request asks for the counters.
pub open spec fn asks_for_metrics(request: Seq<u8>) -> bool {
    request.len() >= 20 && request.take(20) == METRICS_REQUEST@
}

/// The text of an answer with this status and body.
pub open spec fn http_text(status: Seq<char>, body: Seq<char>) -> Seq<char> {
    "HTTP/1.1 "@ + status
        + "\r\nContent-Type: text/plain; version=0.0.4; charset=utf-8\r\nContent-Length: "@ + decimal(
        encode_utf8(body).len(),
    ) + "\r\nConnection: close\r\n\r\n"@ + body
}

/// Answers a request: the counters where it asks for them.
pub fn answer_http(request: &[u8], metrics: &Metrics) -> (response: String)
    ensures
        response@ == (if asks_for_metrics(request@) {
            http_text("200 OK"@, page(shown_counters(metrics@)))
        } else {
            http_text("404 Not Found"@, "not found\n"@)
        }),
{
    let found: bool = if request.len() < METRICS_REQUEST.len() {
        false
    } else {
        let start: &[u8] = slice_subrange(request, 0, METRICS_REQUEST.len());
        assert(start@ =~= request@.take(20));
        same_bytes(start, &METRICS_REQUEST)
    };
    let status: &str = if found {
        "200 OK"
    } else {
        "404 Not Found"
    };
    let body: String = if found {
        render_prometheus(metrics)
    } else {
        "not found\n".to_owned()
    };
    let mut response: String = "HTTP/1.1 ".to_owned();
    response.push_str(status);
    response.push_str(
        "\r\nContent-Type: text/plain; version=0.0.4; charset=utf-8\r\nContent-Length: ",
    );
    push_decimal(&mut response, body.as_str().as_bytes().len() as u64);
    response.push_str("\r\nConnection: close\r\n\r\n");
    response.push_str(body.as_str());
    response
}

/// Whether a counter is shown at a place, under this name and with this type and value.
pub open spec fn shown_at(
    list: Seq<Shown>,
    place: int,
    name: Seq<char>,
    kind: Seq<char>,
    value: u64,
) -> bool {
    0 <= place < list.len() && list[place].name == name && list[place].kind == kind
        && list[place].value == value
}

/// Every counter of the page is shown under its own name, with its type and its value.
pub proof fn law_page_shows_every_counter(c: MetricsSnapshot)
    ensures
        ({
            let list = shown_counters(c);
            &&& list.len() == 18
            &&& shown_at(list, 0, "forgekv_connections_total"@, "counter"@, c.connections_total)
            &&& shown_at(list, 1, "forgekv_connections_active"@, "gauge"@, c.connections_active)
            &&& shown_at(list, 2, "forgekv_connections_rejected_total"@, "counter"@, c.connections_rejected_total)
            &&& shown_at(list, 3, "forgekv_commands_total"@, "counter"@, c.commands_total)
            &&& shown_at(list, 4, "forgekv_gets_total"@, "counter"@, c.gets_total)
            &&& shown_at(list, 5, "forgekv_sets_total"@, "counter"@, c.sets_total)
            &&& shown_at(list, 6, "forgekv_deletes_total"@, "counter"@, c.deletes_total)
            &&& shown_at(list, 7, "forgekv_hits_total"@, "counter"@, c.hits_total)
            &&& shown_at(list, 8, "forgekv_misses_total"@, "counter"@, c.misses_total)
            &&& shown_at(list, 9, "forgekv_expired_keys_total"@, "counter"@, c.expired_keys_total)
            &&& shown_at(list, 10, "forgekv_protocol_errors_total"@, "counter"@, c.protocol_errors_total)
            &&& shown_at(list, 11, "forgekv_wal_records_written"@, "counter"@, c.wal_records_written)
            &&& shown_at(list, 12, "forgekv_wal_bytes_written"@, "counter"@, c.wal_bytes_written)
            &&& shown_at(list, 13, "forgekv_snapshots_created_total"@, "counter"@, c.snapshots_created_total)
            &&& shown_at(list, 14, "forgekv_wal_compactions_total"@, "counter"@, c.wal_compactions_total)
            &&& shown_at(list, 15, "forgekv_snapshot_entries_written"@, "counter"@, c.snapshot_entries_written)
            &&& shown_at(list, 16, "forgekv_cluster_redirects_total"@, "counter"@, c.cluster_redirects_total)
            &&& shown_at(list, 17, "forgekv_cluster_local_commands_total"@, "counter"@, c.cluster_local_commands_total)
        }),
{
}

/// A page is the texts of its counters, one after another: a line with the type and a line with
/// the value of each.
pub proof fn law_pages_are_written_counter_by_counter(list: Seq<Shown>, shown: Shown)
    ensures
        page(seq![]) == Seq::<char>::empty(),
        page(list.push(shown)) == page(list) + "# TYPE "@ + shown.name + seq![' '] + shown.kind
            + seq!['\n'] + shown.name + seq![' '] + decimal(shown.value as nat) + seq!['\n'],
{
    assert(list.push(shown).drop_last() =~= list);
    assert(page(list.push(shown)) =~= page(list) + "# TYPE "@ + shown.name + seq![' ']
        + shown.kind + seq!['\n'] + shown.name + seq![' '] + decimal(shown.value as nat)
        + seq!['\n']);
}

/// A request is answered with the page exactly where it starts with the bytes of
/// `GET /metrics HTTP/1.`, and the length that an answer states is that of its body.
pub proof fn law_only_the_page_is_served(request: Seq<u8>, status: Seq<char>, body: Seq<char>)
    ensures
        asks_for_metrics(request) <==> request.len() >= 20 && request.take(20) == seq![
            0x47u8, 0x45, 0x54, 0x20, 0x2f, 0x6d, 0x65, 0x74, 0x72, 0x69, 0x63, 0x73, 0x20, 0x48,
            0x54, 0x54, 0x50, 0x2f, 0x31, 0x2e,
        ],
        http_text(status, body) == "HTTP/1.1 "@ + status
            + "\r\nContent-Type: text/plain; version=0.0.4; charset=utf-8\r\nContent-Length: "@
            + decimal(encode_utf8(body).len()) + "\r\nConnection: close\r\n\r\n"@ + body,
{
    assert(METRICS_REQUEST@ =~= seq![
        0x47u8, 0x45, 0x54, 0x20, 0x2f, 0x6d, 0x65, 0x74, 0x72, 0x69, 0x63, 0x73, 0x20, 0x48, 0x54,
        0x54, 0x50, 0x2f, 0x31, 0x2e,
    ]);
}

} // verus!
