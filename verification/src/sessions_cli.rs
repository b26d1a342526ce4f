//! The `sessions` command: listing, showing, searching, renaming and deleting
//! persisted sessions.
//!
//! What is asked of the session store, and what is said to the operator, is
//! decided here; asking and saying is done elsewhere. Each [`SessionsStep`] says
//! what to ask next and holds what the answer is given to.
use vstd::prelude::*;

use crate::clock;
use crate::clock::Moment;
use crate::json;
use crate::json::{Fields, Json};
use crate::text;

verus! {

/// What is known of a session.
#[derive(Debug)]
pub struct SessionMetadata {
    pub key: String,
    pub name: Option<String>,
    pub created_at: Moment,
    pub last_activity: Moment,
    pub message_count: usize,
    pub agent_alias: Option<String>,
    pub channel_id: Option<String>,
    pub room_id: Option<String>,
    pub sender_id: Option<String>,
}

/// What a [`SessionMetadata`] says.
pub struct MetadataView {
    pub key: Seq<char>,
    pub name: Option<Seq<char>>,
    pub created_at: clock::MomentView,
    pub last_activity: clock::MomentView,
    pub message_count: nat,
    pub agent_alias: Option<Seq<char>>,
    pub channel_id: Option<Seq<char>>,
    pub room_id: Option<Seq<char>>,
    pub sender_id: Option<Seq<char>>,
}

impl SessionMetadata {
    pub open spec fn view(&self) -> MetadataView {
        MetadataView {
            key: self.key@,
            name: text::option_view(self.name),
            created_at: self.created_at@,
            last_activity: self.last_activity@,
            message_count: self.message_count as nat,
            agent_alias: text::option_view(self.agent_alias),
            channel_id: text::option_view(self.channel_id),
            room_id: text::option_view(self.room_id),
            sender_id: text::option_view(self.sender_id),
        }
    }
}

/// What the metadata of some sessions says.
pub open spec fn metadata_views(sessions: Seq<SessionMetadata>) -> Seq<MetadataView> {
    sessions.map_values(|m: SessionMetadata| m.view())
}

/// The keys that a session id can stand for: itself, a gateway session, a
/// session of the RPC chat, a session of the coding hooks.
pub open spec fn candidate_keys(id: Seq<char>) -> Seq<Seq<char>> {
    seq![id, "gw_"@ + id, "rpc_"@ + id, "cc_"@ + id]
}

/// The stored key that a session id stands for, given the keys that are there.
pub open spec fn resolved_key(existing: Seq<Seq<char>>, id: Seq<char>) -> Option<Seq<char>> {
    if existing.contains(id) {
        Some(id)
    } else if existing.contains("gw_"@ + id) {
        Some("gw_"@ + id)
    } else if existing.contains("rpc_"@ + id) {
        Some("rpc_"@ + id)
    } else if existing.contains("cc_"@ + id) {
        Some("cc_"@ + id)
    } else {
        None
    }
}

/// The keys that a session id can stand for.
pub fn candidates(id: &str) -> (out: Vec<String>)
    ensures
        text::views(out@) == candidate_keys(id@),
{
    let mut out: Vec<String> = Vec::new();
    out.push(id.to_owned());
    out.push(text::concat2("gw_", id));
    out.push(text::concat2("rpc_", id));
    out.push(text::concat2("cc_", id));
    proof {
        assert(text::views(out@) =~= candidate_keys(id@));
    }
    out
}

/// Resolves a session id that an operator gives to a stored key: verbatim first,
/// then the forms with `gw_`, `rpc_` and `cc_` in front.
pub fn resolve_session_key(existing: &Vec<String>, id: &str) -> (out: Option<String>)
    ensures
        text::option_view(out) == resolved_key(text::views(existing@), id@),
{
    if text::any_same(existing, id) {
        return Some(id.to_owned());
    }
    let gateway: String = text::concat2("gw_", id);
    if text::any_same(existing, gateway.as_str()) {
        return Some(gateway);
    }
    let rpc: String = text::concat2("rpc_", id);
    if text::any_same(existing, rpc.as_str()) {
        return Some(rpc);
    }
    let hooked: String = text::concat2("cc_", id);
    if text::any_same(existing, hooked.as_str()) {
        return Some(hooked);
    }
    None
}

/// Resolving finds a stored key wherever there is one to be found, and nothing
/// but a stored key; and a stored key stands for itself.
pub proof fn law_a_resolved_key_is_stored(existing: Seq<Seq<char>>, id: Seq<char>)
    ensures
        match resolved_key(existing, id) {
            Some(key) => existing.contains(key) && candidate_keys(id).contains(key),
            None => forall|i: int|
                0 <= i < 4 ==> !existing.contains(#[trigger] candidate_keys(id)[i]),
        },
        existing.contains(id) ==> resolved_key(existing, id) == Some(id),
{
    assert(candidate_keys(id)[0] == id);
    assert(candidate_keys(id)[1] == "gw_"@ + id);
    assert(candidate_keys(id)[2] == "rpc_"@ + id);
    assert(candidate_keys(id)[3] == "cc_"@ + id);
}

/// Whether a name selects the store of JSON lines. Every other name, an unknown
/// one too, selects the database.
pub fn is_jsonl_backend(backend_name: &str) -> (out: bool)
    ensures
        out == (backend_name@ == "jsonl"@),
{
    text::same(backend_name, "jsonl")
}

/// A text, or null.
pub open spec fn text_or_null(value: Option<Seq<char>>) -> json::Document {
    match value {
        Some(s) => json::Document::Text(s),
        None => json::Document::Null,
    }
}

/// A moment as a document has it.
pub open spec fn moment_document(moment: clock::MomentView) -> json::Document {
    json::Document::Text(clock::rfc3339(moment.seconds, moment.nanos))
}

/// The metadata of a session as a document.
pub open spec fn metadata_document(m: MetadataView) -> json::Document {
    json::Document::Object(
        Map::<Seq<char>, json::Document>::empty().insert(
            "key"@,
            json::Document::Text(m.key),
        ).insert("name"@, text_or_null(m.name)).insert(
            "created_at"@,
            moment_document(m.created_at),
        ).insert("last_activity"@, moment_document(m.last_activity)).insert(
            "message_count"@,
            json::Document::Number(json::number_of(m.message_count as u64)),
        ).insert("agent_alias"@, text_or_null(m.agent_alias)).insert(
            "channel_id"@,
            text_or_null(m.channel_id),
        ).insert("room_id"@, text_or_null(m.room_id)).insert(
            "sender_id"@,
            text_or_null(m.sender_id),
        ),
    )
}

/// The metadata of a session as a document.
pub fn metadata_json(m: &SessionMetadata) -> (out: Json)
    ensures
        out@ == metadata_document(m@),
{
    let mut fields: Fields = Fields::new();
    fields.insert("key", Json::text(m.key.as_str()));
    fields.insert("name", Json::text_or_null(&m.name));
    fields.insert("created_at", Json::Text(m.created_at.to_rfc3339()));
    fields.insert("last_activity", Json::Text(m.last_activity.to_rfc3339()));
    fields.insert("message_count", Json::number(m.message_count as u64));
    fields.insert("agent_alias", Json::text_or_null(&m.agent_alias));
    fields.insert("channel_id", Json::text_or_null(&m.channel_id));
    fields.insert("room_id", Json::text_or_null(&m.room_id));
    fields.insert("sender_id", Json::text_or_null(&m.sender_id));
    Json::Object(fields)
}

/// One line of a table, cell by cell.
pub type Row = [String; 6];

/// What the cells of a row say.
pub open spec fn cells(row: Row) -> Seq<Seq<char>> {
    text::views(row@)
}

/// What the cells of some rows say.
pub open spec fn rows_cells(rows: Seq<Row>) -> Seq<Seq<Seq<char>>> {
    rows.map_values(|row: Row| cells(row))
}

/// A text, or a dash where there is none.
pub open spec fn text_or_dash(value: Option<Seq<char>>) -> Seq<char> {
    match value {
        Some(s) => s,
        None => "-"@,
    }
}

fn or_dash(value: &Option<String>) -> (out: String)
    ensures
        out@ == text_or_dash(text::option_view(*value)),
{
    match value {
        Some(s) => s.clone(),
        None => "-".to_owned(),
    }
}

/// The metadata of a session as a line of a table.
pub open spec fn metadata_cells(m: MetadataView) -> Seq<Seq<char>> {
    seq![
        m.key,
        text_or_dash(m.name),
        text_or_dash(m.agent_alias),
        text_or_dash(m.channel_id),
        text::decimal(m.message_count),
        clock::table_text(m.last_activity.seconds, m.last_activity.nanos),
    ]
}

/// The metadata of a session as a line of a table.
pub fn metadata_row(m: &SessionMetadata) -> (out: Row)
    ensures
        cells(out) == metadata_cells(m@),
{
    let row: Row = [
        m.key.clone(),
        or_dash(&m.name),
        or_dash(&m.agent_alias),
        or_dash(&m.channel_id),
        text::decimal_text(m.message_count as u64),
        m.last_activity.to_table_text(),
    ];
    proof {
        assert(cells(row) =~= metadata_cells(m@));
    }
    row
}

/// The larger of two numbers.
pub open spec fn larger(a: nat, b: nat) -> nat {
    if a >= b {
        a
    } else {
        b
    }
}

/// How wide a column is: as its widest cell.
pub open spec fn column_width(headers: Seq<Seq<char>>, rows: Seq<Seq<Seq<char>>>, c: int) -> nat
    decreases rows.len(),
{
    if rows.len() == 0 {
        headers[c].len()
    } else {
        larger(column_width(headers, rows.drop_last(), c), rows.last()[c].len())
    }
}

/// How wide the columns are.
pub open spec fn column_widths(headers: Seq<Seq<char>>, rows: Seq<Seq<Seq<char>>>) -> Seq<nat> {
    Seq::new(6, |c: int| column_width(headers, rows, c))
}

/// So many spaces.
pub open spec fn spaces(n: nat) -> Seq<char> {
    Seq::new(n, |i: int| ' ')
}

/// A cell filled up with spaces to a width.
pub open spec fn padded(cell: Seq<char>, width: nat) -> Seq<char> {
    cell + spaces(
        if width > cell.len() {
            (width - cell.len()) as nat
        } else {
            0
        },
    )
}

/// The first `n` cells of a line, each filled up, two spaces between them.
pub open spec fn padded_line(row: Seq<Seq<char>>, widths: Seq<nat>, n: nat) -> Seq<char>
    decreases n,
{
    if n == 0 {
        Seq::empty()
    } else if n == 1 {
        padded(row[0], widths[0])
    } else {
        padded_line(row, widths, (n - 1) as nat) + "  "@ + padded(row[n - 1], widths[n - 1])
    }
}

/// A line of a table, without padding at its end.
pub open spec fn table_line(row: Seq<Seq<char>>, widths: Seq<nat>) -> Seq<char> {
    text::trimmed_end(padded_line(row, widths, 6))
}

/// A table: the headers, then one line for each row.
pub open spec fn table(headers: Seq<Seq<char>>, rows: Seq<Seq<Seq<char>>>) -> Seq<Seq<char>> {
    let widths = column_widths(headers, rows);
    seq![table_line(headers, widths)] + rows.map_values(
        |row: Seq<Seq<char>>| table_line(row, widths),
    )
}

fn width_of(s: &str) -> (out: usize)
    ensures
        out == s@.len(),
{
    text::chars_of(s).len()
}

/// What some widths say.
spec fn width_views(widths: Seq<usize>) -> Seq<nat> {
    widths.map_values(|w: usize| w as nat)
}

fn measure(headers: &Row, rows: &Vec<Row>) -> (out: Vec<usize>)
    ensures
        width_views(out@) == column_widths(cells(*headers), rows_cells(rows@)),
{
    let ghost names = cells(*headers);
    let ghost all = rows_cells(rows@);
    let mut widths: Vec<usize> = Vec::new();
    let mut c: usize = 0;
    while c < 6
        invariant
            c <= 6,
            widths@.len() == c,
            names == cells(*headers),
            all == rows_cells(rows@),
            forall|k: int| 0 <= k < c ==> (#[trigger] widths@[k]) == column_width(names, all, k),
        decreases 6 - c,
    {
        let mut width: usize = width_of(headers[c].as_str());
        let mut r: usize = 0;
        proof {
            assert(all.take(0) =~= Seq::<Seq<Seq<char>>>::empty());
            assert(names[c as int] == headers@[c as int]@);
        }
        while r < rows.len()
            invariant
                c < 6,
                r <= rows@.len(),
                names == cells(*headers),
                all == rows_cells(rows@),
                width == column_width(names, all.take(r as int), c as int),
            decreases rows@.len() - r,
        {
            let cell: usize = width_of(rows[r][c].as_str());
            proof {
                assert(all.take(r + 1).drop_last() =~= all.take(r as int));
                assert(all.take(r + 1).last()[c as int] == rows@[r as int]@[c as int]@);
            }
            if cell > width {
                width = cell;
            }
            r += 1;
        }
        proof {
            assert(all.take(r as int) =~= all);
        }
        widths.push(width);
        c += 1;
    }
    proof {
        assert(width_views(widths@) =~= column_widths(names, all));
    }
    widths
}

fn pad(line: &mut String, cell: &str, width: usize)
    ensures
        final(line)@ == old(line)@ + padded(cell@, width as nat),
{
    let ghost start = line@;
    line.append(cell);
    let size: usize = width_of(cell);
    let mut n: usize = 0;
    let missing: usize = if width > size {
        width - size
    } else {
        0
    };
    proof {
        assert(line@ =~= start + cell@ + spaces(0));
    }
    while n < missing
        invariant
            n <= missing,
            line@ == start + cell@ + spaces(n as nat),
        decreases missing - n,
    {
        line.push(' ');
        proof {
            assert(line@ =~= start + cell@ + spaces((n + 1) as nat));
        }
        n += 1;
    }
    proof {
        assert(line@ =~= start + padded(cell@, width as nat));
    }
}

fn format_line(row: &Row, widths: &Vec<usize>) -> (out: String)
    requires
        widths@.len() == 6,
    ensures
        out@ == table_line(cells(*row), width_views(widths@)),
{
    let ghost line_cells = cells(*row);
    let ghost wide = width_views(widths@);
    let mut line: String = String::new();
    let mut c: usize = 0;
    proof {
        assert(line@ =~= padded_line(line_cells, wide, 0));
    }
    while c < 6
        invariant
            c <= 6,
            widths@.len() == 6,
            line_cells == cells(*row),
            wide == width_views(widths@),
            line@ == padded_line(line_cells, wide, c as nat),
        decreases 6 - c,
    {
        let ghost start = line@;
        if c > 0 {
            line.append("  ");
        }
        pad(&mut line, row[c].as_str(), widths[c]);
        proof {
            assert(line_cells[c as int] == row@[c as int]@);
            assert(wide[c as int] == widths@[c as int]);
            if c == 0 {
                assert(line@ =~= padded_line(line_cells, wide, 1));
            } else {
                assert(line@ =~= padded_line(line_cells, wide, (c + 1) as nat));
            }
        }
        c += 1;
    }
    text::trim_end(line.as_str())
}

/// Renders an aligned table, two spaces between columns: a line of headers, then
/// one line for each row. Columns fit their widest cell; no line ends in padding.
pub fn render_table(headers: &Row, rows: &Vec<Row>) -> (out: Vec<String>)
    ensures
        text::views(out@) == table(cells(*headers), rows_cells(rows@)),
{
    let ghost all = rows_cells(rows@);
    let widths: Vec<usize> = measure(headers, rows);
    let ghost wide = width_views(widths@);
    let ghost show = |row: Seq<Seq<char>>| table_line(row, wide);
    proof {
        assert(wide.len() == 6);
        assert(widths@.len() == wide.len());
    }
    let mut lines: Vec<String> = Vec::new();
    lines.push(format_line(headers, &widths));
    let ghost first = seq![table_line(cells(*headers), wide)];
    let mut r: usize = 0;
    proof {
        assert(text::views(lines@) =~= first + all.take(0).map_values(show));
    }
    while r < rows.len()
        invariant
            r <= rows@.len(),
            widths@.len() == 6,
            wide == width_views(widths@),
            all == rows_cells(rows@),
            show == (|row: Seq<Seq<char>>| table_line(row, wide)),
            text::views(lines@) == first + all.take(r as int).map_values(show),
        decreases rows@.len() - r,
    {
        let ghost before = text::views(lines@);
        lines.push(format_line(&rows[r], &widths));
        proof {
            assert(all[r as int] == cells(rows@[r as int]));
            assert(text::views(lines@) =~= before.push(table_line(all[r as int], wide)));
            assert(all.take(r + 1).map_values(show) =~= all.take(r as int).map_values(show).push(
                table_line(all[r as int], wide),
            ));
            assert(text::views(lines@) =~= first + all.take(r + 1).map_values(show));
        }
        r += 1;
    }
    proof {
        assert(all.take(r as int) =~= all);
    }
    lines
}


/// Where a column begins: behind the columns in front of it, and two spaces for
/// each of them.
pub open spec fn column_start(widths: Seq<nat>, c: nat) -> nat
    decreases c,
{
    if c == 0 {
        0
    } else {
        column_start(widths, (c - 1) as nat) + widths[c - 1] + 2
    }
}

/// Whether all cells of a row keep to the widths.
pub open spec fn keeps_to(row: Seq<Seq<char>>, widths: Seq<nat>) -> bool {
    forall|c: int| 0 <= c < 6 ==> (#[trigger] row[c]).len() <= widths[c]
}

/// The columns of a table align: each begins at the same place on every line,
/// the headers' and the rows', and is as wide as its widest cell.
pub proof fn law_columns_align(
    headers: Seq<Seq<char>>,
    rows: Seq<Seq<Seq<char>>>,
    row: Seq<Seq<char>>,
    c: nat,
)
    requires
        row == headers || rows.contains(row),
        c < 6,
    ensures
        ({
            let widths = column_widths(headers, rows);
            let start = column_start(widths, c) as int;
            let line = padded_line(row, widths, 6);
            &&& start + row[c as int].len() <= line.len()
            &&& line.subrange(start, start + row[c as int].len()) == row[c as int]
        }),
{
    let widths = column_widths(headers, rows);
    lemma_keeps_to(headers, rows, row);
    lemma_line_prefix(row, widths, c + 1, 6);
    lemma_line_len(row, widths, c + 1);
    let front = padded_line(row, widths, c + 1);
    let line = padded_line(row, widths, 6);
    let start = column_start(widths, c) as int;
    reveal_strlit("  ");
    if c == 0 {
        assert(front.subrange(0, row[0].len() as int) =~= row[0]);
    } else {
        lemma_line_len(row, widths, c);
        assert(front.subrange(start, start + row[c as int].len()) =~= row[c as int]);
    }
    assert(line.subrange(start, start + row[c as int].len()) =~= front.subrange(
        start,
        start + row[c as int].len(),
    ));
}

proof fn lemma_column_width(
    headers: Seq<Seq<char>>,
    rows: Seq<Seq<Seq<char>>>,
    c: int,
)
    ensures
        headers[c].len() <= column_width(headers, rows, c),
        forall|r: int|
            0 <= r < rows.len() ==> (#[trigger] rows[r])[c].len() <= column_width(headers, rows, c),
    decreases rows.len(),
{
    if rows.len() > 0 {
        let front = rows.drop_last();
        lemma_column_width(headers, front, c);
        assert forall|r: int| 0 <= r < rows.len() implies (#[trigger] rows[r])[c].len()
            <= column_width(headers, rows, c) by {
            if r < front.len() {
                assert(front[r] == rows[r]);
            }
        }
    }
}

proof fn lemma_keeps_to(
    headers: Seq<Seq<char>>,
    rows: Seq<Seq<Seq<char>>>,
    row: Seq<Seq<char>>,
)
    requires
        row == headers || rows.contains(row),
    ensures
        keeps_to(row, column_widths(headers, rows)),
{
    assert forall|c: int| 0 <= c < 6 implies (#[trigger] row[c]).len() <= column_widths(
        headers,
        rows,
    )[c] by {
        lemma_column_width(headers, rows, c);
        if rows.contains(row) {
            let r = choose|r: int| 0 <= r < rows.len() && rows[r] == row;
            assert(rows[r][c].len() <= column_width(headers, rows, c));
        }
    }
}

proof fn lemma_line_len(row: Seq<Seq<char>>, widths: Seq<nat>, n: nat)
    requires
        keeps_to(row, widths),
        0 < n <= 6,
    ensures
        padded_line(row, widths, n).len() + 2 == column_start(widths, n),
    decreases n,
{
    reveal_strlit("  ");
    assert(row[n - 1].len() <= widths[n - 1]);
    if n > 1 {
        lemma_line_len(row, widths, (n - 1) as nat);
    } else {
        assert(column_start(widths, 0) == 0);
    }
}

proof fn lemma_line_prefix(row: Seq<Seq<char>>, widths: Seq<nat>, n: nat, m: nat)
    requires
        0 < n <= m,
    ensures
        padded_line(row, widths, n).len() <= padded_line(row, widths, m).len(),
        padded_line(row, widths, m).take(padded_line(row, widths, n).len() as int) == padded_line(
            row,
            widths,
            n,
        ),
    decreases m - n,
{
    if n < m {
        lemma_line_prefix(row, widths, n, (m - 1) as nat);
        let short = padded_line(row, widths, n);
        let middle = padded_line(row, widths, (m - 1) as nat);
        let long = padded_line(row, widths, m);
        assert(long.take(short.len() as int) =~= middle.take(short.len() as int));
    } else {
        assert(padded_line(row, widths, m).take(padded_line(row, widths, m).len() as int)
            =~= padded_line(row, widths, m));
    }
}

/// No line of a table ends in white space.
pub proof fn law_lines_end_without_padding(row: Seq<Seq<char>>, widths: Seq<nat>)
    ensures
        table_line(row, widths).len() > 0 ==> !text::is_space(table_line(row, widths).last()),
{
    lemma_trimmed_end(padded_line(row, widths, 6));
}

proof fn lemma_trimmed_end(s: Seq<char>)
    ensures
        text::trimmed_end(s).len() > 0 ==> !text::is_space(text::trimmed_end(s).last()),
    decreases s.len(),
{
    if s.len() > 0 && text::is_space(s.last()) {
        lemma_trimmed_end(s.drop_last());
    }
}

/// Whether a session is one of those asked for: of the agent, and of a channel
/// whose name begins as asked.
pub open spec fn is_wanted(
    m: MetadataView,
    agent: Option<Seq<char>>,
    channel: Option<Seq<char>>,
) -> bool {
    &&& agent matches Some(alias) ==> m.agent_alias == Some(alias)
    &&& channel matches Some(prefix) ==> (match m.channel_id {
        Some(c) => text::starts_with(c, prefix),
        None => false,
    })
}

/// Sessions with one more put in its place: behind all that are as new.
pub open spec fn placed(sorted: Seq<MetadataView>, m: MetadataView) -> Seq<MetadataView>
    decreases sorted.len(),
{
    if sorted.len() > 0 && sorted.last().last_activity.before(m.last_activity) {
        placed(sorted.drop_last(), m).push(sorted.last())
    } else {
        sorted.push(m)
    }
}

/// Sessions in order of their last activity, the newest first; of two as new,
/// the one that came first.
pub open spec fn newest_first(sessions: Seq<MetadataView>) -> Seq<MetadataView>
    decreases sessions.len(),
{
    if sessions.len() == 0 {
        Seq::empty()
    } else {
        placed(newest_first(sessions.drop_last()), sessions.last())
    }
}

/// The first items, at most so many.
pub open spec fn first_of<T>(items: Seq<T>, limit: nat) -> Seq<T> {
    if items.len() <= limit {
        items
    } else {
        items.take(limit as int)
    }
}

/// The sessions that a listing shows.
pub open spec fn selected(
    sessions: Seq<MetadataView>,
    agent: Option<Seq<char>>,
    channel: Option<Seq<char>>,
    limit: nat,
) -> Seq<MetadataView> {
    first_of(
        newest_first(sessions.filter(|m: MetadataView| is_wanted(m, agent, channel))),
        limit,
    )
}

fn wanted(m: &SessionMetadata, agent: &Option<String>, channel: &Option<String>) -> (out: bool)
    ensures
        out == is_wanted(m@, text::option_view(*agent), text::option_view(*channel)),
{
    let of_agent: bool = match agent {
        None => true,
        Some(alias) => match &m.agent_alias {
            Some(name) => text::same(name.as_str(), alias.as_str()),
            None => false,
        },
    };
    let of_channel: bool = match channel {
        None => true,
        Some(prefix) => match &m.channel_id {
            Some(c) => text::starts_with_text(c.as_str(), prefix.as_str()),
            None => false,
        },
    };
    of_agent && of_channel
}

fn place(sorted: &mut Vec<SessionMetadata>, m: SessionMetadata)
    ensures
        metadata_views(final(sorted)@) == placed(metadata_views(old(sorted)@), m@),
{
    let ghost before = metadata_views(sorted@);
    let ghost new = m@;
    let mut p: usize = sorted.len();
    proof {
        assert(before.take(p as int) =~= before);
        assert(placed(before, new) =~= placed(before.take(p as int), new) + before.skip(p as int));
    }
    while p > 0 && sorted[p - 1].last_activity.before(&m.last_activity)
        invariant
            p <= sorted@.len(),
            before == metadata_views(sorted@),
            new == m@,
            placed(before, new) == placed(before.take(p as int), new) + before.skip(p as int),
        ensures
            p <= sorted@.len(),
            before == metadata_views(sorted@),
            placed(before, new) == placed(before.take(p as int), new) + before.skip(p as int),
            p > 0 ==> !before[p - 1].last_activity.before(new.last_activity),
        decreases p,
    {
        proof {
            let front = before.take(p as int);
            assert(front.last() == before[p - 1]);
            assert(front.drop_last() =~= before.take(p - 1));
            assert(placed(front.drop_last(), new).push(front.last()) + before.skip(p as int)
                =~= placed(before.take(p - 1), new) + before.skip(p - 1));
        }
        p -= 1;
    }
    sorted.insert(p, m);
    proof {
        let front = before.take(p as int);
        assert(placed(front, new) =~= front.push(new));
        assert(metadata_views(sorted@) =~= front.push(new) + before.skip(p as int));
    }
}

/// Selects the sessions that a listing shows: those of an agent and of channels
/// whose names begin as asked, the newest first, at most so many.
pub fn select(
    sessions: Vec<SessionMetadata>,
    agent: &Option<String>,
    channel: &Option<String>,
    limit: usize,
) -> (out: Vec<SessionMetadata>)
    ensures
        metadata_views(out@) == selected(
            metadata_views(sessions@),
            text::option_view(*agent),
            text::option_view(*channel),
            limit as nat,
        ),
{
    let ghost all = metadata_views(sessions@);
    let ghost keep = |m: MetadataView|
        is_wanted(m, text::option_view(*agent), text::option_view(*channel));
    let mut queue: Vec<SessionMetadata> = reversed(sessions);
    let ghost waiting = metadata_views(queue@);
    let mut sorted: Vec<SessionMetadata> = Vec::new();
    let ghost mut n: int = 0;
    proof {
        reveal(Seq::filter);
        assert(all.take(0).filter(keep) =~= Seq::<MetadataView>::empty());
        assert(metadata_views(sorted@) =~= newest_first(all.take(0).filter(keep)));
        assert(metadata_views(queue@) =~= waiting.take(all.len() - n));
    }
    while queue.len() > 0
        invariant
            0 <= n <= all.len(),
            queue@.len() == all.len() - n,
            waiting == all.reverse(),
            metadata_views(queue@) == waiting.take(all.len() - n),
            keep == (|m: MetadataView|
                is_wanted(m, text::option_view(*agent), text::option_view(*channel))),
            metadata_views(sorted@) == newest_first(all.take(n).filter(keep)),
        decreases queue@.len(),
    {
        let ghost left = metadata_views(queue@);
        if let Some(m) = queue.pop() {
            proof {
                reveal(Seq::filter);
                assert(left.last() == m@);
                assert(left.last() == waiting[all.len() - n - 1]);
                assert(m@ == all[n]);
                assert(all.take(n + 1).drop_last() =~= all.take(n));
                assert(all.take(n + 1).last() == m@);
                assert(metadata_views(queue@) =~= waiting.take(all.len() - (n + 1)));
            }
            let ghost before = all.take(n).filter(keep);
            if wanted(&m, agent, channel) {
                proof {
                    assert(all.take(n + 1).filter(keep) == before.push(m@));
                    assert(before.push(m@).drop_last() =~= before);
                }
                place(&mut sorted, m);
            }
            proof {
                n = n + 1;
            }
        }
    }
    proof {
        assert(all.take(n) =~= all);
        assert(metadata_views(sorted@).len() == sorted@.len());
    }
    let ghost full = metadata_views(sorted@);
    if sorted.len() > limit {
        sorted.truncate(limit);
        proof {
            assert(metadata_views(sorted@) =~= full.take(limit as int));
        }
    }
    sorted
}

fn reversed(sessions: Vec<SessionMetadata>) -> (out: Vec<SessionMetadata>)
    ensures
        metadata_views(out@) == metadata_views(sessions@).reverse(),
{
    let ghost all = metadata_views(sessions@);
    let mut rest: Vec<SessionMetadata> = sessions;
    let mut out: Vec<SessionMetadata> = Vec::new();
    proof {
        assert(all.take(all.len() as int) =~= all);
    }
    while rest.len() > 0
        invariant
            rest@.len() + out@.len() == all.len(),
            metadata_views(rest@) == all.take(rest@.len() as int),
            metadata_views(out@) =~= all.reverse().take(out@.len() as int),
        decreases rest@.len(),
    {
        let ghost before = metadata_views(out@);
        let ghost left = metadata_views(rest@);
        if let Some(m) = rest.pop() {
            proof {
                assert(left.last() == m@);
                assert(metadata_views(rest@) =~= all.take(rest@.len() as int));
            }
            out.push(m);
            proof {
                assert(metadata_views(out@) =~= before.push(m@));
                assert(all.reverse().take(out@.len() as int) =~= before.push(m@));
            }
        }
    }
    proof {
        assert(all.reverse().take(out@.len() as int) =~= all.reverse());
    }
    out
}

/// Whether newer sessions stand in front.
pub open spec fn is_newest_first(sessions: Seq<MetadataView>) -> bool {
    forall|i: int, j: int|
        0 <= i < j < sessions.len() ==> !(#[trigger] sessions[i]).last_activity.before(
            (#[trigger] sessions[j]).last_activity,
        )
}

/// Ordering sessions takes none away and adds none, and puts newer ones in
/// front.
pub proof fn law_the_newest_come_first(sessions: Seq<MetadataView>)
    ensures
        is_newest_first(newest_first(sessions)),
        newest_first(sessions).to_multiset() == sessions.to_multiset(),
    decreases sessions.len(),
{
    if sessions.len() > 0 {
        let front = sessions.drop_last();
        law_the_newest_come_first(front);
        lemma_placed(newest_first(front), sessions.last());
        lemma_multiset_push(front, sessions.last());
        assert(front.push(sessions.last()) =~= sessions);
    } else {
        assert(newest_first(sessions) =~= sessions);
    }
}

proof fn lemma_multiset_push(all: Seq<MetadataView>, m: MetadataView)
    ensures
        all.push(m).to_multiset() == all.to_multiset().insert(m),
{
    broadcast use vstd::seq_lib::group_to_multiset_ensures;

}

proof fn lemma_placed(sorted: Seq<MetadataView>, m: MetadataView)
    requires
        is_newest_first(sorted),
    ensures
        is_newest_first(placed(sorted, m)),
        placed(sorted, m).to_multiset() == sorted.to_multiset().insert(m),
        placed(sorted, m).len() == sorted.len() + 1,
        forall|i: int|
            0 <= i < placed(sorted, m).len() ==> (#[trigger] placed(sorted, m)[i]) == m
                || sorted.contains(placed(sorted, m)[i]),
    decreases sorted.len(),
{
    let all = placed(sorted, m);
    if sorted.len() > 0 && sorted.last().last_activity.before(m.last_activity) {
        let front = sorted.drop_last();
        let last = sorted.last();
        let inner = placed(front, m);
        assert forall|i: int, j: int| 0 <= i < j < front.len() implies !(
        #[trigger] front[i]).last_activity.before((#[trigger] front[j]).last_activity) by {
            assert(front[i] == sorted[i] && front[j] == sorted[j]);
        }
        lemma_placed(front, m);
        assert forall|i: int, j: int| 0 <= i < j < all.len() implies !(
        #[trigger] all[i]).last_activity.before((#[trigger] all[j]).last_activity) by {
            assert(all[i] == inner[i]);
            if j < inner.len() {
                assert(all[j] == inner[j]);
            } else if inner[i] != m {
                assert(front.contains(inner[i]));
                let k = choose|k: int| 0 <= k < front.len() && front[k] == inner[i];
                assert(!sorted[k].last_activity.before(sorted[sorted.len() - 1].last_activity));
            }
        }
        assert forall|i: int| 0 <= i < all.len() implies (#[trigger] all[i]) == m
            || sorted.contains(all[i]) by {
            if i < inner.len() {
                assert(all[i] == inner[i]);
                if inner[i] != m {
                    let k = choose|k: int| 0 <= k < front.len() && front[k] == inner[i];
                    assert(sorted[k] == all[i]);
                }
            } else {
                assert(sorted[sorted.len() - 1] == all[i]);
            }
        }
        lemma_multiset_push(inner, last);
        lemma_multiset_push(front, last);
        assert(front.push(last) =~= sorted);
        assert(all.to_multiset() =~= sorted.to_multiset().insert(m));
    } else {
        lemma_multiset_push(sorted, m);
        assert forall|i: int, j: int| 0 <= i < j < all.len() implies !(
        #[trigger] all[i]).last_activity.before((#[trigger] all[j]).last_activity) by {
            assert(all[i] == sorted[i]);
            if j < sorted.len() {
                assert(all[j] == sorted[j]);
            } else {
                assert(!sorted[sorted.len() - 1].last_activity.before(m.last_activity));
                if i < sorted.len() - 1 {
                    assert(!sorted[i].last_activity.before(
                        sorted[sorted.len() - 1].last_activity,
                    ));
                }
            }
        }
        assert forall|i: int| 0 <= i < all.len() implies (#[trigger] all[i]) == m
            || sorted.contains(all[i]) by {
            if i < sorted.len() {
                assert(sorted[i] == all[i]);
            }
        }
    }
}


/// The sessions that were last active at a moment.
pub open spec fn active_at(sessions: Seq<MetadataView>, moment: clock::MomentView) -> Seq<
    MetadataView,
> {
    sessions.filter(|m: MetadataView| m.last_activity == moment)
}

/// Sessions that are equally new keep their order.
pub proof fn law_equally_new_sessions_keep_their_order(
    sessions: Seq<MetadataView>,
    moment: clock::MomentView,
)
    ensures
        active_at(newest_first(sessions), moment) == active_at(sessions, moment),
    decreases sessions.len(),
{
    reveal(Seq::filter);
    if sessions.len() > 0 {
        law_equally_new_sessions_keep_their_order(sessions.drop_last(), moment);
        lemma_placed_active(newest_first(sessions.drop_last()), sessions.last(), moment);
    }
}

proof fn lemma_placed_active(
    sorted: Seq<MetadataView>,
    m: MetadataView,
    moment: clock::MomentView,
)
    ensures
        active_at(placed(sorted, m), moment) == (if m.last_activity == moment {
            active_at(sorted, moment).push(m)
        } else {
            active_at(sorted, moment)
        }),
    decreases sorted.len(),
{
    reveal(Seq::filter);
    let all = placed(sorted, m);
    if sorted.len() > 0 && sorted.last().last_activity.before(m.last_activity) {
        lemma_placed_active(sorted.drop_last(), m, moment);
        assert(all.drop_last() =~= placed(sorted.drop_last(), m));
    } else {
        assert(all.drop_last() =~= sorted);
    }
}

/// A stored message.
#[derive(Debug)]
pub struct StoredMessage {
    pub role: String,
    pub content: String,
    pub created_at: Option<Moment>,
}

/// What a [`StoredMessage`] says.
pub struct MessageView {
    pub role: Seq<char>,
    pub content: Seq<char>,
    pub created_at: Option<clock::MomentView>,
}

impl StoredMessage {
    pub open spec fn view(&self) -> MessageView {
        MessageView {
            role: self.role@,
            content: self.content@,
            created_at: match self.created_at {
                Some(m) => Some(m@),
                None => None,
            },
        }
    }
}

/// What some messages say.
pub open spec fn message_views(messages: Seq<StoredMessage>) -> Seq<MessageView> {
    messages.map_values(|m: StoredMessage| m.view())
}

/// The last items, at most so many; all of them where the limit is 0.
pub open spec fn tail<T>(items: Seq<T>, limit: nat) -> Seq<T> {
    if limit == 0 || limit >= items.len() {
        items
    } else {
        items.skip(items.len() - limit)
    }
}

fn tail_start(total: usize, limit: usize) -> (out: usize)
    ensures
        out <= total,
        forall|items: Seq<MessageView>|
            items.len() == total ==> #[trigger] tail(items, limit as nat) == items.skip(
                out as int,
            ),
{
    proof {
        assert forall|items: Seq<MessageView>| items.len() == total && (limit == 0 || limit
            >= total) implies #[trigger] tail(items, limit as nat) == items.skip(0) by {
            assert(items.skip(0) =~= items);
        }
    }
    if limit == 0 || limit >= total {
        0
    } else {
        total - limit
    }
}

/// A message as a document.
pub open spec fn message_document(m: MessageView) -> json::Document {
    json::Document::Object(
        Map::<Seq<char>, json::Document>::empty().insert(
            "role"@,
            json::Document::Text(m.role),
        ).insert("content"@, json::Document::Text(m.content)).insert(
            "created_at"@,
            match m.created_at {
                Some(moment) => moment_document(moment),
                None => json::Document::Null,
            },
        ),
    )
}

fn message_json(m: &StoredMessage) -> (out: Json)
    ensures
        out@ == message_document(m@),
{
    let mut fields: Fields = Fields::new();
    fields.insert("role", Json::text(m.role.as_str()));
    fields.insert("content", Json::text(m.content.as_str()));
    let created_at: Json = match &m.created_at {
        Some(moment) => Json::Text(moment.to_rfc3339()),
        None => Json::Null,
    };
    fields.insert("created_at", created_at);
    Json::Object(fields)
}

/// A transcript as a document.
pub open spec fn transcript_document(
    key: Seq<char>,
    messages: Seq<MessageView>,
    limit: nat,
) -> json::Document {
    json::Document::Object(
        Map::<Seq<char>, json::Document>::empty().insert(
            "key"@,
            json::Document::Text(key),
        ).insert(
            "message_count"@,
            json::Document::Number(json::number_of(messages.len() as u64)),
        ).insert(
            "messages"@,
            json::Document::Array(
                tail(messages, limit).map_values(|m: MessageView| message_document(m)),
            ),
        ),
    )
}

/// A transcript as a document: how many messages there are, and the last of
/// them.
pub fn transcript_json(key: &str, messages: &Vec<StoredMessage>, limit: usize) -> (out: Json)
    ensures
        out@ == transcript_document(key@, message_views(messages@), limit as nat),
{
    let ghost all = message_views(messages@);
    let start: usize = tail_start(messages.len(), limit);
    let ghost show = |m: MessageView| message_document(m);
    let mut shown: Vec<Json> = Vec::new();
    let mut i: usize = start;
    proof {
        assert(json::documents_of(shown@) =~= all.subrange(start as int, i as int).map_values(
            show,
        ));
    }
    while i < messages.len()
        invariant
            start <= i <= messages@.len(),
            all == message_views(messages@),
            show == (|m: MessageView| message_document(m)),
            json::documents_of(shown@) == all.subrange(start as int, i as int).map_values(show),
        decreases messages@.len() - i,
    {
        let ghost before = json::documents_of(shown@);
        shown.push(message_json(&messages[i]));
        proof {
            assert(all[i as int] == messages@[i as int]@);
            assert(json::documents_of(shown@) =~= before.push(message_document(all[i as int])));
            assert(all.subrange(start as int, i + 1).map_values(show) =~= before.push(
                message_document(all[i as int]),
            ));
        }
        i += 1;
    }
    proof {
        assert(all.subrange(start as int, i as int) =~= all.skip(start as int));
        assert(all.len() == messages@.len());
    }
    let mut fields: Fields = Fields::new();
    fields.insert("key", Json::text(key));
    fields.insert("message_count", Json::number(messages.len() as u64));
    fields.insert("messages", Json::Array(shown));
    Json::Object(fields)
}

/// A message as a transcript shows it.
#[derive(Debug)]
pub struct ShownMessage {
    pub role: String,
    /// When it was stored, or a dash.
    pub timestamp: String,
    pub content: String,
}

/// What a [`ShownMessage`] says.
pub struct ShownView {
    pub role: Seq<char>,
    pub timestamp: Seq<char>,
    pub content: Seq<char>,
}

impl ShownMessage {
    pub open spec fn view(&self) -> ShownView {
        ShownView { role: self.role@, timestamp: self.timestamp@, content: self.content@ }
    }
}

/// What some messages say.
pub open spec fn shown_views(messages: Seq<ShownMessage>) -> Seq<ShownView> {
    messages.map_values(|m: ShownMessage| m.view())
}

/// A message as a transcript shows it.
pub open spec fn shown(m: MessageView) -> ShownView {
    ShownView {
        role: m.role,
        timestamp: match m.created_at {
            Some(moment) => clock::rfc3339(moment.seconds, moment.nanos),
            None => "-"@,
        },
        content: m.content,
    }
}

/// The messages that a transcript shows: the last of them.
pub fn transcript(messages: &Vec<StoredMessage>, limit: usize) -> (out: Vec<ShownMessage>)
    ensures
        shown_views(out@) == tail(message_views(messages@), limit as nat).map_values(
            |m: MessageView| shown(m),
        ),
{
    let ghost all = message_views(messages@);
    let start: usize = tail_start(messages.len(), limit);
    let ghost show = |m: MessageView| shown(m);
    let mut out: Vec<ShownMessage> = Vec::new();
    let mut i: usize = start;
    proof {
        assert(shown_views(out@) =~= all.subrange(start as int, i as int).map_values(show));
    }
    while i < messages.len()
        invariant
            start <= i <= messages@.len(),
            all == message_views(messages@),
            show == (|m: MessageView| shown(m)),
            shown_views(out@) == all.subrange(start as int, i as int).map_values(show),
        decreases messages@.len() - i,
    {
        let ghost before = shown_views(out@);
        let m: &StoredMessage = &messages[i];
        let timestamp: String = match &m.created_at {
            Some(moment) => moment.to_rfc3339(),
            None => "-".to_owned(),
        };
        out.push(ShownMessage { role: m.role.clone(), timestamp, content: m.content.clone() });
        proof {
            assert(all[i as int] == m@);
            assert(shown_views(out@) =~= before.push(shown(all[i as int])));
            assert(all.subrange(start as int, i + 1).map_values(show) =~= before.push(
                shown(all[i as int]),
            ));
        }
        i += 1;
    }
    proof {
        assert(all.subrange(start as int, i as int) =~= all.skip(start as int));
        assert(all.len() == messages@.len());
    }
    out
}

/// The metadata of sessions as a document.
pub open spec fn sessions_document(sessions: Seq<MetadataView>) -> json::Document {
    json::Document::Array(sessions.map_values(|m: MetadataView| metadata_document(m)))
}

/// The metadata of sessions as a document.
pub fn sessions_json(sessions: &Vec<SessionMetadata>) -> (out: Json)
    ensures
        out@ == sessions_document(metadata_views(sessions@)),
{
    let ghost all = metadata_views(sessions@);
    let ghost show = |m: MetadataView| metadata_document(m);
    let mut out: Vec<Json> = Vec::new();
    let mut i: usize = 0;
    while i < sessions.len()
        invariant
            i <= sessions@.len(),
            all == metadata_views(sessions@),
            show == (|m: MetadataView| metadata_document(m)),
            json::documents_of(out@) =~= all.take(i as int).map_values(show),
        decreases sessions@.len() - i,
    {
        let ghost before = json::documents_of(out@);
        out.push(metadata_json(&sessions[i]));
        proof {
            assert(all[i as int] == sessions@[i as int]@);
            assert(json::documents_of(out@) =~= before.push(metadata_document(all[i as int])));
            assert(all.take(i + 1).map_values(show) =~= before.push(
                metadata_document(all[i as int]),
            ));
        }
        i += 1;
    }
    proof {
        assert(all.take(i as int) =~= all);
    }
    Json::Array(out)
}

/// The metadata of sessions as lines of a table.
pub open spec fn metadata_table(sessions: Seq<MetadataView>) -> Seq<Seq<Seq<char>>> {
    sessions.map_values(|m: MetadataView| metadata_cells(m))
}

/// The metadata of sessions as lines of a table.
pub fn metadata_rows(sessions: &Vec<SessionMetadata>) -> (out: Vec<Row>)
    ensures
        rows_cells(out@) == metadata_table(metadata_views(sessions@)),
{
    let ghost all = metadata_views(sessions@);
    let ghost show = |m: MetadataView| metadata_cells(m);
    let mut out: Vec<Row> = Vec::new();
    let mut i: usize = 0;
    while i < sessions.len()
        invariant
            i <= sessions@.len(),
            all == metadata_views(sessions@),
            show == (|m: MetadataView| metadata_cells(m)),
            rows_cells(out@) =~= all.take(i as int).map_values(show),
        decreases sessions@.len() - i,
    {
        let ghost before = rows_cells(out@);
        out.push(metadata_row(&sessions[i]));
        proof {
            assert(all[i as int] == sessions@[i as int]@);
            assert(rows_cells(out@) =~= before.push(metadata_cells(all[i as int])));
            assert(all.take(i + 1).map_values(show) =~= before.push(
                metadata_cells(all[i as int]),
            ));
        }
        i += 1;
    }
    proof {
        assert(all.take(i as int) =~= all);
    }
    out
}


/// A command of an operator.
#[derive(Debug)]
pub enum SessionsCommands {
    List { agent: Option<String>, channel: Option<String>, limit: usize, json: bool },
    Show { id: String, limit: usize, json: bool },
    Search { keyword: String, limit: usize, json: bool },
    Rename { id: String, name: String },
    Delete { id: String, yes: bool },
}

/// Which sessions to list, and how.
#[derive(Debug)]
pub struct ListQuery {
    pub agent: Option<String>,
    pub channel: Option<String>,
    pub limit: usize,
    pub json: bool,
}

/// What a [`ListQuery`] says.
pub struct ListQueryView {
    pub agent: Option<Seq<char>>,
    pub channel: Option<Seq<char>>,
    pub limit: nat,
    pub json: bool,
}

impl ListQuery {
    pub open spec fn view(&self) -> ListQueryView {
        ListQueryView {
            agent: text::option_view(self.agent),
            channel: text::option_view(self.channel),
            limit: self.limit as nat,
            json: self.json,
        }
    }
}

/// What to do with a session.
#[derive(Debug)]
pub enum Verb {
    Show { limit: usize, json: bool },
    Rename { name: String },
    Delete { yes: bool },
}

/// What a [`Verb`] says.
pub enum VerbView {
    Show { limit: nat, json: bool },
    Rename { name: Seq<char> },
    Delete { yes: bool },
}

impl Verb {
    pub open spec fn view(&self) -> VerbView {
        match self {
            Verb::Show { limit, json } => VerbView::Show { limit: *limit as nat, json: *json },
            Verb::Rename { name } => VerbView::Rename { name: name@ },
            Verb::Delete { yes } => VerbView::Delete { yes: *yes },
        }
    }
}

/// What to do with a session whose key is not known yet.
#[derive(Debug)]
pub struct Lookup {
    pub id: String,
    pub verb: Verb,
}

/// What a [`Lookup`] says.
pub struct LookupView {
    pub id: Seq<char>,
    pub verb: VerbView,
}

impl Lookup {
    pub open spec fn view(&self) -> LookupView {
        LookupView { id: self.id@, verb: self.verb@ }
    }
}

/// A search for sessions.
#[derive(Debug)]
pub struct Search {
    pub keyword: String,
    pub limit: usize,
    pub json: bool,
    /// Whether the store is one of JSON lines, which cannot be searched.
    pub jsonl: bool,
}

/// What a [`Search`] says.
pub struct SearchView {
    pub keyword: Seq<char>,
    pub limit: nat,
    pub json: bool,
    pub jsonl: bool,
}

impl Search {
    pub open spec fn view(&self) -> SearchView {
        SearchView {
            keyword: self.keyword@,
            limit: self.limit as nat,
            json: self.json,
            jsonl: self.jsonl,
        }
    }
}

/// What is said to the operator.
#[derive(Debug)]
pub enum Report {
    /// A document, as text. Beside it, apart from the output, that the store
    /// cannot be searched.
    Json { text: String, unsearchable: bool },
    /// Sessions, line by line; that there are none, where there are none.
    Table { rows: Vec<Row> },
    /// The last messages of a session.
    Transcript { key: String, total: usize, messages: Vec<ShownMessage> },
    /// That the store cannot be searched.
    Unsearchable,
    /// That no session matches.
    NoMatch { keyword: String },
    Renamed { key: String, name: String },
    /// That nothing was changed.
    Aborted,
    Deleted { key: String },
    /// That the store deleted nothing; it may not support it.
    NothingDeleted { key: String },
}

/// What a [`Report`] says.
#[verifier::ext_equal]
#[allow(inconsistent_fields)]
pub enum ReportView {
    Json { text: Seq<char>, unsearchable: bool },
    Table { rows: Seq<Seq<Seq<char>>> },
    Transcript { key: Seq<char>, total: nat, messages: Seq<ShownView> },
    Unsearchable,
    NoMatch { keyword: Seq<char> },
    Renamed { key: Seq<char>, name: Seq<char> },
    Aborted,
    Deleted { key: Seq<char> },
    NothingDeleted { key: Seq<char> },
}

impl Report {
    pub open spec fn view(&self) -> ReportView {
        match self {
            Report::Json { text, unsearchable } => ReportView::Json {
                text: text@,
                unsearchable: *unsearchable,
            },
            Report::Table { rows } => ReportView::Table { rows: rows_cells(rows@) },
            Report::Transcript { key, total, messages } => ReportView::Transcript {
                key: key@,
                total: *total as nat,
                messages: shown_views(messages@),
            },
            Report::Unsearchable => ReportView::Unsearchable,
            Report::NoMatch { keyword } => ReportView::NoMatch { keyword: keyword@ },
            Report::Renamed { key, name } => ReportView::Renamed { key: key@, name: name@ },
            Report::Aborted => ReportView::Aborted,
            Report::Deleted { key } => ReportView::Deleted { key: key@ },
            Report::NothingDeleted { key } => ReportView::NothingDeleted { key: key@ },
        }
    }
}

/// Why a command came to nothing.
#[derive(Debug)]
pub enum Problem {
    /// No session has the id.
    NotFound { id: String },
    /// The store failed, at what it was asked.
    Failed { context: &'static str, reason: String },
}

/// What a [`Problem`] says.
#[verifier::ext_equal]
pub enum ProblemView {
    NotFound { id: Seq<char> },
    Failed { context: Seq<char>, reason: Seq<char> },
}

impl Problem {
    pub open spec fn view(&self) -> ProblemView {
        match self {
            Problem::NotFound { id } => ProblemView::NotFound { id: id@ },
            Problem::Failed { context, reason } => ProblemView::Failed {
                context: context@,
                reason: reason@,
            },
        }
    }
}

/// What to ask next.
#[allow(inconsistent_fields)]
#[derive(Debug)]
pub enum SessionsStep {
    /// All sessions: [`ListQuery::listed`].
    List(ListQuery),
    /// Which of [`Lookup::candidates`] are stored: [`Lookup::resolved`].
    Resolve(Lookup),
    /// The messages of a session: [`loaded`].
    Load { key: String, limit: usize, json: bool },
    /// The sessions that a keyword finds: [`Search::found`].
    Search(Search),
    /// To name a session: [`renamed`].
    Rename { key: String, name: String },
    /// How many messages a session has, and then the operator whether to delete
    /// it: [`confirmed`].
    Confirm { key: String },
    /// To delete a session: [`deleted`].
    Delete { key: String },
    /// Nothing more.
    Done(Result<Report, Problem>),
}

/// What a [`SessionsStep`] says.
#[verifier::ext_equal]
#[allow(inconsistent_fields)]
pub enum StepView {
    List(ListQueryView),
    Resolve(LookupView),
    Load { key: Seq<char>, limit: nat, json: bool },
    Search(SearchView),
    Rename { key: Seq<char>, name: Seq<char> },
    Confirm { key: Seq<char> },
    Delete { key: Seq<char> },
    Done(Result<ReportView, ProblemView>),
}

impl SessionsStep {
    pub open spec fn view(&self) -> StepView {
        match self {
            SessionsStep::List(query) => StepView::List(query@),
            SessionsStep::Resolve(lookup) => StepView::Resolve(lookup@),
            SessionsStep::Load { key, limit, json } => StepView::Load {
                key: key@,
                limit: *limit as nat,
                json: *json,
            },
            SessionsStep::Search(search) => StepView::Search(search@),
            SessionsStep::Rename { key, name } => StepView::Rename { key: key@, name: name@ },
            SessionsStep::Confirm { key } => StepView::Confirm { key: key@ },
            SessionsStep::Delete { key } => StepView::Delete { key: key@ },
            SessionsStep::Done(Ok(report)) => StepView::Done(Ok(report@)),
            SessionsStep::Done(Err(problem)) => StepView::Done(Err(problem@)),
        }
    }
}

/// The first step of a command.
pub open spec fn first_step(cmd: SessionsCommands, backend_name: Seq<char>) -> StepView {
    match cmd {
        SessionsCommands::List { agent, channel, limit, json } => StepView::List(
            ListQueryView {
                agent: text::option_view(agent),
                channel: text::option_view(channel),
                limit: limit as nat,
                json,
            },
        ),
        SessionsCommands::Show { id, limit, json } => StepView::Resolve(
            LookupView { id: id@, verb: VerbView::Show { limit: limit as nat, json } },
        ),
        SessionsCommands::Search { keyword, limit, json } => StepView::Search(
            SearchView {
                keyword: keyword@,
                limit: limit as nat,
                json,
                jsonl: backend_name == "jsonl"@,
            },
        ),
        SessionsCommands::Rename { id, name } => StepView::Resolve(
            LookupView { id: id@, verb: VerbView::Rename { name: name@ } },
        ),
        SessionsCommands::Delete { id, yes } => StepView::Resolve(
            LookupView { id: id@, verb: VerbView::Delete { yes } },
        ),
    }
}

/// Handles a command: its first step. `backend_name` is the name of the store
/// that the configuration names.
pub fn handle_sessions(cmd: SessionsCommands, backend_name: &str) -> (out: SessionsStep)
    ensures
        out@ == first_step(cmd, backend_name@),
{
    match cmd {
        SessionsCommands::List { agent, channel, limit, json } => SessionsStep::List(
            ListQuery { agent, channel, limit, json },
        ),
        SessionsCommands::Show { id, limit, json } => SessionsStep::Resolve(
            Lookup { id, verb: Verb::Show { limit, json } },
        ),
        SessionsCommands::Search { keyword, limit, json } => SessionsStep::Search(
            Search { keyword, limit, json, jsonl: is_jsonl_backend(backend_name) },
        ),
        SessionsCommands::Rename { id, name } => SessionsStep::Resolve(
            Lookup { id, verb: Verb::Rename { name } },
        ),
        SessionsCommands::Delete { id, yes } => SessionsStep::Resolve(
            Lookup { id, verb: Verb::Delete { yes } },
        ),
    }
}

/// What a listing says.
pub open spec fn after_list(query: ListQueryView, sessions: Seq<MetadataView>) -> StepView {
    let shown = selected(sessions, query.agent, query.channel, query.limit);
    StepView::Done(
        Ok(
            if query.json {
                ReportView::Json {
                    text: json::rendered_pretty(sessions_document(shown)),
                    unsearchable: false,
                }
            } else {
                ReportView::Table { rows: metadata_table(shown) }
            },
        ),
    )
}

impl ListQuery {
    /// The listing.
    pub fn listed(self, sessions: Vec<SessionMetadata>) -> (out: SessionsStep)
        ensures
            out@ == after_list(self@, metadata_views(sessions@)),
    {
        let shown: Vec<SessionMetadata> = select(
            sessions,
            &self.agent,
            &self.channel,
            self.limit,
        );
        if self.json {
            SessionsStep::Done(
                Ok(
                    Report::Json {
                        text: sessions_json(&shown).render_pretty(),
                        unsearchable: false,
                    },
                ),
            )
        } else {
            SessionsStep::Done(Ok(Report::Table { rows: metadata_rows(&shown) }))
        }
    }
}

/// The step after a session's key has been looked for.
pub open spec fn after_resolve(lookup: LookupView, existing: Seq<Seq<char>>) -> StepView {
    match resolved_key(existing, lookup.id) {
        None => StepView::Done(Err(ProblemView::NotFound { id: lookup.id })),
        Some(key) => match lookup.verb {
            VerbView::Show { limit, json } => StepView::Load { key, limit, json },
            VerbView::Rename { name } => StepView::Rename { key, name },
            VerbView::Delete { yes } => if yes {
                StepView::Delete { key }
            } else {
                StepView::Confirm { key }
            },
        },
    }
}

impl Lookup {
    /// The keys that the session's id can stand for.
    pub fn candidates(&self) -> (out: Vec<String>)
        ensures
            text::views(out@) == candidate_keys(self@.id),
    {
        candidates(self.id.as_str())
    }

    /// The next step, once it is known which keys are stored.
    pub fn resolved(self, existing: &Vec<String>) -> (out: SessionsStep)
        ensures
            out@ == after_resolve(self@, text::views(existing@)),
    {
        match resolve_session_key(existing, self.id.as_str()) {
            None => SessionsStep::Done(Err(Problem::NotFound { id: self.id })),
            Some(key) => match self.verb {
                Verb::Show { limit, json } => SessionsStep::Load { key, limit, json },
                Verb::Rename { name } => SessionsStep::Rename { key, name },
                Verb::Delete { yes } => if yes {
                    SessionsStep::Delete { key }
                } else {
                    SessionsStep::Confirm { key }
                },
            },
        }
    }
}

/// The report on a session's messages.
pub open spec fn after_load(
    key: Seq<char>,
    limit: nat,
    json: bool,
    messages: Seq<MessageView>,
) -> ReportView {
    if json {
        ReportView::Json {
            text: json::rendered_pretty(transcript_document(key, messages, limit)),
            unsearchable: false,
        }
    } else {
        ReportView::Transcript {
            key,
            total: messages.len(),
            messages: tail(messages, limit).map_values(|m: MessageView| shown(m)),
        }
    }
}

/// The report on a session's messages: the last of them, or all where the limit
/// is 0.
pub fn loaded(key: String, limit: usize, json: bool, messages: &Vec<StoredMessage>) -> (out: Report)
    ensures
        out@ == after_load(key@, limit as nat, json, message_views(messages@)),
{
    if json {
        Report::Json {
            text: transcript_json(key.as_str(), messages, limit).render_pretty(),
            unsearchable: false,
        }
    } else {
        proof {
            assert(message_views(messages@).len() == messages@.len());
        }
        Report::Transcript { key, total: messages.len(), messages: transcript(messages, limit) }
    }
}

/// What a search says.
pub open spec fn after_search(search: SearchView, results: Seq<MetadataView>) -> ReportView {
    if search.json {
        ReportView::Json {
            text: json::rendered_pretty(sessions_document(results)),
            unsearchable: search.jsonl,
        }
    } else if search.jsonl {
        ReportView::Unsearchable
    } else if results.len() == 0 {
        ReportView::NoMatch { keyword: search.keyword }
    } else {
        ReportView::Table { rows: metadata_table(results) }
    }
}

impl Search {
    /// The report on what was found.
    pub fn found(self, results: &Vec<SessionMetadata>) -> (out: Report)
        ensures
            out@ == after_search(self@, metadata_views(results@)),
    {
        proof {
            assert(metadata_views(results@).len() == results@.len());
        }
        if self.json {
            return Report::Json {
                text: sessions_json(results).render_pretty(),
                unsearchable: self.jsonl,
            };
        }
        if self.jsonl {
            return Report::Unsearchable;
        }
        if results.len() == 0 {
            Report::NoMatch { keyword: self.keyword }
        } else {
            Report::Table { rows: metadata_rows(results) }
        }
    }
}

/// What an outcome says.
pub open spec fn outcome_view(outcome: Result<Report, Problem>) -> Result<ReportView, ProblemView> {
    match outcome {
        Ok(report) => Ok(report@),
        Err(problem) => Err(problem@),
    }
}

/// The report on a session that has been named.
pub fn renamed(key: String, name: String, done: Result<(), String>) -> (out: Result<
    Report,
    Problem,
>)
    ensures
        outcome_view(out) == (match done {
            Ok(()) => Ok(ReportView::Renamed { key: key@, name: name@ }),
            Err(reason) => Err(
                ProblemView::Failed { context: "set session name"@, reason: reason@ },
            ),
        }),
{
    match done {
        Ok(()) => Ok(Report::Renamed { key, name }),
        Err(reason) => Err(Problem::Failed { context: "set session name", reason }),
    }
}

/// Whether an operator's answer is a yes.
pub open spec fn is_yes(answer: Seq<char>) -> bool {
    let said = text::lowered(text::trimmed(answer));
    said == "y"@ || said == "yes"@
}

/// The step after the operator has answered.
pub open spec fn after_confirm(key: Seq<char>, answer: Seq<char>) -> StepView {
    if is_yes(answer) {
        StepView::Delete { key }
    } else {
        StepView::Done(Ok(ReportView::Aborted))
    }
}

/// The next step, once the operator has answered: only a yes deletes.
pub fn confirmed(key: String, answer: &str) -> (out: SessionsStep)
    ensures
        out@ == after_confirm(key@, answer@),
{
    let said: String = text::lower_text(text::trim(answer).as_str());
    if text::same(said.as_str(), "y") || text::same(said.as_str(), "yes") {
        SessionsStep::Delete { key }
    } else {
        SessionsStep::Done(Ok(Report::Aborted))
    }
}

/// The report on a session that was to be deleted.
pub fn deleted(key: String, done: Result<bool, String>) -> (out: Result<Report, Problem>)
    ensures
        outcome_view(out) == (match done {
            Ok(true) => Ok(ReportView::Deleted { key: key@ }),
            Ok(false) => Ok(ReportView::NothingDeleted { key: key@ }),
            Err(reason) => Err(
                ProblemView::Failed { context: "delete session"@, reason: reason@ },
            ),
        }),
{
    match done {
        Ok(true) => Ok(Report::Deleted { key }),
        Ok(false) => Ok(Report::NothingDeleted { key }),
        Err(reason) => Err(Problem::Failed { context: "delete session", reason }),
    }
}

/// A session is deleted only under a key that is stored and that the operator's
/// id stands for; and only with a yes, given in advance or when asked.
pub proof fn law_only_a_confirmed_session_is_deleted(
    lookup: LookupView,
    existing: Seq<Seq<char>>,
    answer: Seq<char>,
    key: Seq<char>,
)
    requires
        after_resolve(lookup, existing) == (StepView::Delete { key }) || (after_resolve(
            lookup,
            existing,
        ) == (StepView::Confirm { key }) && after_confirm(key, answer) is Delete),
    ensures
        existing.contains(key),
        candidate_keys(lookup.id).contains(key),
        lookup.verb matches VerbView::Delete { yes } && (yes || is_yes(answer)),
{
    law_a_resolved_key_is_stored(existing, lookup.id);
}

/// A session id stands for the first of four keys that is stored: the id itself,
/// then the id behind `gw_`, behind `rpc_`, behind `cc_`.
pub proof fn law_forms_are_tried_in_order(existing: Seq<Seq<char>>, id: Seq<char>)
    ensures
        existing.contains(id) ==> resolved_key(existing, id) == Some(id),
        !existing.contains(id) && existing.contains("gw_"@ + id) ==> resolved_key(existing, id)
            == Some("gw_"@ + id),
        !existing.contains(id) && !existing.contains("gw_"@ + id) && existing.contains("rpc_"@ + id)
            ==> resolved_key(existing, id) == Some("rpc_"@ + id),
        !existing.contains(id) && !existing.contains("gw_"@ + id) && !existing.contains("rpc_"@ + id)
            && existing.contains("cc_"@ + id) ==> resolved_key(existing, id) == Some("cc_"@ + id),
        !existing.contains(id) && !existing.contains("gw_"@ + id) && !existing.contains("rpc_"@ + id)
            && !existing.contains("cc_"@ + id) ==> resolved_key(existing, id) is None,
        candidate_keys(id).len() == 4,
        candidate_keys(id)[0] == id,
        candidate_keys(id)[1] == "gw_"@ + id,
        candidate_keys(id)[2] == "rpc_"@ + id,
        candidate_keys(id)[3] == "cc_"@ + id,
{
}

/// Of a transcript the last messages are shown, exactly as many as asked for, in
/// their order; all of them where none are asked for by number, or more than
/// there are. Each is shown as it was stored; and the whole number is told.
pub proof fn law_a_transcript_shows_the_last_messages(
    key: Seq<char>,
    messages: Seq<MessageView>,
    limit: nat,
    k: int,
)
    ensures
        after_load(key, limit, false, messages) matches ReportView::Transcript {
            key: told,
            total,
            messages: shown,
        } && {
            &&& told == key
            &&& total == messages.len()
            &&& 0 < limit < messages.len() ==> shown.len() == limit
            &&& limit == 0 || limit >= messages.len() ==> shown.len() == messages.len()
            &&& 0 <= k < shown.len() ==> {
                let stored = messages[messages.len() - shown.len() + k];
                &&& shown[k].role == stored.role
                &&& shown[k].content == stored.content
                &&& stored.created_at matches Some(m) ==> shown[k].timestamp == clock::rfc3339(
                    m.seconds,
                    m.nanos,
                )
                &&& stored.created_at is None ==> shown[k].timestamp == "-"@
            }
        },
{
}

/// The same messages stand in the transcript as a document, each with its role,
/// its content and its moment, or null where it has none; beside them the key and
/// the whole number.
pub proof fn law_a_transcript_document_holds_the_last_messages(
    key: Seq<char>,
    messages: Seq<MessageView>,
    limit: nat,
    k: int,
)
    ensures
        ({
            let document = transcript_document(key, messages, limit);
            &&& document.at("key"@) == json::Document::Text(key)
            &&& document.at("message_count"@) == json::Document::Number(
                json::number_of(messages.len() as u64),
            )
            &&& document.at("messages"@) matches json::Document::Array(items)
            &&& 0 < limit < messages.len() ==> items.len() == limit
            &&& limit == 0 || limit >= messages.len() ==> items.len() == messages.len()
            &&& 0 <= k < items.len() ==> {
                let stored = messages[messages.len() - items.len() + k];
                &&& items[k].at("role"@) == json::Document::Text(stored.role)
                &&& items[k].at("content"@) == json::Document::Text(stored.content)
                &&& items[k].get("created_at"@) == Some(
                    match stored.created_at {
                        Some(m) => json::Document::Text(clock::rfc3339(m.seconds, m.nanos)),
                        None => json::Document::Null,
                    },
                )
            }
        }),
        after_load(key, limit, true, messages) == (ReportView::Json {
            text: json::rendered_pretty(transcript_document(key, messages, limit)),
            unsearchable: false,
        }),
{
    reveal_strlit("key");
    reveal_strlit("message_count");
    reveal_strlit("messages");
    reveal_strlit("role");
    reveal_strlit("content");
    reveal_strlit("created_at");
    assert("key"@.len() == 3 && "message_count"@.len() == 13 && "messages"@.len() == 8);
    assert("role"@.len() == 4 && "content"@.len() == 7 && "created_at"@.len() == 10);
}

/// The document of a session tells all that is known of it, each under its own
/// name, with null for what is not.
pub proof fn law_a_session_document_tells_all(m: MetadataView)
    ensures
        ({
            let document = metadata_document(m);
            &&& document.get("key"@) == Some(json::Document::Text(m.key))
            &&& document.get("name"@) == Some(
                match m.name {
                    Some(s) => json::Document::Text(s),
                    None => json::Document::Null,
                },
            )
            &&& document.get("created_at"@) == Some(
                json::Document::Text(clock::rfc3339(m.created_at.seconds, m.created_at.nanos)),
            )
            &&& document.get("last_activity"@) == Some(
                json::Document::Text(
                    clock::rfc3339(m.last_activity.seconds, m.last_activity.nanos),
                ),
            )
            &&& document.get("message_count"@) == Some(
                json::Document::Number(json::number_of(m.message_count as u64)),
            )
            &&& document.get("agent_alias"@) == Some(
                match m.agent_alias {
                    Some(s) => json::Document::Text(s),
                    None => json::Document::Null,
                },
            )
            &&& document.get("channel_id"@) == Some(
                match m.channel_id {
                    Some(s) => json::Document::Text(s),
                    None => json::Document::Null,
                },
            )
            &&& document.get("room_id"@) == Some(
                match m.room_id {
                    Some(s) => json::Document::Text(s),
                    None => json::Document::Null,
                },
            )
            &&& document.get("sender_id"@) == Some(
                match m.sender_id {
                    Some(s) => json::Document::Text(s),
                    None => json::Document::Null,
                },
            )
        }),
{
    reveal_strlit("key");
    reveal_strlit("name");
    reveal_strlit("created_at");
    reveal_strlit("last_activity");
    reveal_strlit("message_count");
    reveal_strlit("agent_alias");
    reveal_strlit("channel_id");
    reveal_strlit("room_id");
    reveal_strlit("sender_id");
    assert("key"@.len() == 3 && "name"@.len() == 4 && "created_at"@.len() == 10);
    assert("last_activity"@.len() == 13 && "message_count"@.len() == 13);
    assert("agent_alias"@.len() == 11 && "channel_id"@.len() == 10 && "room_id"@.len() == 7);
    assert("sender_id"@.len() == 9);
    assert("last_activity"@[0] != "message_count"@[0]);
    assert("created_at"@[1] != "channel_id"@[1]);
}

/// The line of a session in a table: its key, its name, its agent, its channel,
/// how many messages it has, and when it was last active; a dash for what is not
/// known.
pub proof fn law_a_session_line_tells_six_things(m: MetadataView)
    ensures
        ({
            let line = metadata_cells(m);
            &&& line.len() == 6
            &&& line[0] == m.key
            &&& m.name matches Some(s) ==> line[1] == s
            &&& m.name is None ==> line[1] == "-"@
            &&& m.agent_alias matches Some(s) ==> line[2] == s
            &&& m.agent_alias is None ==> line[2] == "-"@
            &&& m.channel_id matches Some(s) ==> line[3] == s
            &&& m.channel_id is None ==> line[3] == "-"@
            &&& text::number_in(line[4]) == m.message_count
            &&& line[5] == clock::table_text(m.last_activity.seconds, m.last_activity.nanos)
        }),
{
    text::law_decimal(m.message_count);
}

/// A column is as wide as its widest cell: no cell is wider, and one is as wide.
pub proof fn law_a_column_fits_its_widest_cell(
    headers: Seq<Seq<char>>,
    rows: Seq<Seq<Seq<char>>>,
    c: int,
)
    ensures
        headers[c].len() <= column_width(headers, rows, c),
        forall|r: int|
            0 <= r < rows.len() ==> (#[trigger] rows[r])[c].len() <= column_width(headers, rows, c),
        headers[c].len() == column_width(headers, rows, c) || exists|r: int|
            0 <= r < rows.len() && (#[trigger] rows[r])[c].len() == column_width(headers, rows, c),
        column_widths(headers, rows).len() == 6,
        0 <= c < 6 ==> column_widths(headers, rows)[c] == column_width(headers, rows, c),
    decreases rows.len(),
{
    lemma_column_width(headers, rows, c);
    if rows.len() > 0 {
        let front = rows.drop_last();
        law_a_column_fits_its_widest_cell(headers, front, c);
        let width = column_width(headers, front, c);
        if width >= rows.last()[c].len() {
            if headers[c].len() != width {
                let r = choose|r: int|
                    0 <= r < front.len() && (#[trigger] front[r])[c].len() == width;
                assert(rows[r] == front[r]);
            }
        } else {
            assert(rows[rows.len() - 1] == rows.last());
        }
    }
}

/// A line of a table is its six cells in order, each filled up with spaces to the
/// width of its column, two spaces between them, and nothing behind the last but
/// what trimming leaves.
pub proof fn law_a_line_is_its_cells(row: Seq<Seq<char>>, widths: Seq<nat>, cell: Seq<char>, w: nat)
    ensures
        padded(cell, w).len() == (if w > cell.len() {
            w
        } else {
            cell.len()
        }),
        cell.is_prefix_of(padded(cell, w)),
        forall|i: int| cell.len() <= i < padded(cell, w).len() ==> #[trigger] padded(cell, w)[i] == ' ',
        table_line(row, widths) == text::trimmed_end(
            padded(row[0], widths[0]) + "  "@ + padded(row[1], widths[1]) + "  "@ + padded(
                row[2],
                widths[2],
            ) + "  "@ + padded(row[3], widths[3]) + "  "@ + padded(row[4], widths[4]) + "  "@
                + padded(row[5], widths[5]),
        ),
{
    assert(padded(cell, w).take(cell.len() as int) =~= cell);
    reveal_with_fuel(padded_line, 7);
}

/// A table has a line for the headers and then one for each row, in order.
pub proof fn law_a_table_has_a_line_for_each_row(
    headers: Seq<Seq<char>>,
    rows: Seq<Seq<Seq<char>>>,
    r: int,
)
    requires
        0 <= r < rows.len(),
    ensures
        table(headers, rows).len() == rows.len() + 1,
        table(headers, rows)[0] == table_line(headers, column_widths(headers, rows)),
        table(headers, rows)[r + 1] == table_line(rows[r], column_widths(headers, rows)),
{
}

/// A listing shows the sessions of the agent, and of channels whose names begin
/// as asked, where these are asked for; the newest first; and no more than the
/// limit, which takes the oldest away.
pub proof fn law_a_listing_shows_the_newest_wanted(
    sessions: Seq<MetadataView>,
    agent: Option<Seq<char>>,
    channel: Option<Seq<char>>,
    limit: nat,
    m: MetadataView,
)
    ensures
        is_wanted(m, agent, channel) <==> {
            &&& agent is None || m.agent_alias == agent
            &&& channel is None || (m.channel_id is Some && channel->Some_0.is_prefix_of(
                m.channel_id->Some_0,
            ))
        },
        ({
            let fitting = newest_first(
                sessions.filter(|s: MetadataView| is_wanted(s, agent, channel)),
            );
            let shown = selected(sessions, agent, channel, limit);
            &&& shown.is_prefix_of(fitting)
            &&& shown.len() == (if fitting.len() < limit {
                fitting.len()
            } else {
                limit
            })
        }),
{
    if channel is Some && m.channel_id is Some {
        text::law_containing(m.channel_id->Some_0, channel->Some_0);
    }
    let fitting = newest_first(sessions.filter(|s: MetadataView| is_wanted(s, agent, channel)));
    let shown = selected(sessions, agent, channel, limit);
    assert(shown =~= fitting.take(shown.len() as int));
}

/// What a listing and a search say: a document, or lines of a table, one for each
/// session in order; of a search without a result, which keyword it was; and of a
/// store of JSON lines, that it cannot be searched.
pub proof fn law_what_listings_and_searches_say(
    query: ListQueryView,
    search: SearchView,
    sessions: Seq<MetadataView>,
    k: int,
)
    ensures
        ({
            let shown = selected(sessions, query.agent, query.channel, query.limit);
            &&& query.json ==> after_list(query, sessions) == StepView::Done(
                Ok(
                    ReportView::Json {
                        text: json::rendered_pretty(sessions_document(shown)),
                        unsearchable: false,
                    },
                ),
            )
            &&& !query.json ==> (after_list(query, sessions) matches StepView::Done(
                Ok(ReportView::Table { rows }),
            ) && rows.len() == shown.len() && (0 <= k < rows.len() ==> rows[k] == metadata_cells(
                shown[k],
            )))
        }),
        search.json ==> after_search(search, sessions) == (ReportView::Json {
            text: json::rendered_pretty(sessions_document(sessions)),
            unsearchable: search.jsonl,
        }),
        !search.json && search.jsonl ==> after_search(search, sessions) is Unsearchable,
        !search.json && !search.jsonl && sessions.len() == 0 ==> after_search(search, sessions) == (
        ReportView::NoMatch { keyword: search.keyword }),
        !search.json && !search.jsonl && sessions.len() > 0 ==> (after_search(
            search,
            sessions,
        ) matches ReportView::Table { rows } && rows.len() == sessions.len() && (0 <= k < rows.len()
            ==> rows[k] == metadata_cells(sessions[k]))),
        sessions_document(sessions) matches json::Document::Array(items) && items.len()
            == sessions.len() && (0 <= k < items.len() ==> items[k] == metadata_document(
            sessions[k],
        )),
{
}

/// What each command asks first.
pub proof fn law_what_a_command_asks_first(cmd: SessionsCommands, backend_name: Seq<char>)
    ensures
        cmd matches SessionsCommands::List { agent, channel, limit, json } ==> (first_step(
            cmd,
            backend_name,
        ) matches StepView::List(query) && {
            &&& query.agent is Some <==> agent is Some
            &&& agent matches Some(a) ==> query.agent == Some(a@)
            &&& query.channel is Some <==> channel is Some
            &&& channel matches Some(c) ==> query.channel == Some(c@)
            &&& query.limit == limit
            &&& query.json == json
        }),
        cmd matches SessionsCommands::Show { id, limit, json } ==> first_step(cmd, backend_name)
            == StepView::Resolve(
            LookupView { id: id@, verb: VerbView::Show { limit: limit as nat, json } },
        ),
        cmd matches SessionsCommands::Search { keyword, limit, json } ==> first_step(
            cmd,
            backend_name,
        ) == StepView::Search(
            SearchView {
                keyword: keyword@,
                limit: limit as nat,
                json,
                jsonl: backend_name == "jsonl"@,
            },
        ),
        cmd matches SessionsCommands::Rename { id, name } ==> first_step(cmd, backend_name)
            == StepView::Resolve(LookupView { id: id@, verb: VerbView::Rename { name: name@ } }),
        cmd matches SessionsCommands::Delete { id, yes } ==> first_step(cmd, backend_name)
            == StepView::Resolve(LookupView { id: id@, verb: VerbView::Delete { yes } }),
{
}

/// What becomes of a session that was looked for: it is loaded, named, or
/// deleted, the last only after asking unless told not to; an id that stands for
/// none is told.
pub proof fn law_what_becomes_of_a_session(
    existing: Seq<Seq<char>>,
    id: Seq<char>,
    key: Seq<char>,
    limit: nat,
    json: bool,
    name: Seq<char>,
    verb: VerbView,
)
    ensures
        resolved_key(existing, id) is None ==> after_resolve(LookupView { id, verb }, existing)
            == StepView::Done(Err(ProblemView::NotFound { id })),
        resolved_key(existing, id) == Some(key) ==> {
            &&& after_resolve(LookupView { id, verb: VerbView::Show { limit, json } }, existing) == (
            StepView::Load { key, limit, json })
            &&& after_resolve(LookupView { id, verb: VerbView::Rename { name } }, existing) == (
            StepView::Rename { key, name })
            &&& after_resolve(LookupView { id, verb: VerbView::Delete { yes: true } }, existing) == (
            StepView::Delete { key })
            &&& after_resolve(LookupView { id, verb: VerbView::Delete { yes: false } }, existing)
                == (StepView::Confirm { key })
        },
{
}

/// A yes is `y` or `yes`, in any case and with white space around it; it deletes
/// the session that was asked about, and anything else changes nothing.
pub proof fn law_only_a_yes_is_a_yes(key: Seq<char>, answer: Seq<char>)
    ensures
        is_yes(answer) <==> text::lowered(text::trimmed(answer)) == seq!['y'] || text::lowered(
            text::trimmed(answer),
        ) == seq!['y', 'e', 's'],
        is_yes(answer) ==> after_confirm(key, answer) == (StepView::Delete { key }),
        !is_yes(answer) ==> after_confirm(key, answer) == StepView::Done(Ok(ReportView::Aborted)),
{
    reveal_strlit("y");
    reveal_strlit("yes");
    assert("y"@ =~= seq!['y']);
    assert("yes"@ =~= seq!['y', 'e', 's']);
}

/// What sessions, messages and rows say is what they hold, in order.
pub proof fn law_sessions_say_what_they_hold(
    m: SessionMetadata,
    sessions: Seq<SessionMetadata>,
    message: StoredMessage,
    messages: Seq<StoredMessage>,
    shown: ShownMessage,
    i: int,
)
    ensures
        m@.key == m.key@,
        m@.name is Some <==> m.name is Some,
        m.name matches Some(s) ==> m@.name == Some(s@),
        m@.created_at == m.created_at@,
        m@.last_activity == m.last_activity@,
        m@.message_count == m.message_count,
        m@.agent_alias is Some <==> m.agent_alias is Some,
        m.agent_alias matches Some(s) ==> m@.agent_alias == Some(s@),
        m@.channel_id is Some <==> m.channel_id is Some,
        m.channel_id matches Some(s) ==> m@.channel_id == Some(s@),
        m@.room_id is Some <==> m.room_id is Some,
        m.room_id matches Some(s) ==> m@.room_id == Some(s@),
        m@.sender_id is Some <==> m.sender_id is Some,
        m.sender_id matches Some(s) ==> m@.sender_id == Some(s@),
        metadata_views(sessions).len() == sessions.len(),
        0 <= i < sessions.len() ==> metadata_views(sessions)[i] == sessions[i]@,
        message@.role == message.role@,
        message@.content == message.content@,
        message@.created_at is Some <==> message.created_at is Some,
        message.created_at matches Some(at) ==> message@.created_at == Some(at@),
        message_views(messages).len() == messages.len(),
        0 <= i < messages.len() ==> message_views(messages)[i] == messages[i]@,
        shown@.role == shown.role@,
        shown@.timestamp == shown.timestamp@,
        shown@.content == shown.content@,
{
}

/// What queries, reports and steps say is what they hold.
pub proof fn law_reports_say_what_they_hold(
    query: ListQuery,
    verb: Verb,
    lookup: Lookup,
    search: Search,
    report: Report,
    problem: Problem,
    step: SessionsStep,
    rows: Seq<Row>,
    lines: Seq<ShownMessage>,
    k: int,
    c: int,
)
    ensures
        rows_cells(rows).len() == rows.len(),
        0 <= k < rows.len() ==> rows_cells(rows)[k].len() == 6,
        0 <= k < rows.len() && 0 <= c < 6 ==> rows_cells(rows)[k][c] == rows[k]@[c]@,
        shown_views(lines).len() == lines.len(),
        0 <= k < lines.len() ==> shown_views(lines)[k] == lines[k]@,
        query@.agent is Some <==> query.agent is Some,
        query.agent matches Some(a) ==> query@.agent == Some(a@),
        query@.channel is Some <==> query.channel is Some,
        query.channel matches Some(c) ==> query@.channel == Some(c@),
        query@.limit == query.limit && query@.json == query.json,
        verb matches Verb::Show { limit, json } ==> verb@ == (VerbView::Show {
            limit: limit as nat,
            json,
        }),
        verb matches Verb::Rename { name } ==> verb@ == (VerbView::Rename { name: name@ }),
        verb matches Verb::Delete { yes } ==> verb@ == (VerbView::Delete { yes }),
        lookup@.id == lookup.id@ && lookup@.verb == lookup.verb@,
        search@.keyword == search.keyword@ && search@.limit == search.limit,
        search@.json == search.json && search@.jsonl == search.jsonl,
        report matches Report::Json { text, unsearchable } ==> report@ == (ReportView::Json {
            text: text@,
            unsearchable,
        }),
        report matches Report::Table { rows } ==> report@ == (ReportView::Table {
            rows: rows_cells(rows@),
        }),
        report matches Report::Transcript { key, total, messages } ==> report@ == (
        ReportView::Transcript {
            key: key@,
            total: total as nat,
            messages: shown_views(messages@),
        }),
        report is Unsearchable ==> report@ is Unsearchable,
        report matches Report::NoMatch { keyword } ==> report@ == (ReportView::NoMatch {
            keyword: keyword@,
        }),
        report matches Report::Renamed { key, name } ==> report@ == (ReportView::Renamed {
            key: key@,
            name: name@,
        }),
        report is Aborted ==> report@ is Aborted,
        report matches Report::Deleted { key } ==> report@ == (ReportView::Deleted { key: key@ }),
        report matches Report::NothingDeleted { key } ==> report@ == (ReportView::NothingDeleted {
            key: key@,
        }),
        problem matches Problem::NotFound { id } ==> problem@ == (ProblemView::NotFound { id: id@ }),
        problem matches Problem::Failed { context, reason } ==> problem@ == (ProblemView::Failed {
            context: context@,
            reason: reason@,
        }),
        step matches SessionsStep::List(q) ==> step@ == StepView::List(q@),
        step matches SessionsStep::Resolve(l) ==> step@ == StepView::Resolve(l@),
        step matches SessionsStep::Load { key, limit, json } ==> step@ == (StepView::Load {
            key: key@,
            limit: limit as nat,
            json,
        }),
        step matches SessionsStep::Search(s) ==> step@ == StepView::Search(s@),
        step matches SessionsStep::Rename { key, name } ==> step@ == (StepView::Rename {
            key: key@,
            name: name@,
        }),
        step matches SessionsStep::Confirm { key } ==> step@ == (StepView::Confirm { key: key@ }),
        step matches SessionsStep::Delete { key } ==> step@ == (StepView::Delete { key: key@ }),
        step matches SessionsStep::Done(Ok(r)) ==> step@ == StepView::Done(Ok(r@)),
        step matches SessionsStep::Done(Err(p)) ==> step@ == StepView::Done(Err(p@)),
{
}

/// What a command came to is told as it is.
pub proof fn law_outcomes_say_what_they_hold(report: Report, problem: Problem)
    ensures
        outcome_view(Ok(report)) == Ok::<ReportView, ProblemView>(report@),
        outcome_view(Err(problem)) == Err::<ReportView, ProblemView>(problem@),
{
}

}
