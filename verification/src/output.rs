//! Rendering an envelope in the three output formats.

use crate::common::envelope::{Envelope, ErrorEnvelope};
use crate::common::errors::{hint_of, message_of, Error, Fault};
use crate::common::flags::OutputFormat;
use crate::common::time::{to_zulu, zulu_text, Instant};
use crate::glob::opt_text;
use crate::json::{
    self, compact, compact_fields, compact_items, compact_text, escaped, escaped_all, items_of,
    key_index, key_index_is, pretty, pretty_text, quoted, text_or_null, Json, JsonTree,
};
use crate::text::{
    any, any_in, chars_of, copy_of, count_in, decimal, decimal_of, digit_char, extend, extend_str,
    hex, hex_of, is_control, join, joined, lead_len, lead_len_stops, same_str, string_of, texts,
    trail_len, trail_len_stops, trim, trim_end, trimmed, trimmed_end, trimmed_start, CharClass,
};
use vstd::prelude::*;
use vstd::string::StringExecFns;

verus! {

// ---------------------------------------------------------------------------
// Cells
// ---------------------------------------------------------------------------

/// Text on its way to one line, and whether it ends in a blank that stands for
/// a break. Breaks and tabs become single blanks, and none stands in front;
/// other control characters become a visible `\xNN`.
pub open spec fn flat(s: Seq<char>) -> (Seq<char>, bool)
    decreases s.len(),
{
    if s.len() == 0 {
        (Seq::empty(), false)
    } else {
        let (out, blank) = flat(s.drop_last());
        let c = s.last();
        if c == '\n' || c == '\r' || c == '\t' {
            if out.len() > 0 && !blank {
                (out.push(' '), true)
            } else {
                (out, blank)
            }
        } else if CharClass::Control.has(c) {
            (out + seq!['\\', 'x'] + hex(c as u32 as nat, 2), false)
        } else {
            (out.push(c), false)
        }
    }
}

/// Text made safe to show on one line of a terminal.
pub open spec fn flattened(s: Seq<char>) -> Seq<char> {
    if any_in(s, CharClass::Control) {
        trimmed(flat(s).0, CharClass::White)
    } else {
        s
    }
}

/// Make one field safe to render on a terminal.
///
/// Log message content is written by whatever produces the logs, and text mode
/// renders it straight to a TTY: embedded newlines break column alignment for
/// every row after them, and control characters are *interpreted* by the
/// terminal. A line carrying `ESC[2K` or `ESC[A` erases or overwrites what is
/// already on screen. Control characters become visible rather than being
/// dropped, so their presence is evident.
pub fn flatten(s: &str) -> (r: String)
    ensures
        r@ == flattened(s@),
{
    let cs = chars_of(s);
    let out = flatten_chars(cs.as_slice());
    string_of(out.as_slice())
}

/// Make characters safe to render on a terminal.
fn flatten_chars(s: &[char]) -> (r: Vec<char>)
    ensures
        r@ == flattened(s@),
{
    if !any(s, CharClass::Control) {
        return copy_of(s);
    }
    let mut out: Vec<char> = Vec::new();
    let mut blank = false;
    let mut i: usize = 0;
    while i < s.len()
        invariant
            i <= s@.len(),
            (out@, blank) == flat(s@.take(i as int)),
        decreases s@.len() - i,
    {
        let c = s[i];
        let ghost out0 = out@;
        proof {
            assert(s@.take(i + 1).drop_last() == s@.take(i as int));
            assert(s@.take(i + 1).last() == c);
        }
        if c == '\n' || c == '\r' || c == '\t' {
            if out.len() > 0 && !blank {
                out.push(' ');
                blank = true;
            }
        } else if CharClass::Control.test(c) {
            out.push('\\');
            out.push('x');
            let digits = hex_of(c as u32 as u64, 2);
            extend(&mut out, digits.as_slice());
            blank = false;
            proof {
                assert(out@ =~= out0 + seq!['\\', 'x'] + hex(c as u32 as nat, 2));
            }
        } else {
            out.push(c);
            blank = false;
        }
        i += 1;
    }
    proof {
        assert(s@.take(i as int) == s@);
    }
    copy_of(trim(out.as_slice(), CharClass::White))
}

/// The value of a field; none where the row is no object or lacks it.
pub open spec fn field(row: JsonTree, key: Seq<char>) -> Option<JsonTree> {
    match row {
        JsonTree::Object(m) => if key_index(m, key) < m.len() {
            Some(m[key_index(m, key)].1)
        } else {
            None
        },
        _ => None,
    }
}

/// A cell as one line. Nested structures collapse to compact JSON rather than
/// being dropped, so text mode never silently hides a field that JSON mode
/// would show.
pub open spec fn cell(v: Option<JsonTree>) -> Seq<char> {
    match v {
        None => "-"@,
        Some(t) => match t {
            JsonTree::Null => "-"@,
            JsonTree::Text(s) => flattened(s),
            _ => flattened(compact(t)),
        },
    }
}

/// Find a field.
fn find_field<'a>(row: &'a Json, key: &str) -> (r: Option<&'a Json>)
    ensures
        (match r {
            Some(v) => Some(v@),
            None => None,
        }) == field(row@, key@),
{
    match row {
        Json::Object(map) => {
            let ghost m = row@->Object_0;
            let n = map.len();
            let mut i: usize = 0;
            while i < n
                invariant
                    *row == Json::Object(*map),
                    m == row@->Object_0,
                    n == map@.len(),
                    i <= n,
                    forall|j: int| 0 <= j < i ==> (#[trigger] m[j]).0 != key@,
                decreases n - i,
            {
                proof {
                    assert(m[i as int] == (map@[i as int].0@, map@[i as int].1@));
                }
                if same_str(map[i].0.as_str(), key) {
                    proof {
                        key_index_is(m, key@, i as int);
                    }
                    return Some(&map[i].1);
                }
                i += 1;
            }
            proof {
                key_index_is(m, key@, n as int);
            }
            None
        },
        _ => None,
    }
}

/// Show a cell.
fn scalar(v: Option<&Json>) -> (r: Vec<char>)
    ensures
        r@ == cell(match v {
            Some(j) => Some(j@),
            None => None,
        }),
{
    match v {
        None => chars_of("-"),
        Some(j) => match j {
            Json::Null => chars_of("-"),
            Json::Text(s) => {
                let cs = chars_of(s.as_str());
                flatten_chars(cs.as_slice())
            },
            _ => {
                let text = compact_text(j);
                flatten_chars(text.as_slice())
            },
        },
    }
}

// ---------------------------------------------------------------------------
// Tables
// ---------------------------------------------------------------------------

/// The columns of a table: the keys of its first row, held fixed so every line
/// has the same shape even when later rows carry extra or missing keys.
pub open spec fn headers(rows: Seq<JsonTree>) -> Option<Seq<Seq<char>>> {
    if rows.len() == 0 {
        None
    } else {
        match rows[0] {
            JsonTree::Object(m) => Some(m.map_values(|e: (Seq<char>, JsonTree)| e.0)),
            _ => None,
        }
    }
}

/// The cells of one row.
pub open spec fn cells(row: JsonTree, hs: Seq<Seq<char>>) -> Seq<Seq<char>> {
    hs.map_values(|h: Seq<char>| cell(field(row, h)))
}

/// The greater of two widths.
pub open spec fn wider(a: nat, b: nat) -> nat {
    if a < b {
        b
    } else {
        a
    }
}

/// The width of a column over its header and the first `n` rows.
pub open spec fn width(hs: Seq<Seq<char>>, rows: Seq<JsonTree>, n: int, col: int) -> nat
    decreases n,
{
    if n <= 0 || n > rows.len() {
        hs[col].len()
    } else {
        wider(width(hs, rows, n - 1, col), cells(rows[n - 1], hs)[col].len())
    }
}

/// The widths of all columns.
pub open spec fn widths(hs: Seq<Seq<char>>, rows: Seq<JsonTree>) -> Seq<nat> {
    Seq::new(hs.len(), |c: int| width(hs, rows, rows.len() as int, c))
}

/// `n` blanks.
pub open spec fn blanks(n: int) -> Seq<char> {
    Seq::new(
        if n < 0 {
            0
        } else {
            n as nat
        },
        |i: int| ' ',
    )
}

/// A cell filled up to its column, and two blanks more; the last of a line is
/// left as it is.
pub open spec fn padded(s: Seq<char>, width: nat, last: bool) -> Seq<char> {
    if last {
        s
    } else {
        s + blanks(width - s.len()) + blanks(2)
    }
}

/// The first `n` cells of a line.
pub open spec fn line(cs: Seq<Seq<char>>, ws: Seq<nat>, n: int) -> Seq<char>
    decreases n,
{
    if n <= 0 || n > cs.len() {
        Seq::empty()
    } else {
        line(cs, ws, n - 1) + padded(cs[n - 1], ws[n - 1], n == cs.len())
    }
}

/// The header line and the lines of the first `n` rows.
pub open spec fn body(hs: Seq<Seq<char>>, rows: Seq<JsonTree>, n: int) -> Seq<char>
    decreases n,
{
    let ws = widths(hs, rows);
    if n <= 0 || n > rows.len() {
        line(hs, ws, hs.len() as int).push('\n')
    } else {
        body(hs, rows, n - 1) + line(cells(rows[n - 1], hs), ws, hs.len() as int).push('\n')
    }
}

/// Rows as aligned columns.
pub open spec fn tabled(rows: Seq<JsonTree>) -> Seq<char> {
    match headers(rows) {
        Some(hs) => trimmed_end(body(hs, rows, rows.len() as int), CharClass::White),
        None => ""@,
    }
}

/// Add blanks.
fn push_blanks(out: &mut Vec<char>, n: usize)
    ensures
        final(out)@ == old(out)@ + blanks(n as int),
{
    let ghost before = out@;
    let mut i: usize = 0;
    proof {
        assert(before + blanks(0) =~= before);
    }
    while i < n
        invariant
            i <= n,
            out@ == before + blanks(i as int),
        decreases n - i,
    {
        out.push(' ');
        proof {
            assert(out@ =~= before + blanks(i + 1));
        }
        i += 1;
    }
}

/// Fill a cell up to its column.
fn pad(out: &mut Vec<char>, s: &[char], width: usize, last: bool)
    ensures
        final(out)@ == old(out)@ + padded(s@, width as nat, last),
{
    let ghost before = out@;
    extend(out, s);
    if !last {
        let n = s.len();
        if n < width {
            push_blanks(out, width - n);
        } else {
            proof {
                assert(blanks(width - n) =~= Seq::empty());
                assert(out@ + Seq::empty() =~= out@);
            }
        }
        push_blanks(out, 2);
        proof {
            assert(out@ =~= before + padded(s@, width as nat, last));
        }
    }
}

/// Widths as numbers.
pub open spec fn nats(v: Seq<usize>) -> Seq<nat> {
    v.map_values(|n: usize| n as nat)
}

/// Write a line.
fn push_line(out: &mut Vec<char>, cs: &Vec<Vec<char>>, ws: &Vec<usize>)
    requires
        ws@.len() == cs@.len(),
    ensures
        final(out)@ == old(out)@ + line(texts(cs@), nats(ws@), cs@.len() as int).push('\n'),
{
    let ghost before = out@;
    let ghost all = texts(cs@);
    let ghost wide = nats(ws@);
    let n = cs.len();
    let mut i: usize = 0;
    proof {
        assert(all.len() == n);
        assert(before + line(all, wide, 0) =~= before);
    }
    while i < n
        invariant
            i <= n,
            n == cs@.len(),
            n == ws@.len(),
            all == texts(cs@),
            all.len() == n,
            wide == nats(ws@),
            out@ == before + line(all, wide, i as int),
        decreases n - i,
    {
        pad(out, cs[i].as_slice(), ws[i], i + 1 == n);
        proof {
            assert(all[i as int] == cs@[i as int]@);
            let p = padded(all[i as int], wide[i as int], i + 1 == n);
            assert(before + line(all, wide, i as int) + p =~= before + (line(all, wide, i as int)
                + p));
        }
        i += 1;
    }
    out.push('\n');
    proof {
        assert(out@ =~= before + line(all, wide, n as int).push('\n'));
    }
}

/// The cells of a row.
fn row_cells(row: &Json, hs: &Vec<Vec<char>>) -> (r: Vec<Vec<char>>)
    ensures
        texts(r@) == cells(row@, texts(hs@)),
        r@.len() == hs@.len(),
{
    let ghost want = cells(row@, texts(hs@));
    let mut out: Vec<Vec<char>> = Vec::new();
    let mut i: usize = 0;
    while i < hs.len()
        invariant
            i <= hs@.len(),
            want == cells(row@, texts(hs@)),
            texts(out@) == want.take(i as int),
            out@.len() == i,
        decreases hs@.len() - i,
    {
        let ghost out0 = out@;
        let key = string_of(hs[i].as_slice());
        let c = scalar(find_field(row, key.as_str()));
        let ghost shown = c@;
        out.push(c);
        proof {
            assert(texts(hs@)[i as int] == hs@[i as int]@);
            assert(want[i as int] == shown);
            assert(texts(out@) == texts(out0).push(want[i as int]));
            assert(want.take(i + 1) == want.take(i as int).push(want[i as int]));
        }
        i += 1;
    }
    proof {
        assert(want.take(i as int) == want);
    }
    out
}

/// Render rows of flat JSON objects as aligned columns.
pub fn table(rows: &Vec<Json>) -> (r: String)
    ensures
        r@ == tabled(items_of(rows@)),
{
    let ghost trees = items_of(rows@);
    if rows.len() == 0 {
        return "".to_owned();
    }
    proof {
        assert(trees[0] == rows@[0]@);
    }
    let map = match &rows[0] {
        Json::Object(m) => m,
        _ => {
            return "".to_owned();
        },
    };
    let ghost hs = headers(trees)->0;
    let mut head: Vec<Vec<char>> = Vec::new();
    let mut i: usize = 0;
    while i < map.len()
        invariant
            i <= map@.len(),
            rows@.len() > 0,
            rows@[0] == Json::Object(*map),
            trees == items_of(rows@),
            trees[0] == rows@[0]@,
            hs == headers(trees)->0,
            hs.len() == map@.len(),
            texts(head@) == hs.take(i as int),
            head@.len() == i,
        decreases map@.len() - i,
    {
        let ghost head0 = head@;
        head.push(chars_of(map[i].0.as_str()));
        proof {
            assert(hs[i as int] == map@[i as int].0@);
            assert(texts(head@) == texts(head0).push(hs[i as int]));
            assert(hs.take(i + 1) == hs.take(i as int).push(hs[i as int]));
        }
        i += 1;
    }
    proof {
        assert(hs.take(i as int) == hs);
    }
    let mut grid: Vec<Vec<Vec<char>>> = Vec::new();
    let mut ws: Vec<usize> = Vec::new();
    let cols = head.len();
    let mut c: usize = 0;
    while c < cols
        invariant
            c <= cols,
            cols == head@.len(),
            hs == texts(head@),
            ws@.len() == c,
            forall|k: int| 0 <= k < c ==> (#[trigger] ws@[k]) as nat == width(hs, trees, 0, k),
        decreases cols - c,
    {
        proof {
            assert(hs[c as int] == head@[c as int]@);
        }
        ws.push(head[c].len());
        c += 1;
    }
    let mut n: usize = 0;
    while n < rows.len()
        invariant
            n <= rows@.len(),
            trees == items_of(rows@),
            trees.len() == rows@.len(),
            cols == head@.len(),
            hs == texts(head@),
            hs.len() == cols,
            ws@.len() == cols,
            grid@.len() == n,
            forall|k: int|
                0 <= k < n ==> texts(#[trigger] grid@[k]@) == cells(trees[k], hs)
                    && grid@[k]@.len() == cols,
            forall|k: int|
                0 <= k < cols ==> (#[trigger] ws@[k]) as nat == width(hs, trees, n as int, k),
        decreases rows@.len() - n,
    {
        let row = row_cells(&rows[n], &head);
        proof {
            assert(trees[n as int] == rows@[n as int]@);
        }
        let mut k: usize = 0;
        while k < cols
            invariant
                k <= cols,
                cols == hs.len(),
                n < trees.len(),
                row@.len() == cols,
                texts(row@) == cells(trees[n as int], hs),
                ws@.len() == cols,
                forall|j: int|
                    0 <= j < k ==> (#[trigger] ws@[j]) as nat == width(hs, trees, n + 1, j),
                forall|j: int|
                    k <= j < cols ==> (#[trigger] ws@[j]) as nat == width(
                        hs,
                        trees,
                        n as int,
                        j,
                    ),
            decreases cols - k,
        {
            let here = row[k].len();
            proof {
                assert(cells(trees[n as int], hs)[k as int] == row@[k as int]@);
            }
            if ws[k] < here {
                ws.set(k, here);
            }
            k += 1;
        }
        let ghost grid0 = grid@;
        grid.push(row);
        proof {
            assert forall|j: int| 0 <= j < n + 1 implies texts(#[trigger] grid@[j]@) == cells(
                trees[j],
                hs,
            ) && grid@[j]@.len() == cols by {
                if j < n {
                    assert(grid@[j] == grid0[j]);
                }
            }
        }
        n += 1;
    }
    proof {
        assert(nats(ws@) =~= widths(hs, trees));
    }
    let mut out: Vec<char> = Vec::new();
    push_line(&mut out, &head, &ws);
    proof {
        assert(out@ =~= body(hs, trees, 0));
    }
    let mut k: usize = 0;
    while k < grid.len()
        invariant
            k <= grid@.len(),
            grid@.len() == trees.len(),
            cols == hs.len(),
            ws@.len() == cols,
            nats(ws@) == widths(hs, trees),
            forall|j: int|
                0 <= j < grid@.len() ==> texts(#[trigger] grid@[j]@) == cells(trees[j], hs)
                    && grid@[j]@.len() == cols,
            out@ == body(hs, trees, k as int),
        decreases grid@.len() - k,
    {
        proof {
            assert(texts(grid@[k as int]@) == cells(trees[k as int], hs));
        }
        push_line(&mut out, &grid[k], &ws);
        k += 1;
    }
    string_of(trim_end(out.as_slice(), CharClass::White))
}

/// What is said under a table that does not show everything.
pub open spec fn shortfall(count: nat) -> Seq<char> {
    "\n("@ + decimal(count)
        + " rows shown; result truncated \u{2014} narrow the window or raise --limit)"@
}

/// An envelope's rows as text, with its shortfall.
pub open spec fn text_form(rows: Seq<JsonTree>, count: nat, truncated: bool) -> Seq<char> {
    if truncated {
        tabled(rows) + shortfall(count)
    } else {
        tabled(rows)
    }
}

/// Render an envelope's rows as text.
///
/// Truncation is invisible in a bare table, and a human scanning text output
/// is exactly who would otherwise miss it.
pub fn render_text(rows: &Vec<Json>, count: usize, truncated: bool) -> (r: String)
    ensures
        r@ == text_form(items_of(rows@), count as nat, truncated),
{
    let shown = table(rows);
    if !truncated {
        return shown;
    }
    let mut out = chars_of(shown.as_str());
    extend_str(&mut out, "\n(");
    let digits = decimal_of(count as u64);
    extend(&mut out, digits.as_slice());
    extend_str(
        &mut out,
        " rows shown; result truncated \u{2014} narrow the window or raise --limit)",
    );
    proof {
        assert(out@ =~= text_form(items_of(rows@), count as nat, truncated));
    }
    string_of(out.as_slice())
}

// ---------------------------------------------------------------------------
// Formats
// ---------------------------------------------------------------------------

/// A row of a command's output. The order of its fields is the rendered column
/// order.
pub trait Record {
    /// Whether every instant in the row is on the calendar.
    spec fn presentable(&self) -> bool;

    /// The row as JSON.
    spec fn shape(&self) -> JsonTree;

    /// Write the row as JSON.
    fn record(&self) -> (r: Json)
        requires
            self.presentable(),
        ensures
            r@ == self.shape(),
    ;
}

impl Record for Json {
    open spec fn presentable(&self) -> bool {
        true
    }

    open spec fn shape(&self) -> JsonTree {
        self@
    }

    fn record(&self) -> (r: Json) {
        json::duplicate(self)
    }
}

impl<T: Record> Record for &T {
    open spec fn presentable(&self) -> bool {
        (**self).presentable()
    }

    open spec fn shape(&self) -> JsonTree {
        (**self).shape()
    }

    fn record(&self) -> (r: Json) {
        (**self).record()
    }
}

/// An instant as JSON, or `null`.
pub open spec fn instant_or_null(at: Option<Instant>) -> JsonTree {
    match at {
        Some(t) => JsonTree::Text(zulu_text(t.secs, t.nanos)),
        None => JsonTree::Null,
    }
}

/// Whether an instant, if there is one, is on the calendar.
pub open spec fn valid_opt(at: Option<Instant>) -> bool {
    match at {
        Some(t) => t.valid(),
        None => true,
    }
}

/// Write an instant, or `null`.
pub fn instant_opt(at: Option<Instant>) -> (r: Json)
    requires
        valid_opt(at),
    ensures
        r@ == instant_or_null(at),
{
    match at {
        Some(t) => Json::Text(to_zulu(t)),
        None => Json::Null,
    }
}

/// Write a text, or `null`.
pub fn string_opt(s: &Option<String>) -> (r: Json)
    ensures
        r@ == text_or_null(opt_text(*s)),
{
    match s {
        Some(t) => json::text(t.as_str()),
        None => Json::Null,
    }
}

/// Rows as JSON.
pub open spec fn shapes<T: Record>(rows: Seq<T>) -> Seq<JsonTree> {
    rows.map_values(|row: T| row.shape())
}

/// Write rows as JSON.
pub fn records<T: Record>(rows: &Vec<T>) -> (r: Vec<Json>)
    requires
        forall|i: int| 0 <= i < rows@.len() ==> (#[trigger] rows@[i]).presentable(),
    ensures
        items_of(r@) == shapes(rows@),
{
    let ghost want = shapes(rows@);
    let mut out: Vec<Json> = Vec::new();
    let mut i: usize = 0;
    while i < rows.len()
        invariant
            i <= rows@.len(),
            forall|k: int| 0 <= k < rows@.len() ==> (#[trigger] rows@[k]).presentable(),
            want == shapes(rows@),
            items_of(out@) == want.take(i as int),
        decreases rows@.len() - i,
    {
        let ghost out0 = out@;
        out.push(rows[i].record());
        proof {
            assert(want[i as int] == rows@[i as int].shape());
            assert(items_of(out@) == items_of(out0).push(want[i as int]));
            assert(want.take(i + 1) == want.take(i as int).push(want[i as int]));
        }
        i += 1;
    }
    proof {
        assert(want.take(i as int) == want);
    }
    out
}

/// An envelope as JSON.
pub open spec fn envelope_tree<T: Record>(env: Envelope<T>) -> JsonTree {
    JsonTree::Object(
        seq![
            ("ok"@, JsonTree::Bool(env.ok)),
            ("command"@, JsonTree::Text(env.command@)),
            ("params"@, env.params@),
            ("count"@, JsonTree::Number(decimal(env.count as nat))),
            ("truncated"@, JsonTree::Bool(env.truncated)),
            ("next"@, text_or_null(opt_text(env.next))),
            ("data"@, JsonTree::Array(shapes(env.data@))),
        ],
    )
}

/// An envelope in an output format: the whole of it indented, its rows on a
/// line each, or its rows as a table.
pub open spec fn rendered<T: Record>(env: Envelope<T>, format: OutputFormat) -> Seq<char> {
    match format {
        OutputFormat::Json => pretty(envelope_tree(env), Seq::empty()),
        OutputFormat::Ndjson => joined(compact_items(shapes(env.data@)), "\n"@),
        OutputFormat::Text => text_form(shapes(env.data@), env.count as nat, env.truncated),
    }
}

/// Render an envelope.
pub fn render<T: Record>(env: &Envelope<T>, format: OutputFormat) -> (r: String)
    requires
        forall|i: int| 0 <= i < env.data@.len() ==> (#[trigger] env.data@[i]).presentable(),
    ensures
        r@ == rendered(*env, format),
{
    let rows = records(&env.data);
    match format {
        OutputFormat::Json => {
            let mut fields: Vec<(String, Json)> = Vec::new();
            json::put(&mut fields, "ok", Json::Bool(env.ok));
            json::put(&mut fields, "command", json::text(env.command.as_str()));
            json::put(&mut fields, "params", json::duplicate(&env.params));
            json::put(&mut fields, "count", json::count(env.count));
            json::put(&mut fields, "truncated", Json::Bool(env.truncated));
            json::put(&mut fields, "next", string_opt(&env.next));
            json::put(&mut fields, "data", json::array(rows));
            let whole = json::object(fields);
            proof {
                assert(whole@->Object_0 =~= envelope_tree(*env)->Object_0);
            }
            let root: Vec<char> = Vec::new();
            let out = pretty_text(&whole, root.as_slice());
            proof {
                assert(root@ =~= Seq::empty());
            }
            string_of(out.as_slice())
        },
        OutputFormat::Ndjson => {
            let ghost trees = items_of(rows@);
            let mut lines: Vec<Vec<char>> = Vec::new();
            let mut i: usize = 0;
            while i < rows.len()
                invariant
                    i <= rows@.len(),
                    trees == items_of(rows@),
                    texts(lines@) == compact_items(trees.take(i as int)),
                decreases rows@.len() - i,
            {
                let ghost lines0 = lines@;
                lines.push(compact_text(&rows[i]));
                proof {
                    assert(texts(lines@) == texts(lines0).push(compact(trees[i as int])));
                    assert(trees.take(i + 1).drop_last() == trees.take(i as int));
                    assert(trees.take(i + 1).last() == trees[i as int]);
                }
                i += 1;
            }
            proof {
                assert(trees.take(i as int) == trees);
            }
            let out = join(&lines, "\n");
            string_of(out.as_slice())
        },
        OutputFormat::Text => render_text(&rows, env.count, env.truncated),
    }
}

/// A failure as JSON.
pub open spec fn failure_tree(env: ErrorEnvelope) -> JsonTree {
    JsonTree::Object(
        seq![
            ("ok"@, JsonTree::Bool(env.ok)),
            ("command"@, JsonTree::Text(env.command@)),
            ("kind"@, JsonTree::Text(env.kind@)),
            ("error"@, JsonTree::Text(env.error@)),
            ("hint"@, text_or_null(opt_text(env.hint))),
        ],
    )
}

/// Render a failure for standard output.
///
/// For the machine formats the output stays parseable in every case, so a
/// caller can pipe it unconditionally rather than branching on the exit code
/// first: JSON gets the envelope, NDJSON gets it as a single line so a
/// line-oriented reader still sees one object per line. Text is for a person,
/// who reads standard error, so the result is empty rather than repeating the
/// same line twice.
pub fn render_failure(env: &ErrorEnvelope, format: OutputFormat) -> (r: String)
    ensures
        r@ == match format {
            OutputFormat::Json => pretty(failure_tree(*env), Seq::empty()),
            OutputFormat::Ndjson => compact(failure_tree(*env)),
            OutputFormat::Text => ""@,
        },
{
    let mut fields: Vec<(String, Json)> = Vec::new();
    json::put(&mut fields, "ok", Json::Bool(env.ok));
    json::put(&mut fields, "command", json::text(env.command.as_str()));
    json::put(&mut fields, "kind", json::text(env.kind));
    json::put(&mut fields, "error", json::text(env.error.as_str()));
    json::put(&mut fields, "hint", string_opt(&env.hint));
    let whole = json::object(fields);
    proof {
        assert(whole@->Object_0 =~= failure_tree(*env)->Object_0);
    }
    match format {
        OutputFormat::Json => {
            let root: Vec<char> = Vec::new();
            let out = pretty_text(&whole, root.as_slice());
            proof {
                assert(root@ =~= Seq::empty());
            }
            string_of(out.as_slice())
        },
        OutputFormat::Ndjson => {
            let out = compact_text(&whole);
            string_of(out.as_slice())
        },
        OutputFormat::Text => "".to_owned(),
    }
}

/// What a person is told of a failure: the message, and the hint where there
/// is one.
pub open spec fn summary_of(fault: Fault) -> Seq<char> {
    "error: "@ + message_of(fault) + match hint_of(fault) {
        Some(h) => "\nhint: "@ + h,
        None => ""@,
    }
}

/// Summarise a failure for standard error, in every format.
pub fn failure_summary(err: &Error) -> (r: String)
    ensures
        r@ == summary_of(err@),
{
    let said = "error: ".to_owned().concat(err.message().as_str());
    match err.hint() {
        Some(h) => said.concat("\nhint: ").concat(h.as_str()),
        None => said.concat(""),
    }
}

// ---------------------------------------------------------------------------
// Laws
// ---------------------------------------------------------------------------

/// Whether a text holds no control character.
pub open spec fn tame(s: Seq<char>) -> bool {
    forall|i: int| 0 <= i < s.len() ==> !is_control(#[trigger] s[i])
}

/// Two tame texts make one.
proof fn tame_joins(a: Seq<char>, b: Seq<char>)
    requires
        tame(a),
        tame(b),
    ensures
        tame(a + b),
{
    assert forall|i: int| 0 <= i < (a + b).len() implies !is_control(#[trigger] (a + b)[i]) by {
        if i < a.len() {
            assert((a + b)[i] == a[i]);
        } else {
            assert((a + b)[i] == b[i - a.len()]);
        }
    }
}

/// Hexadecimal digits are tame.
proof fn hex_is_tame(n: nat, width: nat)
    ensures
        tame(hex(n, width)),
    decreases width,
{
    if width > 0 {
        hex_is_tame(n / 16, (width - 1) as nat);
        let d = digit_char(n % 16);
        assert(!is_control(d));
        let front = hex(n / 16, (width - 1) as nat);
        assert(hex(n, width) == front + seq![d]);
        assert(tame(seq![d]));
        tame_joins(front, seq![d]);
    }
}

/// What is on its way to one line is tame.
proof fn flat_is_tame(s: Seq<char>)
    ensures
        tame(flat(s).0),
    decreases s.len(),
{
    if s.len() > 0 {
        let out = flat(s.drop_last()).0;
        let c = s.last();
        flat_is_tame(s.drop_last());
        if CharClass::Control.has(c) {
            hex_is_tame(c as u32 as nat, 2);
            tame_joins(out, seq!['\\', 'x']);
            tame_joins(out + seq!['\\', 'x'], hex(c as u32 as nat, 2));
        }
    }
}

/// No control character survives in a cell: none of what it holds can be
/// interpreted by a terminal, or start a line of its own.
pub proof fn a_flat_text_holds_no_control_character(s: Seq<char>)
    ensures
        tame(flattened(s)),
{
    if any_in(s, CharClass::Control) {
        flat_is_tame(s);
        let all = flat(s).0;
        lead_len_stops(all, CharClass::White);
        let behind = trimmed_start(all, CharClass::White);
        trail_len_stops(behind, CharClass::White);
        let shown = flattened(s);
        assert forall|i: int| 0 <= i < shown.len() implies !is_control(#[trigger] shown[i]) by {
            assert(shown[i] == all[i + lead_len(all, CharClass::White)]);
        }
    } else {
        assert forall|i: int| 0 <= i < s.len() implies !is_control(#[trigger] s[i]) by {
            assert(!CharClass::Control.has(s[i]));
        }
    }
}

/// Ordinary text is shown as it is.
pub proof fn ordinary_text_is_shown_as_it_is(s: Seq<char>)
    requires
        tame(s),
    ensures
        flattened(s) == s,
{
    if any_in(s, CharClass::Control) {
        let i = choose|i: int| 0 <= i < s.len() && #[trigger] CharClass::Control.has(s[i]);
        assert(is_control(s[i]));
    }
}

/// A cell holds no control character.
proof fn a_cell_is_tame(v: Option<JsonTree>)
    ensures
        tame(cell(v)),
{
    reveal_strlit("-");
    match v {
        None => {},
        Some(t) => match t {
            JsonTree::Null => {},
            JsonTree::Text(s) => {
                a_flat_text_holds_no_control_character(s);
            },
            _ => {
                a_flat_text_holds_no_control_character(compact(t));
            },
        },
    }
}

/// A line of tame cells is tame.
proof fn a_line_is_tame(cs: Seq<Seq<char>>, ws: Seq<nat>, n: int)
    requires
        forall|i: int| 0 <= i < cs.len() ==> tame(#[trigger] cs[i]),
    ensures
        tame(line(cs, ws, n)),
    decreases n,
{
    if 0 < n <= cs.len() {
        a_line_is_tame(cs, ws, n - 1);
        let c = cs[n - 1];
        let gap = blanks(ws[n - 1] - c.len());
        assert(tame(c));
        tame_joins(c, gap);
        tame_joins(c + gap, blanks(2));
        tame_joins(line(cs, ws, n - 1), padded(c, ws[n - 1], n == cs.len()));
    }
}

/// The number of line breaks in a tame text is none.
proof fn tame_text_has_no_break(s: Seq<char>)
    requires
        tame(s),
    ensures
        count_in(s, CharClass::Is('\n')) == 0,
    decreases s.len(),
{
    if s.len() > 0 {
        assert(!is_control(s[s.len() - 1]));
        assert forall|i: int| 0 <= i < s.drop_last().len() implies !is_control(
            #[trigger] s.drop_last()[i],
        ) by {
            assert(s.drop_last()[i] == s[i]);
        }
        tame_text_has_no_break(s.drop_last());
    }
}

/// Counts add up over two texts.
proof fn counts_add_up(a: Seq<char>, b: Seq<char>, k: CharClass)
    ensures
        count_in(a + b, k) == count_in(a, k) + count_in(b, k),
    decreases b.len(),
{
    if b.len() == 0 {
        assert(a + b == a);
    } else {
        counts_add_up(a, b.drop_last(), k);
        assert((a + b).drop_last() == a + b.drop_last());
        assert((a + b).last() == b.last());
    }
}

/// Whether every control character of a text is a line break.
pub open spec fn only_breaks(s: Seq<char>) -> bool {
    forall|i: int| 0 <= i < s.len() ==> (is_control(#[trigger] s[i]) ==> s[i] == '\n')
}

/// The body of a table: breaks alone, and one for each line.
proof fn a_body_has_a_break_for_each_line(hs: Seq<Seq<char>>, rows: Seq<JsonTree>, n: int)
    requires
        forall|i: int| 0 <= i < hs.len() ==> tame(#[trigger] hs[i]),
        0 <= n <= rows.len(),
    ensures
        only_breaks(body(hs, rows, n)),
        count_in(body(hs, rows, n), CharClass::Is('\n')) == n + 1,
    decreases n,
{
    let ws = widths(hs, rows);
    let cs = if n == 0 {
        hs
    } else {
        cells(rows[n - 1], hs)
    };
    assert forall|i: int| 0 <= i < cs.len() implies tame(#[trigger] cs[i]) by {
        if n > 0 {
            a_cell_is_tame(field(rows[n - 1], hs[i]));
        }
    }
    let here = line(cs, ws, hs.len() as int);
    a_line_is_tame(cs, ws, hs.len() as int);
    tame_text_has_no_break(here);
    let ended = here.push('\n');
    assert(ended.drop_last() == here);
    assert(count_in(ended, CharClass::Is('\n')) == 1);
    assert forall|i: int| 0 <= i < ended.len() implies (is_control(#[trigger] ended[i])
        ==> ended[i] == '\n') by {
        if i < here.len() {
            assert(ended[i] == here[i]);
        }
    }
    if n > 0 {
        a_body_has_a_break_for_each_line(hs, rows, n - 1);
        let before = body(hs, rows, n - 1);
        counts_add_up(before, ended, CharClass::Is('\n'));
        let all = before + ended;
        assert forall|i: int| 0 <= i < all.len() implies (is_control(#[trigger] all[i]) ==> all[i]
            == '\n') by {
            if i < before.len() {
                assert(all[i] == before[i]);
            } else {
                assert(all[i] == ended[i - before.len()]);
            }
        }
    }
}

/// No value can break a table: under tame headers its only control characters
/// are line breaks, and there are no more of these than rows, so that the
/// header and each row take one line at most.
pub proof fn no_value_breaks_a_table(rows: Seq<JsonTree>)
    requires
        headers(rows) is Some,
        forall|i: int| 0 <= i < headers(rows)->0.len() ==> tame(#[trigger] headers(rows)->0[i]),
    ensures
        only_breaks(tabled(rows)),
        count_in(tabled(rows), CharClass::Is('\n')) <= rows.len(),
{
    let hs = headers(rows)->0;
    let n = rows.len() as int;
    let all = body(hs, rows, n);
    a_body_has_a_break_for_each_line(hs, rows, n);
    trail_len_stops(all, CharClass::White);
    let cut = all.len() - trail_len(all, CharClass::White);
    let shown = all.take(cut);
    let rest = all.skip(cut);
    assert(shown + rest == all);
    counts_add_up(shown, rest, CharClass::Is('\n'));
    assert(all.last() == '\n') by {
        assert(body(hs, rows, n).last() == '\n');
    }
    assert(trail_len(all, CharClass::White) >= 1);
    assert(rest.last() == '\n');
    assert(count_in(rest, CharClass::Is('\n')) >= 1);
    assert forall|i: int| 0 <= i < shown.len() implies (is_control(#[trigger] shown[i])
        ==> shown[i] == '\n') by {
        assert(shown[i] == all[i]);
    }
}

/// A result that was cut short says so in text, behind its table.
pub proof fn truncation_is_announced(rows: Seq<JsonTree>, count: nat)
    ensures
        text_form(rows, count, true) == text_form(rows, count, false) + shortfall(count),
        shortfall(count).len() > 0,
{
    reveal_strlit("\n(");
}

/// Whether the numbers in a value are written without control characters, as
/// those of a document are.
pub open spec fn plain_numbers(v: JsonTree) -> bool
    decreases v,
{
    match v {
        JsonTree::Number(n) => low_free(n),
        JsonTree::Array(items) => forall|i: int|
            0 <= i < items.len() ==> plain_numbers(#[trigger] items[i]),
        JsonTree::Object(map) => forall|i: int|
            0 <= i < map.len() ==> plain_numbers((#[trigger] map[i]).1),
        _ => true,
    }
}

/// Whether every character stands above the C0 controls.
pub open spec fn low_free(s: Seq<char>) -> bool {
    forall|i: int| 0 <= i < s.len() ==> #[trigger] s[i] > '\u{1f}'
}

/// Two texts above the C0 controls make one.
proof fn low_free_joins(a: Seq<char>, b: Seq<char>)
    requires
        low_free(a),
        low_free(b),
    ensures
        low_free(a + b),
{
    assert forall|i: int| 0 <= i < (a + b).len() implies #[trigger] (a + b)[i] > '\u{1f}' by {
        if i < a.len() {
            assert((a + b)[i] == a[i]);
        } else {
            assert((a + b)[i] == b[i - a.len()]);
        }
    }
}

/// Parts and a separator above the C0 controls make a text above them.
proof fn low_free_parts(parts: Seq<Seq<char>>, sep: Seq<char>)
    requires
        low_free(sep),
        forall|i: int| 0 <= i < parts.len() ==> low_free(#[trigger] parts[i]),
    ensures
        low_free(joined(parts, sep)),
    decreases parts.len(),
{
    if parts.len() > 1 {
        let front = parts.drop_last();
        assert forall|i: int| 0 <= i < front.len() implies low_free(#[trigger] front[i]) by {
            assert(front[i] == parts[i]);
        }
        low_free_parts(front, sep);
        low_free_joins(joined(front, sep), sep);
        assert(low_free(parts[parts.len() - 1]));
        low_free_joins(joined(front, sep) + sep, parts.last());
    } else if parts.len() == 1 {
        assert(low_free(parts[0]));
    }
}

/// Hexadecimal digits stand above the C0 controls.
proof fn hex_is_low_free(n: nat, width: nat)
    ensures
        low_free(hex(n, width)),
    decreases width,
{
    hex_is_tame(n, width);
    assert forall|i: int| 0 <= i < hex(n, width).len() implies #[trigger] hex(n, width)[i]
        > '\u{1f}' by {
        assert(!is_control(hex(n, width)[i]));
    }
}

/// A quoted text holds none of the C0 controls.
proof fn quoting_is_low_free(s: Seq<char>)
    ensures
        low_free(escaped_all(s)),
        low_free(quoted(s)),
    decreases s.len(),
{
    if s.len() > 0 {
        quoting_is_low_free(s.drop_last());
        let c = s.last();
        if c <= '\u{1f}' {
            hex_is_low_free(c as nat, 4);
            low_free_joins(seq!['\\', 'u'], hex(c as nat, 4));
        }
        assert(low_free(escaped(c)));
        low_free_joins(escaped_all(s.drop_last()), escaped(c));
    }
    low_free_joins(seq!['"'], escaped_all(s));
    low_free_joins(seq!['"'] + escaped_all(s), seq!['"']);
}

/// The machine-readable formats escape every control character below U+0020,
/// so each record of a stream stands on exactly one line.
pub proof fn a_record_is_one_line(v: JsonTree)
    requires
        plain_numbers(v),
    ensures
        low_free(compact(v)),
    decreases v, 0nat,
{
    reveal_strlit(",");
    match v {
        JsonTree::Null => {
            reveal_strlit("null");
        },
        JsonTree::Bool(_) => {
            reveal_strlit("true");
            reveal_strlit("false");
        },
        JsonTree::Number(_) => {},
        JsonTree::Text(s) => {
            quoting_is_low_free(s);
        },
        JsonTree::Array(items) => {
            items_are_one_line(items);
            let inner = joined(compact_items(items), ","@);
            low_free_parts(compact_items(items), ","@);
            low_free_joins(seq!['['], inner);
            low_free_joins(seq!['['] + inner, seq![']']);
        },
        JsonTree::Object(map) => {
            fields_are_one_line(map);
            let inner = joined(compact_fields(map), ","@);
            low_free_parts(compact_fields(map), ","@);
            low_free_joins(seq!['{'], inner);
            low_free_joins(seq!['{'] + inner, seq!['}']);
        },
    }
}

/// The elements of an array hold none of the C0 controls.
proof fn items_are_one_line(items: Seq<JsonTree>)
    requires
        forall|i: int| 0 <= i < items.len() ==> plain_numbers(#[trigger] items[i]),
    ensures
        forall|i: int|
            0 <= i < compact_items(items).len() ==> low_free(#[trigger] compact_items(items)[i]),
    decreases items, items.len(),
{
    if items.len() > 0 {
        let front = items.drop_last();
        assert forall|i: int| 0 <= i < front.len() implies plain_numbers(#[trigger] front[i]) by {
            assert(front[i] == items[i]);
        }
        items_are_one_line(front);
        assert(plain_numbers(items[items.len() - 1]));
        a_record_is_one_line(items.last());
        let parts = compact_items(items);
        assert forall|i: int| 0 <= i < parts.len() implies low_free(#[trigger] parts[i]) by {
            if i < parts.len() - 1 {
                assert(parts[i] == compact_items(front)[i]);
            }
        }
    }
}

/// The fields of an object hold none of the C0 controls.
proof fn fields_are_one_line(map: Seq<(Seq<char>, JsonTree)>)
    requires
        forall|i: int| 0 <= i < map.len() ==> plain_numbers((#[trigger] map[i]).1),
    ensures
        forall|i: int|
            0 <= i < compact_fields(map).len() ==> low_free(#[trigger] compact_fields(map)[i]),
    decreases map, map.len(),
{
    if map.len() > 0 {
        let front = map.drop_last();
        assert forall|i: int| 0 <= i < front.len() implies plain_numbers(
            (#[trigger] front[i]).1,
        ) by {
            assert(front[i] == map[i]);
        }
        fields_are_one_line(front);
        assert(plain_numbers(map[map.len() - 1].1));
        a_record_is_one_line(map.last().1);
        quoting_is_low_free(map.last().0);
        low_free_joins(quoted(map.last().0), seq![':']);
        low_free_joins(quoted(map.last().0) + seq![':'], compact(map.last().1));
        let parts = compact_fields(map);
        assert forall|i: int| 0 <= i < parts.len() implies low_free(#[trigger] parts[i]) by {
            if i < parts.len() - 1 {
                assert(parts[i] == compact_fields(front)[i]);
            }
        }
    }
}

} // verus!
