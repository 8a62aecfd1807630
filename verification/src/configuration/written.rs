//! The text of a state tells the state: no two states are written alike.

use vstd::prelude::*;
use vstd::string::*;

use crate::configuration::state::{
    bracketed, json_value, mapping_texts, pretty_json_text, state_fields, state_text, JsonFieldView, MappingsView,
    StateView,
};
use crate::ids::{is_id_char, is_logical_id};
use crate::resource::change::{joined, json_escape, json_escaped, json_quoted};
use crate::text::{decimal, decimal_has_only_digits, decimal_round_trip, digit_value};

verus! {

/// Whether a text stands between the quotes of a JSON string as it is.
pub open spec fn is_plain(text: Seq<char>) -> bool {
    forall|i: int| 0 <= i < text.len() ==> json_escape(#[trigger] text[i]) == seq![text[i]] && text[i] != '"'
}

/// Whether the texts of a field are plain.
pub open spec fn is_plain_field(field: JsonFieldView) -> bool {
    match field {
        JsonFieldView::Number(_) => true,
        JsonFieldView::Text(text) => is_plain(text),
        JsonFieldView::Table(entries) => forall|i: int|
            0 <= i < entries.len() ==> is_plain_entry(#[trigger] entries[i]),
        JsonFieldView::List(items) => forall|i: int| 0 <= i < items.len() ==> is_plain(#[trigger] items[i]),
    }
}

/// Whether an entry of a table is plain.
pub open spec fn is_plain_entry(entry: (Seq<char>, Seq<char>)) -> bool {
    is_plain(entry.0) && is_plain(entry.1)
}

/// Whether a field and its name are plain.
pub open spec fn is_plain_member(member: (Seq<char>, JsonFieldView)) -> bool {
    is_plain(member.0) && is_plain_field(member.1)
}

/// Whether a text goes on as one does behind a value.
spec fn goes_on(text: Seq<char>) -> bool {
    text.len() > 0 && (text[0] == ',' || text[0] == '\n')
}

proof fn plain_is_not_escaped(text: Seq<char>)
    requires
        is_plain(text),
    ensures
        json_escaped(text) == text,
    decreases text.len(),
{
    if text.len() > 0 {
        let front = text.drop_last();
        assert forall|i: int| 0 <= i < front.len() implies json_escape(#[trigger] front[i]) == seq![front[i]] && front[i]
            != '"' by {
            assert(front[i] == text[i]);
        }
        plain_is_not_escaped(front);
        assert(json_escape(text[text.len() - 1]) == seq![text[text.len() - 1]]);
        assert(front + seq![text.last()] =~= text);
    } else {
        assert(text =~= Seq::empty());
    }
}

proof fn quoted_is_told(a: Seq<char>, u: Seq<char>, b: Seq<char>, v: Seq<char>)
    requires
        is_plain(a),
        is_plain(b),
        json_quoted(a) + u == json_quoted(b) + v,
    ensures
        a == b,
        u == v,
{
    plain_is_not_escaped(a);
    plain_is_not_escaped(b);
    let left = json_quoted(a) + u;
    let right = json_quoted(b) + v;
    if a.len() < b.len() {
        assert(left[a.len() as int + 1] == '"');
        assert(right[a.len() as int + 1] == b[a.len() as int]);
    } else if b.len() < a.len() {
        assert(right[b.len() as int + 1] == '"');
        assert(left[b.len() as int + 1] == a[b.len() as int]);
    }
    assert forall|i: int| 0 <= i < a.len() implies a[i] == b[i] by {
        assert(left[i + 1] == a[i]);
        assert(right[i + 1] == b[i]);
    }
    assert(a =~= b);
    assert(left.skip(a.len() as int + 2) =~= u);
    assert(right.skip(a.len() as int + 2) =~= v);
}

proof fn number_is_told(a: u64, u: Seq<char>, b: u64, v: Seq<char>)
    requires
        goes_on(u),
        goes_on(v),
        decimal(a as nat) + u == decimal(b as nat) + v,
    ensures
        a == b,
        u == v,
{
    let x = decimal(a as nat);
    let y = decimal(b as nat);
    let left = x + u;
    let right = y + v;
    if x.len() < y.len() {
        decimal_has_only_digits(b as nat, x.len() as int);
        assert(left[x.len() as int] == u[0]);
        assert(right[x.len() as int] == y[x.len() as int]);
    } else if y.len() < x.len() {
        decimal_has_only_digits(a as nat, y.len() as int);
        assert(right[y.len() as int] == v[0]);
        assert(left[y.len() as int] == x[y.len() as int]);
    }
    assert forall|i: int| 0 <= i < x.len() implies x[i] == y[i] by {
        assert(left[i] == x[i]);
        assert(right[i] == y[i]);
    }
    assert(x =~= y);
    decimal_round_trip(a as nat);
    decimal_round_trip(b as nat);
    assert(left.skip(x.len() as int) =~= u);
    assert(right.skip(x.len() as int) =~= v);
}

proof fn rest_is_told(head: Seq<char>, u: Seq<char>, v: Seq<char>)
    requires
        head + u == head + v,
    ensures
        u == v,
{
    assert((head + u).skip(head.len() as int) =~= u);
    assert((head + v).skip(head.len() as int) =~= v);
}

proof fn joined_from_the_first(parts: Seq<Seq<char>>, between: Seq<char>)
    requires
        parts.len() >= 2,
    ensures
        joined(parts, between) == parts[0] + (between + joined(parts.drop_first(), between)),
    decreases parts.len(),
{
    let rest = parts.drop_first();
    if parts.len() == 2 {
        assert(joined(parts.drop_last(), between) == parts[0]);
        assert(joined(rest, between) == parts.last());
        assert(parts[0] + between + parts.last() =~= parts[0] + (between + parts.last()));
    } else {
        let front = parts.drop_last();
        joined_from_the_first(front, between);
        assert(front.drop_first() =~= rest.drop_last());
        assert(front[0] == parts[0]);
        assert(rest.last() == parts.last());
        let middle = joined(rest.drop_last(), between);
        assert(joined(rest, between) == middle + between + parts.last());
        assert(parts[0] + (between + middle) + between + parts.last() =~= parts[0] + (between + (middle + between
            + parts.last())));
    }
}

/// Whether what was written tells what it was written for, and where it ends.
spec fn tells<A>(line: spec_fn(A) -> Seq<char>, is_fine: spec_fn(A) -> bool) -> bool {
    forall|a: A, u: Seq<char>, b: A, v: Seq<char>|
        is_fine(a) && is_fine(b) && goes_on(u) && goes_on(v) && #[trigger] (line(a) + u) == #[trigger] (line(b) + v)
            ==> a == b && u == v
}

/// The lines of items, each with an indentation.
spec fn lines_of<A>(items: Seq<A>, line: spec_fn(A) -> Seq<char>, indent: Seq<char>) -> Seq<Seq<char>> {
    items.map_values(line).map_values(|text: Seq<char>| indent + "  "@ + text)
}

proof fn first_line_is_told<A>(
    items: Seq<A>,
    others: Seq<A>,
    line: spec_fn(A) -> Seq<char>,
    is_fine: spec_fn(A) -> bool,
    indent: Seq<char>,
    u: Seq<char>,
    v: Seq<char>,
)
    requires
        tells(line, is_fine),
        items.len() > 0,
        others.len() > 0,
        is_fine(items[0]),
        is_fine(others[0]),
        goes_on(u),
        goes_on(v),
        lines_of(items, line, indent)[0] + u == lines_of(others, line, indent)[0] + v,
    ensures
        items[0] == others[0],
        u == v,
{
    let head = indent + "  "@;
    let x = line(items[0]);
    let y = line(others[0]);
    assert(head + x + u =~= head + (x + u));
    assert(head + y + v =~= head + (y + v));
    rest_is_told(head, x + u, y + v);
}

proof fn lines_are_told<A>(
    items: Seq<A>,
    others: Seq<A>,
    line: spec_fn(A) -> Seq<char>,
    is_fine: spec_fn(A) -> bool,
    indent: Seq<char>,
    u: Seq<char>,
    v: Seq<char>,
)
    requires
        tells(line, is_fine),
        items.len() > 0,
        others.len() > 0,
        forall|i: int| 0 <= i < items.len() ==> is_fine(#[trigger] items[i]),
        forall|i: int| 0 <= i < others.len() ==> is_fine(#[trigger] others[i]),
        u.len() > 0 && u[0] == '\n',
        v.len() > 0 && v[0] == '\n',
        joined(lines_of(items, line, indent), ",\n"@) + u == joined(lines_of(others, line, indent), ",\n"@) + v,
    ensures
        items == others,
        u == v,
    decreases items.len(),
{
    reveal_strlit(",\n");
    let xs = lines_of(items, line, indent);
    let ys = lines_of(others, line, indent);
    let after_x = after_first(xs, u);
    let after_y = after_first(ys, v);
    first_is_apart(xs, u);
    first_is_apart(ys, v);
    first_line_is_told(items, others, line, is_fine, indent, after_x, after_y);
    if items.len() == 1 {
        assert(after_y[0] == '\n');
        assert(items =~= others);
    } else {
        assert(after_x[0] == ',');
        assert(others.len() > 1);
        let more = items.drop_first();
        let other_more = others.drop_first();
        assert(lines_of(more, line, indent) =~= xs.drop_first());
        assert(lines_of(other_more, line, indent) =~= ys.drop_first());
        rest_is_told(
            ",\n"@,
            joined(xs.drop_first(), ",\n"@) + u,
            joined(ys.drop_first(), ",\n"@) + v,
        );
        assert forall|i: int| 0 <= i < more.len() implies is_fine(#[trigger] more[i]) by {
            assert(is_fine(items[i + 1]));
        }
        assert forall|i: int| 0 <= i < other_more.len() implies is_fine(#[trigger] other_more[i]) by {
            assert(is_fine(others[i + 1]));
        }
        lines_are_told(more, other_more, line, is_fine, indent, u, v);
        assert(items =~= seq![items[0]] + more);
        assert(others =~= seq![others[0]] + other_more);
    }
}

/// What stands behind the first of joined lines.
spec fn after_first(lines: Seq<Seq<char>>, end: Seq<char>) -> Seq<char> {
    if lines.len() <= 1 {
        end
    } else {
        ",\n"@ + (joined(lines.drop_first(), ",\n"@) + end)
    }
}

proof fn first_is_apart(lines: Seq<Seq<char>>, end: Seq<char>)
    requires
        lines.len() > 0,
        end.len() > 0 && end[0] == '\n',
    ensures
        joined(lines, ",\n"@) + end == lines[0] + after_first(lines, end),
        goes_on(after_first(lines, end)),
        after_first(lines, end)[0] == if lines.len() == 1 {
            '\n'
        } else {
            ','
        },
{
    reveal_strlit(",\n");
    if lines.len() > 1 {
        joined_from_the_first(lines, ",\n"@);
        let rest = joined(lines.drop_first(), ",\n"@);
        assert(lines[0] + (",\n"@ + rest) + end =~= lines[0] + (",\n"@ + (rest + end)));
    }
}

proof fn bracketed_is_told<A>(
    open: Seq<char>,
    items: Seq<A>,
    others: Seq<A>,
    line: spec_fn(A) -> Seq<char>,
    is_fine: spec_fn(A) -> bool,
    indent: Seq<char>,
    close: Seq<char>,
    u: Seq<char>,
    v: Seq<char>,
)
    requires
        tells(line, is_fine),
        forall|i: int| 0 <= i < items.len() ==> is_fine(#[trigger] items[i]),
        forall|i: int| 0 <= i < others.len() ==> is_fine(#[trigger] others[i]),
        close.len() > 0 && close[0] != '\n',
        bracketed(open, items.map_values(line), indent, close) + u == bracketed(
            open,
            others.map_values(line),
            indent,
            close,
        ) + v,
    ensures
        items == others,
        u == v,
{
    reveal_strlit("\n");
    let x = after_open(items.map_values(line), indent, close, u);
    let y = after_open(others.map_values(line), indent, close, v);
    open_is_apart(open, items.map_values(line), indent, close, u);
    open_is_apart(open, others.map_values(line), indent, close, v);
    rest_is_told(open, x, y);
    if items.len() == 0 || others.len() == 0 {
        assert(x[0] == y[0]);
        rest_is_told(close, u, v);
        assert(items =~= others);
    } else {
        let xs = joined(lines_of(items, line, indent), ",\n"@);
        let ys = joined(lines_of(others, line, indent), ",\n"@);
        let tail = "\n"@ + indent + close;
        rest_is_told("\n"@, xs + (tail + u), ys + (tail + v));
        assert((tail + u)[0] == '\n');
        assert((tail + v)[0] == '\n');
        lines_are_told(items, others, line, is_fine, indent, tail + u, tail + v);
        rest_is_told(tail, u, v);
    }
}

/// What stands behind the opening bracket.
spec fn after_open(lines: Seq<Seq<char>>, indent: Seq<char>, close: Seq<char>, end: Seq<char>) -> Seq<char> {
    if lines.len() == 0 {
        close + end
    } else {
        "\n"@ + (joined(lines.map_values(|line: Seq<char>| indent + "  "@ + line), ",\n"@) + ("\n"@ + indent + close
            + end))
    }
}

proof fn open_is_apart(
    open: Seq<char>,
    lines: Seq<Seq<char>>,
    indent: Seq<char>,
    close: Seq<char>,
    end: Seq<char>,
)
    requires
        close.len() > 0 && close[0] != '\n',
    ensures
        bracketed(open, lines, indent, close) + end == open + after_open(lines, indent, close, end),
        after_open(lines, indent, close, end).len() > 0,
        lines.len() == 0 ==> after_open(lines, indent, close, end)[0] == close[0],
        lines.len() > 0 ==> after_open(lines, indent, close, end)[0] == '\n',
{
    reveal_strlit("\n");
    if lines.len() == 0 {
        assert(open + close + end =~= open + (close + end));
    } else {
        let body = joined(lines.map_values(|line: Seq<char>| indent + "  "@ + line), ",\n"@);
        let tail = "\n"@ + indent + close + end;
        assert(open + "\n"@ + body + "\n"@ + indent + close + end =~= open + ("\n"@ + (body + tail)));
    }
}

/// The line of an entry of a table.
spec fn entry_line(entry: (Seq<char>, Seq<char>)) -> Seq<char> {
    json_quoted(entry.0) + ": "@ + json_quoted(entry.1)
}

proof fn entries_tell()
    ensures
        tells(
            |entry: (Seq<char>, Seq<char>)| entry_line(entry),
            |entry: (Seq<char>, Seq<char>)| is_plain_entry(entry),
        ),
{
    let line = |entry: (Seq<char>, Seq<char>)| entry_line(entry);
    assert forall|a: (Seq<char>, Seq<char>), u: Seq<char>, b: (Seq<char>, Seq<char>), v: Seq<char>|
        is_plain_entry(a) && is_plain_entry(b) && goes_on(u) && goes_on(v) && #[trigger] (line(a) + u) == #[trigger] (
        line(b) + v) implies a == b && u == v by {
        let x = ": "@ + (json_quoted(a.1) + u);
        let y = ": "@ + (json_quoted(b.1) + v);
        assert(line(a) + u =~= json_quoted(a.0) + x);
        assert(line(b) + v =~= json_quoted(b.0) + y);
        quoted_is_told(a.0, x, b.0, y);
        rest_is_told(": "@, json_quoted(a.1) + u, json_quoted(b.1) + v);
        quoted_is_told(a.1, u, b.1, v);
    }
}

proof fn items_tell()
    ensures
        tells(|item: Seq<char>| json_quoted(item), |item: Seq<char>| is_plain(item)),
{
    let line = |item: Seq<char>| json_quoted(item);
    assert forall|a: Seq<char>, u: Seq<char>, b: Seq<char>, v: Seq<char>|
        is_plain(a) && is_plain(b) && goes_on(u) && goes_on(v) && #[trigger] (line(a) + u) == #[trigger] (line(b)
            + v) implies a == b && u == v by {
        quoted_is_told(a, u, b, v);
    }
}

/// The character that a value begins with: it tells numbers, texts, tables and lists apart.
proof fn value_starts(field: JsonFieldView)
    ensures
        json_value(field).len() > 0,
        field is Number ==> digit_value(json_value(field)[0]) is Some,
        field is Text ==> json_value(field)[0] == '"',
        field is Table ==> json_value(field)[0] == '{',
        field is List ==> json_value(field)[0] == '[',
{
    reveal_strlit("{");
    reveal_strlit("[");
    if let JsonFieldView::Number(number) = field {
        decimal_has_only_digits(number as nat, 0);
    }
}

proof fn values_are_told(a: JsonFieldView, u: Seq<char>, b: JsonFieldView, v: Seq<char>)
    requires
        is_plain_field(a),
        is_plain_field(b),
        goes_on(u),
        goes_on(v),
        json_value(a) + u == json_value(b) + v,
    ensures
        a == b,
        u == v,
{
    reveal_strlit("{");
    reveal_strlit("}");
    reveal_strlit("[");
    reveal_strlit("]");
    value_starts(a);
    value_starts(b);
    assert((json_value(a) + u)[0] == json_value(a)[0]);
    assert((json_value(b) + v)[0] == json_value(b)[0]);
    match (a, b) {
        (JsonFieldView::Number(x), JsonFieldView::Number(y)) => {
            number_is_told(x as u64, u, y as u64, v);
        },
        (JsonFieldView::Text(x), JsonFieldView::Text(y)) => {
            quoted_is_told(x, u, y, v);
        },
        (JsonFieldView::Table(x), JsonFieldView::Table(y)) => {
            let line = |entry: (Seq<char>, Seq<char>)| entry_line(entry);
            let shown = |entry: (Seq<char>, Seq<char>)| json_quoted(entry.0) + ": "@ + json_quoted(entry.1);
            entries_tell();
            assert(x.map_values(shown) =~= x.map_values(line));
            assert(y.map_values(shown) =~= y.map_values(line));
            bracketed_is_told(
                "{"@,
                x,
                y,
                line,
                |entry: (Seq<char>, Seq<char>)| is_plain_entry(entry),
                "  "@,
                "}"@,
                u,
                v,
            );
        },
        (JsonFieldView::List(x), JsonFieldView::List(y)) => {
            items_tell();
            bracketed_is_told(
                "["@,
                x,
                y,
                |item: Seq<char>| json_quoted(item),
                |item: Seq<char>| is_plain(item),
                "  "@,
                "]"@,
                u,
                v,
            );
        },
        _ => {},
    }
}

/// The line of a field.
spec fn member_line(member: (Seq<char>, JsonFieldView)) -> Seq<char> {
    json_quoted(member.0) + ": "@ + json_value(member.1)
}

proof fn members_tell()
    ensures
        tells(
            |member: (Seq<char>, JsonFieldView)| member_line(member),
            |member: (Seq<char>, JsonFieldView)| is_plain_member(member),
        ),
{
    let line = |member: (Seq<char>, JsonFieldView)| member_line(member);
    assert forall|a: (Seq<char>, JsonFieldView), u: Seq<char>, b: (Seq<char>, JsonFieldView), v: Seq<char>|
        is_plain_member(a) && is_plain_member(b) && goes_on(u) && goes_on(v) && #[trigger] (line(a) + u) == #[trigger] (
        line(b) + v) implies a == b && u == v by {
        let x = ": "@ + (json_value(a.1) + u);
        let y = ": "@ + (json_value(b.1) + v);
        assert(line(a) + u =~= json_quoted(a.0) + x);
        assert(line(b) + v =~= json_quoted(b.0) + y);
        quoted_is_told(a.0, x, b.0, y);
        rest_is_told(": "@, json_value(a.1) + u, json_value(b.1) + v);
        values_are_told(a.1, u, b.1, v);
    }
}

/// The text of a JSON object tells its fields.
pub proof fn objects_are_told(a: Seq<(Seq<char>, JsonFieldView)>, b: Seq<(Seq<char>, JsonFieldView)>)
    requires
        forall|i: int| 0 <= i < a.len() ==> is_plain_member(#[trigger] a[i]),
        forall|i: int| 0 <= i < b.len() ==> is_plain_member(#[trigger] b[i]),
        pretty_json_text(a) == pretty_json_text(b),
    ensures
        a == b,
{
    reveal_strlit("}");
    let line = |member: (Seq<char>, JsonFieldView)| member_line(member);
    let shown = |member: (Seq<char>, JsonFieldView)| json_quoted(member.0) + ": "@ + json_value(member.1);
    members_tell();
    assert(a.map_values(shown) =~= a.map_values(line));
    assert(b.map_values(shown) =~= b.map_values(line));
    bracketed_is_told(
        "{"@,
        a,
        b,
        line,
        |member: (Seq<char>, JsonFieldView)| is_plain_member(member),
        ""@,
        "}"@,
        Seq::empty(),
        Seq::empty(),
    );
}

/// Identifiers are plain.
pub proof fn identifiers_are_plain(text: Seq<char>)
    requires
        forall|i: int| 0 <= i < text.len() ==> is_id_char(#[trigger] text[i]),
    ensures
        is_plain(text),
{
    assert forall|i: int| 0 <= i < text.len() implies json_escape(#[trigger] text[i]) == seq![text[i]] && text[i] != '"' by {
        assert(is_id_char(text[i]));
    }
}

/// Numbers are plain.
proof fn numbers_are_plain(n: nat)
    ensures
        is_plain(decimal(n)),
{
    let text = decimal(n);
    assert forall|i: int| 0 <= i < text.len() implies is_id_char(#[trigger] text[i]) by {
        decimal_has_only_digits(n, i);
    }
    identifiers_are_plain(text);
}

/// Whether all names that are bound are logical identifiers, as those of every value are.
pub open spec fn has_logical_ids(mappings: MappingsView) -> bool {
    forall|i: int| 0 <= i < mappings.len() ==> is_logical_id((#[trigger] mappings[i]).0)
}

/// Whether all names of a state are logical identifiers.
pub open spec fn names_are_logical(state: StateView) -> bool {
    has_logical_ids(state.roles) && has_logical_ids(state.channels) && has_logical_ids(state.members)
}

proof fn mappings_are_plain(mappings: MappingsView)
    requires
        has_logical_ids(mappings),
    ensures
        is_plain_field(JsonFieldView::Table(mapping_texts(mappings))),
{
    let texts = mapping_texts(mappings);
    assert forall|i: int| 0 <= i < texts.len() implies is_plain_entry(#[trigger] texts[i]) by {
        assert(is_logical_id(mappings[i].0));
        identifiers_are_plain(mappings[i].0);
        numbers_are_plain(mappings[i].1 as nat);
    }
}

proof fn mappings_are_told(a: MappingsView, b: MappingsView)
    requires
        mapping_texts(a) == mapping_texts(b),
    ensures
        a == b,
{
    let x = mapping_texts(a);
    let y = mapping_texts(b);
    assert(x.len() == a.len() && y.len() == b.len());
    assert forall|i: int| 0 <= i < a.len() implies a[i] == b[i] by {
        assert(x[i] == y[i]);
        decimal_round_trip(a[i].1 as nat);
        decimal_round_trip(b[i].1 as nat);
    }
    assert(a =~= b);
}

/// The fields of a state are plain.
pub proof fn state_fields_are_plain(state: StateView)
    requires
        names_are_logical(state),
    ensures
        forall|i: int| 0 <= i < state_fields(state).len() ==> is_plain_member(#[trigger] state_fields(state)[i]),
{
    reveal_strlit("schema_version");
    reveal_strlit("guild_id");
    reveal_strlit("roles");
    reveal_strlit("channels");
    reveal_strlit("members");
    identifiers_are_plain("schema_version"@);
    identifiers_are_plain("guild_id"@);
    identifiers_are_plain("roles"@);
    identifiers_are_plain("channels"@);
    identifiers_are_plain("members"@);
    numbers_are_plain(state.guild_id as nat);
    mappings_are_plain(state.roles);
    mappings_are_plain(state.channels);
    mappings_are_plain(state.members);
}

/// The fields of a state tell the state.
pub proof fn state_fields_are_told(a: StateView, b: StateView)
    requires
        state_fields(a) == state_fields(b),
    ensures
        a == b,
{
    reveal_strlit("channels");
    reveal_strlit("members");
    let x = state_fields(a);
    let y = state_fields(b);
    assert(x[0] == y[0] && x[1] == y[1] && x[2] == y[2]);
    decimal_round_trip(a.guild_id as nat);
    decimal_round_trip(b.guild_id as nat);
    mappings_are_told(a.roles, b.roles);
    assert("channels"@.len() != "members"@.len());
    if x.len() == 5 {
        assert(x[3] == y[3] && x[4] == y[4]);
        mappings_are_told(a.channels, b.channels);
        mappings_are_told(a.members, b.members);
    } else if x.len() == 4 {
        assert(x[3] == y[3]);
        if a.channels.len() > 0 {
            assert(x[3].0 == "channels"@);
            assert(b.channels.len() > 0);
            mappings_are_told(a.channels, b.channels);
            assert(a.members =~= b.members);
        } else {
            assert(x[3].0 == "members"@);
            assert(b.channels.len() == 0);
            mappings_are_told(a.members, b.members);
            assert(a.channels =~= b.channels);
        }
    } else {
        assert(a.channels =~= b.channels);
        assert(a.members =~= b.members);
    }
}

/// The text of a state tells the state: whatever state a text was written for, it is the
/// only one. So what reads the text back can only find that state.
pub proof fn states_are_told_by_their_text(a: StateView, b: StateView)
    requires
        names_are_logical(a),
        names_are_logical(b),
        state_text(a) == state_text(b),
    ensures
        a == b,
{
    let x = pretty_json_text(state_fields(a));
    let y = pretty_json_text(state_fields(b));
    assert(state_text(a).drop_last() =~= x) by {
        reveal_strlit("\n");
    }
    assert(state_text(b).drop_last() =~= y) by {
        reveal_strlit("\n");
    }
    state_fields_are_plain(a);
    state_fields_are_plain(b);
    objects_are_told(state_fields(a), state_fields(b));
    state_fields_are_told(a, b);
}

/// A written state holds the version, the guild and the bindings of roles, those of
/// channels and members where there are any, and nothing else. It ends with a line break.
pub proof fn written_states_hold_only_bindings(state: StateView)
    ensures
        state_text(state).last() == '\n',
        state_fields(state).len() == 3 + (if state.channels.len() > 0 {
            1int
        } else {
            0
        }) + (if state.members.len() > 0 {
            1int
        } else {
            0
        }),
        forall|i: int|
            0 <= i < state_fields(state).len() ==> {
                let (name, field) = #[trigger] state_fields(state)[i];
                ||| name == "schema_version"@ && field == JsonFieldView::Number(state.schema_version)
                ||| name == "guild_id"@ && field == JsonFieldView::Text(decimal(state.guild_id as nat))
                ||| name == "roles"@ && field == JsonFieldView::Table(mapping_texts(state.roles))
                ||| name == "channels"@ && state.channels.len() > 0 && field == JsonFieldView::Table(
                    mapping_texts(state.channels),
                )
                ||| name == "members"@ && state.members.len() > 0 && field == JsonFieldView::Table(
                    mapping_texts(state.members),
                )
            },
{
    reveal_strlit("\n");
}

} // verus!
