//! The results as lines of text, ready to be written out.

use crate::types::{Type, TypeDef};
use vstd::prelude::*;
use vstd::string::*;
use vstd::utf8::encode_utf8;

verus! {

/// What to write: lines for the error stream and lines for the output
/// stream. A line ends where it ends; the line feed is the writer's.
pub struct Printout {
    pub stderr: Vec<String>,
    pub stdout: Vec<String>,
}

/// The character for a digit.
pub open spec fn digit(value: nat) -> char {
    if value == 0 {
        '0'
    } else if value == 1 {
        '1'
    } else if value == 2 {
        '2'
    } else if value == 3 {
        '3'
    } else if value == 4 {
        '4'
    } else if value == 5 {
        '5'
    } else if value == 6 {
        '6'
    } else if value == 7 {
        '7'
    } else if value == 8 {
        '8'
    } else {
        '9'
    }
}

/// `number` written in decimal digits.
pub open spec fn decimal(number: nat) -> Seq<char>
    decreases number,
{
    if number < 10 {
        seq![digit(number)]
    } else {
        decimal(number / 10).push(digit(number % 10))
    }
}

/// The line for one record of failing cells: the row, and behind it every
/// column with a `:` before it.
pub open spec fn record_line(record: (usize, Seq<usize>)) -> Seq<char> {
    decimal(record.0 as nat) + record.1.map_values(
        |column: usize| seq![':'] + decimal(column as nat),
    ).flatten()
}

/// The line for the types of one column: every name with a `,` behind it.
pub open spec fn names_line(types: Seq<TypeDef>) -> Seq<char> {
    types.map_values(|t: TypeDef| t.name.push(',')).flatten()
}

/// The character for a digit.
fn digit_char(value: usize) -> (c: char)
    requires
        value < 10,
    ensures
        c == digit(value as nat),
{
    if value == 0 {
        '0'
    } else if value == 1 {
        '1'
    } else if value == 2 {
        '2'
    } else if value == 3 {
        '3'
    } else if value == 4 {
        '4'
    } else if value == 5 {
        '5'
    } else if value == 6 {
        '6'
    } else if value == 7 {
        '7'
    } else if value == 8 {
        '8'
    } else {
        '9'
    }
}

/// Writes `number` in decimal digits to the end of `line`.
pub fn push_decimal(line: &mut String, number: usize)
    ensures
        final(line)@ == old(line)@ + decimal(number as nat),
    decreases number,
{
    if number >= 10 {
        push_decimal(line, number / 10);
    }
    line.push(digit_char(number % 10));
}

/// The line for one record of failing cells.
pub fn failed_assertion_line(row: usize, columns: &[usize]) -> (line: String)
    ensures
        line@ == record_line((row, columns@)),
{
    let mut line = String::new();
    push_decimal(&mut line, row);
    let ghost tail = |column: usize| seq![':'] + decimal(column as nat);
    let mut index: usize = 0;
    while index < columns.len()
        invariant
            index <= columns.len(),
            tail == |column: usize| seq![':'] + decimal(column as nat),
            line@ == decimal(row as nat) + columns@.take(index as int).map_values(tail).flatten(),
        decreases columns.len() - index,
    {
        proof {
            let seen = columns@.take(index as int);
            assert(columns@.take(index + 1) =~= seen.push(columns[index as int]));
            seen.lemma_push_map_commute(tail, columns[index as int]);
            seen.map_values(tail).lemma_flatten_push(tail(columns[index as int]));
        }
        line.push(':');
        push_decimal(&mut line, columns[index]);
        index += 1;
    }
    proof {
        assert(columns@.take(index as int) =~= columns@);
    }
    line
}

/// The lines for the records of failing cells, one for each.
pub fn failed_assertion_lines(rows: &[(usize, Vec<usize>)]) -> (lines: Vec<String>)
    ensures
        lines.deep_view() == rows.deep_view().map_values(
            |record: (usize, Seq<usize>)| record_line(record),
        ),
{
    let mut lines: Vec<String> = Vec::new();
    let mut index: usize = 0;
    while index < rows.len()
        invariant
            index <= rows.len(),
            lines.len() == index,
            forall|i: int| 0 <= i < index ==> (#[trigger] lines[i])@ == record_line(rows.deep_view()[i]),
        decreases rows.len() - index,
    {
        proof {
            assert(rows[index as int].1.deep_view() =~= rows[index as int].1@);
        }
        lines.push(failed_assertion_line(rows[index].0, rows[index].1.as_slice()));
        index += 1;
    }
    lines
}

/// What to write about the records of failing cells.
///
/// The output stream gets a line for each record. A reader who is a person
/// is also told, on the error stream, whether there is any.
pub fn assert_types(rows: &[(usize, Vec<usize>)], machine_readable: bool) -> (printout: Printout)
    ensures
        printout.stdout.deep_view() == rows.deep_view().map_values(
            |record: (usize, Seq<usize>)| record_line(record),
        ),
        printout.stderr.deep_view() == if machine_readable {
            Seq::<Seq<char>>::empty()
        } else if rows.len() > 0 {
            seq!["These rows did not match: "@]
        } else {
            seq!["All rows matched"@]
        },
{
    let stdout = failed_assertion_lines(rows);
    let mut stderr: Vec<String> = Vec::new();
    if !machine_readable {
        if rows.len() > 0 {
            stderr.push(String::from_str("These rows did not match: "));
        } else {
            stderr.push(String::from_str("All rows matched"));
        }
    }
    proof {
        if machine_readable {
        } else if rows.len() > 0 {
        }
    }
    Printout { stderr, stdout }
}

/// The line for the types of one column.
pub fn matching_types_line(types: &[Type]) -> (line: String)
    ensures
        line@ == names_line(types.deep_view()),
{
    let mut line = String::new();
    let ghost named = |t: TypeDef| t.name.push(',');
    let mut index: usize = 0;
    while index < types.len()
        invariant
            index <= types.len(),
            named == |t: TypeDef| t.name.push(','),
            line@ == types.deep_view().take(index as int).map_values(named).flatten(),
        decreases types.len() - index,
    {
        proof {
            let seen = types.deep_view().take(index as int);
            assert(types.deep_view().take(index + 1) =~= seen.push(types[index as int]@));
            seen.lemma_push_map_commute(named, types[index as int]@);
            seen.map_values(named).lemma_flatten_push(named(types[index as int]@));
        }
        line.append(types[index].name().as_str());
        line.push(',');
        index += 1;
    }
    proof {
        assert(types.deep_view().take(index as int) =~= types.deep_view());
    }
    line
}

/// The lines that tell a program which types fit each column: a line for
/// each column.
pub fn matching_types_machine_readable(types: &[Vec<Type>]) -> (lines: Vec<String>)
    ensures
        lines.deep_view() == types.deep_view().map_values(|column: Seq<TypeDef>| names_line(column)),
{
    let mut lines: Vec<String> = Vec::new();
    let mut index: usize = 0;
    while index < types.len()
        invariant
            index <= types.len(),
            lines.len() == index,
            forall|i: int| 0 <= i < index ==> (#[trigger] lines[i])@ == names_line(types.deep_view()[i]),
        decreases types.len() - index,
    {
        lines.push(matching_types_line(types[index].as_slice()));
        index += 1;
    }
    lines
}

/// How many bytes `text` takes.
pub open spec fn byte_len(text: Seq<char>) -> nat {
    encode_utf8(text).len()
}

/// The length in bytes of the longest name among `types`.
pub open spec fn name_width(types: Seq<TypeDef>) -> nat
    decreases types.len(),
{
    if types.len() == 0 {
        0
    } else if name_width(types.drop_last()) >= byte_len(types.last().name) {
        name_width(types.drop_last())
    } else {
        byte_len(types.last().name)
    }
}

/// How wide the column at place `place` is laid out: as many characters as
/// its longest name has bytes, or its header has if it has one and that one
/// has more.
pub open spec fn column_width(types: Seq<Seq<TypeDef>>, headers: Seq<Seq<char>>, place: int) -> nat {
    if place < headers.len() && byte_len(headers[place]) > name_width(types[place]) {
        byte_len(headers[place])
    } else {
        name_width(types[place])
    }
}

/// The length of the longest list of types.
pub open spec fn depth(types: Seq<Seq<TypeDef>>) -> nat
    decreases types.len(),
{
    if types.len() == 0 {
        0
    } else if depth(types.drop_last()) >= types.last().len() {
        depth(types.drop_last())
    } else {
        types.last().len()
    }
}

/// `count` times the character `c`.
pub open spec fn repeated(c: char, count: int) -> Seq<char> {
    Seq::new(
        if count > 0 {
            count as nat
        } else {
            0
        },
        |i: int| c,
    )
}

/// One cell of the layout: `text`, moved to the right edge of a column of
/// the given width, between a bar and a blank.
pub open spec fn boxed(text: Seq<char>, width: nat) -> Seq<char> {
    seq!['|', ' '] + repeated(' ', width - text.len()) + text + seq![' ']
}

/// The line with the headers.
pub open spec fn header_line(types: Seq<Seq<TypeDef>>, headers: Seq<Seq<char>>) -> Seq<char> {
    Seq::new(
        headers.len(),
        |place: int| boxed(headers[place], column_width(types, headers, place)),
    ).flatten().push('|')
}

/// The line drawn under the headers, as long as the header line.
pub open spec fn rule_line(types: Seq<Seq<TypeDef>>, headers: Seq<Seq<char>>) -> Seq<char> {
    Seq::new(
        headers.len(),
        |place: int| repeated('=', column_width(types, headers, place) as int + 3),
    ).flatten().push('=')
}

/// The name at place `row` of `types`, or nothing where the list is shorter.
pub open spec fn name_at(types: Seq<TypeDef>, row: int) -> Seq<char> {
    if row < types.len() {
        types[row].name
    } else {
        Seq::empty()
    }
}

/// The line that holds, for every column, the name of the type at place
/// `row` of its list.
pub open spec fn types_line(types: Seq<Seq<TypeDef>>, headers: Seq<Seq<char>>, row: int) -> Seq<
    char,
> {
    Seq::new(
        types.len(),
        |place: int| boxed(name_at(types[place], row), column_width(types, headers, place)),
    ).flatten().push('|')
}

/// The layout for a person to read: the headers over a rule, where there are
/// headers, and under them the types that fit each column, one below the
/// other.
pub open spec fn table(types: Seq<Seq<TypeDef>>, headers: Seq<Seq<char>>) -> Seq<Seq<char>> {
    let head = if headers.len() > 0 {
        seq![header_line(types, headers), rule_line(types, headers)]
    } else {
        Seq::empty()
    };
    head + Seq::new(depth(types), |row: int| types_line(types, headers, row))
}

/// The length in bytes of the longest name among `types`.
fn widest_name(types: &[Type]) -> (width: usize)
    ensures
        width == name_width(types.deep_view()),
{
    let mut width: usize = 0;
    let mut index: usize = 0;
    while index < types.len()
        invariant
            index <= types.len(),
            width == name_width(types.deep_view().take(index as int)),
        decreases types.len() - index,
    {
        proof {
            let upto = types.deep_view().take(index + 1);
            assert(upto.drop_last() =~= types.deep_view().take(index as int));
        }
        let len = types[index].name().as_str().as_bytes().len();
        if width < len {
            width = len;
        }
        index += 1;
    }
    proof {
        assert(types.deep_view().take(index as int) =~= types.deep_view());
    }
    width
}

/// The widths of the columns.
fn column_widths(types: &[Vec<Type>], headers: &[String]) -> (width: Vec<usize>)
    ensures
        width.len() == types.len(),
        forall|place: int|
            0 <= place < types.len() ==> width[place] == column_width(
                types.deep_view(),
                headers.deep_view(),
                place,
            ),
{
    let mut width: Vec<usize> = Vec::new();
    let mut index: usize = 0;
    while index < types.len()
        invariant
            index <= types.len(),
            width.len() == index,
            forall|place: int|
                0 <= place < index ==> width[place] == column_width(
                    types.deep_view(),
                    headers.deep_view(),
                    place,
                ),
        decreases types.len() - index,
    {
        let mut w = widest_name(types[index].as_slice());
        if index < headers.len() {
            let len = headers[index].as_str().as_bytes().len();
            if w < len {
                w = len;
            }
        }
        width.push(w);
        index += 1;
    }
    width
}

/// The length of the longest list of types.
fn deepest(types: &[Vec<Type>]) -> (max_rows: usize)
    ensures
        max_rows == depth(types.deep_view()),
{
    let mut max_rows: usize = 0;
    let mut index: usize = 0;
    while index < types.len()
        invariant
            index <= types.len(),
            max_rows == depth(types.deep_view().take(index as int)),
        decreases types.len() - index,
    {
        proof {
            let upto = types.deep_view().take(index + 1);
            assert(upto.drop_last() =~= types.deep_view().take(index as int));
        }
        if max_rows < types[index].len() {
            max_rows = types[index].len();
        }
        index += 1;
    }
    proof {
        assert(types.deep_view().take(index as int) =~= types.deep_view());
    }
    max_rows
}

/// Writes `c` to the end of `line`, `count` times.
fn push_repeated(line: &mut String, c: char, count: usize)
    ensures
        final(line)@ == old(line)@ + repeated(c, count as int),
{
    let mut done: usize = 0;
    while done < count
        invariant
            done <= count,
            line@ == old(line)@ + repeated(c, done as int),
        decreases count - done,
    {
        line.push(c);
        done += 1;
    }
}

/// Writes one cell of the layout to the end of `line`.
fn push_boxed(line: &mut String, text: &str, width: usize)
    ensures
        final(line)@ == old(line)@ + boxed(text@, width as nat),
{
    let len = text.unicode_len();
    line.push('|');
    line.push(' ');
    if width > len {
        push_repeated(line, ' ', width - len);
    }
    line.append(text);
    line.push(' ');
}

/// The layout for a person to read of the types that fit each column.
///
/// There may not be more headers than columns.
pub fn matching_types_human_readable(types: &[Vec<Type>], headers: &[String]) -> (lines: Vec<String>)
    requires
        headers.len() <= types.len(),
    ensures
        lines.deep_view() == table(types.deep_view(), headers.deep_view()),
{
    let width = column_widths(types, headers);
    let max_rows = deepest(types);
    let ghost columns = types.deep_view();
    let ghost heads = headers.deep_view();
    let mut lines: Vec<String> = Vec::new();
    if headers.len() > 0 {
        let mut line = String::new();
        let mut rule = String::new();
        let ghost cells = Seq::new(
            heads.len(),
            |place: int| boxed(heads[place], column_width(columns, heads, place)),
        );
        let ghost strokes = Seq::new(
            heads.len(),
            |place: int| repeated('=', column_width(columns, heads, place) as int + 3),
        );
        let mut col_id: usize = 0;
        while col_id < headers.len()
            invariant
                col_id <= headers.len() <= types.len() == width.len(),
                columns == types.deep_view(),
                heads == headers.deep_view(),
                forall|place: int|
                    0 <= place < types.len() ==> width[place] == column_width(columns, heads, place),
                cells == Seq::new(
                    heads.len(),
                    |place: int| boxed(heads[place], column_width(columns, heads, place)),
                ),
                strokes == Seq::new(
                    heads.len(),
                    |place: int| repeated('=', column_width(columns, heads, place) as int + 3),
                ),
                line@ == cells.take(col_id as int).flatten(),
                rule@ == strokes.take(col_id as int).flatten(),
            decreases headers.len() - col_id,
        {
            proof {
                assert(cells.take(col_id + 1) =~= cells.take(col_id as int).push(
                    cells[col_id as int],
                ));
                cells.take(col_id as int).lemma_flatten_push(cells[col_id as int]);
                assert(strokes.take(col_id + 1) =~= strokes.take(col_id as int).push(
                    strokes[col_id as int],
                ));
                strokes.take(col_id as int).lemma_flatten_push(strokes[col_id as int]);
            }
            push_boxed(&mut line, headers[col_id].as_str(), width[col_id]);
            push_repeated(&mut rule, '=', width[col_id]);
            push_repeated(&mut rule, '=', 3);
            col_id += 1;
        }
        line.push('|');
        rule.push('=');
        proof {
            assert(cells.take(col_id as int) =~= cells);
            assert(strokes.take(col_id as int) =~= strokes);
        }
        lines.push(line);
        lines.push(rule);
    }
    let ghost head = lines.deep_view();
    let ghost body = Seq::new(depth(columns), |row: int| types_line(columns, heads, row));
    let mut row: usize = 0;
    while row < max_rows
        invariant
            row <= max_rows == depth(columns),
            types.len() == width.len(),
            columns == types.deep_view(),
            heads == headers.deep_view(),
            forall|place: int|
                0 <= place < types.len() ==> width[place] == column_width(columns, heads, place),
            body == Seq::new(depth(columns), |row: int| types_line(columns, heads, row)),
            lines.deep_view() == head + body.take(row as int),
        decreases max_rows - row,
    {
        let mut line = String::new();
        let ghost cells = Seq::new(
            columns.len(),
            |place: int| boxed(name_at(columns[place], row as int), column_width(columns, heads, place)),
        );
        let mut col_id: usize = 0;
        while col_id < types.len()
            invariant
                col_id <= types.len() == width.len(),
                columns == types.deep_view(),
                forall|place: int|
                    0 <= place < types.len() ==> width[place] == column_width(columns, heads, place),
                cells == Seq::new(
                    columns.len(),
                    |place: int|
                        boxed(
                            name_at(columns[place], row as int),
                            column_width(columns, heads, place),
                        ),
                ),
                line@ == cells.take(col_id as int).flatten(),
            decreases types.len() - col_id,
        {
            proof {
                assert(cells.take(col_id + 1) =~= cells.take(col_id as int).push(
                    cells[col_id as int],
                ));
                cells.take(col_id as int).lemma_flatten_push(cells[col_id as int]);
            }
            let col = &types[col_id];
            if row < col.len() {
                push_boxed(&mut line, col[row].name().as_str(), width[col_id]);
            } else {
                proof {
                    reveal_strlit("");
                }
                push_boxed(&mut line, "", width[col_id]);
            }
            col_id += 1;
        }
        line.push('|');
        proof {
            assert(cells.take(col_id as int) =~= cells);
        }
        let ghost before = lines.deep_view();
        lines.push(line);
        proof {
            assert(lines.deep_view() =~= before.push(line@));
        }
        row += 1;
    }
    lines
}

/// What to write about the types that fit each column: a layout for a
/// person, or a line for each column for a program.
///
/// In the layout there may not be more headers than columns.
pub fn matching_types(types: &[Vec<Type>], headers: &[String], machine_readable: bool) -> (printout:
    Printout)
    requires
        !machine_readable ==> headers.len() <= types.len(),
    ensures
        printout.stderr@.len() == 0,
        printout.stdout.deep_view() == if machine_readable {
            types.deep_view().map_values(|column: Seq<TypeDef>| names_line(column))
        } else {
            table(types.deep_view(), headers.deep_view())
        },
{
    let stdout = if machine_readable {
        matching_types_machine_readable(types)
    } else {
        matching_types_human_readable(types, headers)
    };
    Printout { stderr: Vec::new(), stdout }
}

} // verus!
