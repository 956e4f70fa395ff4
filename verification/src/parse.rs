//! The tokenizer: from raw text to rows of cells.
//!
//! A line feed ends a row and the separator ends a cell, each only outside
//! quotes. Every `"` switches between inside and outside. A cell that begins
//! with `"` loses its first and its last character, and of every `""` in
//! between one `"` stays; any other cell is taken as it stands.

use vstd::prelude::*;
use vstd::slice::slice_subrange;

verus! {

/// The characters that `bytes` stand for. A byte that was read is the
/// character of the same value; a byte that could not be read is left out.
pub open spec fn decoded(bytes: Seq<Option<u8>>) -> Seq<char> {
    bytes.filter(|byte: Option<u8>| byte is Some).map_values(|byte: Option<u8>| byte->0 as char)
}

/// Whether a scanner that has read `text` is inside quotes: it has met an
/// odd number of `"`.
pub open spec fn in_quotes(text: Seq<char>) -> bool {
    text.filter(|c: char| c == '"').len() % 2 == 1
}

/// Whether the character of `data` at place `at` ends a row.
pub open spec fn ends_row(data: Seq<char>, at: int) -> bool {
    data[at] == '\n' && !in_quotes(data.take(at))
}

/// Whether the character of `row` at place `at` ends a cell. A separator
/// that is itself `"` ends a cell wherever it stands.
pub open spec fn ends_cell(row: Seq<char>, separator: char, at: int) -> bool {
    row[at] == separator && (separator == '"' || !in_quotes(row.take(at)))
}

/// `text` cut at the places that `cut` names: the pieces between those
/// places, without the characters at them. There is one piece more than
/// there are cuts, so a cut at the end leaves an empty last piece.
pub open spec fn pieces(text: Seq<char>, cut: spec_fn(int) -> bool) -> Seq<Seq<char>>
    decreases text.len(),
{
    if text.len() == 0 {
        seq![Seq::empty()]
    } else {
        let before = pieces(text.drop_last(), cut);
        if cut(text.len() - 1) {
            before.push(Seq::empty())
        } else {
            before.drop_last().push(before.last().push(text.last()))
        }
    }
}

/// `text` with one `"` for every `""`, read from the left.
pub open spec fn unescaped(text: Seq<char>) -> Seq<char>
    decreases text.len(),
{
    if text.len() == 0 {
        Seq::empty()
    } else if text.len() >= 2 && text[0] == '"' && text[1] == '"' {
        seq!['"'] + unescaped(text.skip(2))
    } else {
        seq![text[0]] + unescaped(text.skip(1))
    }
}

/// What a cell holds, given the characters `field` that it was written with.
pub open spec fn cell_value(field: Seq<char>) -> Seq<char> {
    if field.len() > 0 && field[0] == '"' {
        unescaped(
            field.subrange(
                1,
                if field.len() > 1 {
                    field.len() - 1
                } else {
                    1
                },
            ),
        )
    } else {
        field
    }
}

/// The rows that `data` is written in, as they stand.
pub open spec fn rows_of(data: Seq<char>) -> Seq<Seq<char>> {
    pieces(data, |at: int| ends_row(data, at))
}

/// The cells of `row`.
pub open spec fn cells_of_row(row: Seq<char>, separator: char) -> Seq<Seq<char>> {
    pieces(row, |at: int| ends_cell(row, separator, at)).map_values(
        |field: Seq<char>| cell_value(field),
    )
}

/// The table that `data` is written as: its rows, and in each row its cells.
pub open spec fn tokenized(data: Seq<char>, separator: char) -> Seq<Seq<Seq<char>>> {
    rows_of(data).map_values(|row: Seq<char>| cells_of_row(row, separator))
}

/// Cutting leaves at least one piece.
pub proof fn lemma_pieces_len(text: Seq<char>, cut: spec_fn(int) -> bool)
    ensures
        pieces(text, cut).len() >= 1,
    decreases text.len(),
{
    if text.len() > 0 {
        lemma_pieces_len(text.drop_last(), cut);
    }
}

/// `parts` put end to end, with `mark` between each two of them.
pub open spec fn joined(parts: Seq<Seq<char>>, mark: char) -> Seq<char>
    decreases parts.len(),
{
    if parts.len() == 0 {
        Seq::empty()
    } else if parts.len() == 1 {
        parts[0]
    } else {
        joined(parts.drop_last(), mark).push(mark) + parts.last()
    }
}

/// Cutting loses nothing: where every cut falls on the same character, the
/// pieces with that character between them are the text.
pub proof fn lemma_pieces_joined(text: Seq<char>, cut: spec_fn(int) -> bool, mark: char)
    requires
        forall|at: int| 0 <= at < text.len() && #[trigger] cut(at) ==> text[at] == mark,
    ensures
        joined(pieces(text, cut), mark) == text,
    decreases text.len(),
{
    if text.len() > 0 {
        let before = pieces(text.drop_last(), cut);
        lemma_pieces_joined(text.drop_last(), cut, mark);
        lemma_pieces_len(text.drop_last(), cut);
        let after = pieces(text, cut);
        if cut(text.len() - 1) {
            assert(after.drop_last() =~= before);
        } else if before.len() > 1 {
            assert(after.drop_last() =~= before.drop_last());
            assert(joined(after, mark) =~= (joined(before.drop_last(), mark).push(mark)
                + before.last()).push(text.last()));
        }
    }
}

/// The rows of a text, with a line feed between each two of them, are the
/// text.
pub proof fn lemma_rows_joined(data: Seq<char>)
    ensures
        joined(rows_of(data), '\n') == data,
{
    lemma_pieces_joined(data, |at: int| ends_row(data, at), '\n');
}

/// A table always has a row, and each of its rows a cell.
pub proof fn lemma_tokenized_not_empty(data: Seq<char>, separator: char)
    ensures
        tokenized(data, separator).len() >= 1,
        forall|i: int|
            0 <= i < tokenized(data, separator).len() ==> (#[trigger] tokenized(
                data,
                separator,
            )[i]).len() >= 1,
{
    lemma_pieces_len(data, |at: int| ends_row(data, at));
}

/// How reading one more character changes the pieces read so far.
pub proof fn lemma_pieces_step(text: Seq<char>, cut: spec_fn(int) -> bool, done: Seq<Seq<char>>, start: int, at: int)
    requires
        0 <= start <= at < text.len(),
        pieces(text.take(at), cut) == done.push(text.subrange(start, at)),
    ensures
        cut(at) ==> pieces(text.take(at + 1), cut) == done.push(text.subrange(start, at)).push(
            text.subrange(at + 1, at + 1),
        ),
        !cut(at) ==> pieces(text.take(at + 1), cut) == done.push(text.subrange(start, at + 1)),
{
    let read = text.take(at + 1);
    assert(read.drop_last() =~= text.take(at));
    assert(text.subrange(at + 1, at + 1) =~= Seq::empty());
    assert(text.subrange(start, at).push(text[at]) =~= text.subrange(start, at + 1));
}

/// How reading one more character changes whether the scanner is in quotes.
proof fn lemma_in_quotes_step(text: Seq<char>, at: int)
    requires
        0 <= at < text.len(),
    ensures
        in_quotes(text.take(at + 1)) == (in_quotes(text.take(at)) != (text[at] == '"')),
{
    let quote = |c: char| c == '"';
    assert(text.take(at + 1) =~= text.take(at).push(text[at]));
    text.take(at).lemma_filter_push(text[at], quote);
}

/// The characters of `bytes`, without the bytes that could not be read.
pub fn decode(bytes: &[Option<u8>]) -> (chars: Vec<char>)
    ensures
        chars@ == decoded(bytes@),
{
    let mut chars: Vec<char> = Vec::new();
    let ghost read = |byte: Option<u8>| byte is Some;
    let ghost letter = |byte: Option<u8>| byte->0 as char;
    let mut i: usize = 0;
    while i < bytes.len()
        invariant
            i <= bytes.len(),
            read == |byte: Option<u8>| byte is Some,
            letter == |byte: Option<u8>| byte->0 as char,
            chars@ == bytes@.take(i as int).filter(read).map_values(letter),
        decreases bytes.len() - i,
    {
        proof {
            let seen = bytes@.take(i as int);
            assert(bytes@.take(i + 1) =~= seen.push(bytes[i as int]));
            seen.lemma_filter_push(bytes[i as int], read);
        }
        match bytes[i] {
            Some(byte) => {
                chars.push(byte as char);
            },
            None => {},
        }
        i += 1;
    }
    proof {
        assert(bytes@.take(i as int) =~= bytes@);
    }
    chars
}

/// Cuts `data` into its rows, at every line feed outside quotes.
pub fn get_rows(data: &[char]) -> (rows: Vec<&[char]>)
    ensures
        rows.deep_view() == rows_of(data@),
{
    let mut rows: Vec<&[char]> = Vec::new();
    let mut row_start: usize = 0;
    let mut is_quoted = false;
    let ghost cut = |at: int| ends_row(data@, at);
    let mut index: usize = 0;
    proof {
        assert(data@.take(0) =~= Seq::empty());
    }
    while index < data.len()
        invariant
            row_start <= index <= data.len(),
            cut == |at: int| ends_row(data@, at),
            is_quoted == in_quotes(data@.take(index as int)),
            pieces(data@.take(index as int), cut) == rows.deep_view().push(
                data@.subrange(row_start as int, index as int),
            ),
        decreases data.len() - index,
    {
        proof {
            lemma_pieces_step(data@, cut, rows.deep_view(), row_start as int, index as int);
            lemma_in_quotes_step(data@, index as int);
        }
        if data[index] == '\n' && !is_quoted {
            let row = slice_subrange(data, row_start, index);
            rows.push(row);
            proof {
                assert(row.deep_view() =~= row@);
            }
            row_start = index + 1;
        } else if data[index] == '"' {
            is_quoted = !is_quoted;
        }
        index += 1;
    }
    let row = slice_subrange(data, row_start, data.len());
    rows.push(row);
    proof {
        assert(row.deep_view() =~= row@);
        assert(data@.take(index as int) =~= data@);
    }
    rows
}

/// `text[from..to]` with one `"` for every `""`.
fn unescape(text: &[char], from: usize, to: usize) -> (value: String)
    requires
        from <= to <= text.len(),
    ensures
        value@ == unescaped(text@.subrange(from as int, to as int)),
{
    let mut value = String::new();
    let mut index = from;
    while index < to
        invariant
            from <= index <= to <= text.len(),
            value@ + unescaped(text@.subrange(index as int, to as int)) == unescaped(
                text@.subrange(from as int, to as int),
            ),
        decreases to - index,
    {
        let ghost rest = text@.subrange(index as int, to as int);
        if text[index] == '"' && index + 1 < to && text[index + 1] == '"' {
            value.push('"');
            proof {
                assert(rest.skip(2) =~= text@.subrange(index + 2, to as int));
            }
            index += 2;
        } else {
            value.push(text[index]);
            proof {
                assert(rest.skip(1) =~= text@.subrange(index + 1, to as int));
            }
            index += 1;
        }
    }
    value
}

/// `text[from..to]` as it stands.
pub(crate) fn verbatim(text: &[char], from: usize, to: usize) -> (value: String)
    requires
        from <= to <= text.len(),
    ensures
        value@ == text@.subrange(from as int, to as int),
{
    let mut value = String::new();
    let mut index = from;
    while index < to
        invariant
            from <= index <= to <= text.len(),
            value@ == text@.subrange(from as int, index as int),
        decreases to - index,
    {
        value.push(text[index]);
        index += 1;
    }
    value
}

/// What the cell written as `row[from..to]` holds.
fn value_of(row: &[char], from: usize, to: usize) -> (value: String)
    requires
        from <= to <= row.len(),
    ensures
        value@ == cell_value(row@.subrange(from as int, to as int)),
{
    let ghost field = row@.subrange(from as int, to as int);
    if from < to && row[from] == '"' {
        let inner_to = if to - from > 1 {
            to - 1
        } else {
            from + 1
        };
        proof {
            assert(field.subrange(1, inner_to - from) =~= row@.subrange(from + 1, inner_to as int));
        }
        unescape(row, from + 1, inner_to)
    } else {
        verbatim(row, from, to)
    }
}

/// Cuts `row` into its cells, at every separator outside quotes, and takes
/// the value of each.
pub fn get_values(row: &[char], separator: char) -> (values: Vec<String>)
    ensures
        values.deep_view() == cells_of_row(row@, separator),
{
    let mut values: Vec<String> = Vec::new();
    let mut value_start: usize = 0;
    let mut is_quoted = false;
    let ghost cut = |at: int| ends_cell(row@, separator, at);
    let ghost value = |field: Seq<char>| cell_value(field);
    let ghost mut fields: Seq<Seq<char>> = Seq::empty();
    let mut index: usize = 0;
    proof {
        assert(row@.take(0) =~= Seq::empty());
    }
    while index < row.len()
        invariant
            value_start <= index <= row.len(),
            cut == |at: int| ends_cell(row@, separator, at),
            value == |field: Seq<char>| cell_value(field),
            is_quoted == (separator != '"' && in_quotes(row@.take(index as int))),
            pieces(row@.take(index as int), cut) == fields.push(
                row@.subrange(value_start as int, index as int),
            ),
            values.deep_view() == fields.map_values(value),
        decreases row.len() - index,
    {
        proof {
            lemma_pieces_step(row@, cut, fields, value_start as int, index as int);
            lemma_in_quotes_step(row@, index as int);
        }
        if row[index] == separator && !is_quoted {
            let cell = value_of(row, value_start, index);
            let ghost done = values.deep_view();
            values.push(cell);
            proof {
                let field = row@.subrange(value_start as int, index as int);
                assert(values.deep_view() =~= done.push(cell@));
                fields = fields.push(field);
            }
            value_start = index + 1;
        } else if row[index] == '"' {
            is_quoted = !is_quoted;
        }
        index += 1;
    }
    let cell = value_of(row, value_start, row.len());
    let ghost done = values.deep_view();
    values.push(cell);
    proof {
        assert(values.deep_view() =~= done.push(cell@));
        assert(row@.take(index as int) =~= row@);
    }
    values
}

/// The table written in `chars`.
pub fn tokenize(chars: &[char], separator: char) -> (table: Vec<Vec<String>>)
    ensures
        table.deep_view() == tokenized(chars@, separator),
{
    let rows = get_rows(chars);
    let ghost cells = |row: Seq<char>| cells_of_row(row, separator);
    let mut table: Vec<Vec<String>> = Vec::new();
    let mut index: usize = 0;
    while index < rows.len()
        invariant
            index <= rows.len(),
            cells == |row: Seq<char>| cells_of_row(row, separator),
            table.deep_view() == rows.deep_view().take(index as int).map_values(cells),
        decreases rows.len() - index,
    {
        let values = get_values(rows[index], separator);
        table.push(values);
        proof {
            let seen = rows.deep_view().take(index as int);
            assert(rows.deep_view()[index as int] =~= rows[index as int]@);
            assert(rows.deep_view().take(index + 1) =~= seen.push(rows[index as int]@));
            seen.lemma_push_map_commute(cells, rows[index as int]@);
        }
        index += 1;
    }
    table
}

/// The characters of `text`.
pub(crate) fn chars_of(text: &str) -> (chars: Vec<char>)
    ensures
        chars@ == text@,
{
    let mut chars: Vec<char> = Vec::new();
    for c in it: text.chars()
        invariant
            it.seq() == text@,
            chars@ == it.seq().take(it.index()),
    {
        chars.push(c);
    }
    chars
}

/// The table written in `text`.
pub fn parse_text(text: &str, separator: char) -> (table: Vec<Vec<String>>)
    ensures
        table.deep_view() == tokenized(text@, separator),
{
    let chars = chars_of(text);
    tokenize(chars.as_slice(), separator)
}

/// The table written in the bytes of a stream, of which some may have failed
/// to arrive: those are left out, and reading goes on behind them.
pub fn parse_from_reader(bytes: &[Option<u8>], separator: char) -> (table: Vec<Vec<String>>)
    ensures
        table.deep_view() == tokenized(decoded(bytes@), separator),
{
    let chars = decode(bytes);
    tokenize(chars.as_slice(), separator)
}

} // verus!
