use csvtypes::assert_matching_rows::join_failed_assertions;
use csvtypes::config::parse_config;
use csvtypes::expected_types::split_names;
use csvtypes::parse::tokenize;
use csvtypes::types::Type;
use csvtypes::vec::flip_vec;

/// Every text of up to `longest` letters of `alphabet`.
fn texts(alphabet: &[char], longest: usize) -> Vec<Vec<char>> {
    let mut all: Vec<Vec<char>> = vec![Vec::new()];
    let mut last: Vec<Vec<char>> = vec![Vec::new()];
    for _ in 0..longest {
        let mut next = Vec::new();
        for text in last.iter() {
            for letter in alphabet {
                let mut longer = text.clone();
                longer.push(*letter);
                next.push(longer);
            }
        }
        all.extend(next.iter().cloned());
        last = next;
    }
    all
}

fn value(field: &str) -> String {
    if field.starts_with('"') {
        let letters: Vec<char> = field.chars().collect();
        let end = if letters.len() > 1 { letters.len() - 1 } else { 1 };
        let inner: String = letters[1..end].iter().collect();
        inner.replace("\"\"", "\"")
    } else {
        field.to_owned()
    }
}

/// Reads the text in one go, with a flag for being inside quotes.
fn scan(text: &[char], separator: char) -> Vec<Vec<String>> {
    let mut rows = Vec::new();
    let mut row = Vec::new();
    let mut field = String::new();
    let mut quoted = false;
    for c in text {
        if *c == '\n' && !quoted {
            row.push(value(&field));
            field.clear();
            rows.push(row);
            row = Vec::new();
        } else if *c == separator && !quoted {
            row.push(value(&field));
            field.clear();
        } else {
            if *c == '"' {
                quoted = !quoted;
            }
            field.push(*c);
        }
    }
    row.push(value(&field));
    rows.push(row);
    rows
}

#[test]
fn tokenize_agrees_with_reading_in_one_go() {
    for text in texts(&['a', ',', '"', '\n'], 7) {
        assert_eq!(scan(&text, ','), tokenize(&text, ','), "{:?}", text);
    }
}

#[test]
fn tokenize_agrees_with_reading_in_one_go_for_other_separators() {
    for text in texts(&['a', ',', ';', '"', '\n'], 5) {
        assert_eq!(scan(&text, ';'), tokenize(&text, ';'), "{:?}", text);
        assert_eq!(scan(&text, 'a'), tokenize(&text, 'a'), "{:?}", text);
    }
}

#[test]
fn tokenize_with_line_feed_as_separator_cuts_rows_first() {
    for text in texts(&['a', '"', '\n'], 6) {
        let cells: Vec<Vec<String>> = scan(&text, '\n');
        assert_eq!(cells, tokenize(&text, '\n'), "{:?}", text);
        assert!(tokenize(&text, '\n').iter().all(|row| row.len() == 1));
    }
}

#[test]
fn the_rows_and_cells_of_plain_text_give_the_text_back() {
    for text in texts(&['a', 'b', ',', '\n'], 6) {
        let table = tokenize(&text, ',');
        let lines: Vec<String> = table.iter().map(|row| row.join(",")).collect();
        assert_eq!(text.iter().collect::<String>(), lines.join("\n"));
    }
}

fn group(cells: &[(usize, usize)]) -> Vec<(usize, Vec<usize>)> {
    let mut records: Vec<(usize, Vec<usize>)> = Vec::new();
    for (row, column) in cells {
        match records.last_mut() {
            Some(record) if record.0 == *row => record.1.push(*column),
            _ => records.push((*row, vec![*column])),
        }
    }
    records
}

#[test]
fn join_agrees_with_gathering_cell_by_cell() {
    let mut cells: Vec<(usize, usize)> = Vec::new();
    let mut seed: usize = 12345;
    for round in 0..400 {
        seed = seed.wrapping_mul(6364136223846793005).wrapping_add(1442695040888963407);
        cells.push(((seed >> 33) % 3, round % 11));
        if round % 37 == 36 {
            cells.clear();
        }
        let records = join_failed_assertions(&cells);
        assert_eq!(group(&cells), records);
        let spread: Vec<(usize, usize)> = records
            .iter()
            .flat_map(|record| record.1.iter().map(|column| (record.0, *column)))
            .collect();
        assert_eq!(cells, spread);
    }
}

#[test]
fn flip_agrees_with_picking_cells_by_index() {
    let mut seed: usize = 99;
    for _ in 0..200 {
        let mut table: Vec<Vec<String>> = Vec::new();
        seed = seed.wrapping_mul(6364136223846793005).wrapping_add(1442695040888963407);
        let height = (seed >> 40) % 5;
        for row in 0..height {
            seed = seed.wrapping_mul(6364136223846793005).wrapping_add(1442695040888963407);
            let width = (seed >> 40) % 5;
            table.push((0..width).map(|column| format!("{}.{}", row, column)).collect());
        }
        let widest = table.iter().map(|row| row.len()).max().unwrap_or(0);
        let expected: Vec<Vec<String>> = (0..widest)
            .map(|column| table.iter().filter_map(|row| row.get(column).cloned()).collect())
            .collect();
        assert_eq!(expected, flip_vec(&table));
    }
}

#[test]
fn split_names_agrees_with_split_and_trim() {
    for text in texts(&['a', ',', ' ', '\t', '\u{a0}', '\u{200b}'], 5) {
        let text: String = text.iter().collect();
        let expected: Vec<String> = text.split(',').map(|name| name.trim().to_owned()).collect();
        assert_eq!(expected, split_names(&text), "{:?}", text);
    }
}

#[test]
fn parse_config_agrees_with_split_lines() {
    for text in texts(&['a', 'b', ' ', '\n'], 6) {
        let text: String = text.iter().collect();
        let mut expected = Vec::new();
        for line in text.split('\n') {
            let values: Vec<&str> = line.splitn(2, ' ').collect();
            if values.len() == 2 {
                expected.push(Type::new(values[0], values[1]));
            }
        }
        assert_eq!(Ok(expected), parse_config(&text), "{:?}", text);
    }
}
