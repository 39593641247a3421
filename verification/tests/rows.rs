use excel_reader::cell::Cell;
use excel_reader::rows::extract_data;
use excel_reader::rows::normalize_row;

fn text_row(items: &[&str]) -> Vec<Cell> {
    items.iter().map(|s| Cell::Text(s.to_string())).collect()
}

fn strings(items: &[&str]) -> Vec<String> {
    items.iter().map(|s| s.to_string()).collect()
}

#[test]
fn ragged_row_is_padded() {
    let texts = normalize_row(&text_row(&["a", "b"]), 4);
    assert_eq!(texts.len(), 4);
    assert_eq!(texts, strings(&["a", "b", "", ""]));
}

#[test]
fn ragged_row_is_truncated() {
    let texts = normalize_row(&text_row(&["a", "b", "c", "d", "e"]), 4);
    assert_eq!(texts.len(), 4);
    assert_eq!(texts, strings(&["a", "b", "c", "d"]));
}

#[test]
fn normalize_row_of_exact_width() {
    assert_eq!(
        normalize_row(&text_row(&["x", "y"]), 2),
        strings(&["x", "y"])
    );
}

#[test]
fn normalize_row_to_width_zero() {
    assert_eq!(normalize_row(&text_row(&["x", "y"]), 0), Vec::<String>::new());
    assert_eq!(normalize_row(&Vec::new(), 0), Vec::<String>::new());
}

#[test]
fn normalize_empty_row() {
    assert_eq!(normalize_row(&Vec::new(), 3), strings(&["", "", ""]));
}

#[test]
fn normalize_row_writes_cells_as_text() {
    let row = vec![
        Cell::Int(30),
        Cell::Empty,
        Cell::Bool(false),
        Cell::Float("2.75".to_string()),
    ];
    assert_eq!(normalize_row(&row, 5), strings(&["30", "", "false", "2.75", ""]));
}

#[test]
fn extract_data_from_start() {
    let rows = vec![
        text_row(&["Name", "Age"]),
        text_row(&["Ann", "30", "extra"]),
        text_row(&["Bo"]),
        Vec::new(),
    ];
    assert_eq!(
        extract_data(&rows, 1, 2),
        vec![strings(&["Ann", "30"]), strings(&["Bo", ""]), strings(&["", ""])]
    );
    assert_eq!(extract_data(&rows, 3, 2), vec![strings(&["", ""])]);
}

#[test]
fn extract_data_from_the_top() {
    let rows = vec![text_row(&["a"]), text_row(&["b"])];
    assert_eq!(
        extract_data(&rows, 0, 1),
        vec![strings(&["a"]), strings(&["b"])]
    );
}

#[test]
fn extract_data_at_or_past_the_end_is_empty() {
    let rows = vec![text_row(&["a"]), text_row(&["b"])];
    assert_eq!(extract_data(&rows, 2, 1), Vec::<Vec<String>>::new());
    assert_eq!(extract_data(&rows, 3, 1), Vec::<Vec<String>>::new());
    assert_eq!(extract_data(&rows, usize::MAX, 1), Vec::<Vec<String>>::new());
    assert_eq!(extract_data(&Vec::new(), 0, 4), Vec::<Vec<String>>::new());
}

#[test]
fn extract_data_rows_all_have_the_width() {
    let rows = vec![
        text_row(&[]),
        text_row(&["1"]),
        text_row(&["1", "2"]),
        text_row(&["1", "2", "3"]),
        text_row(&["1", "2", "3", "4"]),
    ];
    let data = extract_data(&rows, 0, 3);
    assert_eq!(data.len(), 5);
    for row in &data {
        assert_eq!(row.len(), 3);
    }
    assert_eq!(data[4], strings(&["1", "2", "3"]));
}
