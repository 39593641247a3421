use excel_reader::builder::build_frame;
use excel_reader::cell::Cell;
use excel_reader::error::FrameError;
use excel_reader::frame::assemble_frame;

fn text_row(items: &[&str]) -> Vec<Cell> {
    items.iter().map(|s| Cell::Text(s.to_string())).collect()
}

fn strings(items: &[&str]) -> Vec<String> {
    items.iter().map(|s| s.to_string()).collect()
}

fn people() -> Vec<Vec<Cell>> {
    vec![
        text_row(&["Name", "Age"]),
        text_row(&["Ann", "30"]),
        text_row(&["Bo", "25"]),
    ]
}

#[test]
fn end_to_end() {
    let frame = build_frame(&people(), &vec![0], None).unwrap();
    assert_eq!(frame.names(), &strings(&["Name", "Age"]));
    assert_eq!(frame.height(), 2);
    assert_eq!(frame.width(), 2);
    assert_eq!(frame.column(0), &strings(&["Ann", "Bo"]));
    assert_eq!(frame.column(1), &strings(&["30", "25"]));
}

#[test]
fn build_frame_is_deterministic() {
    let rows = vec![
        text_row(&["a", "", "a"]),
        text_row(&["x", "y"]),
        vec![Cell::Int(1), Cell::Bool(true), Cell::Empty, Cell::Int(4)],
    ];
    let first = build_frame(&rows, &vec![0, 1], None);
    let second = build_frame(&rows, &vec![0, 1], None);
    assert!(first.is_ok());
    assert_eq!(first, second);
}

#[test]
fn build_frame_names_are_unique() {
    let rows = vec![
        text_row(&["a", "a", "", "Unnamed_2", "a_1", ""]),
        text_row(&["1", "2", "3", "4", "5", "6"]),
    ];
    let frame = build_frame(&rows, &vec![0], None).unwrap();
    assert_eq!(
        frame.names(),
        &strings(&["a", "a_1", "Unnamed_2", "Unnamed_3", "a_1_1", "Unnamed_5"])
    );
    let names = frame.names();
    for i in 0..names.len() {
        for j in 0..i {
            assert_ne!(names[i], names[j]);
        }
    }
}

#[test]
fn build_frame_shape() {
    let rows = vec![
        text_row(&["a", "b", "c"]),
        text_row(&["1"]),
        text_row(&["1", "2", "3", "4"]),
        Vec::new(),
        text_row(&["1", "2"]),
    ];
    let frame = build_frame(&rows, &vec![0], None).unwrap();
    assert_eq!(frame.width(), 3);
    assert_eq!(frame.names().len(), 3);
    assert_eq!(frame.height(), 4);
    for c in 0..frame.width() {
        assert_eq!(frame.column(c).len(), 4);
    }
    assert_eq!(frame.column(0), &strings(&["1", "1", "", "1"]));
    assert_eq!(frame.column(1), &strings(&["", "2", "", "2"]));
    assert_eq!(frame.column(2), &strings(&["", "3", "", ""]));
}

#[test]
fn build_frame_out_of_bounds() {
    let row = text_row(&["a"]);
    let rows = vec![row.clone(), row.clone(), row.clone(), row.clone(), row];
    assert_eq!(
        build_frame(&rows, &vec![10], None),
        Err(FrameError::OutOfBounds(10))
    );
    assert_eq!(
        build_frame(&rows, &vec![0, 5], Some(1)),
        Err(FrameError::OutOfBounds(5))
    );
}

#[test]
fn build_frame_invalid_configuration() {
    assert_eq!(
        build_frame(&people(), &Vec::new(), None),
        Err(FrameError::InvalidConfiguration)
    );
    assert_eq!(
        build_frame(&people(), &vec![1, 1], None),
        Err(FrameError::InvalidConfiguration)
    );
}

#[test]
fn build_frame_empty_header_row() {
    let rows = vec![Vec::new(), text_row(&["Ann", "30"])];
    assert_eq!(
        build_frame(&rows, &vec![0], None),
        Err(FrameError::EmptyHeaderRow)
    );
}

#[test]
fn build_frame_of_empty_worksheet() {
    assert_eq!(
        build_frame(&Vec::new(), &vec![0], None),
        Err(FrameError::OutOfBounds(0))
    );
}

#[test]
fn build_frame_data_starts_after_last_header_row() {
    let rows = vec![
        text_row(&["Region", "Region"]),
        text_row(&["North", "South"]),
        text_row(&["1", "2"]),
        text_row(&["3", "4"]),
    ];
    let frame = build_frame(&rows, &vec![0, 1], None).unwrap();
    assert_eq!(frame.names(), &strings(&["Region North", "Region South"]));
    assert_eq!(frame.height(), 2);
    assert_eq!(frame.column(0), &strings(&["1", "3"]));
    assert_eq!(frame.column(1), &strings(&["2", "4"]));

    let frame = build_frame(&rows, &vec![1, 0], None).unwrap();
    assert_eq!(frame.names(), &strings(&["North Region", "South Region"]));
    assert_eq!(frame.height(), 2);

    let frame = build_frame(&rows, &vec![0], None).unwrap();
    assert_eq!(frame.names(), &strings(&["Region", "Region_1"]));
    assert_eq!(frame.height(), 3);
    assert_eq!(frame.column(1), &strings(&["South", "2", "4"]));
}

#[test]
fn build_frame_with_chosen_data_start() {
    let rows = vec![
        text_row(&["Name", "Age"]),
        text_row(&["(text)", "(years)"]),
        text_row(&["Ann", "30"]),
    ];
    let frame = build_frame(&rows, &vec![0], Some(2)).unwrap();
    assert_eq!(frame.height(), 1);
    assert_eq!(frame.column(0), &strings(&["Ann"]));

    let frame = build_frame(&rows, &vec![0], Some(0)).unwrap();
    assert_eq!(frame.height(), 3);
    assert_eq!(frame.column(0), &strings(&["Name", "(text)", "Ann"]));

    let frame = build_frame(&rows, &vec![0], Some(3)).unwrap();
    assert_eq!(frame.height(), 0);
    assert_eq!(frame.width(), 2);
    assert_eq!(frame.column(1), &Vec::<String>::new());

    let frame = build_frame(&rows, &vec![0], Some(99)).unwrap();
    assert_eq!(frame.height(), 0);
}

#[test]
fn build_frame_header_in_last_row_has_no_data() {
    let frame = build_frame(&people(), &vec![2], None).unwrap();
    assert_eq!(frame.names(), &strings(&["Bo", "25"]));
    assert_eq!(frame.height(), 0);
    assert_eq!(frame.column(0), &Vec::<String>::new());
}

#[test]
fn assemble_frame_projects_columns() {
    let headers = strings(&["k", "v", "k"]);
    let data = vec![strings(&["a", "1", "x"]), strings(&["b", "2", "y"])];
    let frame = assemble_frame(&headers, &data).unwrap();
    assert_eq!(frame.names(), &strings(&["k", "v", "k_1"]));
    assert_eq!(frame.width(), 3);
    assert_eq!(frame.height(), 2);
    assert_eq!(frame.column(0), &strings(&["a", "b"]));
    assert_eq!(frame.column(1), &strings(&["1", "2"]));
    assert_eq!(frame.column(2), &strings(&["x", "y"]));
}

#[test]
fn assemble_frame_shape_mismatch() {
    let headers = strings(&["k", "v"]);
    let short = vec![strings(&["a", "1"]), strings(&["b"])];
    assert_eq!(assemble_frame(&headers, &short), Err(FrameError::ShapeMismatch));
    let long = vec![strings(&["a", "1", "!"])];
    assert_eq!(assemble_frame(&headers, &long), Err(FrameError::ShapeMismatch));
    let none = vec![Vec::new()];
    assert_eq!(assemble_frame(&headers, &none), Err(FrameError::ShapeMismatch));
}

#[test]
fn assemble_frame_without_rows_or_columns() {
    let frame = assemble_frame(&strings(&["k", "v"]), &Vec::new()).unwrap();
    assert_eq!(frame.width(), 2);
    assert_eq!(frame.height(), 0);
    assert_eq!(frame.column(0), &Vec::<String>::new());

    let frame = assemble_frame(&Vec::new(), &vec![Vec::new(), Vec::new()]).unwrap();
    assert_eq!(frame.width(), 0);
    assert_eq!(frame.height(), 2);
}
