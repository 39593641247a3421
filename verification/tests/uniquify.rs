use excel_reader::uniquify::uniquify;

fn strings(items: &[&str]) -> Vec<String> {
    items.iter().map(|s| s.to_string()).collect()
}

#[test]
fn uniquify_collision() {
    assert_eq!(
        uniquify(&strings(&["A", "A", "Unnamed_1"])),
        strings(&["A", "A_1", "Unnamed_1"])
    );
}

#[test]
fn uniquify_blanks_by_position() {
    assert_eq!(
        uniquify(&strings(&["", "", ""])),
        strings(&["Unnamed_0", "Unnamed_1", "Unnamed_2"])
    );
}

#[test]
fn uniquify_empty_and_duplicate() {
    assert_eq!(
        uniquify(&strings(&["Header1", "", "Header1"])),
        strings(&["Header1", "Unnamed_1", "Header1_1"])
    );
}

#[test]
fn uniquify_nothing() {
    assert_eq!(uniquify(&Vec::new()), Vec::<String>::new());
}

#[test]
fn uniquify_keeps_unique_labels() {
    let labels = strings(&["Name", "Age", "City", " "]);
    assert_eq!(uniquify(&labels), labels);
}

#[test]
fn uniquify_counts_up() {
    assert_eq!(
        uniquify(&strings(&["A", "A", "A", "A"])),
        strings(&["A", "A_1", "A_2", "A_3"])
    );
}

#[test]
fn uniquify_skips_taken_suffix() {
    assert_eq!(
        uniquify(&strings(&["A", "A_1", "A", "A"])),
        strings(&["A", "A_1", "A_2", "A_3"])
    );
    assert_eq!(
        uniquify(&strings(&["A_1", "A", "A"])),
        strings(&["A_1", "A", "A_2"])
    );
}

#[test]
fn uniquify_label_meets_later_placeholder() {
    assert_eq!(
        uniquify(&strings(&["Unnamed_1", ""])),
        strings(&["Unnamed_1", "Unnamed_1_1"])
    );
    assert_eq!(
        uniquify(&strings(&["Unnamed_2", "x", "", "Unnamed_2_1"])),
        strings(&["Unnamed_2", "x", "Unnamed_2_1", "Unnamed_2_1_1"])
    );
}

#[test]
fn uniquify_past_nine() {
    let labels = strings(&["c"; 12]);
    let names = uniquify(&labels);
    assert_eq!(names[0], "c");
    assert_eq!(names[9], "c_9");
    assert_eq!(names[10], "c_10");
    assert_eq!(names[11], "c_11");
}

#[test]
fn uniquify_output_is_unique_and_nonempty() {
    let labels = strings(&["", "a", "a", "", "a_1", "Unnamed_0", "a", "Unnamed_3", " ", " "]);
    let names = uniquify(&labels);
    assert_eq!(names.len(), labels.len());
    for (i, name) in names.iter().enumerate() {
        assert!(!name.is_empty());
        for other in &names[..i] {
            assert_ne!(name, other);
        }
    }
}

#[test]
fn uniquify_is_deterministic() {
    let labels = strings(&["x", "", "x", "x_1", "", "Unnamed_1"]);
    assert_eq!(uniquify(&labels), uniquify(&labels));
    assert_eq!(
        uniquify(&labels),
        strings(&["x", "Unnamed_1", "x_1", "x_1_1", "Unnamed_4", "Unnamed_1_1"])
    );
}

#[test]
fn uniquify_twice_changes_nothing() {
    let labels = strings(&["", "a", "a", "", "a_1"]);
    let once = uniquify(&labels);
    assert_eq!(uniquify(&once), once);
}
