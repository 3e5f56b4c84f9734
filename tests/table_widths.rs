use kubetui::refresh::RenderedTable;
use kubetui::table::{column_widths, header_strings, ColumnDefinition};

fn strings(v: &[&str]) -> Vec<String> {
    v.iter().map(|s| s.to_string()).collect()
}

fn rows(v: &[&[&str]]) -> Vec<Vec<String>> {
    v.iter().map(|r| strings(r)).collect()
}

fn column(name: &str) -> ColumnDefinition {
    ColumnDefinition {
        name: name.to_string(),
        column_type: "string".to_string(),
        description: String::new(),
        format: String::new(),
        priority: 0,
    }
}

#[test]
fn test_table_column_constraints() {
    assert_eq!(column_widths(&strings(&["a", "bb", "ccc"]), &Vec::new()), vec![1, 2, 3]);
    assert_eq!(
        column_widths(&strings(&["name", "age"]), &rows(&[&["alice", "20"], &["bob", "30"]])),
        vec![5, 3]
    );
    assert_eq!(column_widths(&strings(&["a", "barbar"]), &rows(&[&["foo", "b"]])), vec![3, 6]);
}

#[test]
fn widths_without_rows_are_header_widths() {
    assert_eq!(column_widths(&strings(&["NAME", "", "STATUS"]), &Vec::new()), vec![4, 0, 6]);
    assert_eq!(column_widths(&Vec::new(), &rows(&[&["x"]])), Vec::<usize>::new());
}

#[test]
fn widths_count_double_width_glyphs_twice() {
    assert_eq!(column_widths(&strings(&["a"]), &rows(&[&["日本"]])), vec![4]);
    assert_eq!(column_widths(&strings(&["名前"]), &Vec::new()), vec![4]);
}

#[test]
fn widths_with_short_and_long_rows() {
    let r = rows(&[&["abcdef"], &["a", "b", "cccccccccc"]]);
    assert_eq!(column_widths(&strings(&["x", "yy"]), &r), vec![6, 2]);
}

#[test]
fn header_strings_in_order() {
    let cols = vec![column("NAME"), column("READY"), column("AGE")];
    assert_eq!(header_strings(&cols), strings(&["NAME", "READY", "AGE"]));
}

#[test]
fn rendered_table_holds_headers_rows_and_widths() {
    let cols = vec![column("NAME"), column("AGE")];
    let t = RenderedTable::new(&cols, rows(&[&["nginx-7c5b", "3d"]]));
    assert_eq!(t.headers, strings(&["NAME", "AGE"]));
    assert_eq!(t.rows, rows(&[&["nginx-7c5b", "3d"]]));
    assert_eq!(t.widths, vec![10, 3]);
}
