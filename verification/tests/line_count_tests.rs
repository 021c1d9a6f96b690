use rlox::line_count::ChunkLines;

#[test]
fn lines_round_trip_by_offset() {
    let mut lines = ChunkLines::new();
    lines.push_line(5);
    lines.push_line(5);
    lines.push_line(5);
    lines.push_line(7);
    assert_eq!(lines.get_line(0), Some(5));
    assert_eq!(lines.get_line(1), Some(5));
    assert_eq!(lines.get_line(2), Some(5));
    assert_eq!(lines.get_line(3), Some(7));
    assert_eq!(lines.get_line(4), None);
}

#[test]
fn lines_collapse_repeats_into_runs() {
    let mut lines = ChunkLines::new();
    lines.push_line(1);
    lines.push_line(1);
    lines.push_line(2);
    lines.push_line(1);
    // four pushes, three runs: 1 1 | 2 | 1
    assert_eq!(lines.lines.len(), 3);
    assert_eq!(lines.get_line(3), Some(1));
}

#[test]
fn empty_line_map_has_no_lines() {
    let lines = ChunkLines::new();
    assert_eq!(lines.get_line(0), None);
}
