use turingmachine::tape::{layout, Tape};

fn cells(text: &str) -> Vec<String> {
    text.split_ascii_whitespace().map(String::from).collect()
}

fn tape(text: &str, index: usize, blank: &str) -> Tape<String> {
    Tape::new_with_data_index_default(cells(text), index, blank.to_string())
}

#[test]
fn new_tape_has_one_default_cell() {
    let t: Tape<String> = Tape::new();
    assert_eq!(t, Tape::new_with_data_index_default(vec![String::new()], 0, String::new()));
    assert_eq!(t.read(), "");
    let d: Tape<u8> = Tape::default();
    assert_eq!(d, Tape::new_default(0));
    assert_eq!(*d.read(), 0);
}

#[test]
fn new_default_has_one_blank_cell() {
    let t = Tape::new_default('_');
    assert_eq!(*t.read(), '_');
    assert_eq!(t, Tape::new_with_data_index_default(vec!['_'], 0, '_'));
    assert_eq!(t.to_string(), " >> _");
}

#[test]
fn constructors_put_the_head_where_asked() {
    assert_eq!(*Tape::new_with_data(vec![7u8, 8, 9]).read(), 7);
    assert_eq!(*Tape::new_with_data_index(vec![7u8, 8, 9], 2).read(), 9);
    assert_eq!(*Tape::new_with_data_default(vec![7u8, 8, 9], 1).read(), 7);
    assert_eq!(*Tape::new_with_data_index_default(vec![7u8, 8, 9], 1, 0).read(), 8);
    assert_eq!(
        Tape::new_with_data_index(vec![7u8, 8, 9], 1),
        Tape::new_with_data_index_default(vec![7u8, 8, 9], 1, 0)
    );
    assert_eq!(
        Tape::new_with_data(vec![7u8, 8, 9]),
        Tape::new_with_data_default(vec![7u8, 8, 9], 0)
    );
}

#[test]
fn constructors_never_build_an_empty_tape() {
    let t: Tape<u8> = Tape::new_with_data(Vec::new());
    assert_eq!(t, Tape::new_default(0));
    let t: Tape<u8> = Tape::new_with_data_index(Vec::new(), 5);
    assert_eq!(t, Tape::new_default(0));
    let t = Tape::new_with_data_default(Vec::new(), 'b');
    assert_eq!(t, Tape::new_default('b'));
    let t = Tape::new_with_data_index_default(Vec::new(), 3, 'b');
    assert_eq!(t, Tape::new_default('b'));
    assert_eq!(*t.read(), 'b');
}

#[test]
fn head_past_the_last_cell_is_taken_to_the_last_cell() {
    let t = Tape::new_with_data_index_default(vec![1u8, 2, 3], 3, 0);
    assert_eq!(t, Tape::new_with_data_index_default(vec![1u8, 2, 3], 2, 0));
    assert_eq!(*t.read(), 3);
    let t = Tape::new_with_data_index_default(vec![1u8, 2, 3], usize::MAX, 0);
    assert_eq!(*t.read(), 3);
}

#[test]
fn write_then_read_gives_what_was_written() {
    let mut t = tape("a b c", 1, "#");
    assert_eq!(t.read(), "b");
    t.write("x".to_string());
    assert_eq!(t.read(), "x");
    assert_eq!(t, tape("a x c", 1, "#"));
    t.write("#".to_string());
    assert_eq!(t.read(), "#");
    assert_eq!(t, tape("a # c", 1, "#"));
}

#[test]
fn move_right_within_the_cells_changes_no_cell() {
    let mut t = tape("a b c", 0, "#");
    t.move_right();
    assert_eq!(t, tape("a b c", 1, "#"));
    t.move_right();
    assert_eq!(t, tape("a b c", 2, "#"));
    assert_eq!(t.read(), "c");
}

#[test]
fn move_right_past_the_end_appends_one_blank() {
    let mut t = tape("a b c", 2, "#");
    t.move_right();
    assert_eq!(t, tape("a b c #", 3, "#"));
    assert_eq!(t.read(), "#");
    t.move_right();
    assert_eq!(t, tape("a b c # #", 4, "#"));
}

#[test]
fn move_left_within_the_cells_changes_no_cell() {
    let mut t = tape("a b c", 2, "#");
    t.move_left();
    assert_eq!(t, tape("a b c", 1, "#"));
    t.move_left();
    assert_eq!(t, tape("a b c", 0, "#"));
    assert_eq!(t.read(), "a");
}

#[test]
fn move_left_past_the_start_puts_one_blank_in_front() {
    let mut t = tape("a b c", 0, "#");
    t.move_left();
    assert_eq!(t, tape("# a b c", 0, "#"));
    assert_eq!(t.read(), "#");
    t.move_left();
    assert_eq!(t, tape("# # a b c", 0, "#"));
    t.move_right();
    t.move_right();
    assert_eq!(t.read(), "a");
}

#[test]
fn head_stays_on_the_tape_whatever_the_moves() {
    let mut t = Tape::new_default(0u8);
    let moves = [true, true, false, false, false, false, true, false, true, true, true, true, true];
    let mut mark: u8 = 1;
    for right in moves {
        if right {
            t.move_right();
        } else {
            t.move_left();
        }
        t.write(mark);
        assert_eq!(*t.read(), mark);
        mark += 1;
    }
    assert_eq!(
        t,
        Tape::new_with_data_index_default(vec![8, 9, 10, 11, 12, 13], 5, 0)
    );
    let mut t = Tape::new_default(0u8);
    for right in moves {
        if right {
            t.move_right();
        } else {
            t.move_left();
        }
    }
    assert_eq!(t, Tape::new_with_data_index_default(vec![0; 6], 5, 0));
}

#[test]
fn clone_is_the_same_tape() {
    let t = tape("a b c", 1, "#");
    let mut u = t.clone();
    assert_eq!(t, u);
    u.move_right();
    u.move_right();
    assert_eq!(u, tape("a b c #", 3, "#"));
    assert_eq!(t, tape("a b c", 1, "#"));
}

#[test]
fn display_puts_the_state_before_the_cell_under_the_head() {
    let t = tape("1 + 1 1 =", 0, "#");
    assert_eq!(t.display(&"q0").to_string(), " q0 1 + 1 1 =");
    let t = tape("1 + 1 1 =", 3, "#");
    assert_eq!(t.display(&"q2").to_string(), " 1 + 1 q2 1 =");
    let t = tape("1 + 1 1 =", 4, "#");
    assert_eq!(t.display(&17).to_string(), " 1 + 1 1 17 =");
    let t = Tape::new_with_data_index_default(vec![1u8, 2, 3], 1, 0);
    assert_eq!(t.display(&'s').to_string(), " 1 s 2 3");
}

#[test]
fn to_string_marks_the_head() {
    assert_eq!(tape("1 + 1 1 =", 0, "#").to_string(), " >> 1 + 1 1 =");
    assert_eq!(tape("1 + 1 1 =", 4, "#").to_string(), " 1 + 1 1 >> =");
    assert_eq!(tape("x", 0, "#").to_string(), " >> x");
}

#[test]
fn layout_of_given_texts() {
    let parts = cells("a bb ccc");
    assert_eq!(layout(&parts, 0, "S"), " S a bb ccc");
    assert_eq!(layout(&parts, 1, "S"), " a S bb ccc");
    assert_eq!(layout(&parts, 2, ""), " a bb  ccc");
    assert_eq!(layout(&parts, 3, "S"), " a bb ccc");
    assert_eq!(layout(&Vec::new(), 0, "S"), "");
    assert_eq!(layout(&vec![String::new()], 0, "q"), " q ");
}
