use turing_canvas::tape::{tape_cells, tape_window};

#[test]
fn window_centres_the_head() {
    let chars: Vec<char> = "abc".chars().collect();
    assert_eq!(tape_window(&chars, 3, 0, 5), vec![' ', ' ', 'a', 'b', 'c']);
    assert_eq!(tape_window(&chars, 3, 1, 5), vec![' ', 'a', 'b', 'c', ' ']);
    assert_eq!(tape_window(&chars, 3, 2, 3), vec!['b', 'c', ' ']);
}

#[test]
fn window_shows_only_visible_symbols() {
    let chars: Vec<char> = "abc".chars().collect();
    assert_eq!(tape_window(&chars, 2, 0, 5), vec![' ', ' ', 'a', 'b', ' ']);
    assert_eq!(tape_window(&chars, 9, 0, 7), vec![' ', ' ', ' ', 'a', 'b', 'c', ' ']);
}

#[test]
fn even_width_gets_an_extra_cell() {
    let chars: Vec<char> = "ab".chars().collect();
    assert_eq!(tape_cells(&chars, 0, 4), vec![' ', ' ', 'a', 'b', ' ']);
    assert_eq!(tape_cells(&chars, 0, 3), vec![' ', 'a', 'b']);
}

#[test]
fn combining_marks_shorten_the_visible_part() {
    // "e" followed by a combining acute accent is one grapheme of two chars.
    let chars: Vec<char> = vec!['e', '\u{301}', 'x'];
    assert_eq!(tape_cells(&chars, 0, 5), vec![' ', ' ', 'e', '\u{301}', ' ']);
}

#[test]
fn empty_tape_is_blank() {
    assert_eq!(tape_cells(&vec![], 3, 3), vec![' ', ' ', ' ']);
}
