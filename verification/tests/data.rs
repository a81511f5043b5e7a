use deet::diff::diff_lines;
use deet::diff::lcs;
use deet::diff::DiffResult;
use deet::diff::Grid;
use deet::grid::Stone;
use deet::linked_list::LinkedList;
use deet::wc::line_word_count;
use deet::wc::parse_args;
use deet::wc::sort_counts;
use deet::wc::wc_counts;
use deet::wc::WCCommandOption;

#[test]
fn test_lcs() {
    let mut expected = Grid::new(5, 4);
    expected.set(1, 1, 1).unwrap();
    expected.set(1, 2, 1).unwrap();
    expected.set(1, 3, 1).unwrap();
    expected.set(2, 1, 1).unwrap();
    expected.set(2, 2, 1).unwrap();
    expected.set(2, 3, 2).unwrap();
    expected.set(3, 1, 1).unwrap();
    expected.set(3, 2, 1).unwrap();
    expected.set(3, 3, 2).unwrap();
    expected.set(4, 1, 1).unwrap();
    expected.set(4, 2, 2).unwrap();
    expected.set(4, 3, 2).unwrap();

    let result = lcs(
        &"abcd".chars().map(|c| c.to_string()).collect(),
        &"adb".chars().map(|c| c.to_string()).collect(),
    );
    assert_eq!(result.size(), expected.size());
    for row in 0..expected.size().0 {
        for col in 0..expected.size().1 {
            assert_eq!(result.get(row, col), expected.get(row, col));
        }
    }
}

#[test]
fn test_grid_out_of_bounds() {
    let mut g = Grid::new(2, 2);
    assert!(g.get(2, 0).is_none());
    assert!(g.get(0, 2).is_none());
    assert!(g.set(2, 0, 1).is_err());
    assert_eq!(g.get(1, 1), Some(0));
    g.set(1, 1, 9).unwrap();
    assert_eq!(g.get(1, 1), Some(9));
    assert_eq!(g.get(0, 0), Some(0));
}

fn lines(words: &[&str]) -> Vec<String> {
    words.iter().map(|w| w.to_string()).collect()
}

#[test]
fn test_diff_lines_projections() {
    let a = lines(&["x", "common", "y"]);
    let b = lines(&["common", "z"]);
    let table = lcs(&a, &b);
    let script = diff_lines(&table, &a, &b);
    // reading the script from its end to its start spells out both files
    let mut left: Vec<String> = Vec::new();
    let mut right: Vec<String> = Vec::new();
    for entry in script.iter().rev() {
        match entry {
            DiffResult::Equal(l) => {
                left.push(l.clone());
                right.push(l.clone());
            }
            DiffResult::Left(l) => left.push(l.clone()),
            DiffResult::Right(l) => right.push(l.clone()),
        }
    }
    assert_eq!(left, a);
    assert_eq!(right, b);
    // the script keeps as many common lines as the table's corner says
    let equals = script
        .iter()
        .filter(|e| matches!(e, DiffResult::Equal(_)))
        .count();
    assert_eq!(Some(equals), table.get(a.len(), b.len()));
}

#[test]
fn test_stone_grid_coordinates() {
    let g: deet::grid::Grid<Stone> = deet::grid::Grid::new(2, 3);
    assert_eq!(g.size(), (2, 3));
    let s = g.get(1, 2).unwrap();
    assert_eq!(s.x, 2);
    assert_eq!(s.y, 1);
    assert!(!s.active);
}

#[test]
fn test_grid_walk_collects_row_major() {
    let g: deet::grid::Grid<Stone> = deet::grid::Grid::new(2, 2);
    let coords = g.walk(|s: &Stone, _r: usize, _c: usize| (s.x, s.y));
    assert_eq!(coords, vec![(0, 0), (1, 0), (0, 1), (1, 1)]);
}

#[test]
fn test_grid_walk_mut_replaces_cells() {
    let mut g: deet::grid::Grid<Stone> = deet::grid::Grid::new(2, 2);
    g.walk_mut(|s: &Stone, r: usize, c: usize| Stone {
        x: s.x,
        y: s.y,
        active: r == 0 && c == 1,
    });
    assert!(g.get(0, 1).unwrap().active);
    assert!(!g.get(0, 0).unwrap().active);
    assert!(!g.get(1, 1).unwrap().active);
}

#[test]
fn test_linked_list_push_pop() {
    let mut list: LinkedList<u32> = LinkedList::new();
    assert!(list.is_empty());
    assert_eq!(list.get_size(), 0);
    list.push_front(1);
    list.push_front(2);
    list.push_front(3);
    assert_eq!(list.get_size(), 3);
    assert!(!list.is_empty());
    assert_eq!(list.pop_front(), Some(3));
    assert_eq!(list.pop_front(), Some(2));
    assert_eq!(list.get_size(), 1);
    assert_eq!(list.pop_front(), Some(1));
    assert_eq!(list.pop_front(), None);
    assert!(list.is_empty());
}

#[test]
fn test_linked_list_iter() {
    let mut list: LinkedList<u32> = LinkedList::new();
    list.push_front(1);
    list.push_front(2);
    list.push_front(3);
    let mut it = list.iter();
    assert_eq!(it.next(), Some(&3));
    assert_eq!(it.next(), Some(&2));
    assert_eq!(it.next(), Some(&1));
    assert_eq!(it.next(), None);
    // the list is untouched by iteration
    assert_eq!(list.get_size(), 3);
}

#[test]
fn test_parse_args_options() {
    let got = parse_args(None);
    assert_eq!(
        got,
        vec![
            WCCommandOption::CHARS,
            WCCommandOption::WORDS,
            WCCommandOption::LINES
        ]
    );
    let arg = String::from("-wl");
    let got = parse_args(Some(&arg));
    assert_eq!(got, vec![WCCommandOption::WORDS, WCCommandOption::LINES]);
    let arg = String::from("-mqc");
    let got = parse_args(Some(&arg));
    assert_eq!(got, vec![WCCommandOption::CHARS, WCCommandOption::CHARS]);
    let arg = String::from("-");
    let got = parse_args(Some(&arg));
    assert_eq!(
        got,
        vec![
            WCCommandOption::CHARS,
            WCCommandOption::WORDS,
            WCCommandOption::LINES
        ]
    );
}

#[test]
fn test_wc_counts_values() {
    let file = lines(&["hello world", "a b c"]);
    let opts = vec![
        WCCommandOption::CHARS,
        WCCommandOption::WORDS,
        WCCommandOption::LINES,
    ];
    let counts = wc_counts(&file, &opts);
    assert_eq!(counts, vec![16, 5, 2]);
    assert_eq!(line_word_count(&String::from("hello world")), 2);
    assert_eq!(line_word_count(&String::from("")), 1);
}

#[test]
fn test_sort_counts() {
    let mut v = vec![16, 2, 5, 2];
    sort_counts(&mut v);
    assert_eq!(v, vec![2, 2, 5, 16]);
    let mut empty: Vec<usize> = Vec::new();
    sort_counts(&mut empty);
    assert!(empty.is_empty());
}
