use minesweeper::board::{Board, Cell, Point};
use minesweeper::board_printer::{BoardWriter, TestHelper};

#[test]
fn writing() {
    let board = Board::new(5, vec![]).unwrap();
    let mut writer = BoardWriter::new(&board);
    writer.write("yo yo".to_string());

    assert_eq!(writer.into_string(), "yo yo");
}

#[test]
fn test_print_header() {
    let board = Board::new(5, vec![]).unwrap();
    let mut writer = BoardWriter::new(&board);
    writer.print_header();

    assert_eq!(writer.into_string(), "┌──┬──┬──┬──┬──┬──┐\n│  │1 │2 │3 │4 │5 │\n");
}

#[test]
fn test_print_footer() {
    let board = Board::new(5, vec![]).unwrap();
    let mut writer = BoardWriter::new(&board);
    writer.print_footer();

    assert_eq!(writer.into_string(), "└──┴──┴──┴──┴──┴──┘\n");
}

#[test]
fn test_print_row() {
    let mut board = Board::new(5, vec![Point { x: 0, y: 0 }]).unwrap();

    board.uncover(1, 0).unwrap();

    let mut writer = BoardWriter::new(&board);
    writer.print_row(0, false);

    assert_eq!(writer.into_string(), "│1 │. │1 │. │. │. │\n");
}

#[test]
fn test_print_hidden_cell() {
    let cell = Cell { mine: false, flagged: false, visible: false, score: 8 };

    let board = Board::new(5, vec![]).unwrap();
    let mut writer = BoardWriter::new(&board);
    writer.print_cell(cell, false);

    assert_eq!(writer.into_string(), ". ");
}

#[test]
fn test_print_scored_cell() {
    let cell = Cell { mine: false, flagged: false, visible: true, score: 8 };

    let board = Board::new(5, vec![]).unwrap();
    let mut writer = BoardWriter::new(&board);
    writer.print_cell(cell, false);

    assert_eq!(writer.into_string(), "8 ");
}

#[test]
fn test_print_zero_cell() {
    let cell = Cell { mine: false, flagged: false, visible: true, score: 0 };

    let board = Board::new(5, vec![]).unwrap();
    let mut writer = BoardWriter::new(&board);
    writer.print_cell(cell, false);

    assert_eq!(writer.into_string(), "  ");
}

#[test]
fn test_print_mine_cell() {
    let cell = Cell { mine: true, flagged: false, visible: true, score: 0 };

    let board = Board::new(5, vec![]).unwrap();
    let mut writer = BoardWriter::new(&board);
    writer.print_cell(cell, false);

    assert_eq!(writer.into_string(), "💣 ");
}

#[test]
fn test_print_flagged_cell() {
    let cell = Cell { mine: true, flagged: true, visible: false, score: 0 };

    let board = Board::new(5, vec![]).unwrap();
    let mut writer = BoardWriter::new(&board);
    writer.print_cell(cell, false);

    assert_eq!(writer.into_string(), "F ");
}

#[test]
fn test_print() {
    let board = Board::new(5, vec![]).unwrap();

    let mut writer = BoardWriter::new(&board);
    writer.print();
    let expected = r#"┌──┬──┬──┬──┬──┬──┐
│  │1 │2 │3 │4 │5 │
│1 │. │. │. │. │. │
│2 │. │. │. │. │. │
│3 │. │. │. │. │. │
│4 │. │. │. │. │. │
│5 │. │. │. │. │. │
└──┴──┴──┴──┴──┴──┘
"#;

    assert_eq!(writer.into_string(), expected);
}

#[test]
fn test_print_solution() {
    let board = Board::new(
        5,
        vec![
            Point { x: 0, y: 0 },
            Point { x: 1, y: 1 },
            Point { x: 2, y: 2 },
            Point { x: 3, y: 3 },
            Point { x: 4, y: 4 },
        ],
    )
    .unwrap();

    let mut writer = BoardWriter::new(&board);
    writer.print_solution();
    let expected = r#"┌──┬──┬──┬──┬──┬──┐
│  │1 │2 │3 │4 │5 │
│1 │💣 │2 │1 │  │  │
│2 │2 │💣 │2 │1 │  │
│3 │1 │2 │💣 │2 │1 │
│4 │  │1 │2 │💣 │2 │
│5 │  │  │1 │2 │💣 │
└──┴──┴──┴──┴──┴──┘
"#;

    assert_eq!(writer.into_string(), expected);
}

#[test]
fn complicated_scores() {
    let expected = r#"┌──┬──┬──┬──┬──┬──┐
│  │1 │2 │3 │4 │5 │
│1 │1 │💣 │2 │2 │1 │
│2 │1 │3 │💣 │4 │💣 │
│3 │1 │3 │💣 │💣 │3 │
│4 │1 │💣 │3 │3 │💣 │
│5 │1 │1 │1 │1 │1 │
└──┴──┴──┴──┴──┴──┘
"#;

    let mines = vec![
        Point { x: 1, y: 0 },
        Point { x: 2, y: 1 },
        Point { x: 4, y: 1 },
        Point { x: 2, y: 2 },
        Point { x: 3, y: 2 },
        Point { x: 1, y: 3 },
        Point { x: 4, y: 3 },
    ];

    let board = Board::new(5, mines).unwrap();

    let mut writer = BoardWriter::new(&board);
    writer.print_solution();

    assert_eq!(writer.into_string(), expected);
}

#[test]
fn the_solution_shows_hidden_and_flagged_cells_for_what_they_hold() {
    let board = Board::new(5, vec![]).unwrap();
    let hidden_mine = Cell { mine: true, flagged: true, visible: false, score: 0 };
    let hidden_score = Cell { mine: false, flagged: true, visible: false, score: 3 };
    let hidden_blank = Cell { mine: false, flagged: false, visible: false, score: 0 };

    let mut writer = BoardWriter::new(&board);
    writer.print_cell(hidden_mine, true);
    writer.print_cell(hidden_score, true);
    writer.print_cell(hidden_blank, true);

    assert_eq!(writer.into_string(), "💣 3   ");
}

#[test]
fn a_flag_is_drawn_before_anything_else() {
    let board = Board::new(5, vec![]).unwrap();
    let shown_and_flagged = Cell { mine: false, flagged: true, visible: true, score: 2 };

    let mut writer = BoardWriter::new(&board);
    writer.print_cell(shown_and_flagged, false);

    assert_eq!(writer.into_string(), "F ");
}

#[test]
fn the_player_sees_flags_mines_scores_and_blanks() {
    let mut board = Board::new(3, vec![Point { x: 0, y: 0 }]).unwrap();
    board.flag(0, 0).unwrap();
    board.uncover(2, 2).unwrap();

    let mut writer = BoardWriter::new(&board);
    writer.print();
    let expected = r#"┌──┬──┬──┬──┐
│  │1 │2 │3 │
│1 │F │1 │  │
│2 │1 │1 │  │
│3 │  │  │  │
└──┴──┴──┴──┘
"#;
    assert_eq!(writer.into_string(), expected);

    board.flag(0, 0).unwrap();
    board.uncover(0, 0).unwrap();
    let mut writer = BoardWriter::new(&board);
    writer.print_row(0, false);
    assert_eq!(writer.into_string(), "│1 │💣 │1 │  │\n");
}

#[test]
fn labels_above_nine_fill_both_columns() {
    let board = Board::new(11, vec![]).unwrap();
    let mut writer = BoardWriter::new(&board);
    writer.print_header();
    assert_eq!(
        writer.into_string(),
        "┌──┬──┬──┬──┬──┬──┬──┬──┬──┬──┬──┬──┐\n│  │1 │2 │3 │4 │5 │6 │7 │8 │9 │10│11│\n"
    );

    let mut writer = BoardWriter::new(&board);
    writer.print_row(9, false);
    assert_eq!(writer.into_string(), "│10│. │. │. │. │. │. │. │. │. │. │. │\n");
}

#[test]
fn an_empty_board_is_drawn_as_an_empty_box() {
    let board = Board::new(0, vec![]).unwrap();
    let mut writer = BoardWriter::new(&board);
    writer.print();
    assert_eq!(writer.into_string(), "┌──┐\n│  │\n└──┘\n");
}

#[test]
fn a_writer_adds_to_what_it_has_written() {
    let board = Board::new(1, vec![]).unwrap();
    let mut writer = BoardWriter::new(&board);
    writer.write("a".to_string());
    writer.print_footer();
    writer.write("b".to_string());
    assert_eq!(writer.into_string(), "a└──┴──┘\nb");
}
