use minesweeper::ui::{Io, MockUi, Ui};

#[test]
fn get_input_works() {
    let mut ui = MockUi::new();
    ui.expect(Io::Input("input string".to_string()));
    let mut string = String::new();
    ui.ask(&mut string);

    assert_eq!(string, "input string")
}

#[test]
fn input_and_output() {
    let mut ui = MockUi::new();
    ui.expect(Io::Output("hello".to_string())).expect(Io::Input("hi".to_string()));

    ui.say(&"hello".to_string());
    let mut string = String::new();
    ui.ask(&mut string);
    assert_eq!(string, "hi")
}

#[test]
fn asking_appends_to_what_the_buffer_holds() {
    let mut ui = MockUi::new();
    ui.expect(Io::Input("b".to_string())).expect(Io::Input("c".to_string()));
    let mut string = "a".to_string();
    ui.ask(&mut string);
    assert_eq!(string, "ab");
    ui.ask(&mut string);
    assert_eq!(string, "abc");
}

#[test]
fn the_script_is_played_in_the_order_it_was_written() {
    let mut ui = MockUi::new();
    ui.expect(Io::Input("1".to_string()));
    ui.expect(Io::Output("two".to_string()));
    ui.expect(Io::Input("3".to_string()));
    let mut first = String::new();
    ui.ask(&mut first);
    ui.say(&"two".to_string());
    let mut third = String::new();
    ui.ask(&mut third);
    assert_eq!(first, "1");
    assert_eq!(third, "3");
}
