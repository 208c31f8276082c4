use vfsm::engine::Engine;
use vfsm::word_counter::{
    character_events, word_counter_state_machine, word_counter_table, RealTimeDatabase,
    StateMachine, USER_increment_counter, USER_send_char, WordCounter, COUNTER, GREETINGS,
    INIT, IN_WORD, OUT_WORD, READ_ALPHANUMERIC, READ_OTHER,
};

fn word_counter_reference(text: &str) -> u32 {
    text.split_whitespace().count() as u32
}

#[test]
fn should_count_0_words() {
    assert_eq!(word_counter_state_machine(""), 0);
    assert_eq!(word_counter_state_machine("    "), 0);
    assert_eq!(word_counter_state_machine("\n\t"), 0);
}

#[test]
fn should_count_1_words() {
    assert_eq!(word_counter_state_machine("i"), 1);
    assert_eq!(word_counter_state_machine("  hi  "), 1);
    assert_eq!(word_counter_state_machine("\n\thello    \n\n"), 1);
}

#[test]
fn should_count_2_words() {
    assert_eq!(word_counter_state_machine("i a"), 2);
    assert_eq!(word_counter_state_machine("  hi there  "), 2);
    assert_eq!(word_counter_state_machine("\n\thello\nworld\n"), 2);
}

#[test]
fn should_count_5_words() {
    assert_eq!(word_counter_state_machine("This text has 5 words.\n"), 5);
}

#[test]
fn agrees_with_whitespace_splitting_on_plain_words() {
    let texts = [
        "",
        "one",
        "one two",
        "  leading and trailing  ",
        "tabs\tand\nnewlines\r\nmixed",
        "a b c d e f g h i j k l m n o p q r s t u v w x y z",
        "This text has 5 words",
    ];
    for text in texts {
        assert_eq!(word_counter_state_machine(text), word_counter_reference(text));
    }
}

#[test]
fn counts_runs_of_alphanumeric_characters() {
    assert_eq!(word_counter_state_machine("a.b"), 2);
    assert_eq!(word_counter_state_machine("don't"), 2);
    assert_eq!(word_counter_state_machine("..."), 0);
    assert_eq!(word_counter_state_machine("x1y2"), 1);
    assert_eq!(word_counter_state_machine("caf\u{e9} \u{663}\u{664}"), 2);
    assert_eq!(word_counter_state_machine("\u{2003}wide\u{2003}space"), 2);
}

#[test]
fn counts_a_thousand_words() {
    let mut text = String::new();
    for i in 0..1000 {
        text.push_str("word");
        text.push_str(if i % 3 == 0 { "\n" } else { " " });
    }
    assert_eq!(word_counter_state_machine(&text), 1000);
}

#[test]
fn machine_starts_outside_a_word_with_nothing_counted() {
    let machine = StateMachine::init();
    assert_eq!(machine.current_state(), OUT_WORD);
    assert_eq!(machine.read_counter(), 0);
    assert_eq!(machine.read_greetings(), 1);
}

#[test]
fn acceptance_a_b_space_c() {
    let mut machine = StateMachine::init();
    assert_eq!(machine.current_state(), OUT_WORD);
    assert_eq!(machine.read_counter(), 0);
    machine.send_char('a');
    assert_eq!(machine.current_state(), IN_WORD);
    assert_eq!(machine.read_counter(), 1);
    machine.send_char('b');
    assert_eq!(machine.current_state(), IN_WORD);
    assert_eq!(machine.read_counter(), 1);
    machine.send_char(' ');
    assert_eq!(machine.current_state(), OUT_WORD);
    assert_eq!(machine.read_counter(), 1);
    machine.send_char('c');
    assert_eq!(machine.read_counter(), 2);
    assert_eq!(machine.current_state(), IN_WORD);
    machine.send_char(' ');
    assert_eq!(machine.read_counter(), 2);
    assert_eq!(machine.current_state(), OUT_WORD);
}

#[test]
fn driver_sequence_reads_expected_counters() {
    let mut machine = StateMachine::init();
    assert_eq!(machine.read_counter(), 0);
    machine.send_char('a');
    assert_eq!(machine.read_counter(), 1);
    machine.send_char('b');
    machine.send_char('b');
    machine.send_char('b');
    machine.send_char('c');
    assert_eq!(machine.read_counter(), 1);
    machine.send_char('\n');
    assert_eq!(machine.read_counter(), 1);
    machine.send_char('2');
    machine.send_char('3');
    assert_eq!(machine.read_counter(), 2);
}

#[test]
fn send_class_follows_the_table() {
    let mut machine = StateMachine::init();
    machine.send_class(false);
    assert_eq!((machine.current_state(), machine.read_counter()), (OUT_WORD, 0));
    machine.send_class(true);
    assert_eq!((machine.current_state(), machine.read_counter()), (IN_WORD, 1));
    machine.send_class(true);
    assert_eq!((machine.current_state(), machine.read_counter()), (IN_WORD, 1));
    machine.send_class(false);
    assert_eq!((machine.current_state(), machine.read_counter()), (OUT_WORD, 1));
}

#[test]
fn every_cycle_greets_once() {
    let mut machine = StateMachine::init();
    assert_eq!(machine.read_greetings(), 1);
    machine.send_char('x');
    assert_eq!(machine.read_greetings(), 2);
    machine.send_char('y');
    assert_eq!(machine.read_greetings(), 3);
    machine.send_char(' ');
    assert_eq!(machine.read_greetings(), 4);
}

#[test]
fn database_counts_like_the_machine() {
    let mut database = RealTimeDatabase::init();
    assert_eq!(database.current_state(), OUT_WORD);
    assert_eq!(database.read_counter(), 0);
    assert_eq!(database.read_greetings(), 1);
    for c in "two words".chars() {
        database.send_char(c);
    }
    assert_eq!(database.read_counter(), 2);
    assert_eq!(database.current_state(), IN_WORD);
    assert_eq!(database.read_greetings(), 10);
}

#[test]
fn database_greeting_line() {
    let database = RealTimeDatabase::init();
    assert_eq!(database.print_hello(), "Hello world from state machine");
}

#[test]
fn characters_are_announced_by_class() {
    assert_eq!(USER_send_char('a'), vec![READ_ALPHANUMERIC]);
    assert_eq!(USER_send_char('Z'), vec![READ_ALPHANUMERIC]);
    assert_eq!(USER_send_char('7'), vec![READ_ALPHANUMERIC]);
    assert_eq!(USER_send_char('\u{e9}'), vec![READ_ALPHANUMERIC]);
    assert_eq!(USER_send_char(' '), vec![READ_OTHER]);
    assert_eq!(USER_send_char('\n'), vec![READ_OTHER]);
    assert_eq!(USER_send_char('.'), vec![READ_OTHER]);
    assert_eq!(USER_send_char('_'), vec![READ_OTHER]);
    assert_eq!(character_events(true), vec![READ_ALPHANUMERIC]);
    assert_eq!(character_events(false), vec![READ_OTHER]);
}

#[test]
fn increment_stops_at_the_largest_value() {
    let mut counter: u32 = 0;
    USER_increment_counter(&mut counter);
    assert_eq!(counter, 1);
    let mut counter: u32 = u32::MAX - 1;
    USER_increment_counter(&mut counter);
    assert_eq!(counter, u32::MAX);
    USER_increment_counter(&mut counter);
    assert_eq!(counter, u32::MAX);
}

#[test]
fn table_of_the_word_counter() {
    let table = word_counter_table();
    assert_eq!(table.len(), 3);
    assert_eq!(table.n_events(), 2);
    assert_eq!(table.n_statics(), 0);
    assert_eq!(table.get_state_spec(INIT).name, "init");
    assert_eq!(table.get_state_spec(IN_WORD).name, "in_word");
    assert_eq!(table.get_state_spec(OUT_WORD).name, "out_word");
    assert_eq!(table.get_state_spec(INIT).transitions[0].target, OUT_WORD);
    assert_eq!(table.get_state_spec(IN_WORD).transitions[0].target, OUT_WORD);
    assert_eq!(table.get_state_spec(OUT_WORD).transitions[0].target, IN_WORD);
    assert_eq!(table.get_global_input_actions().len(), 1);
}

#[test]
fn empty_batch_after_start_changes_neither_state_nor_counter() {
    let store = WordCounter { counter: 0, greetings: 0 };
    let mut engine = Engine::initialize(word_counter_table(), INIT, store).unwrap();
    assert_eq!(engine.current_state(), OUT_WORD);
    assert_eq!(engine.read(COUNTER), 0);
    assert_eq!(engine.post_events(&vec![]), Ok(()));
    assert_eq!(engine.current_state(), OUT_WORD);
    assert_eq!(engine.read(COUNTER), 0);
    assert!(engine.is_idle());
    assert_eq!(engine.read(GREETINGS), 2);
    assert_eq!(engine.read(99), 0);
}

#[test]
fn both_classes_in_one_batch_start_one_word() {
    let store = WordCounter { counter: 0, greetings: 0 };
    let mut engine = Engine::initialize(word_counter_table(), INIT, store).unwrap();
    assert_eq!(engine.post_events(&vec![READ_OTHER, READ_ALPHANUMERIC]), Ok(()));
    assert_eq!(engine.current_state(), IN_WORD);
    assert_eq!(engine.read(COUNTER), 1);
    assert_eq!(engine.post_events(&vec![READ_ALPHANUMERIC, READ_OTHER]), Ok(()));
    assert_eq!(engine.current_state(), OUT_WORD);
    assert_eq!(engine.read(COUNTER), 1);
    assert!(engine.is_idle());
}
