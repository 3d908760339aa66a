use led_map::commands::command::Command;
use led_map::commands::command_argument::CommandArgument;
use led_map::commands::command_handler::CommandHandler;

fn chars(text: &str) -> Vec<char> {
    text.chars().collect()
}

fn integer(text: &str) -> Option<u32> {
    let data = chars(text);
    CommandArgument::new(&data).try_to_integer()
}

fn words(line: &str) -> Vec<String> {
    let data = chars(line);
    CommandHandler::<8, 0>::parse_command(&data)
        .iter()
        .map(|argument| argument.chars().iter().collect())
        .collect()
}

#[test]
fn an_argument_shows_its_characters() {
    let data = chars("SET");
    let argument = CommandArgument::new(&data);
    assert_eq!(argument.chars(), &['S', 'E', 'T']);
    assert_eq!(argument.data, &['S', 'E', 'T']);
}

#[test]
fn arguments_with_the_same_characters_are_equal() {
    let one = chars("SET");
    let other = chars("SET");
    let third = chars("SEt");
    assert!(CommandArgument::new(&one) == CommandArgument::new(&other));
    assert!(CommandArgument::new(&one) != CommandArgument::new(&third));
    assert!(CommandArgument::new(&one) != CommandArgument::new(&one[..2]));
}

#[test]
fn digits_read_as_their_decimal_value() {
    assert_eq!(integer("0"), Some(0));
    assert_eq!(integer("7"), Some(7));
    assert_eq!(integer("255"), Some(255));
    assert_eq!(integer("256"), Some(256));
    assert_eq!(integer("1000"), Some(1000));
    assert_eq!(integer("007"), Some(7));
}

#[test]
fn the_largest_number_of_32_bits_is_read() {
    assert_eq!(integer("4294967295"), Some(4294967295));
    assert_eq!(integer("0004294967295"), Some(4294967295));
}

#[test]
fn a_number_beyond_32_bits_is_not_read() {
    assert_eq!(integer("4294967296"), None);
    assert_eq!(integer("4294967300"), None);
    assert_eq!(integer("99999999999999999999"), None);
}

#[test]
fn anything_but_digits_is_not_a_number() {
    assert_eq!(integer("12a"), None);
    assert_eq!(integer("a12"), None);
    assert_eq!(integer("-1"), None);
    assert_eq!(integer("+1"), None);
    assert_eq!(integer("1 2"), None);
    assert_eq!(integer("1.5"), None);
    assert_eq!(integer("PRAHA"), None);
    assert_eq!(integer("/"), None);
    assert_eq!(integer(":"), None);
    assert_eq!(integer("٣"), None);
}

#[test]
fn compare_is_exact_and_minds_case() {
    let data = chars("HELP");
    let argument = CommandArgument::new(&data);
    assert!(argument.compare("HELP"));
    assert!(!argument.compare("help"));
    assert!(!argument.compare("HEL"));
    assert!(!argument.compare("HELPS"));
    assert!(!argument.compare(""));
}

#[test]
fn compare_takes_letters_beyond_ascii_as_they_are() {
    let data = chars("ÚSTI");
    let argument = CommandArgument::new(&data);
    assert!(argument.compare("ÚSTI"));
    assert!(!argument.compare("USTI"));
    let folded = chars("\u{148}I");
    assert!(!CommandArgument::new(&folded).compare("HI"));
}

#[test]
fn a_command_keeps_its_line_and_its_words() {
    let line = chars("ALL 1 2 3\r");
    let arguments = CommandHandler::<8, 0>::parse_command(&line);
    let command = Command::new(&line, &arguments);
    assert_eq!(command.full(), line.as_slice());
    assert_eq!(command.parsed_arguments().len(), 4);
    assert_eq!(command.parsed_arguments()[0].chars(), &['A', 'L', 'L']);
    assert_eq!(command.parsed_arguments()[3].chars(), &['3']);
}

#[test]
fn a_line_is_split_at_spaces_and_line_ends() {
    assert_eq!(words("SET PRAHA 1 2 3\r"), ["SET", "PRAHA", "1", "2", "3"]);
    assert_eq!(words("RESET\r"), ["RESET"]);
    assert_eq!(words("A\nB\rC D"), ["A", "B", "C", "D"]);
}

#[test]
fn delimiters_in_a_row_give_no_empty_words() {
    assert_eq!(words("  ALL   1  2 3  \r\n"), ["ALL", "1", "2", "3"]);
    assert_eq!(words("\r"), Vec::<String>::new());
    assert_eq!(words("   "), Vec::<String>::new());
    assert_eq!(words(""), Vec::<String>::new());
}

#[test]
fn a_last_word_without_a_line_end_counts() {
    assert_eq!(words("HELLO WORLD"), ["HELLO", "WORLD"]);
    assert_eq!(words("X"), ["X"]);
}

#[test]
fn other_white_space_belongs_to_a_word() {
    assert_eq!(words("A\tB C\r"), ["A\tB", "C"]);
}
