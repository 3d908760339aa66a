use led_map::commands::command_handler::CommandHandler;
use led_map::commands::command_handler::CommandReadError;
use led_map::commands::command_handler::SpecificCommandHandler;
use led_map::nonblocking::NbError;

type Read = (Result<(), NbError<CommandReadError>>, Vec<u8>);

fn reader<'d, const N: usize>() -> CommandHandler<'d, N, 0> {
    let handlers: [(&str, &dyn SpecificCommandHandler); 0] = [];
    CommandHandler::new(handlers, ['\0'; N])
}

fn waiting(echo: &[u8]) -> Read {
    (Err(NbError::WouldBlock), echo.to_vec())
}

fn failed(error: CommandReadError, echo: &[u8]) -> Read {
    (Err(NbError::Other(error)), echo.to_vec())
}

#[test]
fn without_a_byte_the_reader_would_block() {
    let mut reader = reader::<8>();
    assert_eq!(reader.read_command(None), waiting(&[]));
    assert!(!reader.is_command_loaded());
}

#[test]
fn an_ordinary_byte_is_echoed_and_the_reader_goes_on() {
    let mut reader = reader::<8>();
    assert_eq!(reader.read_command(Some(b'A')), waiting(b"A"));
    assert_eq!(reader.read_command(Some(b' ')), waiting(b" "));
    assert_eq!(reader.read_command(Some(b'\n')), waiting(b"\n"));
    assert!(!reader.is_command_loaded());
}

#[test]
fn a_line_end_after_text_completes_the_line() {
    let mut reader = reader::<8>();
    assert_eq!(reader.read_command(Some(b'O')), waiting(b"O"));
    assert_eq!(reader.read_command(Some(b'K')), waiting(b"K"));
    assert_eq!(reader.read_command(Some(b'\r')), (Ok(()), b"\r\n".to_vec()));
    assert!(reader.is_command_loaded());
}

#[test]
fn a_line_end_alone_is_an_unexpected_end_of_line() {
    let mut reader = reader::<8>();
    assert_eq!(
        reader.read_command(Some(b'\r')),
        failed(CommandReadError::UnexpectedEndOfLine, b"\r\n")
    );
    assert!(!reader.is_command_loaded());
    assert_eq!(reader.read_command(Some(b'A')), waiting(b"A"));
    assert_eq!(reader.read_command(Some(b'\r')), (Ok(()), b"\r\n".to_vec()));
}

#[test]
fn a_loaded_line_must_be_handled_before_more_is_read() {
    let mut reader = reader::<8>();
    reader.read_command(Some(b'A'));
    reader.read_command(Some(b'\r'));
    assert_eq!(
        reader.read_command(Some(b'B')),
        failed(CommandReadError::CommandLoadedAlready, b"")
    );
    assert_eq!(reader.read_command(None), failed(CommandReadError::CommandLoadedAlready, b""));
    assert!(reader.is_command_loaded());
}

#[test]
fn the_byte_that_does_not_fit_overflows_and_the_reader_starts_anew() {
    let mut reader = reader::<4>();
    for byte in *b"ABCD" {
        assert_eq!(reader.read_command(Some(byte)), waiting(&[byte]));
    }
    assert_eq!(reader.read_command(Some(b'E')), failed(CommandReadError::BufferOverflowed, b""));
    assert!(!reader.is_command_loaded());
    assert_eq!(
        reader.read_command(Some(b'\r')),
        failed(CommandReadError::UnexpectedEndOfLine, b"\r\n")
    );
}

#[test]
fn a_line_end_that_does_not_fit_overflows_too() {
    let mut reader = reader::<2>();
    reader.read_command(Some(b'A'));
    reader.read_command(Some(b'B'));
    assert_eq!(reader.read_command(Some(b'\r')), failed(CommandReadError::BufferOverflowed, b""));
    assert!(!reader.is_command_loaded());
}

#[test]
fn a_line_that_just_fits_is_loaded() {
    let mut reader = reader::<3>();
    reader.read_command(Some(b'A'));
    reader.read_command(Some(b'B'));
    assert_eq!(reader.read_command(Some(b'\r')), (Ok(()), b"\r\n".to_vec()));
}

#[test]
fn a_backspace_on_an_empty_line_does_nothing() {
    let mut reader = reader::<8>();
    assert_eq!(reader.read_command(Some(0x08)), waiting(&[]));
    assert_eq!(reader.read_command(Some(0x08)), waiting(&[]));
    assert_eq!(
        reader.read_command(Some(b'\r')),
        failed(CommandReadError::UnexpectedEndOfLine, b"\r\n")
    );
}

#[test]
fn a_backspace_takes_the_last_character_back() {
    let mut reader = reader::<8>();
    reader.read_command(Some(b'A'));
    assert_eq!(reader.read_command(Some(0x08)), waiting(&[0x08, b' ', 0x08]));
    assert_eq!(
        reader.read_command(Some(b'\r')),
        failed(CommandReadError::UnexpectedEndOfLine, b"\r\n")
    );
}

#[test]
fn a_backspace_makes_room_in_a_full_line() {
    let mut reader = reader::<3>();
    reader.read_command(Some(b'A'));
    reader.read_command(Some(b'B'));
    reader.read_command(Some(b'C'));
    assert_eq!(reader.read_command(Some(0x08)), waiting(&[0x08, b' ', 0x08]));
    assert_eq!(reader.read_command(Some(b'\r')), (Ok(()), b"\r\n".to_vec()));
}

#[test]
fn an_escape_swallows_the_two_bytes_after_it() {
    let mut reader = reader::<8>();
    reader.read_command(Some(b'A'));
    assert_eq!(reader.read_command(Some(0x1b)), waiting(&[]));
    assert_eq!(reader.read_command(Some(b'[')), waiting(&[]));
    assert_eq!(reader.read_command(Some(b'\r')), waiting(&[]));
    assert!(!reader.is_command_loaded());
    assert_eq!(reader.read_command(Some(b'\r')), (Ok(()), b"\r\n".to_vec()));
}

#[test]
fn swallowed_bytes_need_no_room() {
    let mut reader = reader::<1>();
    reader.read_command(Some(b'A'));
    assert_eq!(reader.read_command(Some(0x1b)), waiting(&[]));
    assert_eq!(reader.read_command(Some(0x08)), waiting(&[]));
    assert_eq!(reader.read_command(Some(0x1b)), waiting(&[]));
    assert_eq!(reader.read_command(Some(b'B')), failed(CommandReadError::BufferOverflowed, b""));
}

#[test]
fn no_byte_leaves_a_pending_escape_pending() {
    let mut reader = reader::<8>();
    reader.read_command(Some(0x1b));
    assert_eq!(reader.read_command(None), waiting(&[]));
    assert_eq!(reader.read_command(Some(b'A')), waiting(&[]));
    assert_eq!(reader.read_command(Some(b'B')), waiting(&[]));
    assert_eq!(reader.read_command(Some(b'C')), waiting(b"C"));
}

#[test]
fn reset_forgets_what_was_read() {
    let mut reader = reader::<8>();
    reader.read_command(Some(b'A'));
    reader.read_command(Some(b'\r'));
    assert!(reader.is_command_loaded());
    reader.reset();
    assert!(!reader.is_command_loaded());
    assert_eq!(
        reader.read_command(Some(b'\r')),
        failed(CommandReadError::UnexpectedEndOfLine, b"\r\n")
    );
}

#[test]
fn a_reader_without_room_overflows_at_once() {
    let mut reader = reader::<0>();
    assert_eq!(reader.read_command(Some(b'A')), failed(CommandReadError::BufferOverflowed, b""));
    assert_eq!(reader.read_command(Some(b'\r')), failed(CommandReadError::BufferOverflowed, b""));
}
