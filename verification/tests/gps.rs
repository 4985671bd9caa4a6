use sirin::gps::{interval_command, line_complete, NMEAType};

#[test]
fn line_is_complete_after_carriage_return_and_line_feed() {
    assert!(line_complete(b"$GPGGA,,,,,,,,,,,,,,*00\r\n"));
    assert!(line_complete(b"\r\n"));
}

#[test]
fn line_is_not_complete_before_its_end() {
    assert!(!line_complete(b""));
    assert!(!line_complete(b"\n"));
    assert!(!line_complete(b"\r"));
    assert!(!line_complete(b"$GPGGA,,,\r"));
    assert!(!line_complete(b"$GPGGA,,,\n"));
    assert!(!line_complete(b"$GPGGA,,,\n\r"));
    assert!(!line_complete(b"$GPGGA\r\n$GP"));
}

#[test]
fn interval_command_sets_the_named_sentences() {
    assert_eq!(
        interval_command(&[NMEAType::GGA, NMEAType::RMC], 5),
        [160, 161, 0, 9, 8, 5, 0, 0, 0, 5, 0, 0, 8, 13, 10]
    );
    assert_eq!(
        interval_command(&[NMEAType::GLL], 2),
        [160, 161, 0, 9, 8, 0, 0, 0, 2, 0, 0, 0, 8, 13, 10]
    );
    assert_eq!(
        interval_command(&[NMEAType::VTG, NMEAType::VTG], 255),
        [160, 161, 0, 9, 8, 0, 0, 0, 0, 0, 255, 0, 8, 13, 10]
    );
}

#[test]
fn interval_command_turns_everything_off_when_nothing_is_named() {
    assert_eq!(
        interval_command(&[], 9),
        [160, 161, 0, 9, 8, 0, 0, 0, 0, 0, 0, 0, 8, 13, 10]
    );
}

#[test]
fn interval_command_names_all_four() {
    assert_eq!(
        interval_command(
            &[NMEAType::RMC, NMEAType::VTG, NMEAType::GGA, NMEAType::GLL],
            1
        ),
        [160, 161, 0, 9, 8, 1, 0, 0, 1, 1, 1, 0, 8, 13, 10]
    );
}
