use efficax::client::direction_step;
use efficax::tabbed_reader::{TabbedReader, TabbedReaderToken};

#[test]
fn direction_steps_follow_the_compass() {
    assert_eq!(direction_step(0), (0, 0));
    assert_eq!(direction_step(1), (0, 1));
    assert_eq!(direction_step(2), (1, 1));
    assert_eq!(direction_step(3), (1, 0));
    assert_eq!(direction_step(4), (1, -1));
    assert_eq!(direction_step(5), (0, -1));
    assert_eq!(direction_step(6), (-1, -1));
    assert_eq!(direction_step(7), (-1, 0));
    assert_eq!(direction_step(8), (-1, 1));
    assert_eq!(direction_step(9), (0, 0));
    assert_eq!(direction_step(255), (0, 0));
}

#[test]
fn opposite_directions_cancel() {
    for d in 1u8..=4 {
        let (x, y) = direction_step(d);
        let (ox, oy) = direction_step(d + 4);
        assert_eq!((x + ox, y + oy), (0, 0));
    }
}

#[test]
fn tabbed_reader_reports_end_of_input() {
    let mut reader = TabbedReader::new(vec!["struct A".to_string(), "\tx: u8".to_string()]);
    assert_eq!(reader.line(), 0);
    assert_eq!(reader.get_next_token(), TabbedReaderToken::EOF);
    assert_eq!(reader.get_next_token(), TabbedReaderToken::EOF);
    assert_eq!(reader.line(), 0);
}

#[test]
fn tabbed_reader_on_empty_input() {
    let mut reader = TabbedReader::new(Vec::new());
    assert!(matches!(reader.get_next_token(), TabbedReaderToken::EOF));
}
