use rotext::events::{BlockWithId, Event, NewLine, VerbatimEscaping};
use rotext::types::{BlockId, LineNumber};

#[test]
fn assertion_flags_tell_forced_closing_and_line_numbers() {
    let ev = Event::VerbatimEscaping(VerbatimEscaping {
        content: 0..1,
        is_closed_forcedly: true,
        line_after: LineNumber::new(3),
    });
    assert_eq!(
        ev.assertion_flags(),
        Some(vec![b"F".to_vec(), b">ln:3".to_vec()])
    );
    let ev = Event::VerbatimEscaping(VerbatimEscaping {
        content: 0..1,
        is_closed_forcedly: false,
        line_after: LineNumber::new(12),
    });
    assert_eq!(ev.assertion_flags(), Some(vec![b">ln:12".to_vec()]));
    let ev = Event::NewLine(NewLine {
        line_after: LineNumber::new(2),
    });
    assert_eq!(ev.assertion_flags(), Some(vec![b">ln:2".to_vec()]));
    let ev = Event::EnterParagraph(BlockWithId {
        id: BlockId::new(1),
    });
    assert_eq!(ev.assertion_flags(), None);
    assert_eq!(Event::Text(0..1).assertion_flags(), None);
}

#[test]
fn assertion_flags_without_line_numbers_keep_only_forced_closing() {
    let ev = Event::VerbatimEscaping(VerbatimEscaping {
        content: 0..1,
        is_closed_forcedly: true,
        line_after: LineNumber::new(3),
    });
    assert_eq!(ev.assertion_flags_with(false), Some(vec![b"F".to_vec()]));
    assert_eq!(
        ev.assertion_flags_with(true),
        Some(vec![b"F".to_vec(), b">ln:3".to_vec()])
    );
    let ev = Event::VerbatimEscaping(VerbatimEscaping {
        content: 0..1,
        is_closed_forcedly: false,
        line_after: LineNumber::new(12),
    });
    assert_eq!(ev.assertion_flags_with(false), None);
    let ev = Event::NewLine(NewLine {
        line_after: LineNumber::new(2),
    });
    assert_eq!(ev.assertion_flags_with(false), None);
    assert_eq!(Event::Text(0..1).assertion_flags_with(false), None);
}
