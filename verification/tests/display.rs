use rfi::display::{heading_color, heading_text, state_to_color, ticket_text, Color};
use rfi::github::{Issue, State};
use rfi::rfc::Rfc;

fn rfc_with(states: &[State]) -> Rfc {
    Rfc {
        number: 1,
        short_title: "t".to_string(),
        issues: states
            .iter()
            .enumerate()
            .map(|(i, s)| Issue::new(i as u32, String::new(), *s, String::new()))
            .collect(),
    }
}

#[test]
fn state_colours() {
    assert_eq!(state_to_color(State::Open), Color::Green);
    assert_eq!(state_to_color(State::Closed), Color::Red);
    assert_eq!(state_to_color(State::Merged), Color::Magenta);
}

#[test]
fn heading_colours() {
    assert_eq!(heading_color(&rfc_with(&[])), Color::Blue);
    assert_eq!(heading_color(&rfc_with(&[State::Closed, State::Open])), Color::Green);
    assert_eq!(heading_color(&rfc_with(&[State::Closed, State::Merged])), Color::Red);
}

#[test]
fn heading_pads_number_and_title() {
    assert_eq!(heading_text(256, "remove-refcounting-gc-of-t"), format!("#{:04} {:<30}", 256, "remove-refcounting-gc-of-t"));
    assert_eq!(heading_text(7, "x"), "#0007 x                             ");
    assert_eq!(heading_text(12345, "a-title-longer-than-thirty-characters"), "#12345 a-title-longer-than-thirty-characters");
    assert_eq!(heading_text(0, "caf\u{e9}"), format!("#{:04} {:<30}", 0, "caf\u{e9}"));
}

#[test]
fn ticket_pads_number() {
    assert_eq!(ticket_text(5), "#0005");
    assert_eq!(ticket_text(1234), "#1234");
    assert_eq!(ticket_text(4294967295), format!("#{:04}", 4294967295u32));
}
