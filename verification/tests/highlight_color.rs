use bezel::markdown::marks::{
    default_highlight, highlight_solid, Appearance, Entry, HighlightColor, Marks, Tint,
};
use bezel::markdown::overlay::Annotation;

#[test]
fn a_highlight_colour_round_trips_its_name() {
    for color in HighlightColor::ALL {
        assert_eq!(HighlightColor::from_name(color.name()), Some(color));
    }
    assert_eq!(HighlightColor::from_name("teal"), None);
}

#[test]
fn a_swatch_follows_the_appearance() {
    assert_eq!(highlight_solid(HighlightColor::Yellow, Appearance::Dark), 0xFFD60A);
    assert_eq!(highlight_solid(HighlightColor::Yellow, Appearance::Light), 0xFFCC00);
}

#[test]
fn a_wash_is_stronger_where_the_look_is_light() {
    let tint = |hex, percent| Tint { hex, percent };
    assert_eq!(default_highlight(HighlightColor::Pink, Appearance::Dark), tint(0xFF375F, 32));
    assert_eq!(default_highlight(HighlightColor::Pink, Appearance::Light), tint(0xFF2D55, 45));
    let own = default_highlight(HighlightColor::Green, Appearance::Dark);
    assert_eq!(Annotation::Open.wash(0xFF9500, own), tint(0xFF9500, 20));
    assert_eq!(Annotation::Resolved.wash(0xFF9500, own), tint(0xFF9500, 8));
    assert_eq!(Annotation::Active.wash(0xFF9500, own), tint(0xFF9500, 38));
    assert_eq!(Annotation::Highlight(HighlightColor::Green).wash(0xFF9500, own), own);
}

#[test]
fn a_mark_is_registered_once_and_the_longest_spelling_is_tried_first() {
    let marks = Marks::new()
        .with("highlight".into(), "==".into())
        .with("strong".into(), "===".into())
        .with("highlight".into(), "%%".into())
        .with("other".into(), "==".into())
        .with("none".into(), "".into())
        .with("underline".into(), "++".into());
    assert_eq!(marks.names(), vec!["highlight", "strong", "underline"]);
    assert_eq!(marks.delimiter("highlight"), Some("=="));
    assert_eq!(marks.delimiter("other"), None);
    assert_eq!(marks.sorted(), vec![1, 0, 2]);
    let second = marks.index(1).unwrap().clone();
    assert_eq!(second, Entry { name: "strong".into(), delimiter: "===".into() });
    assert_eq!(marks.position(&second), Some(1));
    assert_eq!(marks.index(3), None);
    let absent = Entry { name: "strong".into(), delimiter: "==".into() };
    assert_eq!(marks.position(&absent), None);
    assert!(Marks::new().is_empty() && !marks.is_empty());
}
