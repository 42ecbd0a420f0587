//! The theme, the gallery's own pieces, and text by bytes.

use bezel::editor::anchor::{Anchor, AnchorId};
use bezel::editor::history::Mode;
use bezel::editor::keys::Action;
use bezel::gallery::comments::{ThreadRow, Threads};
use bezel::gallery::ribbon::{code_hint, marks, paint, turn_label};
use bezel::markdown::doc::{Cursor, Mark, Part, Selection};
use bezel::markdown::flatten::MarkPaint;
use bezel::markdown::marks::Appearance;
use bezel::markdown::overlay::Annotation;
use bezel::theme::appearance::{
    background_for, mode, reports_the_os, resolve, sync_ns_appearance, AppearanceMode,
    AppearanceState, KeepBackground, WindowBackground,
};

fn range(from: usize, to: usize) -> Selection {
    Selection::new(Cursor::new(0, Part::Body, from), Cursor::new(0, Part::Body, to))
}

#[test]
fn a_mode_is_resolved_against_the_os() {
    for system in [Appearance::Light, Appearance::Dark] {
        assert_eq!(resolve(AppearanceMode::System, system), system);
        assert_eq!(resolve(AppearanceMode::Light, system), Appearance::Light);
        assert_eq!(resolve(AppearanceMode::Dark, system), Appearance::Dark);
    }
    let labels: Vec<&str> = AppearanceMode::ALL.iter().map(|mode| mode.label()).collect();
    assert_eq!(labels, vec!["System", "Light", "Dark"]);
    assert_eq!(mode(None), AppearanceMode::System);
}

#[test]
fn what_a_pinned_window_reports_is_not_the_os() {
    let mut state =
        AppearanceState { mode: AppearanceMode::System, system: Appearance::Light };
    assert!(state.set_mode(AppearanceMode::Dark, Appearance::Light));
    assert!(!reports_the_os(state.mode));
    assert!(!state.sync(Appearance::Dark));
    assert_eq!(state.system, Appearance::Light);
    assert!(!state.set_mode(AppearanceMode::Dark, Appearance::Dark));
    assert!(state.set_mode(AppearanceMode::System, Appearance::Light));
    assert_eq!(state.apply(Some(Appearance::Dark)), Some(Appearance::Light));
    assert!(state.sync(Appearance::Dark));
    assert!(!state.sync(Appearance::Dark));
    assert_eq!(state.apply(Some(Appearance::Dark)), None);
    assert_eq!(state.apply(None), Some(Appearance::Dark));
    assert_eq!(mode(Some(state)), AppearanceMode::System);
}

#[test]
fn only_a_pinned_mode_names_an_appearance() {
    assert_eq!(sync_ns_appearance(AppearanceMode::System), None);
    assert_eq!(sync_ns_appearance(AppearanceMode::Light), Some("NSAppearanceNameAqua"));
    assert_eq!(sync_ns_appearance(AppearanceMode::Dark), Some("NSAppearanceNameDarkAqua"));
}

#[test]
fn a_window_that_draws_its_own_frame_is_never_opaque() {
    let (opaque, clear) = (WindowBackground::Opaque, WindowBackground::Transparent);
    assert_eq!(background_for(opaque, true), clear);
    assert_eq!(background_for(opaque, false), opaque);
    assert_eq!(background_for(WindowBackground::Blurred, true), WindowBackground::Blurred);
}

#[test]
fn a_window_keeps_its_background_until_it_closes() {
    let mut keep = KeepBackground::default();
    keep.keep_background(2);
    keep.keep_background(2);
    keep.keep_background(5);
    assert_eq!(keep.reapply_window_background(&vec![1, 2, 3]), vec![1, 3]);
    // A closed window's id is dropped, so one that comes by it later is not
    // taken for it.
    assert_eq!(keep.reapply_window_background(&vec![1, 2, 5]), vec![1, 5]);
}

#[test]
fn a_comment_is_a_thread_and_an_anchor() {
    let mut threads = Threads::default();
    assert_eq!(threads.comment(range(2, 2)), None);
    let first = threads.comment(range(0, 3)).unwrap();
    assert_eq!(first, Anchor::new(AnchorId(0), range(0, 3)));
    let mut second = threads.comment(range(4, 5)).unwrap();
    let bodies: Vec<&str> = threads.threads.iter().map(|thread| thread.body.as_str()).collect();
    assert_eq!(bodies, vec!["Note 1", "Note 2"]);
    let states: Vec<Annotation> =
        threads.light(&vec![first, second]).iter().map(|anchor| anchor.state).collect();
    assert_eq!(states, vec![Annotation::Open, Annotation::Active]);
    threads.activate(AnchorId(0));
    second.range = range(4, 4);
    assert_eq!(
        threads.comments(&vec![first, second]),
        vec![
            ThreadRow {
                id: AnchorId(0),
                detached: false,
                open: true,
                range: Some(range(0, 3)),
            },
            ThreadRow { id: AnchorId(1), detached: true, open: false, range: None },
        ]
    );
    assert!(threads.comments(&vec![])[0].detached);
}

#[test]
fn the_tenth_note_has_two_digits() {
    let mut threads = Threads::default();
    for _ in 0..10 {
        threads.comment(range(0, 1));
    }
    assert_eq!(threads.threads[9].body, "Note 10");
}

#[test]
fn the_ribbon_offers_the_marks_and_paints_its_own() {
    let buttons = marks();
    let keys: Vec<&str> = buttons.iter().map(|button| button.key).collect();
    assert_eq!(keys, vec!["bold", "italic", "strike", "code", "highlight", "underline"]);
    assert_eq!(buttons[3].action, Some(Action::ToggleCode));
    assert_eq!(buttons[4].mark, Mark::Custom("highlight".into()));
    assert_eq!(buttons[4].action, None);
    let washed = MarkPaint { background: Some(7), ..MarkPaint::default() };
    assert_eq!(paint("highlight", 7), Some(washed));
    let underlined = MarkPaint { underline: true, ..MarkPaint::default() };
    assert_eq!(paint("underline", 7), Some(underlined));
    assert_eq!(paint("other", 7), None);
}

#[test]
fn the_ribbon_says_what_it_looks_at() {
    assert_eq!(turn_label(Mode::Source, &Some("Text".into())), "Markdown");
    assert_eq!(turn_label(Mode::Blocks, &Some("Text".into())), "Text");
    assert_eq!(turn_label(Mode::Blocks, &None), "—");
    assert_eq!(code_hint(true), "fences");
    assert_eq!(code_hint(false), "is inline code");
}
