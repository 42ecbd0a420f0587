use bezel::markdown::doc::{Form, Mark, MarkSpan, Span, Text};
use bezel::markdown::flatten::{flatten, flatten_with, Ink, MarkPaint, SEMIBOLD};

fn marked(text: &str, marks: Vec<(usize, usize, Mark)>) -> Text {
    Text {
        text: text.to_string(),
        marks: marks
            .into_iter()
            .map(|(start, end, mark)| MarkSpan { range: Span { start, end }, mark })
            .collect(),
    }
}

fn span(start: usize, end: usize) -> Span {
    Span { start, end }
}

#[test]
fn text_without_marks_is_one_plain_run() {
    let flat = flatten(&Text::plain("hello"), 400);
    assert_eq!(flat.text, "hello");
    assert_eq!(flat.runs.len(), 1);
    assert_eq!(flat.runs[0].len, 5);
    let face = flat.runs[0].face;
    assert_eq!((face.weight, face.ink, face.mono, face.italic), (400, Ink::Text, false, false));
    assert!(!face.underline && !face.strikethrough && face.background.is_none());
}

#[test]
fn no_text_is_no_run() {
    assert!(flatten(&Text::plain(""), 400).runs.is_empty());
}

#[test]
fn marks_cut_the_text_where_they_start_and_end() {
    let flat = flatten(
        &marked("abcdef", vec![(1, 4, Mark::Bold), (3, 6, Mark::Italic)]),
        400,
    );
    let lens: Vec<usize> = flat.runs.iter().map(|run| run.len).collect();
    assert_eq!(lens, vec![1, 2, 1, 2]);
    let faces: Vec<(u32, bool)> =
        flat.runs.iter().map(|run| (run.face.weight, run.face.italic)).collect();
    assert_eq!(faces, vec![(400, false), (SEMIBOLD, false), (SEMIBOLD, true), (400, true)]);
}

#[test]
fn bold_never_thins_a_heading() {
    let flat = flatten(&marked("ab", vec![(0, 2, Mark::Bold)]), 700);
    assert_eq!(flat.runs[0].face.weight, 700);
}

#[test]
fn code_that_touches_is_one_wash() {
    let flat = flatten(
        &marked("abcdef", vec![(0, 2, Mark::Code), (2, 4, Mark::Code), (5, 6, Mark::Code)]),
        400,
    );
    assert_eq!(flat.code, vec![span(0, 4), span(5, 6)]);
    assert_eq!(flat.runs[0].face.ink, Ink::Code);
}

#[test]
fn links_join_only_where_they_lead_to_one_place() {
    let flat = flatten(
        &marked(
            "abcdef",
            vec![
                (0, 2, Mark::Link("x".into())),
                (2, 3, Mark::Link("x".into())),
                (3, 5, Mark::Link("y".into())),
            ],
        ),
        400,
    );
    assert_eq!(
        flat.links,
        vec![(span(0, 3), "x".to_string()), (span(3, 5), "y".to_string())]
    );
    assert!(flat.runs[0].face.underline);
    assert!(!flat.runs[3].face.underline);
}

#[test]
fn a_chip_is_washed_rather_than_underlined() {
    let flat = flatten(&marked("abc", vec![(0, 3, Mark::Mention { url: "u".into(), form: Form::Chip })]), 400);
    assert_eq!(flat.chips, vec![span(0, 3)]);
    assert_eq!(flat.links, vec![(span(0, 3), "u".to_string())]);
    assert!(!flat.runs[0].face.underline);
}

#[test]
fn the_last_custom_mark_to_say_something_says_it() {
    let text = marked(
        "ab",
        vec![(0, 2, Mark::Custom("one".into())), (0, 2, Mark::Custom("two".into()))],
    );
    let one = MarkPaint { color: Some(1), background: Some(2), ..MarkPaint::default() };
    let two = MarkPaint { color: Some(3), underline: true, ..MarkPaint::default() };
    let flat = flatten_with(&text, 400, &vec![Some(one), Some(two)]);
    let face = flat.runs[0].face;
    assert_eq!(face.ink, Ink::Custom(3));
    assert_eq!(face.background, Some(2));
    assert!(face.underline);
    // A mark the app does not paint reads as the text it wraps.
    assert_eq!(flatten_with(&text, 400, &vec![None, None]).runs[0].face.ink, Ink::Text);
}

#[test]
fn a_mark_past_the_end_cuts_nothing() {
    let flat = flatten(&marked("ab", vec![(0, 99, Mark::Bold)]), 400);
    assert_eq!(flat.runs.len(), 1);
    assert_eq!(flat.runs[0].len, 2);
    assert_eq!(flat.runs[0].face.weight, SEMIBOLD);
}
