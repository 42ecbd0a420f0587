use bezel::markdown::blocks::{
    alert_color, bookmark, gaps, image_source, initial, table, tight, CopyFeedback, Cover, Gap,
    ImageSource, Preview, Tone,
};
use bezel::markdown::code::{code_lines, gutter_digits, line_caret, line_runs, line_slice, CodeRun, Token};
use bezel::markdown::doc::{
    Align, Block, BlockKind, Cursor, Doc, Form, Part, QuoteKind, Selection, Span, Text,
};
use bezel::markdown::marks::HighlightColor;
use bezel::markdown::overlay::{Annotation, Caption, CopyButton, Overlay};
use bezel::markdown::paint::{
    block_element, code_line, language_label, Element, Layer, Marker, Picture, Toggle, Wash,
    PLAIN_LANGUAGE,
};
use bezel::markdown::selectable::{copied, copy_chord, reported, Gesture, Pointer};

fn span(start: usize, end: usize) -> Span {
    Span { start, end }
}

fn at(block: usize, offset: usize) -> Cursor {
    Cursor::new(block, Part::Body, offset)
}

fn over(block: usize, selection: Option<Selection>) -> Overlay {
    Overlay { block, part: Part::Body, selection, caret_on: true }
}

#[test]
fn code_is_split_at_its_newlines() {
    assert_eq!(code_lines("ab\n\ncdé"), vec![span(0, 2), span(3, 3), span(4, 8)]);
    assert_eq!(code_lines(""), vec![span(0, 0)]);
    assert_eq!(code_lines("a\n"), vec![span(0, 1), span(2, 2)]);
}

#[test]
fn tokens_are_clipped_to_their_line() {
    let tokens = vec![
        Token { range: span(0, 3), kind: 1 },
        Token { range: span(5, 12), kind: 2 },
    ];
    let run = |len, kind| CodeRun { len, kind };
    assert_eq!(
        line_runs(&tokens, span(0, 8)),
        vec![run(3, Some(1)), run(2, None), run(3, Some(2))]
    );
    assert_eq!(
        line_runs(&tokens, span(9, 15)),
        vec![run(3, Some(2)), run(3, None)]
    );
    assert_eq!(line_runs(&tokens, span(20, 20)), vec![run(0, None)]);
}

#[test]
fn a_line_holds_what_is_on_it() {
    assert_eq!(line_slice(span(2, 9), span(4, 7)), Some(span(0, 3)));
    assert_eq!(line_slice(span(2, 4), span(4, 7)), None);
    assert_eq!(line_caret(Some(7), span(4, 7)), Some(3));
    assert_eq!(line_caret(Some(8), span(4, 7)), None);
    assert_eq!(line_caret(None, span(4, 7)), None);
}

#[test]
fn a_gutter_is_as_wide_as_its_last_number() {
    assert_eq!(gutter_digits(9, 1), 1);
    assert_eq!(gutter_digits(10, 1), 2);
    assert_eq!(gutter_digits(1000, 1), 4);
    assert_eq!(gutter_digits(3, 3), 3);
}

#[test]
fn what_is_under_a_text_comes_in_its_order() {
    let overlay = over(0, Some(Selection::new(at(0, 1), at(0, 4))));
    let annotations = vec![
        (Selection::new(at(0, 0), at(0, 2)), Annotation::Open),
        (Selection::new(at(1, 0), at(1, 2)), Annotation::Resolved),
        (Selection::new(at(0, 3), at(2, 0)), Annotation::Highlight(HighlightColor::Pink)),
    ];
    let wash = |layer, range| Wash { layer, range };
    assert_eq!(
        overlay.painted_text(&annotations, &vec![span(0, 1)], &vec![span(2, 3)], 6),
        vec![
            wash(Layer::Annotation(Annotation::Open), span(0, 2)),
            wash(Layer::Annotation(Annotation::Highlight(HighlightColor::Pink)), span(3, 6)),
            wash(Layer::Selection, span(1, 4)),
            wash(Layer::Caret, span(4, 4)),
            wash(Layer::Code, span(0, 1)),
            wash(Layer::Chip, span(2, 3)),
        ]
    );
    // The blink's dark half paints no caret, and changes nothing else.
    let dark = Overlay { caret_on: false, ..overlay };
    assert_eq!(dark.painted_text(&annotations, &vec![], &vec![], 6).len(), 3);
    assert_eq!(dark.caret(), Some(4));
}

#[test]
fn a_line_of_a_fence_is_washed_in_its_own_bytes() {
    let slices = vec![(span(0, 6), Annotation::Active)];
    let wash = |layer, range| Wash { layer, range };
    assert_eq!(
        code_line(&slices, Some(span(5, 20)), Some(9), span(4, 9)),
        vec![
            wash(Layer::Annotation(Annotation::Active), span(0, 2)),
            wash(Layer::Selection, span(1, 5)),
            wash(Layer::Caret, span(5, 5)),
        ]
    );
}

#[test]
fn a_hint_shows_where_there_is_nothing_and_the_caret_is() {
    let here = over(0, Some(Selection::at(at(0, 0))));
    assert!(here.hints(0));
    assert!(!here.hints(3));
    assert!(!over(1, Some(Selection::at(at(0, 0)))).hints(0));
}

#[test]
fn a_block_inside_a_selection_is_covered_by_it() {
    let selection = Some(Selection::new(at(0, 1), at(2, 0)));
    assert!(over(1, selection).covers_block());
    assert!(!over(0, selection).covers_block());
    assert!(!over(1, None).covers_block());
}

fn block(kind: BlockKind) -> Block {
    Block::new(kind)
}

fn shape(block: &Block, overlay: Overlay, rendered: bool) -> Element {
    block_element(
        block,
        overlay,
        Some(Toggle::HitTested),
        Caption::default(),
        CopyButton::default(),
        rendered,
    )
}

#[test]
fn each_block_takes_its_shape() {
    let still = over(0, None);
    assert_eq!(shape(&block(BlockKind::Paragraph(Text::plain("a"))), still, false), Element::Paragraph);
    assert_eq!(
        shape(&block(BlockKind::Heading { level: 2, text: Text::plain("a") }), still, false),
        Element::Heading(2)
    );
    assert_eq!(
        shape(&block(BlockKind::Task { checked: true, text: Text::plain("a") }), still, false),
        Element::Item(Marker::Checkbox { checked: true, control: true, listens: false })
    );
    assert_eq!(
        shape(
            &block(BlockKind::Quote { kind: Some(QuoteKind::Tip), text: Text::plain("a") }),
            still,
            false
        ),
        Element::Quote(Some(Tone::Success))
    );
    assert_eq!(shape(&block(BlockKind::Rule), still, false), Element::Rule);
}

#[test]
fn the_caret_in_a_painted_fence_gives_its_source_back() {
    let fence = block(BlockKind::Code { language: Some("chart".into()), code: Text::plain("a: 1") });
    let inside = Some(Selection::at(Cursor::new(0, Part::Code, 0)));
    assert_eq!(shape(&fence, over(0, None), true), Element::Painted { washed: false });
    assert_eq!(shape(&fence, over(0, inside), true), Element::Fence { copy: true });
    assert_eq!(shape(&fence, over(0, None), false), Element::Fence { copy: true });
    let hidden = block_element(
        &fence,
        over(0, None),
        None,
        Caption::Hidden,
        CopyButton::Hidden,
        false,
    );
    assert_eq!(hidden, Element::Fence { copy: false });
}

#[test]
fn an_image_is_captioned_while_there_is_something_to_read_or_type() {
    let image = |url: &str, alt: &str, width| {
        block(BlockKind::Image { url: url.into(), alt: Text::plain(alt), width })
    };
    let typing = Some(Selection::at(Cursor::new(0, Part::Caption, 0)));
    assert_eq!(
        shape(&image("", "", None), over(0, None), false),
        Element::Image { picture: Picture::Blank, captioned: false }
    );
    assert_eq!(
        shape(&image("u", "", Some(200)), over(0, typing), false),
        Element::Image { picture: Picture::Sized(200), captioned: true }
    );
    assert_eq!(
        shape(&image("u", "words", None), over(0, None), false),
        Element::Image { picture: Picture::Natural, captioned: true }
    );
}

#[test]
fn a_fence_without_a_language_calls_itself_plain() {
    assert_eq!(language_label(&None), PLAIN_LANGUAGE);
    assert_eq!(language_label(&Some("rust".into())), "rust");
}

#[test]
fn list_items_sit_tight() {
    let bullet = |indent| Block { kind: BlockKind::Bullet(Text::plain("a")), indent };
    let plain = |indent| Block { kind: BlockKind::Paragraph(Text::plain("a")), indent };
    assert!(tight(&bullet(0), &bullet(0)));
    assert!(tight(&bullet(0), &plain(1)));
    assert!(!tight(&bullet(0), &plain(0)));
    assert!(!tight(&plain(0), &bullet(0)));
    let doc = Doc { blocks: vec![bullet(0), bullet(0), plain(0)] };
    assert_eq!(gaps(&doc), vec![Gap::Top, Gap::List, Gap::Block]);
}

#[test]
fn an_alert_has_its_own_tone() {
    assert_eq!(alert_color(QuoteKind::Note), Tone::Accent);
    assert_eq!(alert_color(QuoteKind::Important), Tone::Busy);
    assert_eq!(alert_color(QuoteKind::Warning), Tone::Warning);
    assert_eq!(alert_color(QuoteKind::Caution), Tone::Danger);
}

#[test]
fn a_scheme_is_fetched_and_anything_else_is_a_file() {
    assert_eq!(image_source("https://a/b.png"), ImageSource::Fetched);
    assert_eq!(image_source("a/b.png"), ImageSource::File);
    assert_eq!(image_source("C:/b.png"), ImageSource::File);
    assert_eq!(image_source("://"), ImageSource::Fetched);
    assert_eq!(image_source(":/"), ImageSource::File);
}

#[test]
fn a_card_falls_back_on_its_url_and_a_chip_on_its_label() {
    let bare = Preview { title: None, label: None, description: None, icon: None, image: None };
    let card = bookmark("https://a.b/c", "a.b", Form::Auto, &bare);
    assert_eq!((card.title.as_str(), card.label.as_deref()), ("https://a.b/c", Some("a.b")));
    assert_eq!((card.blurb, card.icon, card.cover), (None, None, Some(Cover::Mark)));
    assert_eq!(card.initial, "A");
    let card = bookmark("https://a.b/c", "a.b", Form::Chip, &bare);
    assert_eq!(card.title, "a.b");
    let known = Preview { title: Some("T".into()), label: Some("L".into()), ..bare };
    let card = bookmark("https://a.b/c", "a.b", Form::Chip, &known);
    assert_eq!((card.title.as_str(), card.label), ("T", None));
}

#[test]
fn a_chip_shows_its_mark_and_title_alone() {
    let known = Preview {
        title: Some("T".into()),
        label: Some("L".into()),
        description: Some("D".into()),
        icon: Some("I".into()),
        image: Some("P".into()),
    };
    let chip = bookmark("u", "h", Form::Chip, &known);
    assert_eq!((chip.blurb, chip.cover), (None, None));
    assert_eq!(chip.icon.as_deref(), Some("I"));
    for form in [Form::Auto, Form::Embed] {
        let card = bookmark("u", "h", form, &known);
        assert_eq!(card.blurb.as_deref(), Some("D"));
        assert_eq!(card.cover, Some(Cover::Image("P".into())));
        assert_eq!((card.icon.as_deref(), card.initial.as_str()), (Some("I"), "H"));
    }
}

#[test]
fn a_site_without_an_icon_goes_by_a_capital() {
    assert_eq!(initial("bezel"), "B");
    assert_eq!(initial("Bezel"), "B");
    assert_eq!(initial("1"), "1");
    assert_eq!(initial("\u{e9}"), "\u{c9}");
    assert_eq!(initial("\u{df}"), "SS");
    assert_eq!(initial(""), "?");
}

#[test]
fn a_table_without_a_header_starts_below_it() {
    let row = |cells: &[&str]| cells.iter().map(|text| Text::plain(text)).collect::<Vec<Text>>();
    let align = vec![Align::Right];
    let cells = table(&align, &row(&[]), &vec![row(&["a", "b"]), row(&["c"])]);
    assert_eq!(cells.len(), 2);
    let first = cells[0][0].unwrap();
    assert_eq!(first.part, Part::Cell { row: 1, column: 0 });
    assert_eq!((first.align, first.header), (Align::Right, false));
    assert_eq!(cells[0][1].unwrap().align, Align::Left);
    assert!(cells[1][1].is_none());
    let cells = table(&align, &row(&["h"]), &vec![row(&["a"])]);
    assert_eq!(cells[0][0].unwrap().part, Part::Cell { row: 0, column: 0 });
    assert!(cells[0][0].unwrap().header);
    assert!(table(&align, &row(&[]), &vec![]).is_empty());
}

#[test]
fn a_copy_button_says_so_until_the_pointer_leaves() {
    let mut button = CopyFeedback { copied: false };
    assert_eq!(button.label(), "Copy");
    button.click();
    button.hover(true);
    assert_eq!(button.label(), "Copied");
    button.hover(false);
    assert_eq!(button.label(), "Copy");
}

#[test]
fn a_selection_copies_with_a_newline_between_its_texts() {
    let doc = Doc {
        blocks: vec![
            block(BlockKind::Paragraph(Text::plain("first"))),
            block(BlockKind::Rule),
            block(BlockKind::Paragraph(Text::plain("sécond"))),
        ],
    };
    let spans = vec![(at(0, 0), span(2, 5)), (at(1, 0), span(0, 1)), (at(2, 0), span(0, 3))];
    assert_eq!(copied(&doc, &spans), "rst\nsé");
    // Bytes that are no whole characters copy nothing.
    assert_eq!(copied(&doc, &vec![(at(2, 0), span(2, 3))]), "");
}

#[test]
fn a_pointer_moves_only_what_a_press_began() {
    let left = Gesture::Move { left: true };
    assert_eq!(reported(Gesture::Press, false, Some(at(0, 1))), Some(Pointer::Down(at(0, 1))));
    assert_eq!(reported(left, true, Some(at(0, 2))), Some(Pointer::Move(at(0, 2))));
    assert_eq!(reported(left, false, Some(at(0, 2))), None);
    assert_eq!(reported(Gesture::Move { left: false }, true, Some(at(0, 2))), None);
    assert_eq!(reported(Gesture::Release, true, None), Some(Pointer::Up));
    assert_eq!(reported(Gesture::Press, false, None), None);
    assert_eq!(copy_chord(true), "cmd-c");
    assert_eq!(copy_chord(false), "ctrl-c");
}
