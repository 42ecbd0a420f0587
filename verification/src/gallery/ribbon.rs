//! The formatting ribbon — the bar that is always on. Each control is the entry
//! point the chord already takes, so a button and a keystroke cannot disagree.

use vstd::prelude::*;

use crate::editor::history::Mode;
use crate::editor::keys::Action;
use crate::markdown::doc::Mark;
use crate::markdown::flatten::MarkPaint;
use crate::markdown::model::MarkView;
use crate::text::same_text;

verus! {

/// One button in the mark cluster.
#[derive(Clone, Debug, PartialEq, Eq)]
pub struct MarkButton {
    /// The element id, and the name of the fade the button animates under.
    pub key: &'static str,
    /// What the tooltip calls it.
    pub label: &'static str,
    pub mark: Mark,
    /// The action whose chord the tooltip prints. None for the two marks the
    /// app registered itself: they are toggled the same way but no chord
    /// reaches them.
    pub action: Option<Action>,
}

/// What a button of the cluster is.
pub struct ButtonView {
    pub key: Seq<char>,
    pub label: Seq<char>,
    pub mark: MarkView,
    pub action: Option<Action>,
}

impl View for MarkButton {
    type V = ButtonView;

    open spec fn view(&self) -> ButtonView {
        ButtonView {
            key: self.key@,
            label: self.label@,
            mark: self.mark@,
            action: self.action,
        }
    }
}

/// The marks the bar offers. The last two are the app's own.
pub open spec fn cluster() -> Seq<ButtonView> {
    seq![
        ButtonView {
            key: "bold"@,
            label: "Bold"@,
            mark: MarkView::Bold,
            action: Some(Action::ToggleBold),
        },
        ButtonView {
            key: "italic"@,
            label: "Italic"@,
            mark: MarkView::Italic,
            action: Some(Action::ToggleItalic),
        },
        ButtonView {
            key: "strike"@,
            label: "Strikethrough"@,
            mark: MarkView::Strike,
            action: Some(Action::ToggleStrike),
        },
        ButtonView {
            key: "code"@,
            label: "Code"@,
            mark: MarkView::Code,
            action: Some(Action::ToggleCode),
        },
        ButtonView {
            key: "highlight"@,
            label: "Highlight"@,
            mark: MarkView::Custom("highlight"@),
            action: None,
        },
        ButtonView {
            key: "underline"@,
            label: "Underline"@,
            mark: MarkView::Custom("underline"@),
            action: None,
        },
    ]
}

/// The marks the bar offers.
pub fn marks() -> (buttons: Vec<MarkButton>)
    ensures
        Seq::new(buttons@.len(), |i: int| buttons@[i]@) == cluster(),
{
    let mut buttons: Vec<MarkButton> = Vec::new();
    buttons.push(
        MarkButton {
            key: "bold",
            label: "Bold",
            mark: Mark::Bold,
            action: Some(Action::ToggleBold),
        },
    );
    buttons.push(
        MarkButton {
            key: "italic",
            label: "Italic",
            mark: Mark::Italic,
            action: Some(Action::ToggleItalic),
        },
    );
    buttons.push(
        MarkButton {
            key: "strike",
            label: "Strikethrough",
            mark: Mark::Strike,
            action: Some(Action::ToggleStrike),
        },
    );
    buttons.push(
        MarkButton {
            key: "code",
            label: "Code",
            mark: Mark::Code,
            action: Some(Action::ToggleCode),
        },
    );
    buttons.push(
        MarkButton {
            key: "highlight",
            label: "Highlight",
            mark: Mark::Custom("highlight".to_owned()),
            action: None,
        },
    );
    buttons.push(
        MarkButton {
            key: "underline",
            label: "Underline",
            mark: Mark::Custom("underline".to_owned()),
            action: None,
        },
    );
    assert(Seq::new(buttons@.len(), |i: int| buttons@[i]@) =~= cluster());
    buttons
}

/// What the app's own marks look like, `highlight` being the colour a yellow
/// highlight is known by. None for a name the app does not paint.
pub fn paint(name: &str, highlight: u32) -> (paint: Option<MarkPaint>)
    ensures
        paint == (if name@ == "highlight"@ {
            Some(MarkPaint { background: Some(highlight), ..MarkPaint::plain() })
        } else if name@ == "underline"@ {
            Some(MarkPaint { underline: true, ..MarkPaint::plain() })
        } else {
            None
        }),
{
    if same_text(name, "highlight") {
        let mut paint = MarkPaint::default();
        paint.background = Some(highlight);
        Some(paint)
    } else if same_text(name, "underline") {
        let mut paint = MarkPaint::default();
        paint.underline = true;
        Some(paint)
    } else {
        None
    }
}

/// What the block dropdown says: what the caret's block is called, and the
/// form it is in where that is the source. A bar with nothing to act on still
/// says what it is looking at.
pub fn turn_label(mode: Mode, block: &Option<String>) -> (label: String)
    ensures
        label@ == (if mode == Mode::Source {
            "Markdown"@
        } else {
            match *block {
                Some(block) => block@,
                None => "—"@,
            }
        }),
{
    match mode {
        Mode::Source => "Markdown".to_owned(),
        Mode::Blocks => match block {
            Some(block) => block.clone(),
            None => "—".to_owned(),
        },
    }
}

/// What the code button means right now: the same key spells an inline span and
/// a fence.
pub fn code_hint(fenceable: bool) -> (hint: &'static str)
    ensures
        hint@ == (if fenceable {
            "fences"@
        } else {
            "is inline code"@
        }),
{
    if fenceable {
        "fences"
    } else {
        "is inline code"
    }
}

} // verus!
