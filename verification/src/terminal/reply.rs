//! What the terminal writes back to the program, and what it tells its host.

use vstd::prelude::*;

use crate::terminal::screen::Notice;
use crate::terminal::stream::ESC;

verus! {

/// A number in decimal digits.
pub open spec fn decimal(n: nat) -> Seq<u8>
    decreases n,
{
    if n < 10 {
        seq![(0x30 + n) as u8]
    } else {
        decimal(n / 10).push((0x30 + n % 10) as u8)
    }
}

/// A size report: `ESC [ kind ; height ; width t`.
pub open spec fn report(kind: u8, height: nat, width: nat) -> Seq<u8> {
    seq![ESC, 0x5b, kind, 0x3b] + decimal(height) + seq![0x3bu8] + decimal(width) + seq![0x74u8]
}

/// The grid and its cell in whole pixels, which is what the size reports
/// carry.
#[derive(Debug, Clone, Copy, PartialEq, Eq, Structural)]
pub struct WindowSize {
    pub num_lines: u16,
    pub num_cols: u16,
    pub cell_width: u16,
    pub cell_height: u16,
}

impl WindowSize {
    /// The answer to `CSI 16 t`: one cell in pixels.
    pub open spec fn cell_report(self) -> Seq<u8> {
        report(0x36, self.cell_height as nat, self.cell_width as nat)
    }

    /// The answer to `CSI 14 t`: the text area in pixels, counted in sixteen
    /// bits.
    pub open spec fn area_report(self) -> Seq<u8> {
        report(
            0x34,
            ((self.num_lines * self.cell_height) % 0x1_0000) as nat,
            ((self.num_cols * self.cell_width) % 0x1_0000) as nat,
        )
    }
}

/// The answer a VT102 gives to DA1, `CSI ? 6 c`.
pub open spec fn vt102() -> Seq<u8> {
    seq![0x1b, 0x5b, 0x3f, 0x36, 0x63]
}

/// The answer a VT220 with sixel graphics gives to DA1, `CSI ? 62 ; 4 ; 22 c`.
pub open spec fn vt220_sixel() -> Seq<u8> {
    seq![0x1b, 0x5b, 0x3f, 0x36, 0x32, 0x3b, 0x34, 0x3b, 0x32, 0x32, 0x63]
}

/// What a terminal has told its host and its program.
#[verifier::ext_equal]
pub struct Said {
    pub title: Option<Seq<char>>,
    pub bell: bool,
    pub responses: Seq<u8>,
}

impl Said {
    pub open spec fn write(self, bytes: Seq<u8>) -> Said {
        Said { responses: self.responses + bytes, ..self }
    }

    /// One notice acted on. The terminal answers DA1 as a VT102, which is
    /// changed where sixel graphics are advertised.
    pub open spec fn hear(self, notice: Notice, sixel: bool, window: Option<WindowSize>) -> Said {
        match notice {
            Notice::PtyWrite(text) => {
                let bytes = vstd::utf8::encode_utf8(text@);
                self.write(
                    if sixel && bytes == vt102() {
                        vt220_sixel()
                    } else {
                        bytes
                    },
                )
            },
            Notice::TextAreaSize => match window {
                Some(window) => self.write(window.area_report()),
                None => self,
            },
            Notice::Title(title) => Said { title: Some(title@), ..self },
            Notice::ResetTitle => Said { title: None, ..self },
            Notice::Bell => Said { bell: true, ..self },
            Notice::Other => self,
        }
    }

    /// The first `n` notices acted on, in order.
    pub open spec fn hear_all(
        self,
        notices: Seq<Notice>,
        n: int,
        sixel: bool,
        window: Option<WindowSize>,
    ) -> Said
        decreases n,
    {
        if n <= 0 {
            self
        } else {
            self.hear_all(notices, n - 1, sixel, window).hear(notices[n - 1], sixel, window)
        }
    }
}

/// Append bytes to a reply.
pub fn push_bytes(out: &mut Vec<u8>, bytes: &[u8])
    ensures
        final(out)@ == old(out)@ + bytes@,
{
    let mut i: usize = 0;
    assert(out@ =~= old(out)@ + bytes@.subrange(0, 0));
    while i < bytes.len()
        invariant
            i <= bytes@.len(),
            out@ == old(out)@ + bytes@.subrange(0, i as int),
        decreases bytes@.len() - i,
    {
        out.push(bytes[i]);
        i = i + 1;
        assert(out@ =~= old(out)@ + bytes@.subrange(0, i as int));
    }
    assert(bytes@.subrange(0, i as int) =~= bytes@);
}

/// Append a number in decimal digits.
fn push_decimal(out: &mut Vec<u8>, n: u32)
    ensures
        final(out)@ == old(out)@ + decimal(n as nat),
    decreases n,
{
    if n >= 10 {
        push_decimal(out, n / 10);
    }
    let ghost before = out@;
    out.push((0x30 + n % 10) as u8);
    proof {
        if n >= 10 {
            assert(out@ =~= old(out)@ + decimal((n / 10) as nat).push((0x30 + n % 10) as u8));
        } else {
            assert(out@ =~= old(out)@ + decimal(n as nat));
        }
    }
}

/// Append a size report.
fn push_report(out: &mut Vec<u8>, kind: u8, height: u32, width: u32)
    ensures
        final(out)@ == old(out)@ + report(kind, height as nat, width as nat),
{
    let start: [u8; 4] = [ESC, 0x5b, kind, 0x3b];
    push_bytes(out, &start);
    push_decimal(out, height);
    out.push(0x3b);
    push_decimal(out, width);
    out.push(0x74);
    proof {
        assert(start@ =~= seq![ESC, 0x5b, kind, 0x3b]);
        assert(out@ =~= old(out)@ + report(kind, height as nat, width as nat));
    }
}

/// Append the answer to `CSI 16 t`.
pub fn push_cell_report(out: &mut Vec<u8>, window: WindowSize)
    ensures
        final(out)@ == old(out)@ + window.cell_report(),
{
    push_report(out, 0x36, window.cell_height as u32, window.cell_width as u32);
}

/// Append the answer to `CSI 14 t`.
fn push_area_report(out: &mut Vec<u8>, window: WindowSize)
    ensures
        final(out)@ == old(out)@ + window.area_report(),
{
    push_report(
        out,
        0x34,
        window.num_lines.wrapping_mul(window.cell_height) as u32,
        window.num_cols.wrapping_mul(window.cell_width) as u32,
    );
}

/// Whether two runs of bytes are the same.
fn same_bytes(a: &[u8], b: &[u8]) -> (yes: bool)
    ensures
        yes == (a@ == b@),
{
    if a.len() != b.len() {
        return false;
    }
    let mut i: usize = 0;
    while i < a.len()
        invariant
            a@.len() == b@.len(),
            i <= a@.len(),
            forall|j: int| 0 <= j < i ==> a@[j] == b@[j],
        decreases a@.len() - i,
    {
        if a[i] != b[i] {
            return false;
        }
        i = i + 1;
    }
    assert(a@ =~= b@);
    true
}

/// What a terminal has told its host.
#[derive(Debug)]
pub struct Status {
    pub title: Option<String>,
    pub bell: bool,
}

/// A text, as a mathematical value.
pub open spec fn text_view(text: Option<String>) -> Option<Seq<char>> {
    match text {
        Some(text) => Some(text@),
        None => None,
    }
}

impl Status {
    pub open spec fn said(&self, responses: Seq<u8>) -> Said {
        Said { title: text_view(self.title), bell: self.bell, responses }
    }

    /// Act on what the terminal raised, in order.
    pub fn hear(
        &mut self,
        notices: &Vec<Notice>,
        sixel: bool,
        window: Option<WindowSize>,
        responses: &mut Vec<u8>,
    )
        ensures
            final(self).said(final(responses)@) == old(self).said(old(responses)@).hear_all(
                notices@,
                notices@.len() as int,
                sixel,
                window,
            ),
    {
        let ghost start = self.said(responses@);
        let mut i: usize = 0;
        while i < notices.len()
            invariant
                i <= notices@.len(),
                self.said(responses@) == start.hear_all(notices@, i as int, sixel, window),
            decreases notices@.len() - i,
        {
            let ghost before = self.said(responses@);
            match &notices[i] {
                Notice::PtyWrite(text) => {
                    let plain: [u8; 5] = [0x1b, 0x5b, 0x3f, 0x36, 0x63];
                    let sixels: [u8; 11] = [
                        0x1b, 0x5b, 0x3f, 0x36, 0x32, 0x3b, 0x34, 0x3b, 0x32, 0x32, 0x63,
                    ];
                    assert(plain@ =~= vt102());
                    assert(sixels@ =~= vt220_sixel());
                    // `Term` answers DA1 as a VT102.
                    if sixel && same_bytes(text.as_str().as_bytes(), &plain) {
                        push_bytes(responses, &sixels);
                    } else {
                        push_bytes(responses, text.as_str().as_bytes());
                    }
                },
                Notice::TextAreaSize => {
                    if let Some(window) = window {
                        push_area_report(responses, window);
                    }
                },
                Notice::Title(title) => {
                    self.title = Some(title.clone());
                },
                Notice::ResetTitle => {
                    self.title = None;
                },
                Notice::Bell => {
                    self.bell = true;
                },
                Notice::Other => {},
            }
            proof {
                assert(self.said(responses@) =~= before.hear(notices@[i as int], sixel, window));
            }
            i = i + 1;
        }
    }
}

} // verus!
