//! Option types and text checks of the PDF exporter.

use crate::text::chars_of;
use vstd::prelude::*;

verus! {

/// Built-in Standard 14 PDF font selection.
#[derive(Clone, Copy, Debug, PartialEq, Eq, Structural)]
pub enum PdfFontChoice {
    Helvetica,
    TimesRoman,
    Courier,
}

pub open spec fn pdf_font_label_of(f: PdfFontChoice) -> Seq<char> {
    match f {
        PdfFontChoice::Helvetica => "Helvetica"@,
        PdfFontChoice::TimesRoman => "Times"@,
        PdfFontChoice::Courier => "Courier"@,
    }
}

impl PdfFontChoice {
    /// Human-readable label for UI.
    pub fn label(self) -> (r: &'static str)
        ensures
            r@ == pdf_font_label_of(self),
    {
        match self {
            PdfFontChoice::Helvetica => "Helvetica",
            PdfFontChoice::TimesRoman => "Times",
            PdfFontChoice::Courier => "Courier",
        }
    }
}

/// `true` when the text is non-empty and every character lies in the
/// Latin-1 range that the Standard 14 fonts cover.
pub fn can_render_native_text(s: &str) -> (b: bool)
    ensures
        b == (s@.len() > 0 && forall|i: int| 0 <= i < s@.len() ==> '\u{ff}' >= #[trigger] s@[i]),
{
    let v = chars_of(s);
    if v.len() == 0 {
        return false;
    }
    let mut i: usize = 0;
    while i < v.len()
        invariant
            v@ == s@,
            i <= v@.len(),
            forall|j: int| 0 <= j < i ==> '\u{ff}' >= #[trigger] v@[j],
        decreases v.len() - i,
    {
        if v[i] > '\u{ff}' {
            return false;
        }
        i += 1;
    }
    true
}

} // verus!
