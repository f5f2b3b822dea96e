//! Pieces of styled text, painted by `owo_colors`.

use vstd::prelude::*;
use vstd::string::*;

use owo_colors::OwoColorize;

verus! {

/// A style of terminal text.
#[derive(Debug, Clone, Copy, PartialEq, Eq, Structural)]
pub enum Paint {
    /// Green foreground.
    Green,
    /// Red foreground.
    Red,
    /// Yellow foreground.
    Yellow,
    /// Cyan foreground.
    Cyan,
    /// Bold.
    Bold,
    /// Dimmed.
    Dim,
}

impl Paint {
    /// The style's ANSI code.
    pub open spec fn code(self) -> Seq<char> {
        match self {
            Paint::Green => "32"@,
            Paint::Red => "31"@,
            Paint::Yellow => "33"@,
            Paint::Cyan => "36"@,
            Paint::Bold => "1"@,
            Paint::Dim => "2"@,
        }
    }
}

/// `text` between the escape codes that switch the style on and off.
pub open spec fn painted(style: Paint, text: Seq<char>) -> Seq<char> {
    "\u{1b}["@ + style.code() + "m"@ + text + "\u{1b}[0m"@
}

/// `OwoColorize::style` with an `owo_colors::Style` of one color or effect,
/// printed: the text stands between the style's escape code and the code that
/// ends every style.
#[verifier::external_body]
fn styled(style: Paint, text: &str) -> (r: String)
    ensures
        r@ == painted(style, text@),
{
    let plain = owo_colors::Style::new();
    let style = match style {
        Paint::Green => plain.green(),
        Paint::Red => plain.red(),
        Paint::Yellow => plain.yellow(),
        Paint::Cyan => plain.cyan(),
        Paint::Bold => plain.bold(),
        Paint::Dim => plain.dimmed(),
    };
    text.style(style).to_string()
}

/// `text` painted where color is in use, otherwise as it is.
pub open spec fn paint_text(use_color: bool, style: Paint, text: Seq<char>) -> Seq<char> {
    if use_color {
        painted(style, text)
    } else {
        text
    }
}

/// `text` painted where color is in use, otherwise as it is.
pub fn paint(use_color: bool, style: Paint, text: &str) -> (r: String)
    ensures
        r@ == paint_text(use_color, style, text@),
{
    if use_color {
        styled(style, text)
    } else {
        text.to_owned()
    }
}

/// A piece of output with its style, if it has one.
#[derive(Debug, PartialEq, Eq)]
pub struct Piece {
    /// The style.
    pub style: Option<Paint>,
    /// The text.
    pub text: String,
}

/// The view of a [`Piece`].
#[verifier::ext_equal]
pub struct PieceView {
    pub style: Option<Paint>,
    pub text: Seq<char>,
}

impl View for Piece {
    type V = PieceView;

    open spec fn view(&self) -> PieceView {
        PieceView { style: self.style, text: self.text@ }
    }
}

/// The views of a sequence of pieces.
pub open spec fn piece_views(pieces: Seq<Piece>) -> Seq<PieceView> {
    pieces.map_values(|p: Piece| p@)
}

/// A piece without style.
pub open spec fn bare_piece(text: Seq<char>) -> PieceView {
    PieceView { style: None, text }
}

/// A piece with a style.
pub open spec fn styled_piece(style: Paint, text: Seq<char>) -> PieceView {
    PieceView { style: Some(style), text }
}

/// A piece without style.
pub fn bare(text: &str) -> (r: Piece)
    ensures
        r@ == bare_piece(text@),
{
    Piece { style: None, text: text.to_owned() }
}

/// A piece with a style.
pub fn with_style(style: Paint, text: &str) -> (r: Piece)
    ensures
        r@ == styled_piece(style, text@),
{
    Piece { style: Some(style), text: text.to_owned() }
}

/// What is written for a piece.
pub open spec fn piece_text(use_color: bool, piece: PieceView) -> Seq<char> {
    match piece.style {
        Some(style) => paint_text(use_color, style, piece.text),
        None => piece.text,
    }
}

/// What is written for a sequence of pieces.
pub open spec fn pieces_text(use_color: bool, pieces: Seq<PieceView>) -> Seq<char>
    decreases pieces.len(),
{
    if pieces.len() == 0 {
        Seq::empty()
    } else {
        pieces_text(use_color, pieces.drop_last()) + piece_text(use_color, pieces.last())
    }
}

/// Write a sequence of pieces.
pub fn write_pieces(use_color: bool, pieces: &Vec<Piece>) -> (r: String)
    ensures
        r@ == pieces_text(use_color, piece_views(pieces@)),
{
    let ghost all = piece_views(pieces@);
    let mut out = String::new();
    assert(all.take(0) =~= Seq::empty());
    for i in 0..pieces.len()
        invariant
            all == piece_views(pieces@),
            out@ == pieces_text(use_color, all.take(i as int)),
    {
        assert(all.take(i + 1).drop_last() =~= all.take(i as int));
        match pieces[i].style {
            Some(style) => {
                out.append(paint(use_color, style, pieces[i].text.as_str()).as_str());
            },
            None => {
                out.append(pieces[i].text.as_str());
            },
        }
    }
    assert(all.take(all.len() as int) =~= all);
    out
}

} // verus!
