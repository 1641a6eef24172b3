//! Rendering of markdown into styled terminal lines.
//!
//! The markdown is tokenised by pulldown-cmark into a stream of events; the
//! events are then rendered by a state machine into lines of styled spans,
//! together with the positions of embedded images and of links. Headings get
//! underline rows, code blocks get a border, tables are laid out with
//! box-drawing characters, and list items get bullets or numbers.
use vstd::prelude::*;
use crate::text::{
    lowercase, to_lowercase, chars_of, string_of, eq_str, push_all, slice_vec, starts_with, has_prefix,
    split, split_vec, lemma_split_nonempty, decimal, decimal_vec, repeat_char,
};
use crate::path::{path_join, join_path, file_name, file_name_vec};
use crate::wikilink::opt_str;
use vstd::string::StrSliceExecFns;
use pulldown_cmark::{CodeBlockKind, Event, Options, Parser, Tag, TagEnd};

verus! {

/// A terminal color.
#[derive(Clone, Copy, PartialEq, Eq, Structural, Debug)]
pub enum Color {
    Reset,
    Black,
    Red,
    Green,
    Yellow,
    Blue,
    Magenta,
    Cyan,
    Gray,
    DarkGray,
    LightRed,
    LightGreen,
    LightYellow,
    LightBlue,
    LightMagenta,
    LightCyan,
    White,
}

/// Bold text.
pub const BOLD: u16 = 1;

/// Dim text.
pub const DIM: u16 = 2;

/// Italic text.
pub const ITALIC: u16 = 4;

/// Underlined text.
pub const UNDERLINED: u16 = 8;

/// Text with foreground and background swapped.
pub const REVERSED: u16 = 64;

/// The style of a span: a foreground color, if any, and the modifier bits
/// added to the text.
#[derive(Clone, Copy, PartialEq, Eq, Structural, Debug)]
pub struct Style {
    pub fg: Option<Color>,
    pub add_modifier: u16,
}

/// The plain style: no color, no modifier.
pub open spec fn plain() -> Style {
    Style { fg: None, add_modifier: 0 }
}

/// `s` with foreground `c`.
pub open spec fn with_fg(s: Style, c: Color) -> Style {
    Style { fg: Some(c), add_modifier: s.add_modifier }
}

/// `s` with the modifier bits `m` added.
pub open spec fn with_mod(s: Style, m: u16) -> Style {
    Style { fg: s.fg, add_modifier: s.add_modifier | m }
}

impl Style {
    /// The plain style.
    pub fn new() -> (r: Style)
        ensures
            r == plain(),
    {
        Style { fg: None, add_modifier: 0 }
    }

    /// This style with foreground `c`.
    pub fn fg(self, c: Color) -> (r: Style)
        ensures
            r == with_fg(self, c),
    {
        Style { fg: Some(c), add_modifier: self.add_modifier }
    }

    /// This style with the modifier bits `m` added.
    pub fn add(self, m: u16) -> (r: Style)
        ensures
            r == with_mod(self, m),
    {
        Style { fg: self.fg, add_modifier: self.add_modifier | m }
    }
}

/// A piece of text in one style.
pub struct Span {
    pub content: String,
    pub style: Style,
}

/// One rendered row.
pub struct Line {
    pub spans: Vec<Span>,
}

/// A span as text and style.
#[verifier::ext_equal]
pub struct SpanV {
    pub text: Seq<char>,
    pub style: Style,
}

pub open spec fn span_view(s: Span) -> SpanV {
    SpanV { text: s.content@, style: s.style }
}

pub open spec fn spans_view(v: Seq<Span>) -> Seq<SpanV> {
    v.map_values(|s: Span| span_view(s))
}

pub open spec fn line_view(l: Line) -> Seq<SpanV> {
    spans_view(l.spans@)
}

pub open spec fn lines_view(v: Seq<Line>) -> Seq<Seq<SpanV>> {
    v.map_values(|l: Line| line_view(l))
}

/// A span of `text` in `style`.
pub open spec fn sv(text: Seq<char>, style: Style) -> SpanV {
    SpanV { text, style }
}

/// Colors and sizes that rendering uses.
#[derive(Clone, Copy, PartialEq, Eq, Structural, Debug)]
pub struct RenderConfig {
    pub h1_color: Color,
    pub heading_color: Color,
    pub code_color: Color,
    pub image_height: u16,
}

impl Default for RenderConfig {
    /// Light red top-level headings, cyan headings, yellow code, and images
    /// twelve rows high.
    fn default() -> (r: Self)
        ensures
            r == (RenderConfig {
                h1_color: Color::LightRed,
                heading_color: Color::Cyan,
                code_color: Color::Yellow,
                image_height: 12,
            }),
    {
        RenderConfig {
            h1_color: Color::LightRed,
            heading_color: Color::Cyan,
            code_color: Color::Yellow,
            image_height: 12,
        }
    }
}

/// The color of a heading of `level`: top-level headings have their own.
pub open spec fn heading_color_of(cfg: RenderConfig, level: u8) -> Color {
    if level == 1 {
        cfg.h1_color
    } else {
        cfg.heading_color
    }
}

impl RenderConfig {
    /// The default configuration, for use in specifications.
    pub open spec fn default_spec() -> RenderConfig {
        RenderConfig {
            h1_color: Color::LightRed,
            heading_color: Color::Cyan,
            code_color: Color::Yellow,
            image_height: 12,
        }
    }

    /// The color of a heading of `level`.
    pub fn heading_color_for(&self, level: u8) -> (r: Color)
        ensures
            r == heading_color_of(*self, level),
    {
        if level == 1 {
            self.h1_color
        } else {
            self.heading_color
        }
    }
}

/// An image shown in the output: its file, the row where it starts, and how
/// many rows it takes.
pub struct ImageRef {
    pub path: String,
    pub line_offset: usize,
    pub height: u16,
}

/// Where a link leads.
#[derive(Clone, Debug, PartialEq, Eq)]
pub enum LinkTarget {
    Local(String),
    Url(String),
}

/// A link in the output: its row, the columns (in characters) its text
/// covers, and where it leads.
pub struct LinkRef {
    pub line: usize,
    pub col_start: usize,
    pub col_end: usize,
    pub target: LinkTarget,
}

/// What rendering gives: the rows, the images and the links.
pub struct ParseResult {
    pub lines: Vec<Line>,
    pub images: Vec<ImageRef>,
    pub links: Vec<LinkRef>,
}

#[verifier::ext_equal]
pub struct ImageRefV {
    pub path: Seq<char>,
    pub line_offset: int,
    pub height: int,
}

pub enum LinkTargetV {
    Local(Seq<char>),
    Url(Seq<char>),
}

#[verifier::ext_equal]
pub struct LinkRefV {
    pub line: int,
    pub col_start: int,
    pub col_end: int,
    pub target: LinkTargetV,
}

#[verifier::ext_equal]
pub struct ResultV {
    pub lines: Seq<Seq<SpanV>>,
    pub images: Seq<ImageRefV>,
    pub links: Seq<LinkRefV>,
}

pub open spec fn image_view(i: ImageRef) -> ImageRefV {
    ImageRefV { path: i.path@, line_offset: i.line_offset as int, height: i.height as int }
}

pub open spec fn target_view(t: LinkTarget) -> LinkTargetV {
    match t {
        LinkTarget::Local(p) => LinkTargetV::Local(p@),
        LinkTarget::Url(u) => LinkTargetV::Url(u@),
    }
}

pub open spec fn link_view(l: LinkRef) -> LinkRefV {
    LinkRefV {
        line: l.line as int,
        col_start: l.col_start as int,
        col_end: l.col_end as int,
        target: target_view(l.target),
    }
}

impl View for ParseResult {
    type V = ResultV;

    open spec fn view(&self) -> ResultV {
        ResultV {
            lines: lines_view(self.lines@),
            images: self.images@.map_values(|i: ImageRef| image_view(i)),
            links: self.links@.map_values(|l: LinkRef| link_view(l)),
        }
    }
}

/// The color a color name stands for, ignoring case; unknown names give
/// white.
pub open spec fn color_of_name(name: Seq<char>) -> Color {
    if name == "red"@ {
        Color::Red
    } else if name == "green"@ {
        Color::Green
    } else if name == "blue"@ {
        Color::Blue
    } else if name == "cyan"@ {
        Color::Cyan
    } else if name == "yellow"@ {
        Color::Yellow
    } else if name == "magenta"@ {
        Color::Magenta
    } else if name == "white"@ {
        Color::White
    } else if name == "black"@ {
        Color::Black
    } else if name == "gray"@ || name == "grey"@ {
        Color::Gray
    } else if name == "darkgray"@ || name == "dark_gray"@ || name == "darkgrey"@ || name == "dark_grey"@ {
        Color::DarkGray
    } else if name == "lightred"@ || name == "light_red"@ {
        Color::LightRed
    } else if name == "lightgreen"@ || name == "light_green"@ {
        Color::LightGreen
    } else if name == "lightblue"@ || name == "light_blue"@ {
        Color::LightBlue
    } else if name == "lightcyan"@ || name == "light_cyan"@ {
        Color::LightCyan
    } else if name == "lightyellow"@ || name == "light_yellow"@ {
        Color::LightYellow
    } else if name == "lightmagenta"@ || name == "light_magenta"@ {
        Color::LightMagenta
    } else {
        Color::White
    }
}

/// The names of a color in a theme, in lower case: its plain name and, for
/// the compound ones, the spellings with `_` and with `grey`; `Reset` has
/// none.
pub open spec fn color_names(c: Color) -> Seq<Seq<char>> {
    match c {
        Color::Reset => seq![],
        Color::Black => seq!["black"@],
        Color::Red => seq!["red"@],
        Color::Green => seq!["green"@],
        Color::Yellow => seq!["yellow"@],
        Color::Blue => seq!["blue"@],
        Color::Magenta => seq!["magenta"@],
        Color::Cyan => seq!["cyan"@],
        Color::Gray => seq!["gray"@, "grey"@],
        Color::DarkGray => seq!["darkgray"@, "dark_gray"@, "darkgrey"@, "dark_grey"@],
        Color::LightRed => seq!["lightred"@, "light_red"@],
        Color::LightGreen => seq!["lightgreen"@, "light_green"@],
        Color::LightYellow => seq!["lightyellow"@, "light_yellow"@],
        Color::LightBlue => seq!["lightblue"@, "light_blue"@],
        Color::LightMagenta => seq!["lightmagenta"@, "light_magenta"@],
        Color::LightCyan => seq!["lightcyan"@, "light_cyan"@],
        Color::White => seq!["white"@],
    }
}

/// Every name of a color stands for that color.
pub proof fn lemma_color_names(c: Color, k: int)
    requires
        0 <= k < color_names(c).len(),
    ensures
        color_of_name(color_names(c)[k]) == c,
{
    let n = color_names(c)[k];
    match c {
        Color::Reset => {
            assert(color_names(c).len() == 0);
        },
        Color::Black => {
            if k == 0 {
                reveal_strlit("black");
                assert(n == "black"@);
                reveal_strlit("red");
                assert(n.len() != "red"@.len());
                reveal_strlit("green");
                assert(n[0] != "green"@[0]);
                reveal_strlit("blue");
                assert(n.len() != "blue"@.len());
                reveal_strlit("cyan");
                assert(n.len() != "cyan"@.len());
                reveal_strlit("yellow");
                assert(n.len() != "yellow"@.len());
                reveal_strlit("magenta");
                assert(n.len() != "magenta"@.len());
                reveal_strlit("white");
                assert(n[0] != "white"@[0]);
            }
        },
        Color::Red => {
            if k == 0 {
                reveal_strlit("red");
                assert(n == "red"@);
            }
        },
        Color::Green => {
            if k == 0 {
                reveal_strlit("green");
                assert(n == "green"@);
                reveal_strlit("red");
                assert(n.len() != "red"@.len());
            }
        },
        Color::Yellow => {
            if k == 0 {
                reveal_strlit("yellow");
                assert(n == "yellow"@);
                reveal_strlit("red");
                assert(n.len() != "red"@.len());
                reveal_strlit("green");
                assert(n.len() != "green"@.len());
                reveal_strlit("blue");
                assert(n.len() != "blue"@.len());
                reveal_strlit("cyan");
                assert(n.len() != "cyan"@.len());
            }
        },
        Color::Blue => {
            if k == 0 {
                reveal_strlit("blue");
                assert(n == "blue"@);
                reveal_strlit("red");
                assert(n.len() != "red"@.len());
                reveal_strlit("green");
                assert(n.len() != "green"@.len());
            }
        },
        Color::Magenta => {
            if k == 0 {
                reveal_strlit("magenta");
                assert(n == "magenta"@);
                reveal_strlit("red");
                assert(n.len() != "red"@.len());
                reveal_strlit("green");
                assert(n.len() != "green"@.len());
                reveal_strlit("blue");
                assert(n.len() != "blue"@.len());
                reveal_strlit("cyan");
                assert(n.len() != "cyan"@.len());
                reveal_strlit("yellow");
                assert(n.len() != "yellow"@.len());
            }
        },
        Color::Cyan => {
            if k == 0 {
                reveal_strlit("cyan");
                assert(n == "cyan"@);
                reveal_strlit("red");
                assert(n.len() != "red"@.len());
                reveal_strlit("green");
                assert(n.len() != "green"@.len());
                reveal_strlit("blue");
                assert(n[0] != "blue"@[0]);
            }
        },
        Color::Gray => {
            if k == 0 {
                reveal_strlit("gray");
                assert(n == "gray"@);
                reveal_strlit("red");
                assert(n.len() != "red"@.len());
                reveal_strlit("green");
                assert(n.len() != "green"@.len());
                reveal_strlit("blue");
                assert(n[0] != "blue"@[0]);
                reveal_strlit("cyan");
                assert(n[0] != "cyan"@[0]);
                reveal_strlit("yellow");
                assert(n.len() != "yellow"@.len());
                reveal_strlit("magenta");
                assert(n.len() != "magenta"@.len());
                reveal_strlit("white");
                assert(n.len() != "white"@.len());
                reveal_strlit("black");
                assert(n.len() != "black"@.len());
            }
            if k == 1 {
                reveal_strlit("grey");
                assert(n == "grey"@);
                reveal_strlit("red");
                assert(n.len() != "red"@.len());
                reveal_strlit("green");
                assert(n.len() != "green"@.len());
                reveal_strlit("blue");
                assert(n[0] != "blue"@[0]);
                reveal_strlit("cyan");
                assert(n[0] != "cyan"@[0]);
                reveal_strlit("yellow");
                assert(n.len() != "yellow"@.len());
                reveal_strlit("magenta");
                assert(n.len() != "magenta"@.len());
                reveal_strlit("white");
                assert(n.len() != "white"@.len());
                reveal_strlit("black");
                assert(n.len() != "black"@.len());
                reveal_strlit("gray");
                assert(n[2] != "gray"@[2]);
            }
        },
        Color::DarkGray => {
            if k == 0 {
                reveal_strlit("darkgray");
                assert(n == "darkgray"@);
                reveal_strlit("red");
                assert(n.len() != "red"@.len());
                reveal_strlit("green");
                assert(n.len() != "green"@.len());
                reveal_strlit("blue");
                assert(n.len() != "blue"@.len());
                reveal_strlit("cyan");
                assert(n.len() != "cyan"@.len());
                reveal_strlit("yellow");
                assert(n.len() != "yellow"@.len());
                reveal_strlit("magenta");
                assert(n.len() != "magenta"@.len());
                reveal_strlit("white");
                assert(n.len() != "white"@.len());
                reveal_strlit("black");
                assert(n.len() != "black"@.len());
                reveal_strlit("gray");
                assert(n.len() != "gray"@.len());
                reveal_strlit("grey");
                assert(n.len() != "grey"@.len());
            }
            if k == 1 {
                reveal_strlit("dark_gray");
                assert(n == "dark_gray"@);
                reveal_strlit("red");
                assert(n.len() != "red"@.len());
                reveal_strlit("green");
                assert(n.len() != "green"@.len());
                reveal_strlit("blue");
                assert(n.len() != "blue"@.len());
                reveal_strlit("cyan");
                assert(n.len() != "cyan"@.len());
                reveal_strlit("yellow");
                assert(n.len() != "yellow"@.len());
                reveal_strlit("magenta");
                assert(n.len() != "magenta"@.len());
                reveal_strlit("white");
                assert(n.len() != "white"@.len());
                reveal_strlit("black");
                assert(n.len() != "black"@.len());
                reveal_strlit("gray");
                assert(n.len() != "gray"@.len());
                reveal_strlit("grey");
                assert(n.len() != "grey"@.len());
                reveal_strlit("darkgray");
                assert(n.len() != "darkgray"@.len());
            }
            if k == 2 {
                reveal_strlit("darkgrey");
                assert(n == "darkgrey"@);
                reveal_strlit("red");
                assert(n.len() != "red"@.len());
                reveal_strlit("green");
                assert(n.len() != "green"@.len());
                reveal_strlit("blue");
                assert(n.len() != "blue"@.len());
                reveal_strlit("cyan");
                assert(n.len() != "cyan"@.len());
                reveal_strlit("yellow");
                assert(n.len() != "yellow"@.len());
                reveal_strlit("magenta");
                assert(n.len() != "magenta"@.len());
                reveal_strlit("white");
                assert(n.len() != "white"@.len());
                reveal_strlit("black");
                assert(n.len() != "black"@.len());
                reveal_strlit("gray");
                assert(n.len() != "gray"@.len());
                reveal_strlit("grey");
                assert(n.len() != "grey"@.len());
                reveal_strlit("darkgray");
                assert(n[6] != "darkgray"@[6]);
                reveal_strlit("dark_gray");
                assert(n.len() != "dark_gray"@.len());
            }
            if k == 3 {
                reveal_strlit("dark_grey");
                assert(n == "dark_grey"@);
                reveal_strlit("red");
                assert(n.len() != "red"@.len());
                reveal_strlit("green");
                assert(n.len() != "green"@.len());
                reveal_strlit("blue");
                assert(n.len() != "blue"@.len());
                reveal_strlit("cyan");
                assert(n.len() != "cyan"@.len());
                reveal_strlit("yellow");
                assert(n.len() != "yellow"@.len());
                reveal_strlit("magenta");
                assert(n.len() != "magenta"@.len());
                reveal_strlit("white");
                assert(n.len() != "white"@.len());
                reveal_strlit("black");
                assert(n.len() != "black"@.len());
                reveal_strlit("gray");
                assert(n.len() != "gray"@.len());
                reveal_strlit("grey");
                assert(n.len() != "grey"@.len());
                reveal_strlit("darkgray");
                assert(n.len() != "darkgray"@.len());
                reveal_strlit("dark_gray");
                assert(n[7] != "dark_gray"@[7]);
                reveal_strlit("darkgrey");
                assert(n.len() != "darkgrey"@.len());
            }
        },
        Color::LightRed => {
            if k == 0 {
                reveal_strlit("lightred");
                assert(n == "lightred"@);
                reveal_strlit("red");
                assert(n.len() != "red"@.len());
                reveal_strlit("green");
                assert(n.len() != "green"@.len());
                reveal_strlit("blue");
                assert(n.len() != "blue"@.len());
                reveal_strlit("cyan");
                assert(n.len() != "cyan"@.len());
                reveal_strlit("yellow");
                assert(n.len() != "yellow"@.len());
                reveal_strlit("magenta");
                assert(n.len() != "magenta"@.len());
                reveal_strlit("white");
                assert(n.len() != "white"@.len());
                reveal_strlit("black");
                assert(n.len() != "black"@.len());
                reveal_strlit("gray");
                assert(n.len() != "gray"@.len());
                reveal_strlit("grey");
                assert(n.len() != "grey"@.len());
                reveal_strlit("darkgray");
                assert(n[0] != "darkgray"@[0]);
                reveal_strlit("dark_gray");
                assert(n.len() != "dark_gray"@.len());
                reveal_strlit("darkgrey");
                assert(n[0] != "darkgrey"@[0]);
                reveal_strlit("dark_grey");
                assert(n.len() != "dark_grey"@.len());
            }
            if k == 1 {
                reveal_strlit("light_red");
                assert(n == "light_red"@);
                reveal_strlit("red");
                assert(n.len() != "red"@.len());
                reveal_strlit("green");
                assert(n.len() != "green"@.len());
                reveal_strlit("blue");
                assert(n.len() != "blue"@.len());
                reveal_strlit("cyan");
                assert(n.len() != "cyan"@.len());
                reveal_strlit("yellow");
                assert(n.len() != "yellow"@.len());
                reveal_strlit("magenta");
                assert(n.len() != "magenta"@.len());
                reveal_strlit("white");
                assert(n.len() != "white"@.len());
                reveal_strlit("black");
                assert(n.len() != "black"@.len());
                reveal_strlit("gray");
                assert(n.len() != "gray"@.len());
                reveal_strlit("grey");
                assert(n.len() != "grey"@.len());
                reveal_strlit("darkgray");
                assert(n.len() != "darkgray"@.len());
                reveal_strlit("dark_gray");
                assert(n[0] != "dark_gray"@[0]);
                reveal_strlit("darkgrey");
                assert(n.len() != "darkgrey"@.len());
                reveal_strlit("dark_grey");
                assert(n[0] != "dark_grey"@[0]);
                reveal_strlit("lightred");
                assert(n.len() != "lightred"@.len());
            }
        },
        Color::LightGreen => {
            if k == 0 {
                reveal_strlit("lightgreen");
                assert(n == "lightgreen"@);
                reveal_strlit("red");
                assert(n.len() != "red"@.len());
                reveal_strlit("green");
                assert(n.len() != "green"@.len());
                reveal_strlit("blue");
                assert(n.len() != "blue"@.len());
                reveal_strlit("cyan");
                assert(n.len() != "cyan"@.len());
                reveal_strlit("yellow");
                assert(n.len() != "yellow"@.len());
                reveal_strlit("magenta");
                assert(n.len() != "magenta"@.len());
                reveal_strlit("white");
                assert(n.len() != "white"@.len());
                reveal_strlit("black");
                assert(n.len() != "black"@.len());
                reveal_strlit("gray");
                assert(n.len() != "gray"@.len());
                reveal_strlit("grey");
                assert(n.len() != "grey"@.len());
                reveal_strlit("darkgray");
                assert(n.len() != "darkgray"@.len());
                reveal_strlit("dark_gray");
                assert(n.len() != "dark_gray"@.len());
                reveal_strlit("darkgrey");
                assert(n.len() != "darkgrey"@.len());
                reveal_strlit("dark_grey");
                assert(n.len() != "dark_grey"@.len());
                reveal_strlit("lightred");
                assert(n.len() != "lightred"@.len());
                reveal_strlit("light_red");
                assert(n.len() != "light_red"@.len());
            }
            if k == 1 {
                reveal_strlit("light_green");
                assert(n == "light_green"@);
                reveal_strlit("red");
                assert(n.len() != "red"@.len());
                reveal_strlit("green");
                assert(n.len() != "green"@.len());
                reveal_strlit("blue");
                assert(n.len() != "blue"@.len());
                reveal_strlit("cyan");
                assert(n.len() != "cyan"@.len());
                reveal_strlit("yellow");
                assert(n.len() != "yellow"@.len());
                reveal_strlit("magenta");
                assert(n.len() != "magenta"@.len());
                reveal_strlit("white");
                assert(n.len() != "white"@.len());
                reveal_strlit("black");
                assert(n.len() != "black"@.len());
                reveal_strlit("gray");
                assert(n.len() != "gray"@.len());
                reveal_strlit("grey");
                assert(n.len() != "grey"@.len());
                reveal_strlit("darkgray");
                assert(n.len() != "darkgray"@.len());
                reveal_strlit("dark_gray");
                assert(n.len() != "dark_gray"@.len());
                reveal_strlit("darkgrey");
                assert(n.len() != "darkgrey"@.len());
                reveal_strlit("dark_grey");
                assert(n.len() != "dark_grey"@.len());
                reveal_strlit("lightred");
                assert(n.len() != "lightred"@.len());
                reveal_strlit("light_red");
                assert(n.len() != "light_red"@.len());
                reveal_strlit("lightgreen");
                assert(n.len() != "lightgreen"@.len());
            }
        },
        Color::LightYellow => {
            if k == 0 {
                reveal_strlit("lightyellow");
                assert(n == "lightyellow"@);
                reveal_strlit("red");
                assert(n.len() != "red"@.len());
                reveal_strlit("green");
                assert(n.len() != "green"@.len());
                reveal_strlit("blue");
                assert(n.len() != "blue"@.len());
                reveal_strlit("cyan");
                assert(n.len() != "cyan"@.len());
                reveal_strlit("yellow");
                assert(n.len() != "yellow"@.len());
                reveal_strlit("magenta");
                assert(n.len() != "magenta"@.len());
                reveal_strlit("white");
                assert(n.len() != "white"@.len());
                reveal_strlit("black");
                assert(n.len() != "black"@.len());
                reveal_strlit("gray");
                assert(n.len() != "gray"@.len());
                reveal_strlit("grey");
                assert(n.len() != "grey"@.len());
                reveal_strlit("darkgray");
                assert(n.len() != "darkgray"@.len());
                reveal_strlit("dark_gray");
                assert(n.len() != "dark_gray"@.len());
                reveal_strlit("darkgrey");
                assert(n.len() != "darkgrey"@.len());
                reveal_strlit("dark_grey");
                assert(n.len() != "dark_grey"@.len());
                reveal_strlit("lightred");
                assert(n.len() != "lightred"@.len());
                reveal_strlit("light_red");
                assert(n.len() != "light_red"@.len());
                reveal_strlit("lightgreen");
                assert(n.len() != "lightgreen"@.len());
                reveal_strlit("light_green");
                assert(n[5] != "light_green"@[5]);
                reveal_strlit("lightblue");
                assert(n.len() != "lightblue"@.len());
                reveal_strlit("light_blue");
                assert(n.len() != "light_blue"@.len());
                reveal_strlit("lightcyan");
                assert(n.len() != "lightcyan"@.len());
                reveal_strlit("light_cyan");
                assert(n.len() != "light_cyan"@.len());
            }
            if k == 1 {
                reveal_strlit("light_yellow");
                assert(n == "light_yellow"@);
                reveal_strlit("red");
                assert(n.len() != "red"@.len());
                reveal_strlit("green");
                assert(n.len() != "green"@.len());
                reveal_strlit("blue");
                assert(n.len() != "blue"@.len());
                reveal_strlit("cyan");
                assert(n.len() != "cyan"@.len());
                reveal_strlit("yellow");
                assert(n.len() != "yellow"@.len());
                reveal_strlit("magenta");
                assert(n.len() != "magenta"@.len());
                reveal_strlit("white");
                assert(n.len() != "white"@.len());
                reveal_strlit("black");
                assert(n.len() != "black"@.len());
                reveal_strlit("gray");
                assert(n.len() != "gray"@.len());
                reveal_strlit("grey");
                assert(n.len() != "grey"@.len());
                reveal_strlit("darkgray");
                assert(n.len() != "darkgray"@.len());
                reveal_strlit("dark_gray");
                assert(n.len() != "dark_gray"@.len());
                reveal_strlit("darkgrey");
                assert(n.len() != "darkgrey"@.len());
                reveal_strlit("dark_grey");
                assert(n.len() != "dark_grey"@.len());
                reveal_strlit("lightred");
                assert(n.len() != "lightred"@.len());
                reveal_strlit("light_red");
                assert(n.len() != "light_red"@.len());
                reveal_strlit("lightgreen");
                assert(n.len() != "lightgreen"@.len());
                reveal_strlit("light_green");
                assert(n.len() != "light_green"@.len());
                reveal_strlit("lightblue");
                assert(n.len() != "lightblue"@.len());
                reveal_strlit("light_blue");
                assert(n.len() != "light_blue"@.len());
                reveal_strlit("lightcyan");
                assert(n.len() != "lightcyan"@.len());
                reveal_strlit("light_cyan");
                assert(n.len() != "light_cyan"@.len());
                reveal_strlit("lightyellow");
                assert(n.len() != "lightyellow"@.len());
            }
        },
        Color::LightBlue => {
            if k == 0 {
                reveal_strlit("lightblue");
                assert(n == "lightblue"@);
                reveal_strlit("red");
                assert(n.len() != "red"@.len());
                reveal_strlit("green");
                assert(n.len() != "green"@.len());
                reveal_strlit("blue");
                assert(n.len() != "blue"@.len());
                reveal_strlit("cyan");
                assert(n.len() != "cyan"@.len());
                reveal_strlit("yellow");
                assert(n.len() != "yellow"@.len());
                reveal_strlit("magenta");
                assert(n.len() != "magenta"@.len());
                reveal_strlit("white");
                assert(n.len() != "white"@.len());
                reveal_strlit("black");
                assert(n.len() != "black"@.len());
                reveal_strlit("gray");
                assert(n.len() != "gray"@.len());
                reveal_strlit("grey");
                assert(n.len() != "grey"@.len());
                reveal_strlit("darkgray");
                assert(n.len() != "darkgray"@.len());
                reveal_strlit("dark_gray");
                assert(n[0] != "dark_gray"@[0]);
                reveal_strlit("darkgrey");
                assert(n.len() != "darkgrey"@.len());
                reveal_strlit("dark_grey");
                assert(n[0] != "dark_grey"@[0]);
                reveal_strlit("lightred");
                assert(n.len() != "lightred"@.len());
                reveal_strlit("light_red");
                assert(n[5] != "light_red"@[5]);
                reveal_strlit("lightgreen");
                assert(n.len() != "lightgreen"@.len());
                reveal_strlit("light_green");
                assert(n.len() != "light_green"@.len());
            }
            if k == 1 {
                reveal_strlit("light_blue");
                assert(n == "light_blue"@);
                reveal_strlit("red");
                assert(n.len() != "red"@.len());
                reveal_strlit("green");
                assert(n.len() != "green"@.len());
                reveal_strlit("blue");
                assert(n.len() != "blue"@.len());
                reveal_strlit("cyan");
                assert(n.len() != "cyan"@.len());
                reveal_strlit("yellow");
                assert(n.len() != "yellow"@.len());
                reveal_strlit("magenta");
                assert(n.len() != "magenta"@.len());
                reveal_strlit("white");
                assert(n.len() != "white"@.len());
                reveal_strlit("black");
                assert(n.len() != "black"@.len());
                reveal_strlit("gray");
                assert(n.len() != "gray"@.len());
                reveal_strlit("grey");
                assert(n.len() != "grey"@.len());
                reveal_strlit("darkgray");
                assert(n.len() != "darkgray"@.len());
                reveal_strlit("dark_gray");
                assert(n.len() != "dark_gray"@.len());
                reveal_strlit("darkgrey");
                assert(n.len() != "darkgrey"@.len());
                reveal_strlit("dark_grey");
                assert(n.len() != "dark_grey"@.len());
                reveal_strlit("lightred");
                assert(n.len() != "lightred"@.len());
                reveal_strlit("light_red");
                assert(n.len() != "light_red"@.len());
                reveal_strlit("lightgreen");
                assert(n[5] != "lightgreen"@[5]);
                reveal_strlit("light_green");
                assert(n.len() != "light_green"@.len());
                reveal_strlit("lightblue");
                assert(n.len() != "lightblue"@.len());
            }
        },
        Color::LightMagenta => {
            if k == 0 {
                reveal_strlit("lightmagenta");
                assert(n == "lightmagenta"@);
                reveal_strlit("red");
                assert(n.len() != "red"@.len());
                reveal_strlit("green");
                assert(n.len() != "green"@.len());
                reveal_strlit("blue");
                assert(n.len() != "blue"@.len());
                reveal_strlit("cyan");
                assert(n.len() != "cyan"@.len());
                reveal_strlit("yellow");
                assert(n.len() != "yellow"@.len());
                reveal_strlit("magenta");
                assert(n.len() != "magenta"@.len());
                reveal_strlit("white");
                assert(n.len() != "white"@.len());
                reveal_strlit("black");
                assert(n.len() != "black"@.len());
                reveal_strlit("gray");
                assert(n.len() != "gray"@.len());
                reveal_strlit("grey");
                assert(n.len() != "grey"@.len());
                reveal_strlit("darkgray");
                assert(n.len() != "darkgray"@.len());
                reveal_strlit("dark_gray");
                assert(n.len() != "dark_gray"@.len());
                reveal_strlit("darkgrey");
                assert(n.len() != "darkgrey"@.len());
                reveal_strlit("dark_grey");
                assert(n.len() != "dark_grey"@.len());
                reveal_strlit("lightred");
                assert(n.len() != "lightred"@.len());
                reveal_strlit("light_red");
                assert(n.len() != "light_red"@.len());
                reveal_strlit("lightgreen");
                assert(n.len() != "lightgreen"@.len());
                reveal_strlit("light_green");
                assert(n.len() != "light_green"@.len());
                reveal_strlit("lightblue");
                assert(n.len() != "lightblue"@.len());
                reveal_strlit("light_blue");
                assert(n.len() != "light_blue"@.len());
                reveal_strlit("lightcyan");
                assert(n.len() != "lightcyan"@.len());
                reveal_strlit("light_cyan");
                assert(n.len() != "light_cyan"@.len());
                reveal_strlit("lightyellow");
                assert(n.len() != "lightyellow"@.len());
                reveal_strlit("light_yellow");
                assert(n[5] != "light_yellow"@[5]);
            }
            if k == 1 {
                reveal_strlit("light_magenta");
                assert(n == "light_magenta"@);
                reveal_strlit("red");
                assert(n.len() != "red"@.len());
                reveal_strlit("green");
                assert(n.len() != "green"@.len());
                reveal_strlit("blue");
                assert(n.len() != "blue"@.len());
                reveal_strlit("cyan");
                assert(n.len() != "cyan"@.len());
                reveal_strlit("yellow");
                assert(n.len() != "yellow"@.len());
                reveal_strlit("magenta");
                assert(n.len() != "magenta"@.len());
                reveal_strlit("white");
                assert(n.len() != "white"@.len());
                reveal_strlit("black");
                assert(n.len() != "black"@.len());
                reveal_strlit("gray");
                assert(n.len() != "gray"@.len());
                reveal_strlit("grey");
                assert(n.len() != "grey"@.len());
                reveal_strlit("darkgray");
                assert(n.len() != "darkgray"@.len());
                reveal_strlit("dark_gray");
                assert(n.len() != "dark_gray"@.len());
                reveal_strlit("darkgrey");
                assert(n.len() != "darkgrey"@.len());
                reveal_strlit("dark_grey");
                assert(n.len() != "dark_grey"@.len());
                reveal_strlit("lightred");
                assert(n.len() != "lightred"@.len());
                reveal_strlit("light_red");
                assert(n.len() != "light_red"@.len());
                reveal_strlit("lightgreen");
                assert(n.len() != "lightgreen"@.len());
                reveal_strlit("light_green");
                assert(n.len() != "light_green"@.len());
                reveal_strlit("lightblue");
                assert(n.len() != "lightblue"@.len());
                reveal_strlit("light_blue");
                assert(n.len() != "light_blue"@.len());
                reveal_strlit("lightcyan");
                assert(n.len() != "lightcyan"@.len());
                reveal_strlit("light_cyan");
                assert(n.len() != "light_cyan"@.len());
                reveal_strlit("lightyellow");
                assert(n.len() != "lightyellow"@.len());
                reveal_strlit("light_yellow");
                assert(n.len() != "light_yellow"@.len());
                reveal_strlit("lightmagenta");
                assert(n.len() != "lightmagenta"@.len());
            }
        },
        Color::LightCyan => {
            if k == 0 {
                reveal_strlit("lightcyan");
                assert(n == "lightcyan"@);
                reveal_strlit("red");
                assert(n.len() != "red"@.len());
                reveal_strlit("green");
                assert(n.len() != "green"@.len());
                reveal_strlit("blue");
                assert(n.len() != "blue"@.len());
                reveal_strlit("cyan");
                assert(n.len() != "cyan"@.len());
                reveal_strlit("yellow");
                assert(n.len() != "yellow"@.len());
                reveal_strlit("magenta");
                assert(n.len() != "magenta"@.len());
                reveal_strlit("white");
                assert(n.len() != "white"@.len());
                reveal_strlit("black");
                assert(n.len() != "black"@.len());
                reveal_strlit("gray");
                assert(n.len() != "gray"@.len());
                reveal_strlit("grey");
                assert(n.len() != "grey"@.len());
                reveal_strlit("darkgray");
                assert(n.len() != "darkgray"@.len());
                reveal_strlit("dark_gray");
                assert(n[0] != "dark_gray"@[0]);
                reveal_strlit("darkgrey");
                assert(n.len() != "darkgrey"@.len());
                reveal_strlit("dark_grey");
                assert(n[0] != "dark_grey"@[0]);
                reveal_strlit("lightred");
                assert(n.len() != "lightred"@.len());
                reveal_strlit("light_red");
                assert(n[5] != "light_red"@[5]);
                reveal_strlit("lightgreen");
                assert(n.len() != "lightgreen"@.len());
                reveal_strlit("light_green");
                assert(n.len() != "light_green"@.len());
                reveal_strlit("lightblue");
                assert(n[5] != "lightblue"@[5]);
                reveal_strlit("light_blue");
                assert(n.len() != "light_blue"@.len());
            }
            if k == 1 {
                reveal_strlit("light_cyan");
                assert(n == "light_cyan"@);
                reveal_strlit("red");
                assert(n.len() != "red"@.len());
                reveal_strlit("green");
                assert(n.len() != "green"@.len());
                reveal_strlit("blue");
                assert(n.len() != "blue"@.len());
                reveal_strlit("cyan");
                assert(n.len() != "cyan"@.len());
                reveal_strlit("yellow");
                assert(n.len() != "yellow"@.len());
                reveal_strlit("magenta");
                assert(n.len() != "magenta"@.len());
                reveal_strlit("white");
                assert(n.len() != "white"@.len());
                reveal_strlit("black");
                assert(n.len() != "black"@.len());
                reveal_strlit("gray");
                assert(n.len() != "gray"@.len());
                reveal_strlit("grey");
                assert(n.len() != "grey"@.len());
                reveal_strlit("darkgray");
                assert(n.len() != "darkgray"@.len());
                reveal_strlit("dark_gray");
                assert(n.len() != "dark_gray"@.len());
                reveal_strlit("darkgrey");
                assert(n.len() != "darkgrey"@.len());
                reveal_strlit("dark_grey");
                assert(n.len() != "dark_grey"@.len());
                reveal_strlit("lightred");
                assert(n.len() != "lightred"@.len());
                reveal_strlit("light_red");
                assert(n.len() != "light_red"@.len());
                reveal_strlit("lightgreen");
                assert(n[5] != "lightgreen"@[5]);
                reveal_strlit("light_green");
                assert(n.len() != "light_green"@.len());
                reveal_strlit("lightblue");
                assert(n.len() != "lightblue"@.len());
                reveal_strlit("light_blue");
                assert(n[6] != "light_blue"@[6]);
                reveal_strlit("lightcyan");
                assert(n.len() != "lightcyan"@.len());
            }
        },
        Color::White => {
            if k == 0 {
                reveal_strlit("white");
                assert(n == "white"@);
                reveal_strlit("red");
                assert(n.len() != "red"@.len());
                reveal_strlit("green");
                assert(n[0] != "green"@[0]);
                reveal_strlit("blue");
                assert(n.len() != "blue"@.len());
                reveal_strlit("cyan");
                assert(n.len() != "cyan"@.len());
                reveal_strlit("yellow");
                assert(n.len() != "yellow"@.len());
                reveal_strlit("magenta");
                assert(n.len() != "magenta"@.len());
            }
        },
    }
}

/// The color for a lower-cased color name.
pub fn color_from_lowercase(name: &[char]) -> (r: Color)
    ensures
        r == color_of_name(name@),
{
    if eq_str(name, "red") {
        Color::Red
    } else if eq_str(name, "green") {
        Color::Green
    } else if eq_str(name, "blue") {
        Color::Blue
    } else if eq_str(name, "cyan") {
        Color::Cyan
    } else if eq_str(name, "yellow") {
        Color::Yellow
    } else if eq_str(name, "magenta") {
        Color::Magenta
    } else if eq_str(name, "white") {
        Color::White
    } else if eq_str(name, "black") {
        Color::Black
    } else if eq_str(name, "gray") || eq_str(name, "grey") {
        Color::Gray
    } else if eq_str(name, "darkgray") || eq_str(name, "dark_gray") || eq_str(name, "darkgrey") || eq_str(
        name,
        "dark_grey",
    ) {
        Color::DarkGray
    } else if eq_str(name, "lightred") || eq_str(name, "light_red") {
        Color::LightRed
    } else if eq_str(name, "lightgreen") || eq_str(name, "light_green") {
        Color::LightGreen
    } else if eq_str(name, "lightblue") || eq_str(name, "light_blue") {
        Color::LightBlue
    } else if eq_str(name, "lightcyan") || eq_str(name, "light_cyan") {
        Color::LightCyan
    } else if eq_str(name, "lightyellow") || eq_str(name, "light_yellow") {
        Color::LightYellow
    } else if eq_str(name, "lightmagenta") || eq_str(name, "light_magenta") {
        Color::LightMagenta
    } else {
        Color::White
    }
}

/// The color a configured color name stands for (`"red"`, `"DarkGray"`,
/// `"light_blue"`, ...); unknown names give white.
pub fn color_from_str(s: &str) -> (r: Color)
    ensures
        r == color_of_name(lowercase(s@)),
{
    let low = to_lowercase(&chars_of(s));
    color_from_lowercase(&low)
}

/// The style of heading text: bold in the heading color, and italic too from
/// level four down.
pub open spec fn heading_style_of(level: u8, cfg: RenderConfig) -> Style {
    let base = with_mod(with_fg(plain(), heading_color_of(cfg, level)), BOLD);
    if level <= 3 {
        base
    } else {
        with_mod(base, ITALIC)
    }
}

fn heading_style(level: u8, config: &RenderConfig) -> (r: Style)
    ensures
        r == heading_style_of(level, *config),
{
    let base = Style::new().fg(config.heading_color_for(level)).add(BOLD);
    if level <= 3 {
        base
    } else {
        base.add(ITALIC)
    }
}

/// The character that underlines a heading of `level`, if any.
pub open spec fn underline_of(level: u8) -> Option<char> {
    if level == 1 {
        Some('═')
    } else if level == 2 {
        Some('─')
    } else {
        None
    }
}

fn underline_char(level: u8) -> (r: Option<char>)
    ensures
        r == underline_of(level),
{
    if level == 1 {
        Some('═')
    } else if level == 2 {
        Some('─')
    } else {
        None
    }
}

/// Whether a link destination is a web address.
pub open spec fn is_url_spec(s: Seq<char>) -> bool {
    starts_with(s, "http://"@) || starts_with(s, "https://"@)
}

/// Whether `s` is a web address (`http://` or `https://`).
pub fn is_url(s: &[char]) -> (r: bool)
    ensures
        r == is_url_spec(s@),
{
    let a = chars_of("http://");
    let b = chars_of("https://");
    has_prefix(s, &a) || has_prefix(s, &b)
}

/// Where a link destination leads: web addresses as they are; anything else
/// is a file, with the `#section` part dropped and relative paths taken from
/// `base`. Empty destinations, bare anchors, and relative paths without a
/// base lead nowhere.
pub open spec fn link_target_of(dest: Seq<char>, base: Option<Seq<char>>) -> Option<LinkTargetV> {
    if dest.len() == 0 {
        None
    } else if is_url_spec(dest) {
        Some(LinkTargetV::Url(dest))
    } else {
        let path = split(dest, '#')[0];
        if path.len() == 0 {
            None
        } else if path[0] == '/' {
            Some(LinkTargetV::Local(path))
        } else {
            match base {
                None => None,
                Some(b) => Some(LinkTargetV::Local(path_join(b, path))),
            }
        }
    }
}

/// Where the link destination `dest` leads.
pub fn resolve_link_target(dest: &[char], base_dir: Option<&[char]>) -> (r: Option<LinkTarget>)
    ensures
        match r {
            Some(t) => link_target_of(dest@, opt_slice(base_dir)) == Some(target_view(t)),
            None => link_target_of(dest@, opt_slice(base_dir)) is None,
        },
{
    if dest.len() == 0 {
        return None;
    }
    if is_url(dest) {
        return Some(LinkTarget::Url(string_of(dest)));
    }
    let pieces = split_vec(dest, '#');
    proof {
        lemma_split_nonempty(dest@, '#');
        assert(pieces@[0]@ == split(dest@, '#')[0]);
    }
    let path = &pieces[0];
    if path.len() == 0 {
        return None;
    }
    if path[0] == '/' {
        return Some(LinkTarget::Local(string_of(path)));
    }
    match base_dir {
        None => None,
        Some(b) => {
            let joined = join_path(b, path);
            Some(LinkTarget::Local(string_of(&joined)))
        },
    }
}

pub open spec fn opt_slice(base: Option<&[char]>) -> Option<Seq<char>> {
    match base {
        Some(b) => Some(b@),
        None => None,
    }
}

/// The file an image destination refers to: web addresses refer to none,
/// absolute paths to themselves, relative paths to a file under `base`.
pub open spec fn image_path_of(dest: Seq<char>, base: Option<Seq<char>>) -> Option<Seq<char>> {
    if is_url_spec(dest) {
        None
    } else if dest.len() > 0 && dest[0] == '/' {
        Some(dest)
    } else {
        match base {
            None => None,
            Some(b) => Some(path_join(b, dest)),
        }
    }
}

/// The file that the image destination `dest` refers to.
pub fn resolve_image_path(dest: &[char], base_dir: Option<&[char]>) -> (r: Option<Vec<char>>)
    ensures
        match r {
            Some(p) => image_path_of(dest@, opt_slice(base_dir)) == Some(p@),
            None => image_path_of(dest@, opt_slice(base_dir)) is None,
        },
{
    if is_url(dest) {
        return None;
    }
    if dest.len() > 0 && dest[0] == '/' {
        assert(dest@.subrange(0, dest@.len() as int) =~= dest@);
        return Some(slice_vec(dest, 0, dest.len()));
    }
    match base_dir {
        None => None,
        Some(b) => Some(join_path(b, dest)),
    }
}

/// `n`, or the largest `usize` where `n` is larger: counts that saturate.
pub open spec fn sat(n: int) -> int {
    if n <= usize::MAX {
        n
    } else {
        usize::MAX as int
    }
}

/// The number of characters in `spans`.
pub open spec fn width_of(spans: Seq<SpanV>) -> int
    decreases spans.len(),
{
    if spans.len() == 0 {
        0
    } else {
        width_of(spans.drop_last()) + spans.last().text.len()
    }
}

/// The number of characters in `spans`, saturating at the largest `usize`.
pub open spec fn chars_in(spans: Seq<SpanV>) -> int {
    sat(width_of(spans))
}

proof fn lemma_width_nonneg(spans: Seq<SpanV>)
    ensures
        width_of(spans) >= 0,
    decreases spans.len(),
{
    if spans.len() > 0 {
        lemma_width_nonneg(spans.drop_last());
    }
}

/// The number of characters in `spans` (saturating).
fn span_chars(spans: &[Span]) -> (r: usize)
    ensures
        r == chars_in(spans_view(spans@)),
{
    let mut total: usize = 0;
    let mut i: usize = 0;
    while i < spans.len()
        invariant
            i <= spans@.len(),
            total == chars_in(spans_view(spans@.take(i as int))),
        decreases spans@.len() - i,
    {
        let n = spans[i].content.as_str().unicode_len();
        proof {
            assert(spans_view(spans@.take(i + 1)).drop_last() =~= spans_view(spans@.take(i as int)));
            lemma_width_nonneg(spans_view(spans@.take(i as int)));
        }
        total = total.saturating_add(n);
        i += 1;
    }
    assert(spans@.take(spans@.len() as int) =~= spans@);
    total
}

/// A table while its rows are being read: the header cells, the body rows,
/// whether the header is being read, and the row and cell being filled.
#[verifier::ext_equal]
pub struct TableV {
    pub head: Seq<Seq<SpanV>>,
    pub body: Seq<Seq<Seq<SpanV>>>,
    pub in_head: bool,
    pub row: Seq<Seq<SpanV>>,
    pub cell: Seq<SpanV>,
}

pub open spec fn empty_table() -> TableV {
    TableV { head: seq![], body: seq![], in_head: false, row: seq![], cell: seq![] }
}

/// The number of cells in the longest row of `body`.
pub open spec fn max_row_len(body: Seq<Seq<Seq<SpanV>>>) -> int
    decreases body.len(),
{
    if body.len() == 0 {
        0
    } else {
        let m = max_row_len(body.drop_last());
        if body.last().len() > m {
            body.last().len() as int
        } else {
            m
        }
    }
}

/// The number of columns of a table: that of its widest row.
pub open spec fn col_count_of(t: TableV) -> int {
    let m = max_row_len(t.body);
    if t.head.len() > m {
        t.head.len() as int
    } else {
        m
    }
}

pub open spec fn max_int(a: int, b: int) -> int {
    if a >= b {
        a
    } else {
        b
    }
}

/// The widest cell in column `i` of the body rows (0 where there is none).
pub open spec fn body_col_width(body: Seq<Seq<Seq<SpanV>>>, i: int) -> int
    decreases body.len(),
{
    if body.len() == 0 {
        0
    } else {
        max_int(
            body_col_width(body.drop_last(), i),
            if i < body.last().len() {
                chars_in(body.last()[i])
            } else {
                0
            },
        )
    }
}

/// The width of column `i`: that of its widest cell.
pub open spec fn col_width(t: TableV, i: int) -> int {
    max_int(
        if i < t.head.len() {
            chars_in(t.head[i])
        } else {
            0
        },
        body_col_width(t.body, i),
    )
}

/// The column widths of a table.
pub open spec fn widths_of(t: TableV) -> Seq<int> {
    Seq::new(col_count_of(t) as nat, |i: int| col_width(t, i))
}

/// The style of table and code-block borders.
pub open spec fn border_style() -> Style {
    with_fg(plain(), Color::DarkGray)
}

/// The middle of a border row: for each column a run of `─` two wider than
/// the column, runs separated by `mid`.
pub open spec fn border_mid(widths: Seq<int>, mid: char) -> Seq<char>
    decreases widths.len(),
{
    if widths.len() == 0 {
        seq![]
    } else {
        border_mid(widths.drop_last(), mid) + (if widths.len() > 1 {
            seq![mid]
        } else {
            seq![]
        }) + Seq::new(sat(widths.last() + 2) as nat, |k: int| '─')
    }
}

/// A border row of a table.
pub open spec fn border_line(widths: Seq<int>, left: char, mid: char, right: char) -> Seq<SpanV> {
    seq![sv(seq![left] + border_mid(widths, mid) + seq![right], border_style())]
}

/// The cell in column `i` of `row`, or an empty cell.
pub open spec fn cell_at(row: Seq<Seq<SpanV>>, i: int) -> Seq<SpanV> {
    if 0 <= i < row.len() {
        row[i]
    } else {
        seq![]
    }
}

/// The spaces that pad column `i` of `row` to its width.
pub open spec fn cell_pad(row: Seq<Seq<SpanV>>, widths: Seq<int>, i: int) -> Seq<SpanV> {
    let pad = widths[i] - chars_in(cell_at(row, i));
    if pad > 0 {
        seq![sv(Seq::new(pad as nat, |k: int| ' '), plain())]
    } else {
        seq![]
    }
}

/// The first `k` columns of a table row: separator, cell, padding.
pub open spec fn row_cells(row: Seq<Seq<SpanV>>, widths: Seq<int>, k: int) -> Seq<SpanV>
    decreases k,
{
    if k <= 0 {
        seq![]
    } else {
        row_cells(row, widths, k - 1) + seq![
            sv(
                if k - 1 == 0 {
                    "│ "@
                } else {
                    " │ "@
                },
                border_style(),
            ),
        ] + cell_at(row, k - 1) + cell_pad(row, widths, k - 1)
    }
}

/// A table row laid out in columns of `widths`.
pub open spec fn row_line(row: Seq<Seq<SpanV>>, widths: Seq<int>) -> Seq<SpanV> {
    row_cells(row, widths, widths.len() as int) + seq![sv(" │"@, border_style())]
}

/// The rows of a laid-out table: top border, header and separator (when
/// there is a header), body rows, bottom border, and a blank row. A table
/// without columns gives nothing.
pub open spec fn table_lines(t: TableV) -> Seq<Seq<SpanV>> {
    let w = widths_of(t);
    if col_count_of(t) == 0 {
        seq![]
    } else {
        seq![border_line(w, '┌', '┬', '┐')] + (if t.head.len() > 0 {
            seq![row_line(t.head, w), border_line(w, '├', '┼', '┤')]
        } else {
            seq![]
        }) + t.body.map_values(|r: Seq<Seq<SpanV>>| row_line(r, w)) + seq![
            border_line(w, '└', '┴', '┘'),
            seq![],
        ]
    }
}

struct TableBuf {
    head: Vec<Vec<Span>>,
    body: Vec<Vec<Vec<Span>>>,
    in_head: bool,
    row: Vec<Vec<Span>>,
    cell: Vec<Span>,
}

pub open spec fn cells_view(v: Seq<Vec<Span>>) -> Seq<Seq<SpanV>> {
    v.map_values(|c: Vec<Span>| spans_view(c@))
}

pub open spec fn rows_view(v: Seq<Vec<Vec<Span>>>) -> Seq<Seq<Seq<SpanV>>> {
    v.map_values(|r: Vec<Vec<Span>>| cells_view(r@))
}

spec fn table_view(t: TableBuf) -> TableV {
    TableV {
        head: cells_view(t.head@),
        body: rows_view(t.body@),
        in_head: t.in_head,
        row: cells_view(t.row@),
        cell: spans_view(t.cell@),
    }
}

proof fn lemma_spans_push(v: Seq<Span>, x: Span)
    ensures
        spans_view(v.push(x)) == spans_view(v).push(span_view(x)),
{
    assert(spans_view(v.push(x)) =~= spans_view(v).push(span_view(x)));
}

proof fn lemma_lines_push(v: Seq<Line>, x: Line)
    ensures
        lines_view(v.push(x)) == lines_view(v).push(line_view(x)),
{
    assert(lines_view(v.push(x)) =~= lines_view(v).push(line_view(x)));
}

fn push_line(lines: &mut Vec<Line>, l: Line)
    ensures
        lines_view(final(lines)@) == lines_view(old(lines)@).push(line_view(l)),
{
    let ghost prev = lines@;
    lines.push(l);
    proof {
        lemma_lines_push(prev, l);
    }
}

fn push_span_to(spans: &mut Vec<Span>, s: Span)
    ensures
        spans_view(final(spans)@) == spans_view(old(spans)@).push(span_view(s)),
{
    let ghost prev = spans@;
    spans.push(s);
    proof {
        lemma_spans_push(prev, s);
    }
}

fn copy_span(s: &Span) -> (r: Span)
    ensures
        span_view(r) == span_view(*s),
{
    Span { content: s.content.clone(), style: s.style }
}

fn push_copies(out: &mut Vec<Span>, spans: &[Span])
    ensures
        spans_view(final(out)@) == spans_view(old(out)@) + spans_view(spans@),
{
    let mut i: usize = 0;
    while i < spans.len()
        invariant
            i <= spans@.len(),
            spans_view(out@) == spans_view(old(out)@) + spans_view(spans@.take(i as int)),
        decreases spans@.len() - i,
    {
        let c = copy_span(&spans[i]);
        let ghost prev = out@;
        out.push(c);
        proof {
            lemma_spans_push(prev, c);
            assert(spans_view(spans@.take(i + 1)) =~= spans_view(spans@.take(i as int)).push(span_view(spans@[i as int])));
            assert(spans_view(out@) =~= spans_view(old(out)@) + spans_view(spans@.take(i + 1)));
        }
        i += 1;
    }
    assert(spans@.take(spans@.len() as int) =~= spans@);
}

fn styled(text: &str, style: Style) -> (r: Span)
    ensures
        span_view(r) == sv(text@, style),
{
    Span { content: text.to_string(), style }
}

fn styled_chars(text: &[char], style: Style) -> (r: Span)
    ensures
        span_view(r) == sv(text@, style),
{
    Span { content: string_of(text), style }
}

fn one_span_line(s: Span) -> (r: Line)
    ensures
        line_view(r) == seq![span_view(s)],
{
    let mut v: Vec<Span> = Vec::new();
    v.push(s);
    let r = Line { spans: v };
    assert(line_view(r) =~= seq![span_view(s)]);
    r
}

fn empty_line() -> (r: Line)
    ensures
        line_view(r) == Seq::<SpanV>::empty(),
{
    let r = Line { spans: Vec::new() };
    assert(line_view(r) =~= Seq::<SpanV>::empty());
    r
}

fn max_row_len_exec(body: &Vec<Vec<Vec<Span>>>) -> (r: usize)
    ensures
        r == max_row_len(rows_view(body@)),
{
    let mut m: usize = 0;
    let mut i: usize = 0;
    while i < body.len()
        invariant
            i <= body@.len(),
            m == max_row_len(rows_view(body@.take(i as int))),
        decreases body@.len() - i,
    {
        assert(rows_view(body@.take(i + 1)).drop_last() =~= rows_view(body@.take(i as int)));
        if body[i].len() > m {
            m = body[i].len();
        }
        i += 1;
    }
    assert(body@.take(body@.len() as int) =~= body@);
    m
}

fn table_widths(t: &TableBuf, n: usize) -> (r: Vec<usize>)
    requires
        n == col_count_of(table_view(*t)),
    ensures
        r@.len() == n,
        forall|i: int| 0 <= i < n ==> r@[i] == widths_of(table_view(*t))[i],
{
    let ghost tv = table_view(*t);
    let mut widths: Vec<usize> = Vec::new();
    let mut c: usize = 0;
    while c < n
        invariant
            n == col_count_of(tv),
            tv == table_view(*t),
            c <= n,
            widths@.len() == c,
            forall|i: int| 0 <= i < c ==> widths@[i] == col_width(tv, i),
        decreases n - c,
    {
        let mut w: usize = 0;
        if c < t.head.len() {
            w = span_chars(&t.head[c]);
        }
        let mut j: usize = 0;
        let mut bw: usize = 0;
        while j < t.body.len()
            invariant
                tv == table_view(*t),
                j <= t.body@.len(),
                bw == body_col_width(rows_view(t.body@.take(j as int)), c as int),
            decreases t.body@.len() - j,
        {
            assert(rows_view(t.body@.take(j + 1)).drop_last() =~= rows_view(t.body@.take(j as int)));
            if c < t.body[j].len() {
                let cw = span_chars(&t.body[j][c]);
                if cw > bw {
                    bw = cw;
                }
            }
            j += 1;
        }
        assert(t.body@.take(t.body@.len() as int) =~= t.body@);
        if bw > w {
            w = bw;
        }
        widths.push(w);
        c += 1;
    }
    widths
}

fn border_row(widths: &Vec<usize>, left: char, mid: char, right: char) -> (r: Line)
    ensures
        line_view(r) == border_line(widths@.map_values(|w: usize| w as int), left, mid, right),
{
    let ghost ws = widths@.map_values(|w: usize| w as int);
    let mut text: Vec<char> = Vec::new();
    text.push(left);
    let mut i: usize = 0;
    while i < widths.len()
        invariant
            i <= widths@.len(),
            ws == widths@.map_values(|w: usize| w as int),
            text@ == seq![left] + border_mid(ws.take(i as int), mid),
        decreases widths@.len() - i,
    {
        assert(ws.take(i + 1).drop_last() =~= ws.take(i as int));
        if i > 0 {
            text.push(mid);
        }
        let dashes = repeat_char('─', widths[i].saturating_add(2));
        push_all(&mut text, &dashes);
        assert(text@ =~= seq![left] + border_mid(ws.take(i + 1), mid));
        i += 1;
    }
    assert(ws.take(widths@.len() as int) =~= ws);
    text.push(right);
    assert(text@ =~= seq![left] + border_mid(ws, mid) + seq![right]);
    one_span_line(styled_chars(&text, Style::new().fg(Color::DarkGray)))
}

fn row_spans(row: &Vec<Vec<Span>>, widths: &Vec<usize>) -> (r: Line)
    ensures
        line_view(r) == row_line(cells_view(row@), widths@.map_values(|w: usize| w as int)),
{
    let ghost ws = widths@.map_values(|w: usize| w as int);
    let ghost rv = cells_view(row@);
    let sep = Style::new().fg(Color::DarkGray);
    let mut spans: Vec<Span> = Vec::new();
    let mut i: usize = 0;
    while i < widths.len()
        invariant
            i <= widths@.len(),
            ws == widths@.map_values(|w: usize| w as int),
            rv == cells_view(row@),
            sep == border_style(),
            spans_view(spans@) == row_cells(rv, ws, i as int),
        decreases widths@.len() - i,
    {
        let ghost before = spans_view(spans@);
        let sep_span = if i == 0 {
            styled("│ ", sep)
        } else {
            styled(" │ ", sep)
        };
        let ghost s0 = spans@;
        spans.push(sep_span);
        proof {
            lemma_spans_push(s0, sep_span);
        }
        let ghost with_sep = spans_view(spans@);
        let used: usize = if i < row.len() {
            push_copies(&mut spans, &row[i]);
            span_chars(&row[i])
        } else {
            0
        };
        assert(cell_at(rv, i as int) == if i < row@.len() { spans_view(row@[i as int]@) } else { Seq::<SpanV>::empty() });
        assert(spans_view(spans@) =~= with_sep + cell_at(rv, i as int));
        let pad = widths[i].saturating_sub(used);
        let ghost mid = spans_view(spans@);
        if pad > 0 {
            let spaces = repeat_char(' ', pad);
            let pad_span = styled_chars(&spaces, Style::new());
            let ghost s1 = spans@;
            spans.push(pad_span);
            proof {
                lemma_spans_push(s1, pad_span);
            }
        }
        assert(spans_view(spans@) =~= mid + cell_pad(rv, ws, i as int));
        assert(spans_view(spans@) =~= row_cells(rv, ws, i + 1));
        i += 1;
    }
    let end_span = styled(" │", sep);
    let ghost s2 = spans@;
    spans.push(end_span);
    proof {
        lemma_spans_push(s2, end_span);
    }
    let r = Line { spans };
    assert(line_view(r) =~= row_line(rv, ws));
    r
}

fn render_table(t: &TableBuf, lines: &mut Vec<Line>)
    ensures
        lines_view(final(lines)@) == lines_view(old(lines)@) + table_lines(table_view(*t)),
{
    let ghost tv = table_view(*t);
    let body_max = max_row_len_exec(&t.body);
    let n: usize = if t.head.len() > body_max {
        t.head.len()
    } else {
        body_max
    };
    if n == 0 {
        assert(table_lines(tv) =~= Seq::<Seq<SpanV>>::empty());
        assert(lines_view(lines@) =~= lines_view(old(lines)@) + table_lines(tv));
        return;
    }
    let widths = table_widths(t, n);
    let ghost ws = widths@.map_values(|w: usize| w as int);
    assert(ws =~= widths_of(tv));
    push_line(lines, border_row(&widths, '┌', '┬', '┐'));
    if t.head.len() > 0 {
        push_line(lines, row_spans(&t.head, &widths));
        push_line(lines, border_row(&widths, '├', '┼', '┤'));
    }
    let ghost top = lines_view(lines@);
    let mut i: usize = 0;
    while i < t.body.len()
        invariant
            i <= t.body@.len(),
            tv == table_view(*t),
            ws == widths@.map_values(|w: usize| w as int),
            lines_view(lines@) == top + tv.body.take(i as int).map_values(|r: Seq<Seq<SpanV>>| row_line(r, ws)),
        decreases t.body@.len() - i,
    {
        let row_line_i = row_spans(&t.body[i], &widths);
        let ghost l0 = lines@;
        lines.push(row_line_i);
        proof {
            lemma_lines_push(l0, row_line_i);
        }
        assert(tv.body[i as int] == cells_view(t.body@[i as int]@));
        assert(tv.body.take(i + 1).map_values(|r: Seq<Seq<SpanV>>| row_line(r, ws)) =~= tv.body.take(
            i as int,
        ).map_values(|r: Seq<Seq<SpanV>>| row_line(r, ws)).push(row_line(tv.body[i as int], ws)));
        assert(lines_view(lines@) =~= top + tv.body.take(i + 1).map_values(|r: Seq<Seq<SpanV>>| row_line(r, ws)));
        i += 1;
    }
    assert(tv.body.take(t.body@.len() as int) =~= tv.body);
    push_line(lines, border_row(&widths, '└', '┴', '┘'));
    push_line(lines, empty_line());
    assert(lines_view(lines@) =~= lines_view(old(lines)@) + table_lines(tv));
}

/// One markdown event, as the renderer reads it: the start or end of an
/// element, a piece of text, a piece of inline code, or a line break. Events
/// the renderer does not act on are `Other`.
pub enum MdEvent {
    StartHeading(u8),
    EndHeading,
    StartCodeBlock(Option<String>),
    EndCodeBlock,
    StartList(Option<u64>),
    EndList,
    StartItem,
    EndItem,
    StartTable,
    StartTableHead,
    EndTableHead,
    EndTableRow,
    EndTableCell,
    EndTable,
    StartEmphasis,
    EndEmphasis,
    StartStrong,
    EndStrong,
    StartLink(String),
    EndLink,
    StartImage(String),
    EndImage,
    EndParagraph,
    Text(String),
    Code(String),
    SoftBreak,
    HardBreak,
    Other,
}

/// A link whose text is being read: its destination, where its text began,
/// the style to go back to, and whether it is recorded (links in tables are
/// not).
#[verifier::ext_equal]
pub struct PendingLinkV {
    pub dest: Seq<char>,
    pub line_at_start: int,
    pub col_start: int,
    pub prev_style: Style,
    pub record: bool,
}

/// Everything the renderer keeps between events.
#[verifier::ext_equal]
pub struct RenderState {
    pub lines: Seq<Seq<SpanV>>,
    pub images: Seq<ImageRefV>,
    pub links: Seq<LinkRefV>,
    /// The spans of the row being built.
    pub spans: Seq<SpanV>,
    pub style: Style,
    pub heading: Option<u8>,
    pub table: Option<TableV>,
    pub in_code: bool,
    /// An image whose alt text is being read: destination and alt text.
    pub image: Option<(Seq<char>, Seq<char>)>,
    pub link: Option<PendingLinkV>,
    /// The open lists, innermost last: the next number for ordered ones.
    pub lists: Seq<Option<u64>>,
}

pub open spec fn initial_state() -> RenderState {
    RenderState {
        lines: seq![],
        images: seq![],
        links: seq![],
        spans: seq![],
        style: plain(),
        heading: None,
        table: None,
        in_code: false,
        image: None,
        link: None,
        lists: seq![],
    }
}

/// Ends the row being built, if it has anything.
pub open spec fn break_line(st: RenderState) -> RenderState {
    if st.spans.len() > 0 {
        RenderState { lines: st.lines.push(st.spans), spans: seq![], ..st }
    } else {
        st
    }
}

/// Ends the row being built, if it has anything, and adds a blank row.
pub open spec fn flush_block(st: RenderState) -> RenderState {
    if st.spans.len() > 0 {
        RenderState { lines: st.lines.push(st.spans).push(seq![]), spans: seq![], ..st }
    } else {
        st
    }
}

/// Adds a span to the table cell being read, or else to the row being built.
pub open spec fn add_span(st: RenderState, s: SpanV) -> RenderState {
    match st.table {
        Some(t) => RenderState { table: Some(TableV { cell: t.cell.push(s), ..t }), ..st },
        None => RenderState { spans: st.spans.push(s), ..st },
    }
}

/// The link that a finished link adds: none for links inside tables, links
/// with no text on their row, and destinations that lead nowhere. A link
/// whose text wrapped onto a later row covers only its part on that row.
pub open spec fn finished_link(l: PendingLinkV, spans: Seq<SpanV>, nlines: int, base: Option<Seq<char>>) -> Option<
    LinkRefV,
> {
    let col_end = chars_in(spans);
    if !l.record {
        None
    } else if nlines == l.line_at_start && col_end <= l.col_start {
        None
    } else if nlines != l.line_at_start && col_end == 0 {
        None
    } else {
        match link_target_of(l.dest, base) {
            None => None,
            Some(t) => Some(
                LinkRefV {
                    line: nlines,
                    col_start: if nlines == l.line_at_start {
                        l.col_start
                    } else {
                        0
                    },
                    col_end,
                    target: t,
                },
            ),
        }
    }
}

pub open spec fn end_link(st: RenderState, base: Option<Seq<char>>) -> RenderState {
    match st.link {
        None => st,
        Some(l) => {
            let st1 = RenderState { style: l.prev_style, link: None, ..st };
            match finished_link(l, st.spans, st.lines.len() as int, base) {
                Some(r) => RenderState { links: st.links.push(r), ..st1 },
                None => st1,
            }
        },
    }
}

/// The label of an image placeholder: its alt text, or else the name of its
/// file (`image` when there is none), or else its destination.
pub open spec fn image_label(dest: Seq<char>, alt: Seq<char>, path: Option<Seq<char>>) -> Seq<char> {
    if alt.len() > 0 {
        alt
    } else {
        match path {
            Some(p) => match file_name(p) {
                Some(n) => n,
                None => "image"@,
            },
            None => dest,
        }
    }
}

/// The rows an image takes: a placeholder row, then blank rows for the image
/// itself (at least one) and one blank row after it.
pub open spec fn end_image(st: RenderState, cfg: RenderConfig, base: Option<Seq<char>>) -> RenderState {
    match st.image {
        None => st,
        Some((dest, alt)) => {
            let st1 = flush_block(RenderState { image: None, ..st });
            let path = image_path_of(dest, base);
            let height: int = if cfg.image_height >= 1 {
                cfg.image_height as int
            } else {
                1
            };
            let placeholder = seq![
                sv("[image: "@ + image_label(dest, alt, path) + "]"@, with_fg(plain(), Color::DarkGray)),
            ];
            let lines = st1.lines.push(placeholder) + Seq::new(height as nat, |i: int| Seq::<SpanV>::empty());
            let images = match path {
                Some(p) => st1.images.push(
                    ImageRefV { path: p, line_offset: st1.lines.len() as int, height },
                ),
                None => st1.images,
            };
            RenderState { lines, images, ..st1 }
        },
    }
}

/// Whether a row has no text.
pub open spec fn is_blank(line: Seq<SpanV>) -> bool {
    forall|i: int| 0 <= i < line.len() ==> (#[trigger] line[i]).text.len() == 0
}

/// Top-level and second-level headings are set off by a blank row.
pub open spec fn blank_before(lines: Seq<Seq<SpanV>>, level: u8) -> Seq<Seq<SpanV>> {
    if (level == 1 || level == 2) && lines.len() > 0 && !is_blank(lines.last()) {
        lines.push(seq![])
    } else {
        lines
    }
}

pub open spec fn start_heading(st: RenderState, level: u8, cfg: RenderConfig) -> RenderState {
    let st1 = flush_block(st);
    RenderState {
        lines: blank_before(st1.lines, level),
        heading: Some(level),
        style: heading_style_of(level, cfg),
        ..st1
    }
}

/// A heading ends its row; top-level and second-level headings get an
/// underline as long as their text (at least one character); a blank row
/// follows.
pub open spec fn end_heading(st: RenderState, cfg: RenderConfig) -> RenderState {
    let level: u8 = match st.heading {
        Some(l) => l,
        None => 1,
    };
    let text_len = chars_in(st.spans);
    let st1 = break_line(RenderState { heading: None, ..st });
    let lines = match underline_of(level) {
        Some(ch) => st1.lines.push(
            seq![
                sv(
                    Seq::new(max_int(text_len, 1) as nat, |i: int| ch),
                    with_fg(plain(), heading_color_of(cfg, level)),
                ),
            ],
        ),
        None => st1.lines,
    };
    RenderState { lines: lines.push(seq![]), style: plain(), ..st1 }
}

pub open spec fn end_list(st: RenderState) -> RenderState {
    let st1 = break_line(st);
    let lists = if st1.lists.len() > 0 {
        st1.lists.drop_last()
    } else {
        st1.lists
    };
    RenderState {
        lines: if lists.len() == 0 {
            st1.lines.push(seq![])
        } else {
            st1.lines
        },
        lists,
        ..st1
    }
}

/// The next number after `n`, wrapping at the largest `u64`.
pub open spec fn next_number(n: u64) -> u64 {
    if n == u64::MAX {
        0
    } else {
        (n + 1) as u64
    }
}

/// A list item starts a row with an indent of two spaces per enclosing list
/// and a bullet: the item's number in ordered lists, `•` otherwise.
pub open spec fn start_item(st: RenderState) -> RenderState {
    let st1 = break_line(st);
    let depth: int = if st1.lists.len() > 0 {
        st1.lists.len() - 1
    } else {
        0
    };
    let indent = sat(2 * depth);
    let numbered = st1.lists.len() > 0 && st1.lists.last() is Some;
    let bullet = if numbered {
        decimal(st1.lists.last()->0 as nat) + ". "@
    } else {
        "• "@
    };
    let lists = if numbered {
        st1.lists.update(st1.lists.len() - 1, Some(next_number(st1.lists.last()->0)))
    } else {
        st1.lists
    };
    let spans = st1.spans + (if indent > 0 {
        seq![sv(Seq::new(indent as nat, |i: int| ' '), plain())]
    } else {
        seq![]
    }) + seq![sv(bullet, with_fg(plain(), Color::White))];
    RenderState { spans, lists, ..st1 }
}

/// A code block starts with a top border naming its language, if any.
pub open spec fn start_code(st: RenderState, lang: Option<Seq<char>>) -> RenderState {
    let st1 = flush_block(st);
    let top = seq![sv("┌─"@, border_style())] + match lang {
        Some(l) => if l.len() > 0 {
            seq![sv("  "@ + l, with_mod(border_style(), ITALIC))]
        } else {
            seq![]
        },
        None => seq![],
    };
    RenderState { lines: st1.lines.push(top), in_code: true, ..st1 }
}

pub open spec fn end_code(st: RenderState) -> RenderState {
    let st1 = break_line(st);
    RenderState {
        lines: st1.lines.push(seq![sv("└─"@, border_style())]).push(seq![]),
        in_code: false,
        ..st1
    }
}

/// One line of code-block text: a non-empty piece is added after the left
/// border, and every line break ends the row; an empty line between breaks
/// is a row with just the border.
pub open spec fn code_chunk(st: RenderState, chunk: Seq<char>, has_next: bool, cfg: RenderConfig) -> RenderState {
    if chunk.len() > 0 {
        let spans = (if st.spans.len() == 0 {
            st.spans.push(sv("│ "@, border_style()))
        } else {
            st.spans
        }).push(sv(chunk, with_fg(plain(), cfg.code_color)));
        if has_next {
            RenderState { lines: st.lines.push(spans), spans: seq![], ..st }
        } else {
            RenderState { spans, ..st }
        }
    } else if has_next {
        RenderState { lines: st.lines.push(seq![sv("│"@, border_style())]), ..st }
    } else {
        st
    }
}

/// The first `k` lines of a piece of code-block text.
pub open spec fn code_fold(st: RenderState, chunks: Seq<Seq<char>>, k: int, cfg: RenderConfig) -> RenderState
    decreases k,
{
    if k <= 0 {
        st
    } else {
        code_chunk(code_fold(st, chunks, k - 1, cfg), chunks[k - 1], k < chunks.len(), cfg)
    }
}

pub open spec fn code_text(st: RenderState, t: Seq<char>, cfg: RenderConfig) -> RenderState {
    let chunks = split(t, '\n');
    code_fold(st, chunks, chunks.len() as int, cfg)
}

/// What the text `t` does: it extends the alt text of an image, is laid out
/// as code inside a code block, and is otherwise a span in the current style.
pub open spec fn text_event(st: RenderState, t: Seq<char>, cfg: RenderConfig) -> RenderState {
    match st.image {
        Some((dest, alt)) => RenderState { image: Some((dest, alt + t)), ..st },
        None => if st.in_code {
            code_text(st, t, cfg)
        } else {
            add_span(st, sv(t, st.style))
        },
    }
}

pub open spec fn opt_view(s: Option<String>) -> Option<Seq<char>> {
    match s {
        Some(x) => Some(x@),
        None => None,
    }
}

/// The effect of one event.
pub open spec fn step(st: RenderState, e: MdEvent, cfg: RenderConfig, base: Option<Seq<char>>) -> RenderState {
    match e {
        MdEvent::StartLink(dest) => RenderState {
            link: Some(
                PendingLinkV {
                    dest: dest@,
                    line_at_start: st.lines.len() as int,
                    col_start: chars_in(st.spans),
                    prev_style: st.style,
                    record: st.table is None,
                },
            ),
            style: with_mod(with_fg(st.style, Color::Cyan), UNDERLINED),
            ..st
        },
        MdEvent::EndLink => end_link(st, base),
        MdEvent::StartImage(dest) => RenderState { image: Some((dest@, seq![])), ..st },
        MdEvent::EndImage => end_image(st, cfg, base),
        MdEvent::StartHeading(level) => start_heading(st, level, cfg),
        MdEvent::EndHeading => end_heading(st, cfg),
        MdEvent::StartList(start) => {
            let st1 = break_line(st);
            RenderState { lists: st1.lists.push(start), ..st1 }
        },
        MdEvent::EndList => end_list(st),
        MdEvent::StartItem => start_item(st),
        MdEvent::EndItem => break_line(st),
        MdEvent::StartStrong => RenderState { style: with_mod(st.style, BOLD), ..st },
        MdEvent::StartEmphasis => RenderState { style: with_mod(st.style, ITALIC), ..st },
        MdEvent::EndStrong => RenderState { style: plain(), ..st },
        MdEvent::EndEmphasis => RenderState { style: plain(), ..st },
        MdEvent::StartTable => RenderState { table: Some(empty_table()), ..flush_block(st) },
        MdEvent::StartTableHead => match st.table {
            Some(t) => RenderState { table: Some(TableV { in_head: true, ..t }), ..st },
            None => st,
        },
        MdEvent::EndTableHead => match st.table {
            Some(t) => RenderState {
                table: Some(TableV { head: t.row, row: seq![], in_head: false, ..t }),
                ..st
            },
            None => st,
        },
        MdEvent::EndTableRow => match st.table {
            Some(t) => RenderState {
                table: Some(
                    TableV {
                        body: if t.in_head {
                            t.body
                        } else {
                            t.body.push(t.row)
                        },
                        row: seq![],
                        ..t
                    },
                ),
                ..st
            },
            None => st,
        },
        MdEvent::EndTableCell => match st.table {
            Some(t) => RenderState {
                table: Some(TableV { row: t.row.push(t.cell), cell: seq![], ..t }),
                ..st
            },
            None => st,
        },
        MdEvent::EndTable => match st.table {
            Some(t) => RenderState { lines: st.lines + table_lines(t), table: None, ..st },
            None => st,
        },
        MdEvent::StartCodeBlock(lang) => start_code(st, opt_view(lang)),
        MdEvent::EndCodeBlock => end_code(st),
        MdEvent::Text(t) => text_event(st, t@, cfg),
        MdEvent::Code(t) => add_span(st, sv(t@, with_fg(plain(), cfg.code_color))),
        MdEvent::EndParagraph => RenderState {
            style: plain(),
            ..(if st.table is None {
                flush_block(st)
            } else {
                st
            })
        },
        MdEvent::SoftBreak => if st.table is None {
            break_line(st)
        } else {
            st
        },
        MdEvent::HardBreak => if st.table is None {
            break_line(st)
        } else {
            st
        },
        MdEvent::Other => st,
    }
}

/// The state after the events `events`, in order.
pub open spec fn fold_events(events: Seq<MdEvent>, cfg: RenderConfig, base: Option<Seq<char>>) -> RenderState
    decreases events.len(),
{
    if events.len() == 0 {
        initial_state()
    } else {
        step(fold_events(events.drop_last(), cfg, base), events.last(), cfg, base)
    }
}

/// The rendering of `events`: the rows (the last one ended if it has
/// anything), the images and the links.
pub open spec fn render_spec(events: Seq<MdEvent>, cfg: RenderConfig, base: Option<Seq<char>>) -> ResultV {
    let st = fold_events(events, cfg, base);
    ResultV {
        lines: if st.spans.len() > 0 {
            st.lines.push(st.spans)
        } else {
            st.lines
        },
        images: st.images,
        links: st.links,
    }
}

/// `b` comes from `a` by adding rows: the rows of `a` stay as they are, and
/// a row being built in `a` is kept being built unless a row was added.
pub open spec fn grows(a: RenderState, b: RenderState) -> bool {
    &&& a.lines.len() <= b.lines.len()
    &&& forall|k: int| 0 <= k < a.lines.len() ==> #[trigger] b.lines[k] == a.lines[k]
    &&& (a.spans.len() > 0 && b.lines.len() == a.lines.len() ==> b.spans.len() > 0)
}

/// The links of a state lie on a row that exists, or on the row being built
/// when it has spans; each covers at least one column; they come in row
/// order. A link being read starts at a column that is not negative.
pub open spec fn links_ok(st: RenderState) -> bool {
    &&& forall|i: int|
        0 <= i < st.links.len() ==> {
            &&& 0 <= (#[trigger] st.links[i]).line <= st.lines.len()
            &&& st.links[i].col_start < st.links[i].col_end
            &&& (st.links[i].line == st.lines.len() ==> st.spans.len() > 0)
        }
    &&& forall|i: int, j: int| 0 <= i < j < st.links.len() ==> #[trigger] st.links[i].line <= #[trigger] st.links[j].line
    &&& (st.link matches Some(l) ==> l.col_start >= 0)
}

/// Each image of a state has its placeholder row, made of one span, followed
/// by `height` (at least one) blank rows; the images come in row order
/// without sharing rows.
pub open spec fn images_ok(st: RenderState) -> bool {
    &&& forall|i: int|
        0 <= i < st.images.len() ==> {
            &&& (#[trigger] st.images[i]).height >= 1
            &&& 0 <= st.images[i].line_offset
            &&& st.images[i].line_offset + st.images[i].height < st.lines.len()
            &&& st.lines[st.images[i].line_offset].len() == 1
            &&& forall|k: int|
                1 <= k <= st.images[i].height ==> #[trigger] st.lines[st.images[i].line_offset + k]
                    == Seq::<SpanV>::empty()
        }
    &&& forall|i: int, j: int|
        0 <= i < j < st.images.len() ==> #[trigger] st.images[i].line_offset + st.images[i].height
            < #[trigger] st.images[j].line_offset
}

proof fn lemma_grows_trans(a: RenderState, b: RenderState, c: RenderState)
    requires
        grows(a, b),
        grows(b, c),
    ensures
        grows(a, c),
{
    assert forall|k: int| 0 <= k < a.lines.len() implies #[trigger] c.lines[k] == a.lines[k] by {
        assert(b.lines[k] == a.lines[k]);
    }
}

/// Adding rows keeps the links and images in place.
proof fn lemma_carry(a: RenderState, b: RenderState)
    requires
        grows(a, b),
        links_ok(a),
        images_ok(a),
        b.links == a.links,
        b.images == a.images,
        b.link == a.link,
    ensures
        links_ok(b),
        images_ok(b),
{
    assert forall|i: int| 0 <= i < b.images.len() implies {
        &&& (#[trigger] b.images[i]).height >= 1
        &&& 0 <= b.images[i].line_offset
        &&& b.images[i].line_offset + b.images[i].height < b.lines.len()
        &&& b.lines[b.images[i].line_offset].len() == 1
        &&& forall|k: int|
            1 <= k <= b.images[i].height ==> #[trigger] b.lines[b.images[i].line_offset + k]
                == Seq::<SpanV>::empty()
    } by {
        let off = a.images[i].line_offset;
        assert(b.lines[off] == a.lines[off]);
        assert forall|k: int| 1 <= k <= b.images[i].height implies #[trigger] b.lines[off + k]
            == Seq::<SpanV>::empty() by {
            assert(b.lines[off + k] == a.lines[off + k]);
        }
    }
}

proof fn lemma_chars_in_empty(spans: Seq<SpanV>)
    ensures
        spans.len() == 0 ==> chars_in(spans) == 0,
        chars_in(spans) >= 0,
{
    lemma_width_nonneg(spans);
}

proof fn lemma_code_fold_grows(st: RenderState, chunks: Seq<Seq<char>>, k: int, cfg: RenderConfig)
    ensures
        grows(st, code_fold(st, chunks, k, cfg)),
        code_fold(st, chunks, k, cfg).links == st.links,
        code_fold(st, chunks, k, cfg).images == st.images,
        code_fold(st, chunks, k, cfg).link == st.link,
    decreases k,
{
    if k > 0 {
        let prev = code_fold(st, chunks, k - 1, cfg);
        lemma_code_fold_grows(st, chunks, k - 1, cfg);
        let next = code_chunk(prev, chunks[k - 1], k < chunks.len(), cfg);
        assert(grows(prev, next));
        lemma_grows_trans(st, prev, next);
    }
}

proof fn lemma_flush_grows(st: RenderState)
    ensures
        grows(st, flush_block(st)),
        grows(st, break_line(st)),
{
}

/// One event keeps the links and images of a state in place.
proof fn lemma_step_ok(st: RenderState, e: MdEvent, cfg: RenderConfig, base: Option<Seq<char>>)
    requires
        links_ok(st),
        images_ok(st),
    ensures
        links_ok(step(st, e, cfg, base)),
        images_ok(step(st, e, cfg, base)),
{
    let st2 = step(st, e, cfg, base);
    lemma_flush_grows(st);
    match e {
        MdEvent::StartLink(dest) => {
            lemma_chars_in_empty(st.spans);
            lemma_carry(st, RenderState { link: st.link, style: st2.style, ..st2 });
        },
        MdEvent::EndLink => {
            match st.link {
                None => {},
                Some(l) => {
                    let st1 = RenderState { style: l.prev_style, link: None, ..st };
                    lemma_carry(st, RenderState { link: st.link, ..st1 });
                    lemma_chars_in_empty(st.spans);
                    match finished_link(l, st.spans, st.lines.len() as int, base) {
                        Some(r) => {
                            assert(st2.links == st.links.push(r));
                            assert(r.line == st.lines.len());
                            assert(st.spans.len() > 0);
                            assert forall|i: int, j: int| 0 <= i < j < st2.links.len() implies #[trigger] st2.links[i].line
                                <= #[trigger] st2.links[j].line by {
                                if j < st.links.len() {
                                    assert(st.links[i].line <= st.links[j].line);
                                } else {
                                    assert(st.links[i].line <= st.lines.len());
                                }
                            }
                            assert forall|i: int| 0 <= i < st2.links.len() implies {
                                &&& 0 <= (#[trigger] st2.links[i]).line <= st2.lines.len()
                                &&& st2.links[i].col_start < st2.links[i].col_end
                                &&& (st2.links[i].line == st2.lines.len() ==> st2.spans.len() > 0)
                            } by {
                                if i < st.links.len() {
                                    assert(st2.links[i] == st.links[i]);
                                }
                            }
                        },
                        None => {},
                    }
                },
            }
        },
        MdEvent::EndImage => {
            match st.image {
                None => {},
                Some((dest, alt)) => {
                    let st0 = RenderState { image: None, ..st };
                    let st1 = flush_block(st0);
                    lemma_flush_grows(st0);
                    lemma_carry(st, RenderState { image: st.image, ..st1 });
                    let mid = RenderState { lines: st2.lines, image: st.image, ..st1 };
                    assert(grows(st1, RenderState { image: None, ..mid }));
                    lemma_carry(RenderState { image: st.image, ..st1 }, mid);
                    let off = st1.lines.len() as int;
                    assert(st2.lines[off].len() == 1);
                    if st2.images.len() > st.images.len() {
                        let n = st.images.len() as int;
                        assert forall|i: int, j: int| 0 <= i < j < st2.images.len() implies #[trigger] st2.images[i].line_offset
                            + st2.images[i].height < #[trigger] st2.images[j].line_offset by {
                            if j < n {
                                assert(st.images[i].line_offset + st.images[i].height < st.images[j].line_offset);
                            } else {
                                assert(st.images[i].line_offset + st.images[i].height < st.lines.len());
                            }
                        }
                        assert forall|k: int| 1 <= k <= st2.images[n].height implies #[trigger] st2.lines[st2.images[n].line_offset + k]
                            == Seq::<SpanV>::empty() by {
                            assert(st2.lines[off + k] == Seq::<SpanV>::empty());
                        }
                        assert forall|i: int| 0 <= i < n implies #[trigger] st2.images[i] == mid.images[i] by {}
                    }
                },
            }
        },
        MdEvent::Text(t) => {
            match st.image {
                Some(_) => lemma_carry(st, RenderState { image: st.image, ..st2 }),
                None => if st.in_code {
                    let chunks = split(t@, '\n');
                    lemma_code_fold_grows(st, chunks, chunks.len() as int, cfg);
                    lemma_carry(st, st2);
                } else {
                    lemma_carry(st, st2);
                },
            }
        },
        _ => {
            lemma_carry(st, st2);
        },
    }
}

/// The state after some events keeps its links and images in place.
proof fn lemma_fold_ok(events: Seq<MdEvent>, cfg: RenderConfig, base: Option<Seq<char>>)
    ensures
        links_ok(fold_events(events, cfg, base)),
        images_ok(fold_events(events, cfg, base)),
    decreases events.len(),
{
    if events.len() > 0 {
        lemma_fold_ok(events.drop_last(), cfg, base);
        lemma_step_ok(fold_events(events.drop_last(), cfg, base), events.last(), cfg, base);
    }
}

/// Whatever the events, a rendering places its links and images on its
/// rows: every link lies on a row of the result and covers at least one
/// column, the links come in row order, and each image has its placeholder
/// row (one span) followed by `height` (at least one) blank rows, the images
/// in row order without sharing rows.
pub proof fn lemma_render_layout(events: Seq<MdEvent>, cfg: RenderConfig, base: Option<Seq<char>>)
    ensures
        ({
            let r = render_spec(events, cfg, base);
            &&& forall|i: int|
                0 <= i < r.links.len() ==> {
                    &&& 0 <= (#[trigger] r.links[i]).line < r.lines.len()
                    &&& r.links[i].col_start < r.links[i].col_end
                }
            &&& forall|i: int, j: int| 0 <= i < j < r.links.len() ==> #[trigger] r.links[i].line <= #[trigger] r.links[j].line
            &&& forall|i: int|
                0 <= i < r.images.len() ==> {
                    &&& (#[trigger] r.images[i]).height >= 1
                    &&& 0 <= r.images[i].line_offset
                    &&& r.images[i].line_offset + r.images[i].height < r.lines.len()
                    &&& r.lines[r.images[i].line_offset].len() == 1
                    &&& forall|k: int|
                        1 <= k <= r.images[i].height ==> #[trigger] r.lines[r.images[i].line_offset + k]
                            == Seq::<SpanV>::empty()
                }
            &&& forall|i: int, j: int|
                0 <= i < j < r.images.len() ==> #[trigger] r.images[i].line_offset + r.images[i].height
                    < #[trigger] r.images[j].line_offset
        }),
{
    let st = fold_events(events, cfg, base);
    lemma_fold_ok(events, cfg, base);
    let r = render_spec(events, cfg, base);
    let fin = RenderState { lines: r.lines, spans: seq![], ..st };
    assert(grows(st, fin));
    lemma_carry(st, fin);
    assert forall|i: int| 0 <= i < r.links.len() implies 0 <= (#[trigger] r.links[i]).line < r.lines.len() by {
        assert(st.links[i].line <= st.lines.len());
    }
}

/// Emphasised text is italic: outside code blocks, images and tables, text
/// that follows the start of an emphasis becomes one new span on the row
/// being built, with that text, the current color, the italic bit added and
/// no other bit changed, so the bold bit is as it was (`ITALIC` is bit 4, `BOLD` bit 1).
pub proof fn lemma_emphasis_is_italic(st: RenderState, t: String, cfg: RenderConfig, base: Option<Seq<char>>)
    requires
        st.image is None,
        !st.in_code,
        st.table is None,
    ensures
        ({
            let st2 = step(step(st, MdEvent::StartEmphasis, cfg, base), MdEvent::Text(t), cfg, base);
            &&& st2.lines == st.lines
            &&& st2.spans.len() == st.spans.len() + 1
            &&& st2.spans.drop_last() == st.spans
            &&& st2.spans.last().text == t@
            &&& st2.spans.last().style.fg == st.style.fg
            &&& st2.spans.last().style.add_modifier & 4 != 0
            &&& st2.spans.last().style.add_modifier & 1 == st.style.add_modifier & 1
            &&& st2.spans.last().style.add_modifier == st.style.add_modifier | 4
        }),
{
    let m = st.style.add_modifier;
    assert((m | 4u16) & 4u16 != 0 && (m | 4u16) & 1u16 == m & 1u16) by (bit_vector);
    let st2 = step(step(st, MdEvent::StartEmphasis, cfg, base), MdEvent::Text(t), cfg, base);
    assert(st2.spans.drop_last() =~= st.spans);
}

/// Strong text is bold: outside code blocks, images and tables, text that
/// follows the start of a strong emphasis becomes one new span on the row
/// being built, with that text, the current color, the bold bit added and
/// no other bit changed, so the italic bit is as it was (`BOLD` is bit 1, `ITALIC` bit 4).
pub proof fn lemma_strong_is_bold(st: RenderState, t: String, cfg: RenderConfig, base: Option<Seq<char>>)
    requires
        st.image is None,
        !st.in_code,
        st.table is None,
    ensures
        ({
            let st2 = step(step(st, MdEvent::StartStrong, cfg, base), MdEvent::Text(t), cfg, base);
            &&& st2.lines == st.lines
            &&& st2.spans.len() == st.spans.len() + 1
            &&& st2.spans.drop_last() == st.spans
            &&& st2.spans.last().text == t@
            &&& st2.spans.last().style.fg == st.style.fg
            &&& st2.spans.last().style.add_modifier & 1 != 0
            &&& st2.spans.last().style.add_modifier & 4 == st.style.add_modifier & 4
            &&& st2.spans.last().style.add_modifier == st.style.add_modifier | 1
        }),
{
    let m = st.style.add_modifier;
    assert((m | 1u16) & 1u16 != 0 && (m | 1u16) & 4u16 == m & 4u16) by (bit_vector);
    let st2 = step(step(st, MdEvent::StartStrong, cfg, base), MdEvent::Text(t), cfg, base);
    assert(st2.spans.drop_last() =~= st.spans);
}

struct PendingImage {
    dest: Vec<char>,
    alt: Vec<char>,
}

struct PendingLink {
    dest: Vec<char>,
    line_at_start: usize,
    col_start: usize,
    prev_style: Style,
    record: bool,
}

spec fn pending_link_view(l: PendingLink) -> PendingLinkV {
    PendingLinkV {
        dest: l.dest@,
        line_at_start: l.line_at_start as int,
        col_start: l.col_start as int,
        prev_style: l.prev_style,
        record: l.record,
    }
}

spec fn table_opt_view(t: Option<TableBuf>) -> Option<TableV> {
    match t {
        Some(b) => Some(table_view(b)),
        None => None,
    }
}

spec fn image_opt_view(i: Option<PendingImage>) -> Option<(Seq<char>, Seq<char>)> {
    match i {
        Some(p) => Some((p.dest@, p.alt@)),
        None => None,
    }
}

spec fn link_opt_view(l: Option<PendingLink>) -> Option<PendingLinkV> {
    match l {
        Some(p) => Some(pending_link_view(p)),
        None => None,
    }
}

struct Renderer {
    lines: Vec<Line>,
    images: Vec<ImageRef>,
    links: Vec<LinkRef>,
    spans: Vec<Span>,
    style: Style,
    heading: Option<u8>,
    table: Option<TableBuf>,
    in_code: bool,
    image: Option<PendingImage>,
    link: Option<PendingLink>,
    lists: Vec<Option<u64>>,
}

impl View for Renderer {
    type V = RenderState;

    closed spec fn view(&self) -> RenderState {
        RenderState {
            lines: lines_view(self.lines@),
            images: self.images@.map_values(|i: ImageRef| image_view(i)),
            links: self.links@.map_values(|l: LinkRef| link_view(l)),
            spans: spans_view(self.spans@),
            style: self.style,
            heading: self.heading,
            table: table_opt_view(self.table),
            in_code: self.in_code,
            image: image_opt_view(self.image),
            link: link_opt_view(self.link),
            lists: self.lists@,
        }
    }
}

fn push_image(v: &mut Vec<ImageRef>, x: ImageRef)
    ensures
        final(v)@.map_values(|i: ImageRef| image_view(i)) == old(v)@.map_values(|i: ImageRef| image_view(i)).push(
            image_view(x),
        ),
{
    v.push(x);
    assert(v@.map_values(|i: ImageRef| image_view(i)) =~= old(v)@.map_values(|i: ImageRef| image_view(i)).push(
        image_view(x),
    ));
}

fn push_link(v: &mut Vec<LinkRef>, x: LinkRef)
    ensures
        final(v)@.map_values(|l: LinkRef| link_view(l)) == old(v)@.map_values(|l: LinkRef| link_view(l)).push(
            link_view(x),
        ),
{
    v.push(x);
    assert(v@.map_values(|l: LinkRef| link_view(l)) =~= old(v)@.map_values(|l: LinkRef| link_view(l)).push(
        link_view(x),
    ));
}

fn finish_link(l: &PendingLink, spans: &[Span], nlines: usize, base: Option<&[char]>) -> (r: Option<LinkRef>)
    ensures
        match r {
            Some(x) => finished_link(pending_link_view(*l), spans_view(spans@), nlines as int, opt_slice(base))
                == Some(link_view(x)),
            None => finished_link(pending_link_view(*l), spans_view(spans@), nlines as int, opt_slice(base)) is None,
        },
{
    if !l.record {
        return None;
    }
    let col_end = span_chars(spans);
    let col_start: usize;
    if nlines == l.line_at_start {
        if col_end <= l.col_start {
            return None;
        }
        col_start = l.col_start;
    } else {
        if col_end == 0 {
            return None;
        }
        col_start = 0;
    }
    match resolve_link_target(&l.dest, base) {
        None => None,
        Some(t) => Some(LinkRef { line: nlines, col_start, col_end, target: t }),
    }
}

impl Renderer {
    fn new() -> (r: Renderer)
        ensures
            r@ == initial_state(),
    {
        let r = Renderer {
            lines: Vec::new(),
            images: Vec::new(),
            links: Vec::new(),
            spans: Vec::new(),
            style: Style::new(),
            heading: None,
            table: None,
            in_code: false,
            image: None,
            link: None,
            lists: Vec::new(),
        };
        assert(r@ =~= initial_state());
        r
    }

    fn take_spans(&mut self) -> (r: Vec<Span>)
        ensures
            r@ == old(self).spans@,
            final(self).spans@ == Seq::<Span>::empty(),
            final(self).lines == old(self).lines,
            final(self).images == old(self).images,
            final(self).links == old(self).links,
            final(self).style == old(self).style,
            final(self).heading == old(self).heading,
            final(self).table == old(self).table,
            final(self).in_code == old(self).in_code,
            final(self).image == old(self).image,
            final(self).link == old(self).link,
            final(self).lists == old(self).lists,
    {
        let mut taken: Vec<Span> = Vec::new();
        std::mem::swap(&mut taken, &mut self.spans);
        taken
    }

    fn break_line(&mut self)
        ensures
            final(self)@ == break_line(old(self)@),
    {
        if self.spans.len() > 0 {
            let taken = self.take_spans();
            push_line(&mut self.lines, Line { spans: taken });
            assert(self@ =~= break_line(old(self)@));
        }
    }

    fn flush_block(&mut self)
        ensures
            final(self)@ == flush_block(old(self)@),
    {
        if self.spans.len() > 0 {
            let taken = self.take_spans();
            push_line(&mut self.lines, Line { spans: taken });
            push_line(&mut self.lines, empty_line());
            assert(self@ =~= flush_block(old(self)@));
        }
    }

    fn add_span(&mut self, s: Span)
        ensures
            final(self)@ == add_span(old(self)@, span_view(s)),
    {
        match self.table.take() {
            Some(mut t) => {
                push_span_to(&mut t.cell, s);
                self.table = Some(t);
            },
            None => {
                push_span_to(&mut self.spans, s);
            },
        }
        assert(self@ =~= add_span(old(self)@, span_view(s)));
    }

    fn end_link(&mut self, base: Option<&[char]>)
        ensures
            final(self)@ == end_link(old(self)@, opt_slice(base)),
    {
        match self.link.take() {
            None => {},
            Some(l) => {
                self.style = l.prev_style;
                let nlines = self.lines.len();
                match finish_link(&l, &self.spans, nlines, base) {
                    Some(r) => {
                        push_link(&mut self.links, r);
                    },
                    None => {},
                }
            },
        }
        assert(self@ =~= end_link(old(self)@, opt_slice(base)));
    }
}

fn chars_copy(v: &[char]) -> (r: Vec<char>)
    ensures
        r@ == v@,
{
    assert(v@.subrange(0, v@.len() as int) =~= v@);
    slice_vec(v, 0, v.len())
}

fn image_label_exec(dest: &[char], alt: &[char], path: &Option<Vec<char>>) -> (r: Vec<char>)
    ensures
        r@ == image_label(dest@, alt@, opt_vec(*path)),
{
    if alt.len() > 0 {
        chars_copy(alt)
    } else {
        match path {
            Some(p) => match file_name_vec(p) {
                Some(n) => n,
                None => chars_of("image"),
            },
            None => chars_copy(dest),
        }
    }
}

pub open spec fn opt_vec(v: Option<Vec<char>>) -> Option<Seq<char>> {
    match v {
        Some(x) => Some(x@),
        None => None,
    }
}

fn blank_rows(lines: &mut Vec<Line>, n: u16)
    ensures
        lines_view(final(lines)@) == lines_view(old(lines)@) + Seq::new(n as nat, |i: int| Seq::<SpanV>::empty()),
{
    let mut k: u16 = 0;
    while k < n
        invariant
            k <= n,
            lines_view(lines@) == lines_view(old(lines)@) + Seq::new(k as nat, |i: int| Seq::<SpanV>::empty()),
        decreases n - k,
    {
        push_line(lines, empty_line());
        k += 1;
        assert(lines_view(lines@) =~= lines_view(old(lines)@) + Seq::new(k as nat, |i: int| Seq::<SpanV>::empty()));
    }
}

fn line_is_blank(l: &Line) -> (r: bool)
    ensures
        r == is_blank(line_view(*l)),
{
    let mut i: usize = 0;
    while i < l.spans.len()
        invariant
            i <= l.spans@.len(),
            forall|j: int| 0 <= j < i ==> (#[trigger] line_view(*l)[j]).text.len() == 0,
        decreases l.spans@.len() - i,
    {
        if l.spans[i].content.as_str().unicode_len() > 0 {
            assert(line_view(*l)[i as int].text.len() > 0);
            return false;
        }
        i += 1;
    }
    true
}

impl Renderer {
    fn end_image(&mut self, cfg: &RenderConfig, base: Option<&[char]>)
        ensures
            final(self)@ == end_image(old(self)@, *cfg, opt_slice(base)),
    {
        match self.image.take() {
            None => {},
            Some(img) => {
                let ghost st0 = self@;
                self.flush_block();
                let ghost st1 = self@;
                let path = resolve_image_path(&img.dest, base);
                let height: u16 = if cfg.image_height >= 1 {
                    cfg.image_height
                } else {
                    1
                };
                let off = self.lines.len();
                let label = image_label_exec(&img.dest, &img.alt, &path);
                let mut text = chars_of("[image: ");
                push_all(&mut text, &label);
                let close = chars_of("]");
                push_all(&mut text, &close);
                push_line(&mut self.lines, one_span_line(styled_chars(&text, Style::new().fg(Color::DarkGray))));
                blank_rows(&mut self.lines, height);
                match path {
                    Some(p) => {
                        push_image(&mut self.images, ImageRef { path: string_of(&p), line_offset: off, height });
                    },
                    None => {},
                }
                assert(self@ =~= end_image(old(self)@, *cfg, opt_slice(base)));
            },
        }
    }

    fn start_heading(&mut self, level: u8, cfg: &RenderConfig)
        ensures
            final(self)@ == start_heading(old(self)@, level, *cfg),
    {
        self.flush_block();
        if (level == 1 || level == 2) && self.lines.len() > 0 {
            let last = self.lines.len() - 1;
            if !line_is_blank(&self.lines[last]) {
                push_line(&mut self.lines, empty_line());
            }
        }
        self.heading = Some(level);
        self.style = heading_style(level, cfg);
        assert(self@ =~= start_heading(old(self)@, level, *cfg));
    }

    fn end_heading(&mut self, cfg: &RenderConfig)
        ensures
            final(self)@ == end_heading(old(self)@, *cfg),
    {
        let level: u8 = match self.heading {
            Some(l) => l,
            None => 1,
        };
        let text_len = span_chars(&self.spans);
        self.heading = None;
        self.break_line();
        match underline_char(level) {
            Some(ch) => {
                let n: usize = if text_len > 1 {
                    text_len
                } else {
                    1
                };
                let rule = repeat_char(ch, n);
                push_line(
                    &mut self.lines,
                    one_span_line(styled_chars(&rule, Style::new().fg(cfg.heading_color_for(level)))),
                );
            },
            None => {},
        }
        push_line(&mut self.lines, empty_line());
        self.style = Style::new();
        assert(self@ =~= end_heading(old(self)@, *cfg));
    }

    fn start_list(&mut self, start: Option<u64>)
        ensures
            final(self)@ == ({
                let st1 = break_line(old(self)@);
                RenderState { lists: st1.lists.push(start), ..st1 }
            }),
    {
        self.break_line();
        self.lists.push(start);
        assert(self@ =~= ({
            let st1 = break_line(old(self)@);
            RenderState { lists: st1.lists.push(start), ..st1 }
        }));
    }

    fn end_list(&mut self)
        ensures
            final(self)@ == end_list(old(self)@),
    {
        self.break_line();
        if self.lists.len() > 0 {
            self.lists.pop();
        }
        if self.lists.len() == 0 {
            push_line(&mut self.lines, empty_line());
        }
        assert(self@ =~= end_list(old(self)@));
    }

    fn start_item(&mut self)
        ensures
            final(self)@ == start_item(old(self)@),
    {
        self.break_line();
        let ghost st1 = self@;
        let k = self.lists.len();
        let depth: usize = if k > 0 {
            k - 1
        } else {
            0
        };
        let indent = depth.saturating_add(depth);
        let bullet: Vec<char> = if k > 0 && self.lists[k - 1].is_some() {
            let n = self.lists[k - 1].unwrap();
            let mut b = decimal_vec(n);
            let dot = chars_of(". ");
            push_all(&mut b, &dot);
            let next: u64 = if n == u64::MAX {
                0
            } else {
                n + 1
            };
            self.lists.set(k - 1, Some(next));
            b
        } else {
            chars_of("• ")
        };
        if indent > 0 {
            let pad = repeat_char(' ', indent);
            push_span_to(&mut self.spans, styled_chars(&pad, Style::new()));
        }
        push_span_to(&mut self.spans, styled_chars(&bullet, Style::new().fg(Color::White)));
        assert(self@ =~= start_item(old(self)@));
    }

    fn start_code(&mut self, lang: Option<Vec<char>>)
        ensures
            final(self)@ == start_code(old(self)@, opt_vec(lang)),
    {
        self.flush_block();
        let border = Style::new().fg(Color::DarkGray);
        let mut top: Vec<Span> = Vec::new();
        push_span_to(&mut top, styled("┌─", border));
        match lang {
            Some(l) => {
                if l.len() > 0 {
                    let mut txt = chars_of("  ");
                    push_all(&mut txt, &l);
                    push_span_to(&mut top, styled_chars(&txt, border.add(ITALIC)));
                }
            },
            None => {},
        }
        let top_line = Line { spans: top };
        push_line(&mut self.lines, top_line);
        self.in_code = true;
        assert(line_view(top_line) =~= seq![sv("┌─"@, border_style())] + match opt_vec(lang) {
            Some(l) => if l.len() > 0 {
                seq![sv("  "@ + l, with_mod(border_style(), ITALIC))]
            } else {
                seq![]
            },
            None => seq![],
        });
        assert(self@ =~= start_code(old(self)@, opt_vec(lang)));
    }

    fn end_code(&mut self)
        ensures
            final(self)@ == end_code(old(self)@),
    {
        self.break_line();
        push_line(&mut self.lines, one_span_line(styled("└─", Style::new().fg(Color::DarkGray))));
        push_line(&mut self.lines, empty_line());
        self.in_code = false;
        assert(self@ =~= end_code(old(self)@));
    }
}

impl Renderer {
    fn code_text(&mut self, t: &[char], cfg: &RenderConfig)
        ensures
            final(self)@ == code_text(old(self)@, t@, *cfg),
    {
        let chunks = split_vec(t, '\n');
        let ghost cv = split(t@, '\n');
        let n = chunks.len();
        let border = Style::new().fg(Color::DarkGray);
        let mut k: usize = 0;
        while k < n
            invariant
                n == chunks@.len(),
                cv == chunks@.map_values(|p: Vec<char>| p@),
                cv == split(t@, '\n'),
                border == border_style(),
                k <= n,
                self@ == code_fold(old(self)@, cv, k as int, *cfg),
            decreases n - k,
        {
            let has_next = k + 1 < n;
            let chunk = &chunks[k];
            assert(cv[k as int] == chunk@);
            let ghost before = self@;
            if chunk.len() > 0 {
                if self.spans.len() == 0 {
                    push_span_to(&mut self.spans, styled("│ ", border));
                }
                push_span_to(&mut self.spans, styled_chars(chunk, Style::new().fg(cfg.code_color)));
                if has_next {
                    self.break_line();
                }
            } else if has_next {
                push_line(&mut self.lines, one_span_line(styled("│", border)));
            }
            assert(self@ =~= code_chunk(before, cv[k as int], k + 1 < cv.len(), *cfg));
            k += 1;
        }
    }

    fn text_event(&mut self, t: &[char], cfg: &RenderConfig)
        ensures
            final(self)@ == text_event(old(self)@, t@, *cfg),
    {
        match self.image.take() {
            Some(mut img) => {
                push_all(&mut img.alt, t);
                self.image = Some(img);
                assert(self@ =~= text_event(old(self)@, t@, *cfg));
            },
            None => {
                if self.in_code {
                    self.code_text(t, cfg);
                } else {
                    let st = self.style;
                    self.add_span(styled_chars(t, st));
                }
            },
        }
    }

    fn table_event(&mut self, e: &MdEvent)
        requires
            *e is StartTableHead || *e is EndTableHead || *e is EndTableRow || *e is EndTableCell,
        ensures
            final(self)@ == step(old(self)@, *e, RenderConfig::default_spec(), None),
    {
        match self.table.take() {
            Some(mut t) => {
                let ghost tv = table_view(t);
                match e {
                    MdEvent::StartTableHead => {
                        t.in_head = true;
                    },
                    MdEvent::EndTableHead => {
                        let mut row: Vec<Vec<Span>> = Vec::new();
                        std::mem::swap(&mut row, &mut t.row);
                        t.head = row;
                        t.in_head = false;
                    },
                    MdEvent::EndTableRow => {
                        let mut row: Vec<Vec<Span>> = Vec::new();
                        std::mem::swap(&mut row, &mut t.row);
                        if !t.in_head {
                            t.body.push(row);
                            assert(rows_view(t.body@) =~= tv.body.push(cells_view(row@)));
                        }
                    },
                    _ => {
                        let mut cell: Vec<Span> = Vec::new();
                        std::mem::swap(&mut cell, &mut t.cell);
                        t.row.push(cell);
                        assert(cells_view(t.row@) =~= tv.row.push(spans_view(cell@)));
                    },
                }
                self.table = Some(t);
            },
            None => {},
        }
        assert(self@ =~= step(old(self)@, *e, RenderConfig::default_spec(), None));
    }

    fn step(&mut self, e: &MdEvent, cfg: &RenderConfig, base: Option<&[char]>)
        ensures
            final(self)@ == step(old(self)@, *e, *cfg, opt_slice(base)),
    {
        match e {
            MdEvent::StartLink(dest) => {
                let l = PendingLink {
                    dest: chars_of(dest.as_str()),
                    line_at_start: self.lines.len(),
                    col_start: span_chars(&self.spans),
                    prev_style: self.style,
                    record: self.table.is_none(),
                };
                self.link = Some(l);
                self.style = self.style.fg(Color::Cyan).add(UNDERLINED);
            },
            MdEvent::EndLink => self.end_link(base),
            MdEvent::StartImage(dest) => {
                self.image = Some(PendingImage { dest: chars_of(dest.as_str()), alt: Vec::new() });
            },
            MdEvent::EndImage => self.end_image(cfg, base),
            MdEvent::StartHeading(level) => self.start_heading(*level, cfg),
            MdEvent::EndHeading => self.end_heading(cfg),
            MdEvent::StartList(start) => self.start_list(*start),
            MdEvent::EndList => self.end_list(),
            MdEvent::StartItem => self.start_item(),
            MdEvent::EndItem => self.break_line(),
            MdEvent::StartStrong => {
                self.style = self.style.add(BOLD);
            },
            MdEvent::StartEmphasis => {
                self.style = self.style.add(ITALIC);
            },
            MdEvent::EndStrong => {
                self.style = Style::new();
            },
            MdEvent::EndEmphasis => {
                self.style = Style::new();
            },
            MdEvent::StartTable => {
                self.flush_block();
                self.table = Some(
                    TableBuf {
                        head: Vec::new(),
                        body: Vec::new(),
                        in_head: false,
                        row: Vec::new(),
                        cell: Vec::new(),
                    },
                );
            },
            MdEvent::StartTableHead => self.table_event(e),
            MdEvent::EndTableHead => self.table_event(e),
            MdEvent::EndTableRow => self.table_event(e),
            MdEvent::EndTableCell => self.table_event(e),
            MdEvent::EndTable => {
                match self.table.take() {
                    Some(t) => {
                        render_table(&t, &mut self.lines);
                    },
                    None => {},
                }
            },
            MdEvent::StartCodeBlock(lang) => {
                let l: Option<Vec<char>> = match lang {
                    Some(x) => Some(chars_of(x.as_str())),
                    None => None,
                };
                self.start_code(l);
            },
            MdEvent::EndCodeBlock => self.end_code(),
            MdEvent::Text(t) => {
                let tc = chars_of(t.as_str());
                self.text_event(&tc, cfg);
            },
            MdEvent::Code(t) => {
                let tc = chars_of(t.as_str());
                self.add_span(styled_chars(&tc, Style::new().fg(cfg.code_color)));
            },
            MdEvent::EndParagraph => {
                if self.table.is_none() {
                    self.flush_block();
                }
                self.style = Style::new();
            },
            MdEvent::SoftBreak => {
                if self.table.is_none() {
                    self.break_line();
                }
            },
            MdEvent::HardBreak => {
                if self.table.is_none() {
                    self.break_line();
                }
            },
            MdEvent::Other => {},
        }
        assert(self@ =~= step(old(self)@, *e, *cfg, opt_slice(base)));
    }

    fn finish(self) -> (r: ParseResult)
        ensures
            r@ == ({
                let st = self@;
                ResultV {
                    lines: if st.spans.len() > 0 {
                        st.lines.push(st.spans)
                    } else {
                        st.lines
                    },
                    images: st.images,
                    links: st.links,
                }
            }),
    {
        let mut lines = self.lines;
        if self.spans.len() > 0 {
            push_line(&mut lines, Line { spans: self.spans });
        }
        let r = ParseResult { lines, images: self.images, links: self.links };
        assert(r@ =~= ({
            let st = self@;
            ResultV {
                lines: if st.spans.len() > 0 {
                    st.lines.push(st.spans)
                } else {
                    st.lines
                },
                images: st.images,
                links: st.links,
            }
        }));
        r
    }
}

/// Renders a stream of markdown events: headings, paragraphs, lists, code
/// blocks, tables, images and links, into styled rows, with the positions of
/// the images and links in them. `base_dir` is the directory relative image
/// and link paths are taken from.
pub fn render_events(events: &[MdEvent], config: &RenderConfig, base_dir: Option<&str>) -> (r: ParseResult)
    ensures
        r@ == render_spec(events@, *config, opt_str(base_dir)),
{
    let base_chars: Option<Vec<char>> = match base_dir {
        Some(b) => Some(chars_of(b)),
        None => None,
    };
    let base: Option<&[char]> = match &base_chars {
        Some(v) => Some(v.as_slice()),
        None => None,
    };
    assert(opt_slice(base) == opt_str(base_dir));
    let mut r = Renderer::new();
    let mut i: usize = 0;
    while i < events.len()
        invariant
            i <= events@.len(),
            opt_slice(base) == opt_str(base_dir),
            r@ == fold_events(events@.take(i as int), *config, opt_str(base_dir)),
        decreases events@.len() - i,
    {
        r.step(&events[i], config, base);
        assert(events@.take(i + 1).drop_last() =~= events@.take(i as int));
        i += 1;
    }
    assert(events@.take(events@.len() as int) =~= events@);
    r.finish()
}

#[verifier::external_type_specification]
#[verifier::external_body]
pub struct ExTag<'a>(Tag<'a>);

#[verifier::external_type_specification]
#[verifier::external_body]
pub struct ExTagEnd(TagEnd);

/// A name for the events that pulldown-cmark's `Parser`, with every
/// extension of `Options::all()` switched on, gives for `content`, each
/// taken as an `MdEvent` (`markdown_events`, `start_tag` and `end_tag` say
/// how).
pub uninterp spec fn cmark_events(content: Seq<char>) -> Seq<MdEvent>;

/// Runs `pulldown_cmark::Parser::new_ext(content, Options::all())` and
/// converts each event: text and inline code with their text, soft and hard
/// breaks as such, start and end tags by `start_tag` and `end_tag`, the rest
/// as `Other`. The result is `cmark_events` of `content`.
#[verifier::external_body]
fn markdown_events(content: &str) -> (r: Vec<MdEvent>)
    ensures
        r@ == cmark_events(content@),
{
    Parser::new_ext(content, Options::all()).map(|e| match e {
        Event::Start(t) => start_tag(t),
        Event::End(TagEnd::Paragraph) => MdEvent::EndParagraph,
        Event::End(t) => end_tag(t),
        Event::Text(s) => MdEvent::Text(s.to_string()),
        Event::Code(s) => MdEvent::Code(s.to_string()),
        Event::SoftBreak => MdEvent::SoftBreak,
        Event::HardBreak => MdEvent::HardBreak,
        _ => MdEvent::Other,
    }).collect()
}

/// Converts a pulldown-cmark start tag: each tag the renderer acts on becomes
/// its `MdEvent` (a heading with its level number, a code block with its
/// fence's info string, a list with its start number, a link or image with
/// its destination); other tags become `Other`.
#[verifier::external_body]
fn start_tag(t: Tag<'_>) -> MdEvent {
    match t {
        Tag::Heading { level, .. } => MdEvent::StartHeading(level as u8),
        Tag::CodeBlock(CodeBlockKind::Fenced(s)) => MdEvent::StartCodeBlock(Some(s.to_string())),
        Tag::CodeBlock(CodeBlockKind::Indented) => MdEvent::StartCodeBlock(None),
        Tag::List(start) => MdEvent::StartList(start),
        Tag::Item => MdEvent::StartItem,
        Tag::Table(_) => MdEvent::StartTable,
        Tag::TableHead => MdEvent::StartTableHead,
        Tag::Emphasis => MdEvent::StartEmphasis,
        Tag::Strong => MdEvent::StartStrong,
        Tag::Link { dest_url, .. } => MdEvent::StartLink(dest_url.to_string()),
        Tag::Image { dest_url, .. } => MdEvent::StartImage(dest_url.to_string()),
        _ => MdEvent::Other,
    }
}

/// Converts a pulldown-cmark end tag: each end the renderer acts on becomes
/// its `MdEvent`; other ends become `Other`.
#[verifier::external_body]
fn end_tag(t: TagEnd) -> MdEvent {
    match t {
        TagEnd::Heading(_) => MdEvent::EndHeading,
        TagEnd::CodeBlock => MdEvent::EndCodeBlock,
        TagEnd::List(_) => MdEvent::EndList,
        TagEnd::Item => MdEvent::EndItem,
        TagEnd::Table => MdEvent::EndTable,
        TagEnd::TableHead => MdEvent::EndTableHead,
        TagEnd::TableRow => MdEvent::EndTableRow,
        TagEnd::TableCell => MdEvent::EndTableCell,
        TagEnd::Emphasis => MdEvent::EndEmphasis,
        TagEnd::Strong => MdEvent::EndStrong,
        TagEnd::Link => MdEvent::EndLink,
        TagEnd::Image => MdEvent::EndImage,
        _ => MdEvent::Other,
    }
}

/// Renders the markdown `content` into styled rows, with the images and
/// links in them; relative image and link paths are taken from `base_dir`.
pub fn parse_full_with(content: &str, config: &RenderConfig, base_dir: Option<&str>) -> (r: ParseResult)
    ensures
        r@ == render_spec(cmark_events(content@), *config, opt_str(base_dir)),
{
    let events = markdown_events(content);
    render_events(&events, config, base_dir)
}

/// Renders `content` with the default configuration and no base directory.
pub fn parse_full(content: &str) -> (r: ParseResult)
    ensures
        r@ == render_spec(cmark_events(content@), RenderConfig::default_spec(), None),
{
    let cfg = RenderConfig::default();
    parse_full_with(content, &cfg, None)
}

/// The rows of `content` rendered with `config`.
pub fn parse_with_config(content: &str, config: &RenderConfig) -> (r: Vec<Line>)
    ensures
        lines_view(r@) == render_spec(cmark_events(content@), *config, None).lines,
{
    parse_full_with(content, config, None).lines
}

/// The rows of `content` rendered with the default configuration.
pub fn parse(content: &str) -> (r: Vec<Line>)
    ensures
        lines_view(r@) == render_spec(cmark_events(content@), RenderConfig::default_spec(), None).lines,
{
    let cfg = RenderConfig::default();
    parse_with_config(content, &cfg)
}

} // verus!
