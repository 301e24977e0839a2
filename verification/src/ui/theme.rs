//! Colours and styles: each nickname gets one of twelve colours, picked by
//! a hash of its bytes so that it stays the same, and each part of the
//! interface has its style. The terminal's own colours are kept wherever
//! no accent is set.
use vstd::prelude::*;
use vstd::string::*;
use vstd::utf8::encode_utf8;

use crate::irc::channel::MessageKind;

verus! {

/// The colours nicknames are drawn in.
#[derive(Debug, Clone, Copy, PartialEq, Eq, Structural)]
pub enum NickColor {
    Cyan,
    Magenta,
    Yellow,
    Green,
    Blue,
    Red,
    LightCyan,
    LightMagenta,
    LightYellow,
    LightGreen,
    LightBlue,
    LightRed,
}

/// The nickname colours, in order.
pub open spec fn palette(i: int) -> NickColor {
    if i == 0 {
        NickColor::Cyan
    } else if i == 1 {
        NickColor::Magenta
    } else if i == 2 {
        NickColor::Yellow
    } else if i == 3 {
        NickColor::Green
    } else if i == 4 {
        NickColor::Blue
    } else if i == 5 {
        NickColor::Red
    } else if i == 6 {
        NickColor::LightCyan
    } else if i == 7 {
        NickColor::LightMagenta
    } else if i == 8 {
        NickColor::LightYellow
    } else if i == 9 {
        NickColor::LightGreen
    } else if i == 10 {
        NickColor::LightBlue
    } else {
        NickColor::LightRed
    }
}

/// The hash of a nickname's bytes: starting from 0, each byte is added to
/// 31 times the hash so far, wrapping around in a `usize`.
pub open spec fn nick_hash(bytes: Seq<u8>) -> usize
    decreases bytes.len(),
{
    if bytes.len() == 0 {
        0
    } else {
        nick_hash(bytes.drop_last()).wrapping_mul(31).wrapping_add(bytes.last() as usize)
    }
}

/// A colour in a style: the terminal's own, or a named one.
#[derive(Debug, Clone, Copy, PartialEq, Eq, Structural)]
pub enum StyleColor {
    Reset,
    Named(NickColor),
}

/// How text is drawn: its colours (the terminal's when unset) and its
/// modifiers.
#[derive(Debug, Clone, Copy, PartialEq, Eq, Structural)]
pub struct TextStyle {
    pub fg: Option<StyleColor>,
    pub bg: Option<StyleColor>,
    pub bold: bool,
    pub dim: bool,
    pub italic: bool,
    pub underlined: bool,
    pub reversed: bool,
}

/// The terminal's own style.
pub open spec fn plain() -> TextStyle {
    TextStyle { fg: None, bg: None, bold: false, dim: false, italic: false, underlined: false, reversed: false }
}

/// The plain style in colour `c`.
pub open spec fn coloured(c: NickColor) -> TextStyle {
    TextStyle { fg: Some(StyleColor::Named(c)), ..plain() }
}

/// How a line of each kind is drawn.
pub open spec fn kind_style(kind: MessageKind) -> TextStyle {
    match kind {
        MessageKind::Normal => plain(),
        MessageKind::Action => coloured(NickColor::Magenta),
        MessageKind::Notice => coloured(NickColor::Yellow),
        MessageKind::System => coloured(NickColor::Cyan),
        MessageKind::Error => TextStyle { bold: true, ..coloured(NickColor::Red) },
        MessageKind::Join => coloured(NickColor::Green),
        MessageKind::Part => coloured(NickColor::Yellow),
        MessageKind::Quit => TextStyle { dim: true, ..plain() },
        MessageKind::Kick => coloured(NickColor::Red),
        MessageKind::Mode => coloured(NickColor::Cyan),
        MessageKind::Topic => TextStyle { bold: true, ..coloured(NickColor::Cyan) },
        MessageKind::Nick => coloured(NickColor::Cyan),
    }
}

fn plain_style() -> (r: TextStyle)
    ensures
        r == plain(),
{
    TextStyle { fg: None, bg: None, bold: false, dim: false, italic: false, underlined: false, reversed: false }
}

fn coloured_style(c: NickColor) -> (r: TextStyle)
    ensures
        r == coloured(c),
{
    TextStyle { fg: Some(StyleColor::Named(c)), ..plain_style() }
}

/// The colours and styles used in the interface.
pub struct Theme;

impl Theme {
    /// The colour of a nickname.
    pub fn nick_color(nick: &str) -> (r: NickColor)
        ensures
            r == palette((nick_hash(encode_utf8(nick@)) % 12) as int),
    {
        let bytes = nick.as_bytes_vec();
        let mut hash: usize = 0;
        let mut i: usize = 0;
        assert(bytes@.take(0) =~= Seq::<u8>::empty());
        while i < bytes.len()
            invariant
                i <= bytes@.len(),
                hash == nick_hash(bytes@.take(i as int)),
            decreases bytes@.len() - i,
        {
            assert(bytes@.take(i + 1).drop_last() =~= bytes@.take(i as int));
            hash = hash.wrapping_mul(31).wrapping_add(bytes[i] as usize);
            i += 1;
        }
        assert(bytes@.take(bytes@.len() as int) =~= bytes@);
        let k = hash % 12;
        if k == 0 {
            NickColor::Cyan
        } else if k == 1 {
            NickColor::Magenta
        } else if k == 2 {
            NickColor::Yellow
        } else if k == 3 {
            NickColor::Green
        } else if k == 4 {
            NickColor::Blue
        } else if k == 5 {
            NickColor::Red
        } else if k == 6 {
            NickColor::LightCyan
        } else if k == 7 {
            NickColor::LightMagenta
        } else if k == 8 {
            NickColor::LightYellow
        } else if k == 9 {
            NickColor::LightGreen
        } else if k == 10 {
            NickColor::LightBlue
        } else {
            NickColor::LightRed
        }
    }
    /// How a line of kind `kind` is drawn.
    pub fn message_style(kind: &MessageKind) -> (r: TextStyle)
        ensures
            r == kind_style(*kind),
    {
        match kind {
            MessageKind::Normal => plain_style(),
            MessageKind::Action => coloured_style(NickColor::Magenta),
            MessageKind::Notice => coloured_style(NickColor::Yellow),
            MessageKind::System => coloured_style(NickColor::Cyan),
            MessageKind::Error => TextStyle { bold: true, ..coloured_style(NickColor::Red) },
            MessageKind::Join => coloured_style(NickColor::Green),
            MessageKind::Part => coloured_style(NickColor::Yellow),
            MessageKind::Quit => TextStyle { dim: true, ..plain_style() },
            MessageKind::Kick => coloured_style(NickColor::Red),
            MessageKind::Mode => coloured_style(NickColor::Cyan),
            MessageKind::Topic => TextStyle { bold: true, ..coloured_style(NickColor::Cyan) },
            MessageKind::Nick => coloured_style(NickColor::Cyan),
        }
    }

    /// The status bar: bold, on blue.
    pub fn status_bar() -> (r: TextStyle)
        ensures
            r == (TextStyle { fg: Some(StyleColor::Reset), bg: Some(StyleColor::Named(NickColor::Blue)), bold: true, ..plain() }),
    {
        TextStyle {
            fg: Some(StyleColor::Reset),
            bg: Some(StyleColor::Named(NickColor::Blue)),
            bold: true,
            ..plain_style()
        }
    }

    /// The input bar: plain.
    pub fn input_bar() -> (r: TextStyle)
        ensures
            r == plain(),
    {
        plain_style()
    }

    /// The nick list's title: bold cyan.
    pub fn nick_list_header() -> (r: TextStyle)
        ensures
            r == (TextStyle { bold: true, ..coloured(NickColor::Cyan) }),
    {
        TextStyle { bold: true, ..coloured_style(NickColor::Cyan) }
    }

    /// Operators in the nick list: bold green.
    pub fn nick_op() -> (r: TextStyle)
        ensures
            r == (TextStyle { bold: true, ..coloured(NickColor::Green) }),
    {
        TextStyle { bold: true, ..coloured_style(NickColor::Green) }
    }

    /// Voiced users in the nick list: yellow.
    pub fn nick_voice() -> (r: TextStyle)
        ensures
            r == coloured(NickColor::Yellow),
    {
        coloured_style(NickColor::Yellow)
    }

    /// Other users in the nick list: plain.
    pub fn nick_normal() -> (r: TextStyle)
        ensures
            r == plain(),
    {
        plain_style()
    }

    /// The tab of the channel shown: bold and underlined.
    pub fn channel_active() -> (r: TextStyle)
        ensures
            r == (TextStyle { bold: true, underlined: true, ..plain() }),
    {
        TextStyle { bold: true, underlined: true, ..plain_style() }
    }

    /// The tab of a channel with nothing unread: dim.
    pub fn channel_inactive() -> (r: TextStyle)
        ensures
            r == (TextStyle { dim: true, ..plain() }),
    {
        TextStyle { dim: true, ..plain_style() }
    }

    /// The tab of a channel with unread lines: bold yellow.
    pub fn channel_unread() -> (r: TextStyle)
        ensures
            r == (TextStyle { bold: true, ..coloured(NickColor::Yellow) }),
    {
        TextStyle { bold: true, ..coloured_style(NickColor::Yellow) }
    }

    /// Time stamps: dim.
    pub fn timestamp() -> (r: TextStyle)
        ensures
            r == (TextStyle { dim: true, ..plain() }),
    {
        TextStyle { dim: true, ..plain_style() }
    }

    /// Topics: cyan italics.
    pub fn topic() -> (r: TextStyle)
        ensures
            r == (TextStyle { italic: true, ..coloured(NickColor::Cyan) }),
    {
        TextStyle { italic: true, ..coloured_style(NickColor::Cyan) }
    }

    /// Borders: dim.
    pub fn border() -> (r: TextStyle)
        ensures
            r == (TextStyle { dim: true, ..plain() }),
    {
        TextStyle { dim: true, ..plain_style() }
    }

    /// Highlighted text: reversed.
    pub fn highlight() -> (r: TextStyle)
        ensures
            r == (TextStyle { reversed: true, ..plain() }),
    {
        TextStyle { reversed: true, ..plain_style() }
    }

}

} // verus!
