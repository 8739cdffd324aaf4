//! ANSI colours for terminal output.

use crate::text::decimal;
use vstd::prelude::*;
use vstd::string::*;

verus! {

/// The colours of the terminal.
#[derive(Debug, Clone, Copy, PartialEq, Eq, Structural)]
pub enum Color {
    Reset,
    Black,
    Red,
    Green,
    Yellow,
    Blue,
    Magenta,
    Cyan,
    White,
    BrightBlack,
    BrightRed,
    BrightGreen,
    BrightYellow,
    BrightBlue,
    BrightMagenta,
    BrightCyan,
    BrightWhite,
}

/// The number of a colour in a Select Graphic Rendition sequence: 0 resets,
/// 30 to 37 are the plain and 90 to 97 the bright foreground colours, and a
/// background colour is ten more than the foreground colour.
pub open spec fn sgr_code(color: Color, is_bg: bool) -> nat {
    let shift: nat = if is_bg {
        10
    } else {
        0
    };
    match color {
        Color::Reset => 0,
        Color::Black => 30 + shift,
        Color::Red => 31 + shift,
        Color::Green => 32 + shift,
        Color::Yellow => 33 + shift,
        Color::Blue => 34 + shift,
        Color::Magenta => 35 + shift,
        Color::Cyan => 36 + shift,
        Color::White => 37 + shift,
        Color::BrightBlack => 90 + shift,
        Color::BrightRed => 91 + shift,
        Color::BrightGreen => 92 + shift,
        Color::BrightYellow => 93 + shift,
        Color::BrightBlue => 94 + shift,
        Color::BrightMagenta => 95 + shift,
        Color::BrightCyan => 96 + shift,
        Color::BrightWhite => 97 + shift,
    }
}

/// The escape sequence that selects the rendition `code`: `ESC [ code m`.
pub open spec fn sgr_sequence(code: nat) -> Seq<char> {
    seq!['\u{1b}', '['] + decimal(code) + seq!['m']
}

proof fn lemma_two_digits(code: nat)
    requires
        10 <= code < 100,
    ensures
        sgr_sequence(code) == seq![
            '\u{1b}',
            '[',
            crate::text::digit_char(code / 10),
            crate::text::digit_char(code % 10),
            'm',
        ],
{
    assert(decimal(code) =~= seq![
        crate::text::digit_char(code / 10),
        crate::text::digit_char(code % 10),
    ]) by {
        assert(decimal(code / 10) =~= seq![crate::text::digit_char(code / 10)]);
    }
    assert(sgr_sequence(code) =~= seq![
        '\u{1b}',
        '[',
        crate::text::digit_char(code / 10),
        crate::text::digit_char(code % 10),
        'm',
    ]);
}

proof fn lemma_three_digits(code: nat)
    requires
        100 <= code < 1000,
    ensures
        sgr_sequence(code) == seq![
            '\u{1b}',
            '[',
            crate::text::digit_char(code / 100),
            crate::text::digit_char((code / 10) % 10),
            crate::text::digit_char(code % 10),
            'm',
        ],
{
    assert(decimal(code / 100) =~= seq![crate::text::digit_char(code / 100)]);
    assert(decimal(code / 10) =~= seq![
        crate::text::digit_char(code / 100),
        crate::text::digit_char((code / 10) % 10),
    ]);
    assert(decimal(code) =~= seq![
        crate::text::digit_char(code / 100),
        crate::text::digit_char((code / 10) % 10),
        crate::text::digit_char(code % 10),
    ]);
    assert(sgr_sequence(code) =~= seq![
        '\u{1b}',
        '[',
        crate::text::digit_char(code / 100),
        crate::text::digit_char((code / 10) % 10),
        crate::text::digit_char(code % 10),
        'm',
    ]);
}

impl Color {
    /// The escape sequence that selects this colour for the text, or for
    /// the background when `is_bg` is set.
    pub fn to_ansi_code(self, is_bg: bool) -> (r: &'static str)
        ensures
            r@ == sgr_sequence(sgr_code(self, is_bg)),
    {
        match self {
            Color::Reset => {
                proof {
                    reveal_strlit("\x1B[0m");
                    assert("\x1B[0m"@ =~= sgr_sequence(0));
                }
                "\x1B[0m"
            },
            Color::Black => {
                if is_bg {
                    proof {
                        reveal_strlit("\x1B[40m");
                        lemma_two_digits(40);
                        assert("\x1B[40m"@ =~= sgr_sequence(40));
                    }
                    "\x1B[40m"
                } else {
                    proof {
                        reveal_strlit("\x1B[30m");
                        lemma_two_digits(30);
                        assert("\x1B[30m"@ =~= sgr_sequence(30));
                    }
                    "\x1B[30m"
                }
            },
            Color::Red => {
                if is_bg {
                    proof {
                        reveal_strlit("\x1B[41m");
                        lemma_two_digits(41);
                        assert("\x1B[41m"@ =~= sgr_sequence(41));
                    }
                    "\x1B[41m"
                } else {
                    proof {
                        reveal_strlit("\x1B[31m");
                        lemma_two_digits(31);
                        assert("\x1B[31m"@ =~= sgr_sequence(31));
                    }
                    "\x1B[31m"
                }
            },
            Color::Green => {
                if is_bg {
                    proof {
                        reveal_strlit("\x1B[42m");
                        lemma_two_digits(42);
                        assert("\x1B[42m"@ =~= sgr_sequence(42));
                    }
                    "\x1B[42m"
                } else {
                    proof {
                        reveal_strlit("\x1B[32m");
                        lemma_two_digits(32);
                        assert("\x1B[32m"@ =~= sgr_sequence(32));
                    }
                    "\x1B[32m"
                }
            },
            Color::Yellow => {
                if is_bg {
                    proof {
                        reveal_strlit("\x1B[43m");
                        lemma_two_digits(43);
                        assert("\x1B[43m"@ =~= sgr_sequence(43));
                    }
                    "\x1B[43m"
                } else {
                    proof {
                        reveal_strlit("\x1B[33m");
                        lemma_two_digits(33);
                        assert("\x1B[33m"@ =~= sgr_sequence(33));
                    }
                    "\x1B[33m"
                }
            },
            Color::Blue => {
                if is_bg {
                    proof {
                        reveal_strlit("\x1B[44m");
                        lemma_two_digits(44);
                        assert("\x1B[44m"@ =~= sgr_sequence(44));
                    }
                    "\x1B[44m"
                } else {
                    proof {
                        reveal_strlit("\x1B[34m");
                        lemma_two_digits(34);
                        assert("\x1B[34m"@ =~= sgr_sequence(34));
                    }
                    "\x1B[34m"
                }
            },
            Color::Magenta => {
                if is_bg {
                    proof {
                        reveal_strlit("\x1B[45m");
                        lemma_two_digits(45);
                        assert("\x1B[45m"@ =~= sgr_sequence(45));
                    }
                    "\x1B[45m"
                } else {
                    proof {
                        reveal_strlit("\x1B[35m");
                        lemma_two_digits(35);
                        assert("\x1B[35m"@ =~= sgr_sequence(35));
                    }
                    "\x1B[35m"
                }
            },
            Color::Cyan => {
                if is_bg {
                    proof {
                        reveal_strlit("\x1B[46m");
                        lemma_two_digits(46);
                        assert("\x1B[46m"@ =~= sgr_sequence(46));
                    }
                    "\x1B[46m"
                } else {
                    proof {
                        reveal_strlit("\x1B[36m");
                        lemma_two_digits(36);
                        assert("\x1B[36m"@ =~= sgr_sequence(36));
                    }
                    "\x1B[36m"
                }
            },
            Color::White => {
                if is_bg {
                    proof {
                        reveal_strlit("\x1B[47m");
                        lemma_two_digits(47);
                        assert("\x1B[47m"@ =~= sgr_sequence(47));
                    }
                    "\x1B[47m"
                } else {
                    proof {
                        reveal_strlit("\x1B[37m");
                        lemma_two_digits(37);
                        assert("\x1B[37m"@ =~= sgr_sequence(37));
                    }
                    "\x1B[37m"
                }
            },
            Color::BrightBlack => {
                if is_bg {
                    proof {
                        reveal_strlit("\x1B[100m");
                        lemma_three_digits(100);
                        assert("\x1B[100m"@ =~= sgr_sequence(100));
                    }
                    "\x1B[100m"
                } else {
                    proof {
                        reveal_strlit("\x1B[90m");
                        lemma_two_digits(90);
                        assert("\x1B[90m"@ =~= sgr_sequence(90));
                    }
                    "\x1B[90m"
                }
            },
            Color::BrightRed => {
                if is_bg {
                    proof {
                        reveal_strlit("\x1B[101m");
                        lemma_three_digits(101);
                        assert("\x1B[101m"@ =~= sgr_sequence(101));
                    }
                    "\x1B[101m"
                } else {
                    proof {
                        reveal_strlit("\x1B[91m");
                        lemma_two_digits(91);
                        assert("\x1B[91m"@ =~= sgr_sequence(91));
                    }
                    "\x1B[91m"
                }
            },
            Color::BrightGreen => {
                if is_bg {
                    proof {
                        reveal_strlit("\x1B[102m");
                        lemma_three_digits(102);
                        assert("\x1B[102m"@ =~= sgr_sequence(102));
                    }
                    "\x1B[102m"
                } else {
                    proof {
                        reveal_strlit("\x1B[92m");
                        lemma_two_digits(92);
                        assert("\x1B[92m"@ =~= sgr_sequence(92));
                    }
                    "\x1B[92m"
                }
            },
            Color::BrightYellow => {
                if is_bg {
                    proof {
                        reveal_strlit("\x1B[103m");
                        lemma_three_digits(103);
                        assert("\x1B[103m"@ =~= sgr_sequence(103));
                    }
                    "\x1B[103m"
                } else {
                    proof {
                        reveal_strlit("\x1B[93m");
                        lemma_two_digits(93);
                        assert("\x1B[93m"@ =~= sgr_sequence(93));
                    }
                    "\x1B[93m"
                }
            },
            Color::BrightBlue => {
                if is_bg {
                    proof {
                        reveal_strlit("\x1B[104m");
                        lemma_three_digits(104);
                        assert("\x1B[104m"@ =~= sgr_sequence(104));
                    }
                    "\x1B[104m"
                } else {
                    proof {
                        reveal_strlit("\x1B[94m");
                        lemma_two_digits(94);
                        assert("\x1B[94m"@ =~= sgr_sequence(94));
                    }
                    "\x1B[94m"
                }
            },
            Color::BrightMagenta => {
                if is_bg {
                    proof {
                        reveal_strlit("\x1B[105m");
                        lemma_three_digits(105);
                        assert("\x1B[105m"@ =~= sgr_sequence(105));
                    }
                    "\x1B[105m"
                } else {
                    proof {
                        reveal_strlit("\x1B[95m");
                        lemma_two_digits(95);
                        assert("\x1B[95m"@ =~= sgr_sequence(95));
                    }
                    "\x1B[95m"
                }
            },
            Color::BrightCyan => {
                if is_bg {
                    proof {
                        reveal_strlit("\x1B[106m");
                        lemma_three_digits(106);
                        assert("\x1B[106m"@ =~= sgr_sequence(106));
                    }
                    "\x1B[106m"
                } else {
                    proof {
                        reveal_strlit("\x1B[96m");
                        lemma_two_digits(96);
                        assert("\x1B[96m"@ =~= sgr_sequence(96));
                    }
                    "\x1B[96m"
                }
            },
            Color::BrightWhite => {
                if is_bg {
                    proof {
                        reveal_strlit("\x1B[107m");
                        lemma_three_digits(107);
                        assert("\x1B[107m"@ =~= sgr_sequence(107));
                    }
                    "\x1B[107m"
                } else {
                    proof {
                        reveal_strlit("\x1B[97m");
                        lemma_two_digits(97);
                        assert("\x1B[97m"@ =~= sgr_sequence(97));
                    }
                    "\x1B[97m"
                }
            },
        }
    }
}

/// Text that can be written in colour.
pub trait ColorExt {
    /// The text as it is written.
    spec fn text(&self) -> Seq<char>;

    /// The text in the given colour.
    fn color(self, color: Color) -> (r: String)
        ensures
            r@ == sgr_sequence(sgr_code(color, false)) + self.text() + sgr_sequence(0),
    ;

    /// The text on a background of the given colour.
    fn bg_color(self, color: Color) -> (r: String)
        ensures
            r@ == sgr_sequence(sgr_code(color, true)) + self.text() + sgr_sequence(0),
    ;

    /// The text in bold.
    fn bold(self) -> (r: String)
        ensures
            r@ == sgr_sequence(0) + sgr_sequence(1) + self.text() + sgr_sequence(0),
    ;
}

impl ColorExt for &str {
    open spec fn text(&self) -> Seq<char> {
        self@
    }

    fn color(self, color: Color) -> (r: String) {
        let mut r = color.to_ansi_code(false).to_owned();
        r.append(self);
        r.append(Color::Reset.to_ansi_code(false));
        r
    }

    fn bg_color(self, color: Color) -> (r: String) {
        let mut r = color.to_ansi_code(true).to_owned();
        r.append(self);
        r.append(Color::Reset.to_ansi_code(true));
        r
    }

    fn bold(self) -> (r: String) {
        let mut r = Color::Reset.to_ansi_code(false).to_owned();
        proof {
            reveal_strlit("\x1B[1m");
            assert("\x1B[1m"@ =~= sgr_sequence(1));
        }
        r.append("\x1B[1m");
        r.append(self);
        r.append(Color::Reset.to_ansi_code(false));
        r
    }
}

} // verus!
