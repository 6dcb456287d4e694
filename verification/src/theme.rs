//! Colour themes for rendering a screen: a background, a foreground and a
//! 16-slot ANSI palette, taken from Windows Terminal's built-in schemes
//! (Campbell, One Half, Solarized, Tango, …) plus the classic xterm palette.
//! [`theme_by_name`] resolves a name case- and separator-insensitively; an
//! unknown name falls back to Campbell, the Windows Terminal default.

use vstd::prelude::*;
use crate::text::{ascii_lower, chars_eq, str_chars, to_ascii_lower, string_from_chars, same_chars};

verus! {

/// A 16-colour ANSI terminal theme.
#[derive(Debug, Clone, Copy)]
pub struct Theme {
    pub name: &'static str,
    /// Canvas / default background.
    pub background: [u8; 3],
    /// Default foreground, as the scheme gives it (text is painted through
    /// the `ansi` palette, so cell colour 7 is the scheme's white).
    pub foreground: [u8; 3],
    /// ANSI slots 0..16: black, red, green, yellow, blue, magenta, cyan,
    /// white, then their bright variants.
    pub ansi: [[u8; 3]; 16],
}

/// The red, green and blue bytes of a `0xRRGGBB` colour.
#[verifier::opaque]
pub open spec fn rgb_of(h: u32) -> [u8; 3] {
    [(h / 65536) as u8, ((h / 256) % 256) as u8, (h % 256) as u8]
}

/// The red, green and blue bytes of a `0xRRGGBB` colour.
pub fn rgb(h: u32) -> (c: [u8; 3])
    requires
        h < 0x1000000,
    ensures
        c == rgb_of(h),
{
    proof {
        reveal(rgb_of);
    }
    [(h / 65536) as u8, ((h / 256) % 256) as u8, (h % 256) as u8]
}

/// Every built-in theme, Campbell first (it is the fallback).
#[verifier::opaque]
pub open spec fn theme_table() -> Seq<Theme> {
    seq![
        Theme {
            name: "Campbell",
            background: rgb_of(0x0C0C0C),
            foreground: rgb_of(0xCCCCCC),
            ansi: [
                rgb_of(0x0C0C0C),
                rgb_of(0xC50F1F),
                rgb_of(0x13A10E),
                rgb_of(0xC19C00),
                rgb_of(0x0037DA),
                rgb_of(0x881798),
                rgb_of(0x3A96DD),
                rgb_of(0xCCCCCC),
                rgb_of(0x767676),
                rgb_of(0xE74856),
                rgb_of(0x16C60C),
                rgb_of(0xF9F1A5),
                rgb_of(0x3B78FF),
                rgb_of(0xB4009E),
                rgb_of(0x61D6D6),
                rgb_of(0xF2F2F2),
            ],
        },
        Theme {
            name: "Campbell Powershell",
            background: rgb_of(0x012456),
            foreground: rgb_of(0xCCCCCC),
            ansi: [
                rgb_of(0x0C0C0C),
                rgb_of(0xC50F1F),
                rgb_of(0x13A10E),
                rgb_of(0xC19C00),
                rgb_of(0x0037DA),
                rgb_of(0x881798),
                rgb_of(0x3A96DD),
                rgb_of(0xCCCCCC),
                rgb_of(0x767676),
                rgb_of(0xE74856),
                rgb_of(0x16C60C),
                rgb_of(0xF9F1A5),
                rgb_of(0x3B78FF),
                rgb_of(0xB4009E),
                rgb_of(0x61D6D6),
                rgb_of(0xF2F2F2),
            ],
        },
        Theme {
            name: "Vintage",
            background: rgb_of(0x000000),
            foreground: rgb_of(0xC0C0C0),
            ansi: [
                rgb_of(0x000000),
                rgb_of(0x800000),
                rgb_of(0x008000),
                rgb_of(0x808000),
                rgb_of(0x000080),
                rgb_of(0x800080),
                rgb_of(0x008080),
                rgb_of(0xC0C0C0),
                rgb_of(0x808080),
                rgb_of(0xFF0000),
                rgb_of(0x00FF00),
                rgb_of(0xFFFF00),
                rgb_of(0x0000FF),
                rgb_of(0xFF00FF),
                rgb_of(0x00FFFF),
                rgb_of(0xFFFFFF),
            ],
        },
        Theme {
            name: "One Half Dark",
            background: rgb_of(0x282C34),
            foreground: rgb_of(0xDCDFE4),
            ansi: [
                rgb_of(0x282C34),
                rgb_of(0xE06C75),
                rgb_of(0x98C379),
                rgb_of(0xE5C07B),
                rgb_of(0x61AFEF),
                rgb_of(0xC678DD),
                rgb_of(0x56B6C2),
                rgb_of(0xDCDFE4),
                rgb_of(0x5A6374),
                rgb_of(0xE06C75),
                rgb_of(0x98C379),
                rgb_of(0xE5C07B),
                rgb_of(0x61AFEF),
                rgb_of(0xC678DD),
                rgb_of(0x56B6C2),
                rgb_of(0xDCDFE4),
            ],
        },
        Theme {
            name: "One Half Light",
            background: rgb_of(0xFAFAFA),
            foreground: rgb_of(0x383A42),
            ansi: [
                rgb_of(0x383A42),
                rgb_of(0xE45649),
                rgb_of(0x50A14F),
                rgb_of(0xC18301),
                rgb_of(0x0184BC),
                rgb_of(0xA626A4),
                rgb_of(0x0997B3),
                rgb_of(0xFAFAFA),
                rgb_of(0x4F525D),
                rgb_of(0xDF6C75),
                rgb_of(0x98C379),
                rgb_of(0xE4C07A),
                rgb_of(0x61AFEF),
                rgb_of(0xC577DD),
                rgb_of(0x56B5C1),
                rgb_of(0xFFFFFF),
            ],
        },
        Theme {
            name: "Solarized Dark",
            background: rgb_of(0x002B36),
            foreground: rgb_of(0x839496),
            ansi: [
                rgb_of(0x002B36),
                rgb_of(0xDC322F),
                rgb_of(0x859900),
                rgb_of(0xB58900),
                rgb_of(0x268BD2),
                rgb_of(0xD33682),
                rgb_of(0x2AA198),
                rgb_of(0xEEE8D5),
                rgb_of(0x073642),
                rgb_of(0xCB4B16),
                rgb_of(0x586E75),
                rgb_of(0x657B83),
                rgb_of(0x839496),
                rgb_of(0x6C71C4),
                rgb_of(0x93A1A1),
                rgb_of(0xFDF6E3),
            ],
        },
        Theme {
            name: "Solarized Light",
            background: rgb_of(0xFDF6E3),
            foreground: rgb_of(0x657B83),
            ansi: [
                rgb_of(0x002B36),
                rgb_of(0xDC322F),
                rgb_of(0x859900),
                rgb_of(0xB58900),
                rgb_of(0x268BD2),
                rgb_of(0xD33682),
                rgb_of(0x2AA198),
                rgb_of(0xEEE8D5),
                rgb_of(0x073642),
                rgb_of(0xCB4B16),
                rgb_of(0x586E75),
                rgb_of(0x657B83),
                rgb_of(0x839496),
                rgb_of(0x6C71C4),
                rgb_of(0x93A1A1),
                rgb_of(0xFDF6E3),
            ],
        },
        Theme {
            name: "Tango Dark",
            background: rgb_of(0x000000),
            foreground: rgb_of(0xD3D7CF),
            ansi: [
                rgb_of(0x000000),
                rgb_of(0xCC0000),
                rgb_of(0x4E9A06),
                rgb_of(0xC4A000),
                rgb_of(0x3465A4),
                rgb_of(0x75507B),
                rgb_of(0x06989A),
                rgb_of(0xD3D7CF),
                rgb_of(0x555753),
                rgb_of(0xEF2929),
                rgb_of(0x8AE234),
                rgb_of(0xFCE94F),
                rgb_of(0x729FCF),
                rgb_of(0xAD7FA8),
                rgb_of(0x34E2E2),
                rgb_of(0xEEEEEC),
            ],
        },
        Theme {
            name: "Tango Light",
            background: rgb_of(0xFFFFFF),
            foreground: rgb_of(0x555753),
            ansi: [
                rgb_of(0x000000),
                rgb_of(0xCC0000),
                rgb_of(0x4E9A06),
                rgb_of(0xC4A000),
                rgb_of(0x3465A4),
                rgb_of(0x75507B),
                rgb_of(0x06989A),
                rgb_of(0xD3D7CF),
                rgb_of(0x555753),
                rgb_of(0xEF2929),
                rgb_of(0x8AE234),
                rgb_of(0xFCE94F),
                rgb_of(0x729FCF),
                rgb_of(0xAD7FA8),
                rgb_of(0x34E2E2),
                rgb_of(0xEEEEEC),
            ],
        },
        Theme {
            name: "Dimidium",
            background: rgb_of(0x141414),
            foreground: rgb_of(0xBAB7B6),
            ansi: [
                rgb_of(0x000000),
                rgb_of(0xCF494C),
                rgb_of(0x60B442),
                rgb_of(0xDB9C11),
                rgb_of(0x0575D8),
                rgb_of(0xAF5ED2),
                rgb_of(0x1DB6BB),
                rgb_of(0xBAB7B6),
                rgb_of(0x817E7E),
                rgb_of(0xFF643B),
                rgb_of(0x37E57B),
                rgb_of(0xFCCD1A),
                rgb_of(0x688DFD),
                rgb_of(0xED6FE9),
                rgb_of(0x32E0FB),
                rgb_of(0xDEE3E4),
            ],
        },
        Theme {
            name: "Ottosson",
            background: rgb_of(0x000000),
            foreground: rgb_of(0xBEBEBE),
            ansi: [
                rgb_of(0x000000),
                rgb_of(0xBE2C21),
                rgb_of(0x3FAE3A),
                rgb_of(0xBE9A4A),
                rgb_of(0x204DBE),
                rgb_of(0xBB54BE),
                rgb_of(0x00A7B2),
                rgb_of(0xBEBEBE),
                rgb_of(0x808080),
                rgb_of(0xFF3E30),
                rgb_of(0x58EA51),
                rgb_of(0xFFC944),
                rgb_of(0x2F6AFF),
                rgb_of(0xFC74FF),
                rgb_of(0x00E1F0),
                rgb_of(0xFFFFFF),
            ],
        },
        Theme {
            name: "Dark+",
            background: rgb_of(0x1E1E1E),
            foreground: rgb_of(0xCCCCCC),
            ansi: [
                rgb_of(0x000000),
                rgb_of(0xCD3131),
                rgb_of(0x0DBC79),
                rgb_of(0xE5E510),
                rgb_of(0x2472C8),
                rgb_of(0xBC3FBC),
                rgb_of(0x11A8CD),
                rgb_of(0xE5E5E5),
                rgb_of(0x666666),
                rgb_of(0xF14C4C),
                rgb_of(0x23D18B),
                rgb_of(0xF5F543),
                rgb_of(0x3B8EEA),
                rgb_of(0xD670D6),
                rgb_of(0x29B8DB),
                rgb_of(0xE5E5E5),
            ],
        },
        Theme {
            name: "CGA",
            background: rgb_of(0x000000),
            foreground: rgb_of(0xAAAAAA),
            ansi: [
                rgb_of(0x000000),
                rgb_of(0xAA0000),
                rgb_of(0x00AA00),
                rgb_of(0xAA5500),
                rgb_of(0x0000AA),
                rgb_of(0xAA00AA),
                rgb_of(0x00AAAA),
                rgb_of(0xAAAAAA),
                rgb_of(0x555555),
                rgb_of(0xFF5555),
                rgb_of(0x55FF55),
                rgb_of(0xFFFF55),
                rgb_of(0x5555FF),
                rgb_of(0xFF55FF),
                rgb_of(0x55FFFF),
                rgb_of(0xFFFFFF),
            ],
        },
        Theme {
            name: "IBM 5153",
            background: rgb_of(0x000000),
            foreground: rgb_of(0xAAAAAA),
            ansi: [
                rgb_of(0x000000),
                rgb_of(0xAA0000),
                rgb_of(0x00AA00),
                rgb_of(0xC47E00),
                rgb_of(0x0000AA),
                rgb_of(0xAA00AA),
                rgb_of(0x00AAAA),
                rgb_of(0xAAAAAA),
                rgb_of(0x555555),
                rgb_of(0xFF5555),
                rgb_of(0x55FF55),
                rgb_of(0xFFFF55),
                rgb_of(0x5555FF),
                rgb_of(0xFF55FF),
                rgb_of(0x55FFFF),
                rgb_of(0xFFFFFF),
            ],
        },
        Theme {
            name: "xterm",
            background: rgb_of(0x18181C),
            foreground: rgb_of(0xE5E5E5),
            ansi: [
                rgb_of(0x000000),
                rgb_of(0xCD0000),
                rgb_of(0x00CD00),
                rgb_of(0xCDCD00),
                rgb_of(0x0000EE),
                rgb_of(0xCD00CD),
                rgb_of(0x00CDCD),
                rgb_of(0xE5E5E5),
                rgb_of(0x7F7F7F),
                rgb_of(0xFF0000),
                rgb_of(0x00FF00),
                rgb_of(0xFFFF00),
                rgb_of(0x5C5CFF),
                rgb_of(0xFF00FF),
                rgb_of(0x00FFFF),
                rgb_of(0xFFFFFF),
            ],
        },
    ]
}

/// All built-in themes, Campbell first (it is the fallback).
pub fn themes() -> (v: Vec<Theme>)
    ensures
        v@ == theme_table(),
{
    let mut v: Vec<Theme> = Vec::new();
    v.push(Theme {
            name: "Campbell",
            background: rgb(0x0C0C0C),
            foreground: rgb(0xCCCCCC),
            ansi: [
                rgb(0x0C0C0C),
                rgb(0xC50F1F),
                rgb(0x13A10E),
                rgb(0xC19C00),
                rgb(0x0037DA),
                rgb(0x881798),
                rgb(0x3A96DD),
                rgb(0xCCCCCC),
                rgb(0x767676),
                rgb(0xE74856),
                rgb(0x16C60C),
                rgb(0xF9F1A5),
                rgb(0x3B78FF),
                rgb(0xB4009E),
                rgb(0x61D6D6),
                rgb(0xF2F2F2),
            ],
        });
    v.push(Theme {
            name: "Campbell Powershell",
            background: rgb(0x012456),
            foreground: rgb(0xCCCCCC),
            ansi: [
                rgb(0x0C0C0C),
                rgb(0xC50F1F),
                rgb(0x13A10E),
                rgb(0xC19C00),
                rgb(0x0037DA),
                rgb(0x881798),
                rgb(0x3A96DD),
                rgb(0xCCCCCC),
                rgb(0x767676),
                rgb(0xE74856),
                rgb(0x16C60C),
                rgb(0xF9F1A5),
                rgb(0x3B78FF),
                rgb(0xB4009E),
                rgb(0x61D6D6),
                rgb(0xF2F2F2),
            ],
        });
    v.push(Theme {
            name: "Vintage",
            background: rgb(0x000000),
            foreground: rgb(0xC0C0C0),
            ansi: [
                rgb(0x000000),
                rgb(0x800000),
                rgb(0x008000),
                rgb(0x808000),
                rgb(0x000080),
                rgb(0x800080),
                rgb(0x008080),
                rgb(0xC0C0C0),
                rgb(0x808080),
                rgb(0xFF0000),
                rgb(0x00FF00),
                rgb(0xFFFF00),
                rgb(0x0000FF),
                rgb(0xFF00FF),
                rgb(0x00FFFF),
                rgb(0xFFFFFF),
            ],
        });
    v.push(Theme {
            name: "One Half Dark",
            background: rgb(0x282C34),
            foreground: rgb(0xDCDFE4),
            ansi: [
                rgb(0x282C34),
                rgb(0xE06C75),
                rgb(0x98C379),
                rgb(0xE5C07B),
                rgb(0x61AFEF),
                rgb(0xC678DD),
                rgb(0x56B6C2),
                rgb(0xDCDFE4),
                rgb(0x5A6374),
                rgb(0xE06C75),
                rgb(0x98C379),
                rgb(0xE5C07B),
                rgb(0x61AFEF),
                rgb(0xC678DD),
                rgb(0x56B6C2),
                rgb(0xDCDFE4),
            ],
        });
    v.push(Theme {
            name: "One Half Light",
            background: rgb(0xFAFAFA),
            foreground: rgb(0x383A42),
            ansi: [
                rgb(0x383A42),
                rgb(0xE45649),
                rgb(0x50A14F),
                rgb(0xC18301),
                rgb(0x0184BC),
                rgb(0xA626A4),
                rgb(0x0997B3),
                rgb(0xFAFAFA),
                rgb(0x4F525D),
                rgb(0xDF6C75),
                rgb(0x98C379),
                rgb(0xE4C07A),
                rgb(0x61AFEF),
                rgb(0xC577DD),
                rgb(0x56B5C1),
                rgb(0xFFFFFF),
            ],
        });
    v.push(Theme {
            name: "Solarized Dark",
            background: rgb(0x002B36),
            foreground: rgb(0x839496),
            ansi: [
                rgb(0x002B36),
                rgb(0xDC322F),
                rgb(0x859900),
                rgb(0xB58900),
                rgb(0x268BD2),
                rgb(0xD33682),
                rgb(0x2AA198),
                rgb(0xEEE8D5),
                rgb(0x073642),
                rgb(0xCB4B16),
                rgb(0x586E75),
                rgb(0x657B83),
                rgb(0x839496),
                rgb(0x6C71C4),
                rgb(0x93A1A1),
                rgb(0xFDF6E3),
            ],
        });
    v.push(Theme {
            name: "Solarized Light",
            background: rgb(0xFDF6E3),
            foreground: rgb(0x657B83),
            ansi: [
                rgb(0x002B36),
                rgb(0xDC322F),
                rgb(0x859900),
                rgb(0xB58900),
                rgb(0x268BD2),
                rgb(0xD33682),
                rgb(0x2AA198),
                rgb(0xEEE8D5),
                rgb(0x073642),
                rgb(0xCB4B16),
                rgb(0x586E75),
                rgb(0x657B83),
                rgb(0x839496),
                rgb(0x6C71C4),
                rgb(0x93A1A1),
                rgb(0xFDF6E3),
            ],
        });
    v.push(Theme {
            name: "Tango Dark",
            background: rgb(0x000000),
            foreground: rgb(0xD3D7CF),
            ansi: [
                rgb(0x000000),
                rgb(0xCC0000),
                rgb(0x4E9A06),
                rgb(0xC4A000),
                rgb(0x3465A4),
                rgb(0x75507B),
                rgb(0x06989A),
                rgb(0xD3D7CF),
                rgb(0x555753),
                rgb(0xEF2929),
                rgb(0x8AE234),
                rgb(0xFCE94F),
                rgb(0x729FCF),
                rgb(0xAD7FA8),
                rgb(0x34E2E2),
                rgb(0xEEEEEC),
            ],
        });
    v.push(Theme {
            name: "Tango Light",
            background: rgb(0xFFFFFF),
            foreground: rgb(0x555753),
            ansi: [
                rgb(0x000000),
                rgb(0xCC0000),
                rgb(0x4E9A06),
                rgb(0xC4A000),
                rgb(0x3465A4),
                rgb(0x75507B),
                rgb(0x06989A),
                rgb(0xD3D7CF),
                rgb(0x555753),
                rgb(0xEF2929),
                rgb(0x8AE234),
                rgb(0xFCE94F),
                rgb(0x729FCF),
                rgb(0xAD7FA8),
                rgb(0x34E2E2),
                rgb(0xEEEEEC),
            ],
        });
    v.push(Theme {
            name: "Dimidium",
            background: rgb(0x141414),
            foreground: rgb(0xBAB7B6),
            ansi: [
                rgb(0x000000),
                rgb(0xCF494C),
                rgb(0x60B442),
                rgb(0xDB9C11),
                rgb(0x0575D8),
                rgb(0xAF5ED2),
                rgb(0x1DB6BB),
                rgb(0xBAB7B6),
                rgb(0x817E7E),
                rgb(0xFF643B),
                rgb(0x37E57B),
                rgb(0xFCCD1A),
                rgb(0x688DFD),
                rgb(0xED6FE9),
                rgb(0x32E0FB),
                rgb(0xDEE3E4),
            ],
        });
    v.push(Theme {
            name: "Ottosson",
            background: rgb(0x000000),
            foreground: rgb(0xBEBEBE),
            ansi: [
                rgb(0x000000),
                rgb(0xBE2C21),
                rgb(0x3FAE3A),
                rgb(0xBE9A4A),
                rgb(0x204DBE),
                rgb(0xBB54BE),
                rgb(0x00A7B2),
                rgb(0xBEBEBE),
                rgb(0x808080),
                rgb(0xFF3E30),
                rgb(0x58EA51),
                rgb(0xFFC944),
                rgb(0x2F6AFF),
                rgb(0xFC74FF),
                rgb(0x00E1F0),
                rgb(0xFFFFFF),
            ],
        });
    v.push(Theme {
            name: "Dark+",
            background: rgb(0x1E1E1E),
            foreground: rgb(0xCCCCCC),
            ansi: [
                rgb(0x000000),
                rgb(0xCD3131),
                rgb(0x0DBC79),
                rgb(0xE5E510),
                rgb(0x2472C8),
                rgb(0xBC3FBC),
                rgb(0x11A8CD),
                rgb(0xE5E5E5),
                rgb(0x666666),
                rgb(0xF14C4C),
                rgb(0x23D18B),
                rgb(0xF5F543),
                rgb(0x3B8EEA),
                rgb(0xD670D6),
                rgb(0x29B8DB),
                rgb(0xE5E5E5),
            ],
        });
    v.push(Theme {
            name: "CGA",
            background: rgb(0x000000),
            foreground: rgb(0xAAAAAA),
            ansi: [
                rgb(0x000000),
                rgb(0xAA0000),
                rgb(0x00AA00),
                rgb(0xAA5500),
                rgb(0x0000AA),
                rgb(0xAA00AA),
                rgb(0x00AAAA),
                rgb(0xAAAAAA),
                rgb(0x555555),
                rgb(0xFF5555),
                rgb(0x55FF55),
                rgb(0xFFFF55),
                rgb(0x5555FF),
                rgb(0xFF55FF),
                rgb(0x55FFFF),
                rgb(0xFFFFFF),
            ],
        });
    v.push(Theme {
            name: "IBM 5153",
            background: rgb(0x000000),
            foreground: rgb(0xAAAAAA),
            ansi: [
                rgb(0x000000),
                rgb(0xAA0000),
                rgb(0x00AA00),
                rgb(0xC47E00),
                rgb(0x0000AA),
                rgb(0xAA00AA),
                rgb(0x00AAAA),
                rgb(0xAAAAAA),
                rgb(0x555555),
                rgb(0xFF5555),
                rgb(0x55FF55),
                rgb(0xFFFF55),
                rgb(0x5555FF),
                rgb(0xFF55FF),
                rgb(0x55FFFF),
                rgb(0xFFFFFF),
            ],
        });
    v.push(Theme {
            name: "xterm",
            background: rgb(0x18181C),
            foreground: rgb(0xE5E5E5),
            ansi: [
                rgb(0x000000),
                rgb(0xCD0000),
                rgb(0x00CD00),
                rgb(0xCDCD00),
                rgb(0x0000EE),
                rgb(0xCD00CD),
                rgb(0x00CDCD),
                rgb(0xE5E5E5),
                rgb(0x7F7F7F),
                rgb(0xFF0000),
                rgb(0x00FF00),
                rgb(0xFFFF00),
                rgb(0x5C5CFF),
                rgb(0xFF00FF),
                rgb(0x00FFFF),
                rgb(0xFFFFFF),
            ],
        });
    proof {
        reveal(theme_table);
    }
    assert(v@ =~= theme_table());
    v
}

/// There are fifteen themes, the last of them named `xterm`.
pub proof fn lemma_theme_table_shape()
    ensures
        theme_table().len() == 15,
        theme_table()[0].name@ == "Campbell"@,
        theme_table()[14].name@ == "xterm"@,
{
    reveal(theme_table);
}

/// An ASCII letter or digit.
pub open spec fn is_key_char(c: char) -> bool {
    ('0' <= c && c <= '9') || ('a' <= c && c <= 'z') || ('A' <= c && c <= 'Z')
}

/// The ASCII letters and digits of `s`, in order.
pub open spec fn alnum_only(s: Seq<char>) -> Seq<char>
    decreases s.len(),
{
    if s.len() == 0 {
        Seq::empty()
    } else if is_key_char(s.last()) {
        alnum_only(s.drop_last()).push(s.last())
    } else {
        alnum_only(s.drop_last())
    }
}

/// The lookup key of a theme name: its ASCII letters and digits, lower-cased
/// (`"Solarized Dark"`, `"solarized-dark"` and `"SOLARIZED_DARK"` all give
/// `"solarizeddark"`).
pub open spec fn theme_key(s: Seq<char>) -> Seq<char> {
    ascii_lower(alnum_only(s))
}

fn key_chars(s: &str) -> (k: Vec<char>)
    ensures
        k@ == theme_key(s@),
{
    let cs = str_chars(s);
    let mut kept: Vec<char> = Vec::new();
    let mut i: usize = 0;
    while i < cs.len()
        invariant
            cs@ == s@,
            i <= cs.len(),
            kept@ == alnum_only(s@.take(i as int)),
        decreases cs.len() - i,
    {
        let c = cs[i];
        assert(s@.take(i + 1).drop_last() == s@.take(i as int));
        if ('0' <= c && c <= '9') || ('a' <= c && c <= 'z') || ('A' <= c && c <= 'Z') {
            kept.push(c);
        }
        i = i + 1;
    }
    assert(s@.take(s@.len() as int) == s@);
    to_ascii_lower(kept.as_slice())
}

/// The lookup key of a theme name: its ASCII letters and digits,
/// lower-cased.
pub fn key(s: &str) -> (k: String)
    ensures
        k@ == theme_key(s@),
{
    let v = key_chars(s);
    string_from_chars(v.as_slice())
}

/// The first of the first `n` themes whose key is `k`.
pub open spec fn first_key_match(k: Seq<char>, n: nat) -> Option<nat>
    decreases n,
{
    if n == 0 {
        None
    } else {
        match first_key_match(k, (n - 1) as nat) {
            Some(i) => Some(i),
            None => if theme_key(theme_table()[n - 1].name@) == k {
                Some((n - 1) as nat)
            } else {
                None
            },
        }
    }
}

/// The first of the first `n` themes named exactly `name`.
pub open spec fn first_name_match(name: Seq<char>, n: nat) -> Option<nat>
    decreases n,
{
    if n == 0 {
        None
    } else {
        match first_name_match(name, (n - 1) as nat) {
            Some(i) => Some(i),
            None => if theme_table()[n - 1].name@ == name {
                Some((n - 1) as nat)
            } else {
                None
            },
        }
    }
}

/// The theme a name resolves to: `"default"` (by key) is the xterm theme,
/// a name whose key matches a theme's key is the first such theme, and any
/// other name is Campbell.
pub open spec fn theme_named(name: Seq<char>) -> Theme {
    let k = theme_key(name);
    let table = theme_table();
    if k == "default"@ {
        match first_name_match("xterm"@, table.len()) {
            Some(i) => table[i as int],
            None => table[0],
        }
    } else {
        match first_key_match(k, table.len()) {
            Some(i) => table[i as int],
            None => table[0],
        }
    }
}

/// A search that finds a theme among the first `n` themes finds the same
/// one among more.
proof fn lemma_first_key_match_some(k: Seq<char>, n: nat, m: nat)
    requires
        n <= m,
        first_key_match(k, n) is Some,
    ensures
        first_key_match(k, m) == first_key_match(k, n),
    decreases m - n,
{
    if n < m {
        lemma_first_key_match_some(k, n, (m - 1) as nat);
    }
}

proof fn lemma_first_name_match_some(name: Seq<char>, n: nat, m: nat)
    requires
        n <= m,
        first_name_match(name, n) is Some,
    ensures
        first_name_match(name, m) == first_name_match(name, n),
    decreases m - n,
{
    if n < m {
        lemma_first_name_match_some(name, n, (m - 1) as nat);
    }
}

/// A search that found nothing among the first `n` themes finds nothing
/// among fewer.
proof fn lemma_first_name_match_none(name: Seq<char>, n: nat, m: nat)
    requires
        m <= n,
        first_name_match(name, n) is None,
    ensures
        first_name_match(name, m) is None,
    decreases n - m,
{
    if m < n {
        lemma_first_name_match_none(name, (n - 1) as nat, m);
    }
}

/// Resolves a theme by name, case- and separator-insensitively:
/// `"default"` is the classic xterm palette, and an unknown name falls back
/// to Campbell.
pub fn theme_by_name(name: &str) -> (t: Theme)
    ensures
        t == theme_named(name@),
{
    let table = themes();
    proof {
        lemma_theme_table_shape();
    }
    let k = key_chars(name);
    if chars_eq(k.as_slice(), "default") {
        let mut i: usize = 0;
        while i < table.len()
            invariant
                table@ == theme_table(),
                i <= table.len(),
                k@ == theme_key(name@),
                k@ == "default"@,
                first_name_match("xterm"@, i as nat) is None,
            decreases table.len() - i,
        {
            let nm = str_chars(table[i].name);
            if chars_eq(nm.as_slice(), "xterm") {
                proof {
                    lemma_first_name_match_some("xterm"@, (i + 1) as nat, table@.len());
                }
                return table[i];
            }
            i = i + 1;
        }
        proof {
            lemma_theme_table_shape();
            lemma_first_name_match_none("xterm"@, 15, 14);
            assert(false);
        }
        return table[0];
    }
    let mut i: usize = 0;
    while i < table.len()
        invariant
            table@ == theme_table(),
            i <= table.len(),
            k@ == theme_key(name@),
            k@ != "default"@,
            first_key_match(k@, i as nat) is None,
        decreases table.len() - i,
    {
        let tk = key_chars(table[i].name);
        if same_chars(tk.as_slice(), k.as_slice()) {
            proof {
                lemma_first_key_match_some(k@, (i + 1) as nat, table@.len());
            }
            return table[i];
        }
        i = i + 1;
    }
    table[0]
}

/// What a search for a key finds is a theme with that key, and it finds
/// one whenever there is one.
proof fn lemma_first_key_match(k: Seq<char>, n: nat)
    requires
        n <= theme_table().len(),
    ensures
        first_key_match(k, n) matches Some(i) ==> i < n && theme_key(theme_table()[i as int].name@)
            == k,
        first_key_match(k, n) is None ==> forall|j: int|
            0 <= j < n ==> theme_key(#[trigger] theme_table()[j].name@) != k,
    decreases n,
{
    if n > 0 {
        lemma_first_key_match(k, (n - 1) as nat);
    }
}

proof fn lemma_first_name_match(name: Seq<char>, n: nat)
    requires
        n <= theme_table().len(),
    ensures
        first_name_match(name, n) matches Some(i) ==> i < n && theme_table()[i as int].name@ == name,
        first_name_match(name, n) is None ==> forall|j: int|
            0 <= j < n ==> (#[trigger] theme_table()[j]).name@ != name,
    decreases n,
{
    if n > 0 {
        lemma_first_name_match(name, (n - 1) as nat);
    }
}

/// Theme lookup goes by key alone: names that differ only in case and in
/// characters other than ASCII letters and digits resolve to the same theme.
pub proof fn law_theme_lookup_ignores_case_and_separators(a: Seq<char>, b: Seq<char>)
    requires
        theme_key(a) == theme_key(b),
    ensures
        theme_named(a) == theme_named(b),
{
}

/// `"default"`, however written, resolves to the xterm theme.
pub proof fn law_default_is_xterm(name: Seq<char>)
    requires
        theme_key(name) == "default"@,
    ensures
        theme_named(name).name@ == "xterm"@,
{
    lemma_theme_table_shape();
    lemma_first_name_match("xterm"@, 15);
}

/// A name that is not `"default"` and matches a theme's key resolves to a
/// theme with that key.
pub proof fn law_known_name_resolves(name: Seq<char>, j: int)
    requires
        theme_key(name) != "default"@,
        0 <= j < theme_table().len(),
        theme_key(theme_table()[j].name@) == theme_key(name),
    ensures
        theme_key(theme_named(name).name@) == theme_key(name),
{
    lemma_first_key_match(theme_key(name), theme_table().len());
}

/// A name that matches no theme's key, and is not `"default"`, falls back to
/// Campbell.
pub proof fn law_unknown_name_is_campbell(name: Seq<char>)
    requires
        theme_key(name) != "default"@,
        forall|j: int|
            0 <= j < theme_table().len() ==> theme_key(#[trigger] theme_table()[j].name@) != theme_key(
                name,
            ),
    ensures
        theme_named(name).name@ == "Campbell"@,
{
    lemma_theme_table_shape();
    lemma_first_key_match(theme_key(name), theme_table().len());
}

} // verus!
