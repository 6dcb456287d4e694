//! The fonts kou renders with: the curated families it knows how to fetch,
//! where each is cached and downloaded from, and which families a
//! configuration selects. Reading files and fetching bytes happen outside
//! the library; this module decides what to read and fetch.

use vstd::prelude::*;
use crate::text::{
    normalized, normalize, chars_eq, str_chars, trim_end_char, trim_end_char_vec, replace_all,
    replace_chars, string_from_chars,
};

verus! {

/// A curated font family kou knows how to fetch.
#[derive(Debug, Clone, Copy, PartialEq, Eq, Structural)]
pub enum FontFamily {
    /// Fira Code: ligature-rich Latin monospace.
    FiraCode,
    /// JetBrains Mono.
    JetBrainsMono,
    /// Source Han Sans SC: CJK sans serif.
    SourceHanSansSC,
    /// Sarasa Mono SC: CJK monospace, terminal-friendly.
    SarasaMonoSC,
    /// Smiley Sans: CJK display face.
    SmileySans,
}

/// The primary family that a `KOU_FONT_PRIMARY` value selects.
pub open spec fn primary_named(value: Option<Seq<char>>) -> FontFamily {
    match value {
        Some(v) => {
            let k = normalized(v);
            if k == "jetbrains"@ || k == "jetbrainsmono"@ || k == "jetbrains-mono"@ {
                FontFamily::JetBrainsMono
            } else {
                FontFamily::FiraCode
            }
        },
        None => FontFamily::FiraCode,
    }
}

/// The CJK fallback family that a `KOU_FONT_CJK` value selects (`None`:
/// no CJK fallback); Sarasa Mono SC by default.
pub open spec fn cjk_named(value: Option<Seq<char>>) -> Option<FontFamily> {
    match value {
        Some(v) => {
            let k = normalized(v);
            if k == "sourcehansans"@ || k == "sourcehan"@ {
                Some(FontFamily::SourceHanSansSC)
            } else if k == "sarasa"@ || k == "sarasa-mono"@ {
                Some(FontFamily::SarasaMonoSC)
            } else if k == "smileysans"@ || k == "smiley"@ {
                Some(FontFamily::SmileySans)
            } else if k == "none"@ || k == "off"@ {
                None
            } else {
                Some(FontFamily::SarasaMonoSC)
            }
        },
        None => Some(FontFamily::SarasaMonoSC),
    }
}

/// The file name of a family inside the font cache.
pub open spec fn cache_file(f: FontFamily) -> Seq<char> {
    match f {
        FontFamily::FiraCode => "FiraCode-Regular.ttf"@,
        FontFamily::JetBrainsMono => "JetBrainsMono-Regular.ttf"@,
        FontFamily::SourceHanSansSC => "SourceHanSansSC-Regular.otf"@,
        FontFamily::SarasaMonoSC => "SarasaMonoSC-Regular.ttf"@,
        FontFamily::SmileySans => "SmileySans-Regular.ttf"@,
    }
}

/// Every family has a cache file of its own, so cached fonts never
/// overwrite each other.
pub proof fn law_cache_files_distinct(a: FontFamily, b: FontFamily)
    requires
        a != b,
    ensures
        cache_file(a) != cache_file(b),
{
    reveal_strlit("FiraCode-Regular.ttf");
    reveal_strlit("JetBrainsMono-Regular.ttf");
    reveal_strlit("SourceHanSansSC-Regular.otf");
    reveal_strlit("SarasaMonoSC-Regular.ttf");
    reveal_strlit("SmileySans-Regular.ttf");
    if cache_file(a) == cache_file(b) {
        assert(cache_file(a)[0] == cache_file(b)[0]);
        assert(cache_file(a)[1] == cache_file(b)[1]);
        assert(cache_file(a).len() == cache_file(b).len());
    }
}

/// Where a family is downloaded from, before any mirror is applied.
pub open spec fn raw_url(f: FontFamily) -> Seq<char> {
    match f {
        FontFamily::FiraCode => "https://cdn.jsdelivr.net/gh/tonsky/FiraCode@5.2/distr/ttf/FiraCode-Regular.ttf"@,
        FontFamily::JetBrainsMono => "https://cdn.jsdelivr.net/gh/JetBrains/JetBrainsMono@2.304/fonts/ttf/JetBrainsMono-Regular.ttf"@,
        FontFamily::SourceHanSansSC => "https://cdn.jsdelivr.net/gh/adobe-fonts/source-han-sans@release/SubsetOTF/CN/SourceHanSansCN-Regular.otf"@,
        FontFamily::SarasaMonoSC => "https://cdn.jsdelivr.net/gh/be5invis/sarasa-gothic@0.42.5/SarasaMonoSC-Regular.ttf"@,
        FontFamily::SmileySans => "https://cdn.jsdelivr.net/gh/atelier-anchor/smiley-sans@2.0.1/fonts/SmileySans-Regular.ttf"@,
    }
}

/// Where a family is downloaded from, given the value of `KOU_FONT_MIRROR`:
/// a mirror (trailing slashes dropped) that is not empty takes the place of
/// the jsDelivr GitHub host and then of the GitHub host.
pub open spec fn source_url_of(f: FontFamily, mirror: Option<Seq<char>>) -> Seq<char> {
    match mirror {
        Some(m) => {
            let host = trim_end_char(m, '/');
            if host.len() > 0 {
                replace_all(
                    replace_all(raw_url(f), "https://cdn.jsdelivr.net/gh"@, host),
                    "https://github.com"@,
                    host,
                )
            } else {
                raw_url(f)
            }
        },
        None => raw_url(f),
    }
}

impl FontFamily {
    /// The family selected for the primary (Latin) slot by the value of
    /// `KOU_FONT_PRIMARY` (`None` when unset): `jetbrains-mono` (or
    /// `jetbrains`, `jetbrainsmono`), case-insensitively and ignoring
    /// surrounding white space, selects JetBrains Mono; anything else, such
    /// as `fira-code`, Fira Code.
    pub fn primary_from_env(value: Option<&str>) -> (f: Self)
        ensures
            f == primary_named(
                match value {
                    Some(v) => Some(v@),
                    None => None,
                },
            ),
    {
        match value {
            Some(v) => {
                let k = normalize(v);
                if chars_eq(k.as_slice(), "jetbrains") || chars_eq(k.as_slice(), "jetbrainsmono")
                    || chars_eq(k.as_slice(), "jetbrains-mono") {
                    FontFamily::JetBrainsMono
                } else {
                    FontFamily::FiraCode
                }
            },
            None => FontFamily::FiraCode,
        }
    }

    /// The family selected for the CJK fallback slot by the value of
    /// `KOU_FONT_CJK` (`None` when unset): `sourcehansans`/`sourcehan`,
    /// `smileysans`/`smiley`, `none`/`off` to disable the fallback, and
    /// Sarasa Mono SC (`sarasa`) for anything else.
    pub fn cjk_from_env(value: Option<&str>) -> (f: Option<Self>)
        ensures
            f == cjk_named(
                match value {
                    Some(v) => Some(v@),
                    None => None,
                },
            ),
    {
        match value {
            Some(v) => {
                let k = normalize(v);
                if chars_eq(k.as_slice(), "sourcehansans") || chars_eq(k.as_slice(), "sourcehan") {
                    Some(FontFamily::SourceHanSansSC)
                } else if chars_eq(k.as_slice(), "sarasa") || chars_eq(k.as_slice(), "sarasa-mono") {
                    Some(FontFamily::SarasaMonoSC)
                } else if chars_eq(k.as_slice(), "smileysans") || chars_eq(k.as_slice(), "smiley") {
                    Some(FontFamily::SmileySans)
                } else if chars_eq(k.as_slice(), "none") || chars_eq(k.as_slice(), "off") {
                    None
                } else {
                    Some(FontFamily::SarasaMonoSC)
                }
            },
            None => Some(FontFamily::SarasaMonoSC),
        }
    }

    /// Short name of the family.
    pub fn label(self) -> (s: &'static str)
        ensures
            s@ == match self {
                FontFamily::FiraCode => "fira-code"@,
                FontFamily::JetBrainsMono => "jetbrains-mono"@,
                FontFamily::SourceHanSansSC => "source-han-sans-sc"@,
                FontFamily::SarasaMonoSC => "sarasa-mono-sc"@,
                FontFamily::SmileySans => "smiley-sans"@,
            },
    {
        match self {
            FontFamily::FiraCode => "fira-code",
            FontFamily::JetBrainsMono => "jetbrains-mono",
            FontFamily::SourceHanSansSC => "source-han-sans-sc",
            FontFamily::SarasaMonoSC => "sarasa-mono-sc",
            FontFamily::SmileySans => "smiley-sans",
        }
    }

    /// File name of the family inside the font cache.
    pub fn cache_name(self) -> (s: &'static str)
        ensures
            s@ == cache_file(self),
    {
        match self {
            FontFamily::FiraCode => "FiraCode-Regular.ttf",
            FontFamily::JetBrainsMono => "JetBrainsMono-Regular.ttf",
            FontFamily::SourceHanSansSC => "SourceHanSansSC-Regular.otf",
            FontFamily::SarasaMonoSC => "SarasaMonoSC-Regular.ttf",
            FontFamily::SmileySans => "SmileySans-Regular.ttf",
        }
    }

    /// The environment variable whose path overrides this family's file:
    /// `KOU_FONT_PATH` for the Latin families, `KOU_FONT_CJK_PATH` for the
    /// CJK ones.
    pub fn path_env(self) -> (s: Option<&'static str>)
        ensures
            s matches Some(v) && v@ == match self {
                FontFamily::FiraCode | FontFamily::JetBrainsMono => "KOU_FONT_PATH"@,
                _ => "KOU_FONT_CJK_PATH"@,
            },
    {
        match self {
            FontFamily::FiraCode | FontFamily::JetBrainsMono => Some("KOU_FONT_PATH"),
            FontFamily::SourceHanSansSC | FontFamily::SarasaMonoSC | FontFamily::SmileySans => Some(
                "KOU_FONT_CJK_PATH",
            ),
        }
    }

    /// Where the family is downloaded from, given the value of
    /// `KOU_FONT_MIRROR` (`None` when unset).
    pub fn source_url(self, mirror: Option<&str>) -> (s: String)
        ensures
            s@ == source_url_of(
                self,
                match mirror {
                    Some(m) => Some(m@),
                    None => None,
                },
            ),
    {
        let raw: &str = match self {
            FontFamily::FiraCode => "https://cdn.jsdelivr.net/gh/tonsky/FiraCode@5.2/distr/ttf/FiraCode-Regular.ttf",
            FontFamily::JetBrainsMono => "https://cdn.jsdelivr.net/gh/JetBrains/JetBrainsMono@2.304/fonts/ttf/JetBrainsMono-Regular.ttf",
            FontFamily::SourceHanSansSC => "https://cdn.jsdelivr.net/gh/adobe-fonts/source-han-sans@release/SubsetOTF/CN/SourceHanSansCN-Regular.otf",
            FontFamily::SarasaMonoSC => "https://cdn.jsdelivr.net/gh/be5invis/sarasa-gothic@0.42.5/SarasaMonoSC-Regular.ttf",
            FontFamily::SmileySans => "https://cdn.jsdelivr.net/gh/atelier-anchor/smiley-sans@2.0.1/fonts/SmileySans-Regular.ttf",
        };
        let url = str_chars(raw);
        match mirror {
            Some(m) => {
                let mut host = str_chars(m);
                trim_end_char_vec(&mut host, '/');
                if host.len() > 0 {
                    let cdn = str_chars("https://cdn.jsdelivr.net/gh");
                    let github = str_chars("https://github.com");
                    proof {
                        reveal_strlit("https://cdn.jsdelivr.net/gh");
                        reveal_strlit("https://github.com");
                    }
                    let once = replace_chars(url.as_slice(), cdn.as_slice(), host.as_slice());
                    let twice = replace_chars(once.as_slice(), github.as_slice(), host.as_slice());
                    string_from_chars(twice.as_slice())
                } else {
                    string_from_chars(url.as_slice())
                }
            },
            None => string_from_chars(url.as_slice()),
        }
    }
}

/// A primary face plus an ordered list of per-script fallbacks.
#[derive(Debug, Clone)]
pub struct FontSet {
    pub primary: FontFamily,
    pub fallbacks: Vec<FontFamily>,
}

impl FontSet {
    /// The set that the values of `KOU_FONT_PRIMARY` and `KOU_FONT_CJK`
    /// select: the primary family, and the CJK family as the one fallback
    /// unless CJK is disabled.
    pub fn from_env(primary: Option<&str>, cjk: Option<&str>) -> (s: Self)
        ensures
            s.primary == primary_named(
                match primary {
                    Some(v) => Some(v@),
                    None => None,
                },
            ),
            s.fallbacks@ == match cjk_named(
                match cjk {
                    Some(v) => Some(v@),
                    None => None,
                },
            ) {
                Some(f) => seq![f],
                None => Seq::<FontFamily>::empty(),
            },
    {
        let mut fallbacks: Vec<FontFamily> = Vec::new();
        match FontFamily::cjk_from_env(cjk) {
            Some(f) => fallbacks.push(f),
            None => {},
        }
        FontSet { primary: FontFamily::primary_from_env(primary), fallbacks }
    }

    /// The primary family, then the fallbacks in order.
    pub fn all(&self) -> (v: Vec<FontFamily>)
        ensures
            v@ == seq![self.primary] + self.fallbacks@,
    {
        let mut v: Vec<FontFamily> = Vec::new();
        v.push(self.primary);
        let mut i: usize = 0;
        while i < self.fallbacks.len()
            invariant
                i <= self.fallbacks.len(),
                v@ == seq![self.primary] + self.fallbacks@.take(i as int),
            decreases self.fallbacks.len() - i,
        {
            v.push(self.fallbacks[i]);
            i = i + 1;
            assert(v@ == seq![self.primary] + self.fallbacks@.take(i as int));
        }
        assert(self.fallbacks@.take(self.fallbacks@.len() as int) == self.fallbacks@);
        v
    }
}

} // verus!
