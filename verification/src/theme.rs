//! Theme colours: a hex colour string read into plain channel values.

use vstd::prelude::*;
use crate::strutil::{
    find_char, first_space, spec_find_char, spec_first_space, spec_split_char, spec_trim,
    spec_trim_char_back, spec_trim_char_front, split_char, starts_with, substring_owned,
    trim_char_start, trim_spaces,
};

verus! {

/// One opaque colour, one byte per channel.
pub struct Rgb {
    pub r: u8,
    pub g: u8,
    pub b: u8,
}

/// The value of one hexadecimal digit, `-1` for any other character.
pub open spec fn spec_hex_val(c: char) -> int {
    let u = c as u32;
    if 48 <= u <= 57 {
        u - 48
    } else if 97 <= u <= 102 {
        u - 87
    } else if 65 <= u <= 70 {
        u - 55
    } else {
        -1
    }
}

fn hex_digit_of(c: char) -> (r: Option<u8>)
    ensures
        match r {
            Some(d) => d as int == spec_hex_val(c) && d < 16,
            None => spec_hex_val(c) < 0,
        },
{
    let u = c as u32;
    if 48 <= u && u <= 57 {
        Some((u - 48) as u8)
    } else if 97 <= u && u <= 102 {
        Some((u - 87) as u8)
    } else if 65 <= u && u <= 70 {
        Some((u - 55) as u8)
    } else {
        None
    }
}

/// The colour a hex string denotes: whitespace and leading `#` stripped,
/// then exactly six hex digits, two per channel.
pub open spec fn spec_parse_hex_color(s: Seq<char>) -> Option<(int, int, int)> {
    let t = spec_trim_char_front(spec_trim(s), '#');
    if t.len() != 6 {
        None
    } else if spec_hex_val(t[0]) < 0 || spec_hex_val(t[1]) < 0 || spec_hex_val(t[2]) < 0
        || spec_hex_val(t[3]) < 0 || spec_hex_val(t[4]) < 0 || spec_hex_val(t[5]) < 0 {
        None
    } else {
        Some(
            (
                spec_hex_val(t[0]) * 16 + spec_hex_val(t[1]),
                spec_hex_val(t[2]) * 16 + spec_hex_val(t[3]),
                spec_hex_val(t[4]) * 16 + spec_hex_val(t[5]),
            ),
        )
    }
}

/// Read a `#rrggbb` colour string.
pub fn parse_hex_color(hex: &str) -> (r: Option<Rgb>)
    ensures
        match r {
            Some(c) => spec_parse_hex_color(hex@) == Some(
                (c.r as int, c.g as int, c.b as int),
            ),
            None => spec_parse_hex_color(hex@) is None,
        },
{
    let trimmed = trim_spaces(hex);
    let t = trim_char_start(trimmed.as_str(), '#');
    if t.unicode_len() != 6 {
        return None;
    }
    let d0 = hex_digit_of(t.as_str().get_char(0));
    let d1 = hex_digit_of(t.as_str().get_char(1));
    let d2 = hex_digit_of(t.as_str().get_char(2));
    let d3 = hex_digit_of(t.as_str().get_char(3));
    let d4 = hex_digit_of(t.as_str().get_char(4));
    let d5 = hex_digit_of(t.as_str().get_char(5));
    match (d0, d1, d2, d3, d4, d5) {
        (Some(a), Some(b), Some(c), Some(d), Some(e), Some(f)) => Some(
            Rgb { r: a * 16 + b, g: c * 16 + d, b: e * 16 + f },
        ),
        _ => None,
    }
}

/// `s` with every leading occurrence of the prefix `p` removed.
pub open spec fn spec_strip_prefix_rep(s: Seq<char>, p: Seq<char>) -> Seq<char>
    decreases s.len(),
{
    if p.len() > 0 && p.len() <= s.len() && s.take(p.len() as int) == p {
        spec_strip_prefix_rep(s.skip(p.len() as int), p)
    } else {
        s
    }
}

fn strip_prefix_rep(s: &str, p: &str) -> (r: String)
    requires
        p@.len() > 0,
    ensures
        r@ == spec_strip_prefix_rep(s@, p@),
{
    let mut t = s.to_owned();
    while crate::strutil::starts_with(t.as_str(), p)
        invariant
            p@.len() > 0,
            spec_strip_prefix_rep(t@, p@) == spec_strip_prefix_rep(s@, p@),
        decreases t@.len(),
    {
        let pl = p.unicode_len();
        let tn = t.as_str().unicode_len();
        let shorter = substring_owned(t.as_str(), pl, tn);
        proof {
            assert(t@.subrange(pl as int, tn as int) =~= t@.skip(pl as int));
        }
        t = shorter;
    }
    t
}

/// What one stylesheet line assigns: a trimmed line of the form
/// `$theme-KEY: TOKEN ...;` yields the key (every `$theme-` prefix
/// stripped) and the value's first token with trailing semicolons removed.
pub open spec fn spec_theme_line(line: Seq<char>) -> Option<(Seq<char>, Seq<char>)> {
    let t = spec_trim(line);
    if t.len() >= 7 && t.take(7) == "$theme-"@ {
        let e = spec_find_char(t, 0, ':');
        if e < t.len() {
            let key = spec_strip_prefix_rep(spec_trim(t.take(e)), "$theme-"@);
            let vt = spec_trim(t.skip(e + 1));
            let raw = spec_trim_char_back(vt, ';');
            let token = spec_trim(raw.take(spec_first_space(raw, 0)));
            Some((key, token))
        } else {
            None
        }
    } else {
        None
    }
}

/// The last value a stylesheet's lines assign to the given key.
pub open spec fn spec_theme_var_from(
    lines: Seq<Seq<char>>,
    key: Seq<char>,
    acc: Option<Seq<char>>,
) -> Option<Seq<char>>
    decreases lines.len(),
{
    if lines.len() == 0 {
        acc
    } else {
        let step = spec_theme_line(lines[0]);
        let nacc = match step {
            Some(kv) => if kv.0 == key {
                Some(kv.1)
            } else {
                acc
            },
            None => acc,
        };
        spec_theme_var_from(lines.drop_first(), key, nacc)
    }
}

/// The value the stylesheet text assigns to the given theme key.
pub open spec fn spec_theme_var(content: Seq<char>, key: Seq<char>) -> Option<Seq<char>> {
    spec_theme_var_from(spec_split_char(content, '\n'), key, None)
}

/// Read the value a stylesheet's text assigns to one theme key: the last
/// `$theme-KEY: value;` line wins.
pub fn theme_var(content: &str, key: &str) -> (r: Option<String>)
    ensures
        match r {
            Some(v) => spec_theme_var(content@, key@) == Some(v@),
            None => spec_theme_var(content@, key@) is None,
        },
{
    let lines = split_char(content, '\n');
    let ghost lseq = spec_split_char(content@, '\n');
    proof {
        assert(forall|k: int| 0 <= k < lines@.len() ==> (#[trigger] lines@[k])@ == lseq[k]);
        assert(lseq.skip(0) =~= lseq);
    }
    let mut acc: Option<String> = None;
    let n = lines.len();
    let mut i: usize = 0;
    while i < n
        invariant
            n == lines@.len(),
            n == lseq.len(),
            forall|k: int| 0 <= k < lines@.len() ==> (#[trigger] lines@[k])@ == lseq[k],
            0 <= i <= n,
            ({
                let accv = match acc {
                    Some(v) => Some(v@),
                    None => None,
                };
                spec_theme_var_from(lseq.skip(i as int), key@, accv) == spec_theme_var(
                    content@,
                    key@,
                )
            }),
        decreases n - i,
    {
        proof {
            reveal_strlit("$theme-");
            assert(lseq.skip(i as int)[0] == lseq[i as int]);
            assert(lseq.skip(i as int).drop_first() =~= lseq.skip(i + 1));
        }
        let t = trim_spaces(lines[i].as_str());
        let tn = t.unicode_len();
        if starts_with(t.as_str(), "$theme-") {
            proof {
                assert(t@.subrange(0, 7) =~= t@.take(7));
            }
            let e = find_char(t.as_str(), 0, ':');
            if e < tn {
                let name_raw = substring_owned(t.as_str(), 0, e);
                proof {
                    assert(t@.subrange(0, e as int) =~= t@.take(e as int));
                }
                let name = trim_spaces(name_raw.as_str());
                let k = strip_prefix_rep(name.as_str(), "$theme-");
                let value_raw = substring_owned(t.as_str(), e + 1, tn);
                proof {
                    assert(t@.subrange(e + 1, tn as int) =~= t@.skip(e + 1));
                }
                let vt = trim_spaces(value_raw.as_str());
                let raw = crate::strutil::trim_char_end(vt.as_str(), ';');
                let fs = first_space(raw.as_str(), 0);
                let token_raw = substring_owned(raw.as_str(), 0, fs);
                proof {
                    assert(raw@.subrange(0, fs as int) =~= raw@.take(fs as int));
                }
                let token = trim_spaces(token_raw.as_str());
                if crate::strutil::str_eq(k.as_str(), key) {
                    acc = Some(token);
                }
            }
        }
        i = i + 1;
    }
    proof {
        assert(lseq.skip(n as int).len() == 0);
    }
    acc
}

/// One opaque colour for each themed role of the interface.
pub struct ThemePalette {
    pub bg: Rgb,
    pub fg: Rgb,
    pub fg_dim: Rgb,
    pub accent: Rgb,
    pub bg_light: Rgb,
    pub bg_lighter: Rgb,
    pub red: Rgb,
    pub green: Rgb,
    pub yellow: Rgb,
    pub cyan: Rgb,
}

/// The colour a stylesheet gives one role: the key's value when it is a
/// readable hex colour, else the given default.
pub open spec fn spec_theme_color(content: Seq<char>, key: Seq<char>, default: (int, int, int)) -> (
    int,
    int,
    int,
) {
    match spec_theme_var(content, key) {
        Some(v) => match spec_parse_hex_color(v) {
            Some(c) => c,
            None => default,
        },
        None => default,
    }
}

fn theme_color(content: &str, key: &str, default: Rgb) -> (r: Rgb)
    ensures
        (r.r as int, r.g as int, r.b as int) == spec_theme_color(
            content@,
            key@,
            (default.r as int, default.g as int, default.b as int),
        ),
{
    match theme_var(content, key) {
        Some(v) => match parse_hex_color(v.as_str()) {
            Some(c) => c,
            None => default,
        },
        None => default,
    }
}

/// Load the palette a stylesheet's text describes, falling back to the
/// built-in colours role by role.
pub fn load_theme_palette(content: &str) -> (r: ThemePalette)
    ensures
        (r.bg.r as int, r.bg.g as int, r.bg.b as int) == spec_theme_color(
            content@,
            "bg"@,
            (0x1e, 0x1e, 0x2e),
        ),
        (r.fg.r as int, r.fg.g as int, r.fg.b as int) == spec_theme_color(
            content@,
            "fg"@,
            (0xcd, 0xd6, 0xf4),
        ),
        (r.fg_dim.r as int, r.fg_dim.g as int, r.fg_dim.b as int) == spec_theme_color(
            content@,
            "fg-dim"@,
            (0xa6, 0xad, 0xc8),
        ),
        (r.accent.r as int, r.accent.g as int, r.accent.b as int) == spec_theme_color(
            content@,
            "accent"@,
            (0x89, 0xb4, 0xfa),
        ),
        (r.bg_light.r as int, r.bg_light.g as int, r.bg_light.b as int) == spec_theme_color(
            content@,
            "bg-light"@,
            (0x45, 0x47, 0x5a),
        ),
        (r.bg_lighter.r as int, r.bg_lighter.g as int, r.bg_lighter.b as int) == spec_theme_color(
            content@,
            "bg-lighter"@,
            (0x58, 0x5b, 0x70),
        ),
        (r.red.r as int, r.red.g as int, r.red.b as int) == spec_theme_color(
            content@,
            "red"@,
            (0xf3, 0x8b, 0xa8),
        ),
        (r.green.r as int, r.green.g as int, r.green.b as int) == spec_theme_color(
            content@,
            "green"@,
            (0xa6, 0xe3, 0xa1),
        ),
        (r.yellow.r as int, r.yellow.g as int, r.yellow.b as int) == spec_theme_color(
            content@,
            "yellow"@,
            (0xf9, 0xe2, 0xaf),
        ),
        (r.cyan.r as int, r.cyan.g as int, r.cyan.b as int) == spec_theme_color(
            content@,
            "cyan"@,
            (0x94, 0xe2, 0xd5),
        ),
{
    ThemePalette {
        bg: theme_color(content, "bg", Rgb { r: 0x1e, g: 0x1e, b: 0x2e }),
        fg: theme_color(content, "fg", Rgb { r: 0xcd, g: 0xd6, b: 0xf4 }),
        fg_dim: theme_color(content, "fg-dim", Rgb { r: 0xa6, g: 0xad, b: 0xc8 }),
        accent: theme_color(content, "accent", Rgb { r: 0x89, g: 0xb4, b: 0xfa }),
        bg_light: theme_color(content, "bg-light", Rgb { r: 0x45, g: 0x47, b: 0x5a }),
        bg_lighter: theme_color(content, "bg-lighter", Rgb { r: 0x58, g: 0x5b, b: 0x70 }),
        red: theme_color(content, "red", Rgb { r: 0xf3, g: 0x8b, b: 0xa8 }),
        green: theme_color(content, "green", Rgb { r: 0xa6, g: 0xe3, b: 0xa1 }),
        yellow: theme_color(content, "yellow", Rgb { r: 0xf9, g: 0xe2, b: 0xaf }),
        cyan: theme_color(content, "cyan", Rgb { r: 0x94, g: 0xe2, b: 0xd5 }),
    }
}

} // verus!
