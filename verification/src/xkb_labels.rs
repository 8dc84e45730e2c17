//! Key-label presentation: what a key cap shows for the active layout,
//! when the matching US label is shown alongside it, and the name a
//! layout is displayed under.

use vstd::prelude::*;
use crate::notif::lower_of;
use crate::strutil::{push_char, str_eq};

verus! {

/// Resolved label data for a single key.
pub struct KeyInfo {
    /// The label the active layout gives the key.
    pub base: String,
    /// The US reference label, empty when it would add nothing.
    pub english: String,
    /// Key width in quarters of a unit key.
    pub width_qu: u32,
    pub is_modifier: bool,
}

/// A control code: the C0 and C1 ranges that must never reach a key cap.
pub open spec fn is_control_char(c: char) -> bool {
    (c as u32) < 0x20 || (0x7f <= (c as u32) && (c as u32) <= 0x9f)
}

/// `s` with every control character removed.
pub open spec fn spec_filter_control(s: Seq<char>) -> Seq<char>
    decreases s.len(),
{
    if s.len() == 0 {
        Seq::empty()
    } else if is_control_char(s[0]) {
        spec_filter_control(s.drop_first())
    } else {
        seq![s[0]] + spec_filter_control(s.drop_first())
    }
}

/// Drop control characters from a raw key label.
pub fn filter_control(s: &str) -> (r: String)
    ensures
        r@ == spec_filter_control(s@),
{
    let n = s.unicode_len();
    let mut r = String::new();
    let mut i: usize = 0;
    proof {
        assert(s@.skip(0) =~= s@);
    }
    while i < n
        invariant
            n == s@.len(),
            0 <= i <= n,
            spec_filter_control(s@) == r@ + spec_filter_control(s@.skip(i as int)),
        decreases n - i,
    {
        let c = s.get_char(i);
        proof {
            assert(s@.skip(i as int)[0] == s@[i as int]);
            assert(s@.skip(i as int).drop_first() =~= s@.skip(i + 1));
        }
        let u = c as u32;
        if !(u < 0x20 || (0x7f <= u && u <= 0x9f)) {
            push_char(&mut r, c);
        }
        i = i + 1;
    }
    proof {
        assert(s@.skip(n as int).len() == 0);
        assert(r@ + Seq::<char>::empty() =~= r@);
    }
    r
}

/// What `str::to_uppercase` returns for the given characters.
pub uninterp spec fn upper_of(s: Seq<char>) -> Seq<char>;

/// Relies on str::to_uppercase: Unicode uppercasing, a function of the
/// characters alone.
#[verifier::external_body]
fn uppercase(s: &str) -> (r: String)
    ensures
        r@ == upper_of(s@),
{
    s.to_uppercase()
}

/// The label a key cap shows: the raw label with control characters
/// removed, or a single space when nothing printable remains.
pub open spec fn spec_key_label(raw: Seq<char>) -> Seq<char> {
    let f = spec_filter_control(raw);
    if f.len() == 0 {
        " "@
    } else {
        f
    }
}

/// The US reference label shown beside the base label: the filtered US
/// label uppercased, but only when it is non-empty and differs from the
/// base label even case-insensitively.
pub open spec fn spec_english_label(base: Seq<char>, us_raw: Seq<char>) -> Seq<char> {
    let eng = upper_of(spec_filter_control(us_raw));
    if eng.len() > 0 && eng != base && lower_of(eng) != lower_of(base) {
        eng
    } else {
        Seq::empty()
    }
}

/// Resolve one key's labels from the raw active-layout label and, when a
/// US reference layout is at hand, its raw label for the same key.
pub fn key_labels(base_raw: &str, us_raw: Option<&str>) -> (r: (String, String))
    ensures
        r.0@ == spec_key_label(base_raw@),
        match us_raw {
            Some(u) => r.1@ == spec_english_label(spec_key_label(base_raw@), u@),
            None => r.1@.len() == 0,
        },
{
    proof {
        reveal_strlit(" ");
    }
    let filtered = filter_control(base_raw);
    let base = if filtered.as_str().unicode_len() == 0 {
        String::from_str(" ")
    } else {
        filtered
    };
    let english = match us_raw {
        Some(u) => {
            let ef = filter_control(u);
            let eng = uppercase(ef.as_str());
            let keep = eng.as_str().unicode_len() > 0 && !str_eq(eng.as_str(), base.as_str())
                && {
                let le = crate::notif::lowercase(eng.as_str());
                let lb = crate::notif::lowercase(base.as_str());
                !str_eq(le.as_str(), lb.as_str())
            };
            if keep {
                eng
            } else {
                String::new()
            }
        },
        None => String::new(),
    };
    (base, english)
}

/// A key of an unknown keymap: the fixed label for modifiers, a question
/// mark for ordinary keys.
pub fn fallback_key_label(fixed_label: &str) -> (r: (String, bool))
    ensures
        fixed_label@.len() == 0 ==> r.0@ == "?"@ && !r.1,
        fixed_label@.len() > 0 ==> r.0@ == fixed_label@ && r.1,
{
    if fixed_label.unicode_len() == 0 {
        (String::from_str("?"), false)
    } else {
        (fixed_label.to_owned(), true)
    }
}

/// The name a layout is displayed under: the keymap-reported name when it
/// is non-empty, else the layout code, with a non-empty variant appended
/// in parentheses.
pub open spec fn spec_layout_display_name(
    raw: Seq<char>,
    layout: Seq<char>,
    variant: Seq<char>,
) -> Seq<char> {
    if raw.len() > 0 {
        raw
    } else if variant.len() == 0 {
        layout
    } else {
        layout + " ("@ + variant + ")"@
    }
}

/// Pick the display name for a layout.
pub fn layout_display_name(raw: &str, layout: &str, variant: &str) -> (r: String)
    ensures
        r@ == spec_layout_display_name(raw@, layout@, variant@),
{
    if raw.unicode_len() > 0 {
        raw.to_owned()
    } else if variant.unicode_len() == 0 {
        layout.to_owned()
    } else {
        let mut r = layout.to_owned();
        r.append(" (");
        r.append(variant);
        r.append(")");
        proof {
            reveal_strlit(" (");
            reveal_strlit(")");
        }
        assert(r@ =~= spec_layout_display_name(raw@, layout@, variant@));
        r
    }
}

} // verus!
