//! Keyboard-layout bookkeeping: the catalogue of available XKB layouts,
//! the currently configured layouts, and the comma-separated layout/variant
//! pairing the compositor reports. Variants are positional: the i-th
//! variant belongs to the i-th layout, with missing entries meaning "no
//! variant".

use vstd::prelude::*;
use crate::strutil::{
    find_char, is_space, spec_find_char, spec_split_char, spec_trim, split_char, starts_with,
    str_eq, substring_owned, trim_spaces,
};

verus! {

/// An available XKB layout (or layout+variant) from the system catalogue.
pub struct AvailableLayout {
    pub code: String,
    pub variant: String,
    pub description: String,
}

/// A currently configured layout.
pub struct ActiveLayout {
    pub code: String,
    pub variant: String,
    pub description: String,
}

impl AvailableLayout {
    /// The human-readable form shown for this entry.
    pub fn display(&self) -> (r: &str)
        ensures
            r@ == self.description@,
    {
        self.description.as_str()
    }
}

/// The description of the first catalogue entry whose code and variant
/// both match.
pub open spec fn spec_lookup(
    avail: Seq<AvailableLayout>,
    code: Seq<char>,
    variant: Seq<char>,
) -> Option<Seq<char>>
    decreases avail.len(),
{
    if avail.len() == 0 {
        None
    } else if avail[0].code@ == code && avail[0].variant@ == variant {
        Some(avail[0].description@)
    } else {
        spec_lookup(avail.drop_first(), code, variant)
    }
}

proof fn lemma_lookup_at(avail: Seq<AvailableLayout>, code: Seq<char>, variant: Seq<char>, i: int)
    requires
        0 <= i < avail.len(),
        avail[i].code@ == code && avail[i].variant@ == variant,
        forall|k: int|
            0 <= k < i ==> !((#[trigger] avail[k]).code@ == code && avail[k].variant@ == variant),
    ensures
        spec_lookup(avail, code, variant) == Some(avail[i].description@),
    decreases i,
{
    if i > 0 {
        assert(avail.drop_first()[i - 1] == avail[i]);
        assert(forall|k: int| 0 <= k < i - 1 ==> avail.drop_first()[k] == avail[k + 1]);
        lemma_lookup_at(avail.drop_first(), code, variant, i - 1);
    }
}

proof fn lemma_lookup_none(avail: Seq<AvailableLayout>, code: Seq<char>, variant: Seq<char>)
    requires
        forall|k: int|
            0 <= k < avail.len() ==> !((#[trigger] avail[k]).code@ == code && avail[k].variant@
                == variant),
    ensures
        spec_lookup(avail, code, variant) is None,
    decreases avail.len(),
{
    if avail.len() > 0 {
        assert(forall|k: int|
            0 <= k < avail.drop_first().len() ==> avail.drop_first()[k] == avail[k + 1]);
        lemma_lookup_none(avail.drop_first(), code, variant);
    }
}

/// What `describe` owes: the catalogue description when code and variant
/// match an entry, else the code itself, with a non-empty variant appended
/// in parentheses.
pub open spec fn spec_describe(
    avail: Seq<AvailableLayout>,
    code: Seq<char>,
    variant: Seq<char>,
) -> Seq<char> {
    match spec_lookup(avail, code, variant) {
        Some(d) => d,
        None => if variant.len() == 0 {
            code
        } else {
            code + " ("@ + variant + ")"@
        },
    }
}

/// Look up a human-readable description for a layout code and variant.
pub fn describe(available: &Vec<AvailableLayout>, code: &str, variant: &str) -> (r: String)
    ensures
        r@ == spec_describe(available@, code@, variant@),
{
    let n = available.len();
    let mut i: usize = 0;
    while i < n
        invariant
            n == available@.len(),
            0 <= i <= n,
            forall|k: int|
                0 <= k < i ==> !((#[trigger] available@[k]).code@ == code@
                    && available@[k].variant@ == variant@),
        decreases n - i,
    {
        let a = &available[i];
        if str_eq(a.code.as_str(), code) && str_eq(a.variant.as_str(), variant) {
            proof {
                lemma_lookup_at(available@, code@, variant@, i as int);
            }
            return a.description.clone();
        }
        i = i + 1;
    }
    proof {
        lemma_lookup_none(available@, code@, variant@);
    }
    if variant.unicode_len() == 0 {
        let r = code.to_owned();
        assert(r@ =~= spec_describe(available@, code@, variant@));
        r
    } else {
        let mut r = code.to_owned();
        r.append(" (");
        r.append(variant);
        r.append(")");
        proof {
            reveal_strlit(" (");
            reveal_strlit(")");
        }
        assert(r@ =~= spec_describe(available@, code@, variant@));
        r
    }
}

/// The pieces of `s` split on commas, in order; empty pieces are kept and
/// an empty string yields one empty piece.
pub open spec fn spec_split_commas(s: Seq<char>) -> Seq<Seq<char>> {
    spec_split_from(s, 0)
}

pub open spec fn spec_split_from(s: Seq<char>, start: int) -> Seq<Seq<char>>
    decreases s.len() - start,
    via spec_split_from_decreases
{
    if start < 0 || start > s.len() {
        Seq::empty()
    } else {
        let j = spec_find_char(s, start, ',');
        if j >= s.len() {
            seq![s.subrange(start, s.len() as int)]
        } else {
            seq![s.subrange(start, j)] + spec_split_from(s, j + 1)
        }
    }
}

#[via_fn]
proof fn spec_split_from_decreases(s: Seq<char>, start: int) {
    if 0 <= start <= s.len() {
        crate::strutil::lemma_find_char_ge(s, start, ',');
    }
}

/// Split a string on commas.
pub fn split_commas(s: &str) -> (r: Vec<String>)
    ensures
        r@.len() == spec_split_commas(s@).len(),
        forall|i: int|
            0 <= i < r@.len() ==> (#[trigger] r@[i])@ == spec_split_commas(s@)[i],
{
    let n = s.unicode_len();
    let mut r: Vec<String> = Vec::new();
    let mut start: usize = 0;
    loop
        invariant
            n == s@.len(),
            0 <= start <= n,
            spec_split_commas(s@) == r@.map_values(|p: String| p@) + spec_split_from(
                s@,
                start as int,
            ),
        ensures
            r@.len() == spec_split_commas(s@).len(),
            forall|i: int|
                0 <= i < r@.len() ==> (#[trigger] r@[i])@ == spec_split_commas(s@)[i],
        decreases n - start + 1,
    {
        let j = find_char(s, start, ',');
        let piece = substring_owned(s, start, j);
        let ghost old_pieces = r@.map_values(|p: String| p@);
        r.push(piece);
        proof {
            assert(r@.map_values(|p: String| p@) =~= old_pieces + seq![s@.subrange(
                start as int, j as int)]);
        }
        if j == n {
            proof {
                assert(spec_split_from(s@, start as int) == seq![s@.subrange(
                    start as int, n as int)]);
                assert(spec_split_commas(s@) =~= r@.map_values(|p: String| p@));
                let pieces = r@.map_values(|p: String| p@);
                assert(forall|i: int|
                    0 <= i < r@.len() ==> (#[trigger] r@[i])@ == pieces[i]);
            }
            return r;
        }
        proof {
            assert(spec_split_from(s@, start as int) =~= seq![s@.subrange(
                start as int, j as int)] + spec_split_from(s@, j as int + 1));
            assert(spec_split_commas(s@) =~= r@.map_values(|p: String| p@) + spec_split_from(
                s@, j as int + 1));
        }
        start = j + 1;
    }
}

/// `s` with every plain space removed.
pub open spec fn spec_drop_spaces(s: Seq<char>) -> Seq<char>
    decreases s.len(),
{
    if s.len() == 0 {
        Seq::empty()
    } else if s[0] == ' ' {
        spec_drop_spaces(s.drop_first())
    } else {
        seq![s[0]] + spec_drop_spaces(s.drop_first())
    }
}

/// Remove every plain space.
fn drop_spaces(s: &str) -> (r: String)
    ensures
        r@ == spec_drop_spaces(s@),
{
    let n = s.unicode_len();
    let mut r = String::new();
    let mut i: usize = 0;
    proof {
        assert(s@.skip(0) =~= s@);
    }
    while i < n
        invariant
            n == s@.len(),
            0 <= i <= n,
            spec_drop_spaces(s@) == r@ + spec_drop_spaces(s@.skip(i as int)),
        decreases n - i,
    {
        let c = s.get_char(i);
        proof {
            assert(s@.skip(i as int)[0] == s@[i as int]);
            assert(s@.skip(i as int).drop_first() =~= s@.skip(i + 1));
        }
        if c != ' ' {
            crate::strutil::push_char(&mut r, c);
        }
        i = i + 1;
    }
    proof {
        assert(s@.skip(n as int).len() == 0);
        assert(r@ + Seq::<char>::empty() =~= r@);
    }
    r
}

/// What one config line does to the accumulated layout and variant
/// strings: a trimmed line carrying a `kb_layout` or `kb_variant` key and
/// an equals sign replaces the respective value with the right-hand side,
/// trimmed and with spaces removed; any other line changes nothing.
pub open spec fn spec_conf_line_update(
    line: Seq<char>,
    lay: Seq<char>,
    var: Seq<char>,
) -> (Seq<char>, Seq<char>) {
    let t = spec_trim(line);
    if t.len() >= 9 && t.subrange(0, 9) == "kb_layout"@ {
        let rest = t.skip(9);
        let e = spec_find_char(rest, 0, '=');
        if e < rest.len() {
            (spec_drop_spaces(spec_trim(rest.skip(e + 1))), var)
        } else {
            (lay, var)
        }
    } else if t.len() >= 10 && t.subrange(0, 10) == "kb_variant"@ {
        let rest = t.skip(10);
        let e = spec_find_char(rest, 0, '=');
        if e < rest.len() {
            (lay, spec_drop_spaces(spec_trim(rest.skip(e + 1))))
        } else {
            (lay, var)
        }
    } else {
        (lay, var)
    }
}

/// Fold the line update over a whole file, first line first.
pub open spec fn spec_conf_fold(
    lines: Seq<Seq<char>>,
    lay: Seq<char>,
    var: Seq<char>,
) -> (Seq<char>, Seq<char>)
    decreases lines.len(),
{
    if lines.len() == 0 {
        (lay, var)
    } else {
        let u = spec_conf_line_update(lines[0], lay, var);
        spec_conf_fold(lines.drop_first(), u.0, u.1)
    }
}

/// The layout and variant strings a config file's text yields.
pub open spec fn spec_parse_input_conf(content: Seq<char>) -> (Seq<char>, Seq<char>) {
    spec_conf_fold(spec_split_char(content, '\n'), Seq::empty(), Seq::empty())
}

/// Read the configured layout and variant strings out of a keyboard
/// config file's text: the last `kb_layout =` and `kb_variant =` lines
/// win; either string may come back empty.
pub fn parse_input_conf(content: &str) -> (r: (String, String))
    ensures
        (r.0@, r.1@) == spec_parse_input_conf(content@),
{
    let lines = split_char(content, '\n');
    let ghost lseq = spec_split_char(content@, '\n');
    let mut lay = String::new();
    let mut var = String::new();
    let n = lines.len();
    let mut i: usize = 0;
    proof {
        assert(lseq.skip(0) =~= lseq);
        assert(forall|k: int| 0 <= k < lines@.len() ==> (#[trigger] lines@[k])@ == lseq[k]);
    }
    while i < n
        invariant
            n == lines@.len(),
            n == lseq.len(),
            forall|k: int| 0 <= k < lines@.len() ==> (#[trigger] lines@[k])@ == lseq[k],
            0 <= i <= n,
            spec_conf_fold(lseq.skip(i as int), lay@, var@) == spec_parse_input_conf(content@),
        decreases n - i,
    {
        proof {
            assert(lseq.skip(i as int)[0] == lseq[i as int]);
            assert(lseq.skip(i as int).drop_first() =~= lseq.skip(i + 1));
        }
        let t = trim_spaces(lines[i].as_str());
        let tn = t.unicode_len();
        if starts_with(t.as_str(), "kb_layout") {
            proof {
                reveal_strlit("kb_layout");
            }
            let rest = substring_owned(t.as_str(), 9, tn);
            proof {
                assert(t@.subrange(9, tn as int) =~= t@.skip(9));
            }
            let e = find_char(rest.as_str(), 0, '=');
            if e < rest.unicode_len() {
                let rhs = substring_owned(rest.as_str(), e + 1, rest.unicode_len());
                proof {
                    assert(rest@.subrange(e + 1, rest@.len() as int) =~= rest@.skip(e + 1));
                }
                let trimmed = trim_spaces(rhs.as_str());
                lay = drop_spaces(trimmed.as_str());
            }
        } else if starts_with(t.as_str(), "kb_variant") {
            proof {
                reveal_strlit("kb_layout");
                reveal_strlit("kb_variant");
            }
            let rest = substring_owned(t.as_str(), 10, tn);
            proof {
                assert(t@.subrange(10, tn as int) =~= t@.skip(10));
            }
            let e = find_char(rest.as_str(), 0, '=');
            if e < rest.unicode_len() {
                let rhs = substring_owned(rest.as_str(), e + 1, rest.unicode_len());
                proof {
                    assert(rest@.subrange(e + 1, rest@.len() as int) =~= rest@.skip(e + 1));
                }
                let trimmed = trim_spaces(rhs.as_str());
                var = drop_spaces(trimmed.as_str());
            }
        } else {
            proof {
                reveal_strlit("kb_layout");
                reveal_strlit("kb_variant");
            }
        }
        i = i + 1;
    }
    proof {
        assert(lseq.skip(n as int).len() == 0);
    }
    (lay, var)
}

/// What each parsed layout/variant pair owes: the i-th comma piece of the
/// layout string, trimmed, paired with the i-th comma piece of the variant
/// string (trimmed, empty when missing), described against the catalogue.
pub open spec fn spec_csv_entry_ok(
    avail: Seq<AvailableLayout>,
    layouts: Seq<char>,
    variants: Seq<char>,
    i: int,
    e: ActiveLayout,
) -> bool {
    let code = spec_trim(spec_split_commas(layouts)[i]);
    let vsplit = spec_split_commas(variants);
    let variant = if i < vsplit.len() {
        spec_trim(vsplit[i])
    } else {
        Seq::empty()
    };
    &&& e.code@ == code
    &&& e.variant@ == variant
    &&& e.description@ == spec_describe(avail, code, variant)
}

/// Parse comma-separated layout and variant strings into active-layout
/// entries, pairing variants positionally.
pub fn parse_layout_variant_csv(
    available: &Vec<AvailableLayout>,
    layout_str: &str,
    variant_str: &str,
) -> (r: Option<Vec<ActiveLayout>>)
    ensures
        match r {
            Some(v) => {
                &&& v@.len() == spec_split_commas(layout_str@).len()
                &&& forall|i: int|
                    0 <= i < v@.len() ==> spec_csv_entry_ok(
                        available@,
                        layout_str@,
                        variant_str@,
                        i,
                        #[trigger] v@[i],
                    )
            },
            None => false,
        },
{
    let codes = split_commas(layout_str);
    let variants = split_commas(variant_str);

    let mut result: Vec<ActiveLayout> = Vec::new();
    let n = codes.len();
    let mut i: usize = 0;
    while i < n
        invariant
            n == codes@.len(),
            codes@.len() == spec_split_commas(layout_str@).len(),
            forall|k: int|
                0 <= k < codes@.len() ==> (#[trigger] codes@[k])@ == spec_split_commas(
                    layout_str@,
                )[k],
            variants@.len() == spec_split_commas(variant_str@).len(),
            forall|k: int|
                0 <= k < variants@.len() ==> (#[trigger] variants@[k])@ == spec_split_commas(
                    variant_str@,
                )[k],
            0 <= i <= n,
            result@.len() == i,
            forall|k: int|
                0 <= k < i ==> spec_csv_entry_ok(
                    available@,
                    layout_str@,
                    variant_str@,
                    k,
                    #[trigger] result@[k],
                ),
        decreases n - i,
    {
        let code = trim_spaces(codes[i].as_str());
        let variant = if i < variants.len() {
            trim_spaces(variants[i].as_str())
        } else {
            String::new()
        };
        let description = describe(available, code.as_str(), variant.as_str());
        result.push(ActiveLayout { code, variant, description });
        i = i + 1;
    }
    Some(result)
}

/// Decide the active layouts from a compositor's live report: nothing when
/// the layout option was unavailable or empty, else the layout/variant
/// pairing parsed positionally (a missing variant report counts as empty).
pub fn load_from_hyprland(
    available: &Vec<AvailableLayout>,
    layout_report: Option<String>,
    variant_report: Option<String>,
) -> (r: Option<Vec<ActiveLayout>>)
    ensures
        ({
            match layout_report {
                None => r is None,
                Some(l) => {
                    if l@.len() == 0 {
                        r is None
                    } else {
                        let var = match variant_report {
                            Some(v) => v@,
                            None => Seq::<char>::empty(),
                        };
                        match r {
                            Some(v) => {
                                &&& v@.len() == spec_split_commas(l@).len()
                                &&& forall|i: int|
                                    0 <= i < v@.len() ==> spec_csv_entry_ok(
                                        available@,
                                        l@,
                                        var,
                                        i,
                                        #[trigger] v@[i],
                                    )
                            },
                            None => false,
                        }
                    }
                },
            }
        }),
{
    let l = match layout_report {
        Some(l) => l,
        None => {
            return None;
        },
    };
    if l.unicode_len() == 0 {
        return None;
    }
    let var = match variant_report {
        Some(v) => v,
        None => String::new(),
    };
    parse_layout_variant_csv(available, l.as_str(), var.as_str())
}

/// What one keyboard-query line assigns: a trimmed line with a `layout:`
/// or `variant:` key replaces the respective value with the trimmed
/// remainder; any other line changes nothing.
pub open spec fn spec_query_line_update(
    line: Seq<char>,
    lay: Seq<char>,
    var: Seq<char>,
) -> (Seq<char>, Seq<char>) {
    let t = spec_trim(line);
    if t.len() >= 7 && t.take(7) == "layout:"@ {
        (spec_trim(t.skip(7)), var)
    } else if t.len() >= 8 && t.take(8) == "variant:"@ {
        (lay, spec_trim(t.skip(8)))
    } else {
        (lay, var)
    }
}

/// Fold the query-line update over a whole report, first line first.
pub open spec fn spec_query_fold(
    lines: Seq<Seq<char>>,
    lay: Seq<char>,
    var: Seq<char>,
) -> (Seq<char>, Seq<char>)
    decreases lines.len(),
{
    if lines.len() == 0 {
        (lay, var)
    } else {
        let u = spec_query_line_update(lines[0], lay, var);
        spec_query_fold(lines.drop_first(), u.0, u.1)
    }
}

/// The layout and variant strings a keyboard-state query's output yields.
pub open spec fn spec_parse_query(content: Seq<char>) -> (Seq<char>, Seq<char>) {
    spec_query_fold(spec_split_char(content, '\n'), Seq::empty(), Seq::empty())
}

/// Read the layout and variant strings out of a keyboard-state query's
/// output: the last `layout:` and `variant:` lines win; either string may
/// come back empty.
pub fn parse_setxkbmap_query(content: &str) -> (r: (String, String))
    ensures
        (r.0@, r.1@) == spec_parse_query(content@),
{
    let lines = split_char(content, '\n');
    let ghost lseq = spec_split_char(content@, '\n');
    let mut lay = String::new();
    let mut var = String::new();
    let n = lines.len();
    let mut i: usize = 0;
    proof {
        assert(lseq.skip(0) =~= lseq);
        assert(forall|k: int| 0 <= k < lines@.len() ==> (#[trigger] lines@[k])@ == lseq[k]);
    }
    while i < n
        invariant
            n == lines@.len(),
            n == lseq.len(),
            forall|k: int| 0 <= k < lines@.len() ==> (#[trigger] lines@[k])@ == lseq[k],
            0 <= i <= n,
            spec_query_fold(lseq.skip(i as int), lay@, var@) == spec_parse_query(content@),
        decreases n - i,
    {
        proof {
            reveal_strlit("layout:");
            reveal_strlit("variant:");
            assert(lseq.skip(i as int)[0] == lseq[i as int]);
            assert(lseq.skip(i as int).drop_first() =~= lseq.skip(i + 1));
        }
        let t = trim_spaces(lines[i].as_str());
        let tn = t.unicode_len();
        if starts_with(t.as_str(), "layout:") {
            let rest = substring_owned(t.as_str(), 7, tn);
            proof {
                assert(t@.subrange(7, tn as int) =~= t@.skip(7));
            }
            lay = trim_spaces(rest.as_str());
        } else if starts_with(t.as_str(), "variant:") {
            let rest = substring_owned(t.as_str(), 8, tn);
            proof {
                assert(t@.subrange(8, tn as int) =~= t@.skip(8));
            }
            var = trim_spaces(rest.as_str());
        }
        i = i + 1;
    }
    proof {
        assert(lseq.skip(n as int).len() == 0);
    }
    (lay, var)
}

/// The comma-piece indices of `lay` whose trimmed piece is non-empty, in
/// order, starting at piece `k`.
pub open spec fn spec_nonempty_from(lay: Seq<char>, k: int) -> Seq<int>
    decreases spec_split_commas(lay).len() - k,
{
    if k < 0 || k >= spec_split_commas(lay).len() {
        Seq::empty()
    } else if spec_trim(spec_split_commas(lay)[k]).len() > 0 {
        seq![k] + spec_nonempty_from(lay, k + 1)
    } else {
        spec_nonempty_from(lay, k + 1)
    }
}

/// Load the active layouts from a keyboard config file's text: read the
/// layout and variant strings, pair them positionally, and keep the
/// entries with a non-empty layout code. `None` when the file configures
/// no layout at all.
pub fn active_layouts_from_conf(available: &Vec<AvailableLayout>, content: &str) -> (r: Option<
    Vec<ActiveLayout>,
>)
    ensures
        ({
            let lay = spec_parse_input_conf(content@).0;
            let var = spec_parse_input_conf(content@).1;
            let pos = spec_nonempty_from(lay, 0);
            match r {
                None => lay.len() == 0 || pos.len() == 0,
                Some(v) => {
                    &&& lay.len() > 0
                    &&& v@.len() == pos.len()
                    &&& v@.len() > 0
                    &&& forall|k: int|
                        0 <= k < v@.len() ==> spec_csv_entry_ok(
                            available@,
                            lay,
                            var,
                            pos[k],
                            #[trigger] v@[k],
                        )
                },
            }
        }),
{
    let parsed = parse_input_conf(content);
    let lay = parsed.0;
    let var = parsed.1;
    if lay.unicode_len() == 0 {
        return None;
    }
    let all = match parse_layout_variant_csv(available, lay.as_str(), var.as_str()) {
        Some(a) => a,
        None => {
            return None;
        },
    };
    let mut kept: Vec<ActiveLayout> = Vec::new();
    let ghost mut done: Seq<int> = Seq::empty();
    let n = all.len();
    let mut k: usize = 0;
    proof {
        assert(Seq::<int>::empty() + spec_nonempty_from(lay@, 0) =~= spec_nonempty_from(lay@, 0));
    }
    while k < n
        invariant
            n == all@.len(),
            n == spec_split_commas(lay@).len(),
            forall|j: int|
                0 <= j < all@.len() ==> spec_csv_entry_ok(
                    available@,
                    lay@,
                    var@,
                    j,
                    #[trigger] all@[j],
                ),
            (lay@, var@) == spec_parse_input_conf(content@),
            0 <= k <= n,
            kept@.len() == done.len(),
            spec_nonempty_from(lay@, 0) == done + spec_nonempty_from(lay@, k as int),
            forall|j: int| #![all_triggers]
                0 <= j < kept@.len() ==> 0 <= done[j] && spec_csv_entry_ok(
                    available@,
                    lay@,
                    var@,
                    done[j],
                    kept@[j],
                ),
        decreases n - k,
    {
        let e = &all[k];
        if e.code.unicode_len() > 0 {
            let ghost old_kept = kept@;
            kept.push(
                ActiveLayout {
                    code: e.code.clone(),
                    variant: e.variant.clone(),
                    description: e.description.clone(),
                },
            );
            proof {
                assert(spec_trim(spec_split_commas(lay@)[k as int]).len() > 0);
                assert(spec_nonempty_from(lay@, k as int) =~= seq![k as int]
                    + spec_nonempty_from(lay@, k as int + 1));
                let old_done = done;
                done = done + seq![k as int];
                assert(spec_nonempty_from(lay@, 0) =~= done + spec_nonempty_from(
                    lay@,
                    k as int + 1,
                ));
                assert(spec_csv_entry_ok(available@, lay@, var@, k as int, all@[k as int]));
                assert(kept@.last().code@ == all@[k as int].code@);
                assert(kept@.last().variant@ == all@[k as int].variant@);
                assert(kept@.last().description@ == all@[k as int].description@);
                assert(spec_csv_entry_ok(available@, lay@, var@, k as int, kept@.last()));
                assert(forall|j: int| #![all_triggers]
                    0 <= j < old_kept.len() ==> kept@[j] == old_kept[j] && done[j]
                        == old_done[j]);
            }
        } else {
            proof {
                assert(spec_trim(spec_split_commas(lay@)[k as int]).len() == 0);
                assert(spec_nonempty_from(lay@, k as int) =~= spec_nonempty_from(
                    lay@,
                    k as int + 1,
                ));
                assert(spec_nonempty_from(lay@, 0) =~= done + spec_nonempty_from(
                    lay@,
                    k as int + 1,
                ));
            }
        }
        k = k + 1;
    }
    proof {
        assert(spec_nonempty_from(lay@, n as int).len() == 0);
        assert(spec_nonempty_from(lay@, 0) =~= done);
    }
    if kept.len() == 0 {
        return None;
    }
    Some(kept)
}

/// Pieces joined back with commas.
pub open spec fn spec_join_commas(ps: Seq<Seq<char>>) -> Seq<char>
    decreases ps.len(),
{
    if ps.len() == 0 {
        Seq::empty()
    } else if ps.len() == 1 {
        ps[0]
    } else {
        ps[0] + seq![','] + spec_join_commas(ps.drop_first())
    }
}

proof fn lemma_join_push(ps: Seq<Seq<char>>, x: Seq<char>)
    ensures
        spec_join_commas(ps.push(x)) == if ps.len() == 0 {
            x
        } else {
            spec_join_commas(ps) + seq![','] + x
        },
    decreases ps.len(),
{
    if ps.len() == 0 {
        assert(ps.push(x)[0] == x);
        assert(spec_join_commas(ps.push(x)) == x);
    } else {
        assert(ps.push(x).drop_first() =~= ps.drop_first().push(x));
        lemma_join_push(ps.drop_first(), x);
        if ps.len() == 1 {
            assert(spec_join_commas(ps) == ps[0]);
            assert(spec_join_commas(ps.push(x)) =~= ps[0] + seq![','] + x);
            assert(spec_join_commas(ps) + seq![','] + x =~= ps[0] + seq![','] + x);
        } else {
            assert(spec_join_commas(ps.push(x)) =~= ps[0] + seq![','] + (spec_join_commas(
                ps.drop_first(),
            ) + seq![','] + x));
            assert(spec_join_commas(ps) + seq![','] + x =~= ps[0] + seq![','] + (spec_join_commas(
                ps.drop_first(),
            ) + seq![','] + x));
        }
    }
}

/// Join strings with commas.
fn join_commas(ps: &Vec<String>) -> (r: String)
    ensures
        r@ == spec_join_commas(ps@.map_values(|p: String| p@)),
{
    let ghost views = ps@.map_values(|p: String| p@);
    let mut r = String::new();
    let n = ps.len();
    let mut i: usize = 0;
    while i < n
        invariant
            n == ps@.len(),
            views == ps@.map_values(|p: String| p@),
            0 <= i <= n,
            r@ == spec_join_commas(views.take(i as int)),
        decreases n - i,
    {
        if i > 0 {
            r.append(",");
            proof {
                reveal_strlit(",");
            }
        }
        r.append(ps[i].as_str());
        proof {
            assert(views.take(i as int).push(views[i as int]) =~= views.take(i + 1));
            lemma_join_push(views.take(i as int), views[i as int]);
            if i > 0 {
                assert(r@ =~= spec_join_commas(views.take(i as int)) + seq![','] + views[
                    i as int]);
            } else {
                assert(r@ =~= views[0]);
            }
        }
        i = i + 1;
    }
    proof {
        assert(views.take(n as int) =~= views);
    }
    r
}

/// The comma pieces whose trimmed text is non-empty, original text kept.
pub open spec fn spec_keep_solid(ps: Seq<Seq<char>>) -> Seq<Seq<char>>
    decreases ps.len(),
{
    if ps.len() == 0 {
        Seq::empty()
    } else if spec_trim(ps[0]).len() > 0 {
        seq![ps[0]] + spec_keep_solid(ps.drop_first())
    } else {
        spec_keep_solid(ps.drop_first())
    }
}

/// Drop the comma pieces that hold only whitespace and join the rest
/// back: the layout string a config file may be given.
pub fn clean_layout_string(layouts: &str) -> (r: String)
    ensures
        r@ == spec_join_commas(spec_keep_solid(spec_split_commas(layouts@))),
{
    let pieces = split_commas(layouts);
    let ghost all = spec_split_commas(layouts@);
    let mut kept: Vec<String> = Vec::new();
    let n = pieces.len();
    let mut i: usize = 0;
    proof {
        assert(all.skip(0) =~= all);
        assert(Seq::<Seq<char>>::empty() + spec_keep_solid(all) =~= spec_keep_solid(all));
    }
    while i < n
        invariant
            n == pieces@.len(),
            n == all.len(),
            forall|k: int| 0 <= k < pieces@.len() ==> (#[trigger] pieces@[k])@ == all[k],
            0 <= i <= n,
            spec_keep_solid(all) == kept@.map_values(|p: String| p@) + spec_keep_solid(
                all.skip(i as int),
            ),
        decreases n - i,
    {
        proof {
            assert(all.skip(i as int)[0] == all[i as int]);
            assert(all.skip(i as int).drop_first() =~= all.skip(i + 1));
        }
        let t = trim_spaces(pieces[i].as_str());
        if t.unicode_len() > 0 {
            let ghost old_kept = kept@;
            kept.push(pieces[i].clone());
            proof {
                assert(kept@.map_values(|p: String| p@) =~= old_kept.map_values(
                    |p: String| p@,
                ) + seq![all[i as int]]);
                assert(spec_keep_solid(all.skip(i as int)) =~= seq![all[i as int]]
                    + spec_keep_solid(all.skip(i + 1)));
                assert(spec_keep_solid(all) =~= kept@.map_values(|p: String| p@)
                    + spec_keep_solid(all.skip(i + 1)));
            }
        } else {
            proof {
                assert(spec_keep_solid(all) =~= kept@.map_values(|p: String| p@)
                    + spec_keep_solid(all.skip(i + 1)));
            }
        }
        i = i + 1;
    }
    proof {
        assert(spec_keep_solid(all.skip(n as int)).len() == 0);
        assert(kept@.map_values(|p: String| p@) + spec_keep_solid(all.skip(n as int))
            =~= kept@.map_values(|p: String| p@));
    }
    join_commas(&kept)
}

/// The variant list aligned to `count` layouts: the i-th comma piece
/// trimmed, missing entries empty, extra entries dropped. Variants are
/// positional, so alignment must never shift.
pub open spec fn spec_aligned_variants(variants: Seq<char>, count: int) -> Seq<Seq<char>> {
    Seq::new(
        count as nat,
        |i: int|
            if i < spec_split_commas(variants).len() {
                spec_trim(spec_split_commas(variants)[i])
            } else {
                Seq::empty()
            },
    )
}

/// Align a variant string to the given number of layouts and join it back.
pub fn align_variant_string(variants: &str, count: usize) -> (r: String)
    ensures
        r@ == spec_join_commas(spec_aligned_variants(variants@, count as int)),
{
    let pieces = split_commas(variants);
    let ghost aligned = spec_aligned_variants(variants@, count as int);
    let mut parts: Vec<String> = Vec::new();
    let mut i: usize = 0;
    while i < count
        invariant
            forall|k: int| 0 <= k < pieces@.len() ==> (#[trigger] pieces@[k])@
                == spec_split_commas(variants@)[k],
            pieces@.len() == spec_split_commas(variants@).len(),
            aligned == spec_aligned_variants(variants@, count as int),
            aligned.len() == count,
            0 <= i <= count,
            parts@.len() == i,
            forall|k: int| 0 <= k < i ==> (#[trigger] parts@[k])@ == aligned[k],
        decreases count - i,
    {
        if i < pieces.len() {
            parts.push(trim_spaces(pieces[i].as_str()));
        } else {
            parts.push(String::new());
        }
        i = i + 1;
    }
    proof {
        assert(parts@.map_values(|p: String| p@) =~= aligned);
    }
    join_commas(&parts)
}

/// What one config line becomes when the layout and variant keys are
/// rewritten: a line carrying `kb_layout` (or `kb_variant`) and an equals
/// sign is replaced by its own indentation and the new key line; any other
/// line stays.
pub open spec fn spec_rewrite_line(
    line: Seq<char>,
    layouts: Seq<char>,
    variants: Seq<char>,
) -> Seq<char> {
    let t = spec_trim(line);
    let indent = line.take(line.len() - crate::strutil::spec_trim_front(line).len());
    if t.len() >= 9 && t.take(9) == "kb_layout"@ && spec_find_char(t, 0, '=') < t.len() {
        indent + "kb_layout = "@ + layouts
    } else if t.len() >= 10 && t.take(10) == "kb_variant"@ && spec_find_char(t, 0, '=') < t.len() {
        indent + "kb_variant = "@ + variants
    } else {
        line
    }
}

/// A line with one trailing carriage return removed.
pub open spec fn spec_strip_cr(l: Seq<char>) -> Seq<char> {
    if l.len() > 0 && l.last() == '\r' {
        l.drop_last()
    } else {
        l
    }
}

/// The lines a config file's text is made of: split on newlines, without
/// the empty piece a trailing newline leaves behind, and with one
/// trailing carriage return stripped from each line — so rewriting a
/// newline-terminated file preserves its line structure.
pub open spec fn spec_conf_lines(content: Seq<char>) -> Seq<Seq<char>> {
    let ps = spec_split_char(content, '\n');
    let kept = if ps.len() > 0 && ps.last().len() == 0 {
        ps.drop_last()
    } else {
        ps
    };
    kept.map_values(|l: Seq<char>| spec_strip_cr(l))
}

/// Split a config file's text into its lines.
fn conf_lines(content: &str) -> (r: Vec<String>)
    ensures
        r@.len() == spec_conf_lines(content@).len(),
        forall|i: int| 0 <= i < r@.len() ==> (#[trigger] r@[i])@ == spec_conf_lines(content@)[i],
{
    let ghost target = spec_conf_lines(content@);
    let mut lines = split_char(content, '\n');
    if lines.len() > 0 && lines[lines.len() - 1].as_str().unicode_len() == 0 {
        let _ = lines.pop();
    }
    proof {
        let ps = spec_split_char(content@, '\n');
        let kept = if ps.len() > 0 && ps.last().len() == 0 {
            ps.drop_last()
        } else {
            ps
        };
        assert(lines@.len() == kept.len());
        assert(forall|k: int| 0 <= k < lines@.len() ==> (#[trigger] lines@[k])@ == kept[k]);
    }
    let mut out: Vec<String> = Vec::new();
    let n = lines.len();
    let mut i: usize = 0;
    while i < n
        invariant
            n == lines@.len(),
            n == target.len(),
            forall|k: int|
                0 <= k < lines@.len() ==> spec_strip_cr((#[trigger] lines@[k])@) == target[k],
            0 <= i <= n,
            out@.len() == i,
            forall|k: int| 0 <= k < i ==> (#[trigger] out@[k])@ == target[k],
        decreases n - i,
    {
        let l = &lines[i];
        let ln = l.as_str().unicode_len();
        if ln > 0 && l.as_str().get_char(ln - 1) == '\r' {
            let s = substring_owned(l.as_str(), 0, ln - 1);
            proof {
                assert(l@.subrange(0, ln - 1) =~= l@.drop_last());
            }
            out.push(s);
        } else {
            out.push(l.clone());
        }
        i = i + 1;
    }
    out
}

/// A whole config file rewritten line by line, each line newline-ended.
pub open spec fn spec_rewrite_conf(
    lines: Seq<Seq<char>>,
    layouts: Seq<char>,
    variants: Seq<char>,
) -> Seq<char>
    decreases lines.len(),
{
    if lines.len() == 0 {
        Seq::empty()
    } else {
        spec_rewrite_line(lines[0], layouts, variants) + seq!['\n'] + spec_rewrite_conf(
            lines.drop_first(),
            layouts,
            variants,
        )
    }
}

/// Rewrite a keyboard config file's text so its `kb_layout` and
/// `kb_variant` lines carry the given strings, keeping every line's
/// indentation and everything else untouched.
pub fn rewrite_input_conf(content: &str, layouts: &str, variants: &str) -> (r: String)
    ensures
        r@ == spec_rewrite_conf(spec_conf_lines(content@), layouts@, variants@),
{
    let lines = conf_lines(content);
    let ghost lseq = spec_conf_lines(content@);
    proof {
        assert(forall|k: int| 0 <= k < lines@.len() ==> (#[trigger] lines@[k])@ == lseq[k]);
        assert(lseq.skip(0) =~= lseq);
    }
    let mut r = String::new();
    let n = lines.len();
    let mut i: usize = 0;
    while i < n
        invariant
            n == lines@.len(),
            n == lseq.len(),
            forall|k: int| 0 <= k < lines@.len() ==> (#[trigger] lines@[k])@ == lseq[k],
            0 <= i <= n,
            spec_rewrite_conf(lseq, layouts@, variants@) == r@ + spec_rewrite_conf(
                lseq.skip(i as int),
                layouts@,
                variants@,
            ),
        decreases n - i,
    {
        proof {
            reveal_strlit("kb_layout");
            reveal_strlit("kb_variant");
            reveal_strlit("kb_layout = ");
            reveal_strlit("kb_variant = ");
            reveal_strlit("\n");
            assert(lseq.skip(i as int)[0] == lseq[i as int]);
            assert(lseq.skip(i as int).drop_first() =~= lseq.skip(i + 1));
        }
        let line = &lines[i];
        let ln = line.as_str().unicode_len();
        let t = trim_spaces(line.as_str());
        let tn = t.unicode_len();
        let stripped = crate::strutil::trim_start_spaces(line.as_str());
        proof {
            crate::strutil::lemma_trim_front_len(line@);
        }
        let indent_len = ln - stripped.unicode_len();
        let indent = substring_owned(line.as_str(), 0, indent_len);
        proof {
            assert(line@.subrange(0, indent_len as int) =~= line@.take(
                line@.len() - crate::strutil::spec_trim_front(line@).len(),
            ));
        }
        let has_eq = find_char(t.as_str(), 0, '=') < tn;
        if starts_with(t.as_str(), "kb_layout") && has_eq {
            r.append(indent.as_str());
            r.append("kb_layout = ");
            r.append(layouts);
        } else if starts_with(t.as_str(), "kb_variant") && has_eq {
            r.append(indent.as_str());
            r.append("kb_variant = ");
            r.append(variants);
        } else {
            r.append(line.as_str());
        }
        r.append("\n");
        proof {
            assert(spec_rewrite_conf(lseq.skip(i as int), layouts@, variants@)
                =~= spec_rewrite_line(lseq[i as int], layouts@, variants@) + seq!['\n']
                + spec_rewrite_conf(lseq.skip(i + 1), layouts@, variants@));
            assert(spec_rewrite_conf(lseq, layouts@, variants@) =~= r@ + spec_rewrite_conf(
                lseq.skip(i + 1),
                layouts@,
                variants@,
            ));
        }
        i = i + 1;
    }
    proof {
        assert(spec_rewrite_conf(lseq.skip(n as int), layouts@, variants@).len() == 0);
        assert(r@ + spec_rewrite_conf(lseq.skip(n as int), layouts@, variants@) =~= r@);
    }
    r
}

/// Catalogue display order: by the lowercased description, in code-point
/// order.
pub open spec fn catalogue_le(a: AvailableLayout, b: AvailableLayout) -> bool {
    crate::strutil::lex_le(
        crate::notif::lower_of(a.description@),
        crate::notif::lower_of(b.description@),
    )
}

/// The sequence is sorted for display.
pub open spec fn catalogue_sorted(s: Seq<AvailableLayout>) -> bool {
    forall|i: int, j: int| 0 <= i < j < s.len() ==> catalogue_le(#[trigger] s[i], #[trigger] s[j])
}

fn catalogue_le_exec(a: &AvailableLayout, b: &AvailableLayout) -> (r: bool)
    ensures
        r == catalogue_le(*a, *b),
{
    let la = crate::notif::lowercase(a.description.as_str());
    let lb = crate::notif::lowercase(b.description.as_str());
    crate::strutil::str_le(la.as_str(), lb.as_str())
}

fn insert_sorted_catalogue(out: &mut Vec<AvailableLayout>, x: AvailableLayout)
    requires
        catalogue_sorted(old(out)@),
    ensures
        catalogue_sorted(final(out)@),
        final(out)@.to_multiset() == old(out)@.to_multiset().insert(x),
        final(out)@.len() == old(out)@.len() + 1,
{
    let n = out.len();
    let mut p: usize = 0;
    loop
        invariant
            n == out@.len(),
            out@ == old(out)@,
            0 <= p <= n,
            forall|k: int| 0 <= k < p ==> catalogue_le(#[trigger] out@[k], x),
        ensures
            out@ == old(out)@,
            0 <= p <= n,
            forall|k: int| 0 <= k < p ==> catalogue_le(#[trigger] out@[k], x),
            p == n || !catalogue_le(out@[p as int], x),
        decreases n - p,
    {
        if p >= n {
            break ;
        }
        if !catalogue_le_exec(&out[p], &x) {
            break ;
        }
        p = p + 1;
    }
    let ghost before = out@;
    out.insert(p, x);
    proof {
        crate::strutil::lemma_insert_to_multiset(before, p as int, x);
        assert forall|i: int, j: int| 0 <= i < j < out@.len() implies catalogue_le(
            #[trigger] out@[i],
            #[trigger] out@[j],
        ) by {
            if i < p {
                assert(out@[i] == before[i]);
            }
            if j < p {
                assert(out@[j] == before[j]);
            }
            if i > p {
                assert(out@[i] == before[i - 1]);
            }
            if j > p {
                assert(out@[j] == before[j - 1]);
            }
            if i == p {
                assert(out@[i] == x);
                assert(p < before.len());
                crate::strutil::lemma_lex_le_total(
                    crate::notif::lower_of(before[p as int].description@),
                    crate::notif::lower_of(x.description@),
                );
                assert(catalogue_le(x, before[p as int]));
                if j > p + 1 {
                    assert(catalogue_le(before[p as int], before[j - 1]));
                    crate::strutil::lemma_lex_le_trans(
                        crate::notif::lower_of(x.description@),
                        crate::notif::lower_of(before[p as int].description@),
                        crate::notif::lower_of(before[j - 1].description@),
                    );
                }
            }
            if j == p {
                assert(out@[j] == x);
                assert(catalogue_le(before[i], x));
            }
        }
    }
}

/// Sort a catalogue for display: non-decreasing by lowercased description
/// (code-point order on the folded text), keeping exactly the same
/// entries. Insertion keeps equal keys in their arrival order.
pub fn sort_catalogue(v: Vec<AvailableLayout>) -> (r: Vec<AvailableLayout>)
    ensures
        r@.to_multiset() == v@.to_multiset(),
        r@.len() == v@.len(),
        catalogue_sorted(r@),
{
    let ghost orig = v@;
    let mut rem = v;
    let mut out: Vec<AvailableLayout> = Vec::new();
    proof {
        broadcast use vstd::seq_lib::group_to_multiset_ensures;

        assert(out@.to_multiset().add(rem@.to_multiset()) =~= orig.to_multiset());
    }
    while rem.len() > 0
        invariant
            catalogue_sorted(out@),
            out@.to_multiset().add(rem@.to_multiset()) == orig.to_multiset(),
            out@.len() + rem@.len() == orig.len(),
        decreases rem@.len(),
    {
        let ghost rem_before = rem@;
        let ghost out_before = out@;
        let x = rem.remove(0);
        proof {
            broadcast use vstd::seq_lib::group_to_multiset_ensures;

            assert(rem@ == rem_before.remove(0));
            assert(rem@.to_multiset() =~= rem_before.to_multiset().remove(x));
            assert(rem_before.contains(x));
            assert(rem_before.to_multiset().count(x) > 0);
        }
        insert_sorted_catalogue(&mut out, x);
        proof {
            assert(out@.to_multiset() == out_before.to_multiset().insert(x));
            assert(out@.to_multiset().add(rem@.to_multiset()) =~= orig.to_multiset());
        }
    }
    proof {
        broadcast use vstd::seq_lib::group_to_multiset_ensures;

        assert(rem@.to_multiset().len() == 0);
        assert(rem@.to_multiset() =~= vstd::multiset::Multiset::<AvailableLayout>::empty());
        assert(out@.to_multiset() =~= orig.to_multiset());
    }
    out
}

/// The active entries whose layout code is not blank, in order; dropping
/// an entry drops its variant with it, so the pairing never shifts.
pub open spec fn spec_keep_entries(entries: Seq<ActiveLayout>) -> Seq<ActiveLayout>
    decreases entries.len(),
{
    if entries.len() == 0 {
        Seq::empty()
    } else if spec_trim(entries[0].code@).len() > 0 {
        seq![entries[0]] + spec_keep_entries(entries.drop_first())
    } else {
        spec_keep_entries(entries.drop_first())
    }
}

/// The layout and variant strings an active list syncs as: entries with a
/// blank code dropped entry-wise (code and variant together), the kept
/// codes joined with commas and the kept variants likewise. `None` when no
/// entry survives.
pub fn sync_strings(active: &Vec<ActiveLayout>) -> (r: Option<(String, String)>)
    ensures
        ({
            let kept = spec_keep_entries(active@);
            match r {
                None => kept.len() == 0,
                Some(p) => {
                    &&& kept.len() > 0
                    &&& p.0@ == spec_join_commas(kept.map_values(|a: ActiveLayout| a.code@))
                    &&& p.1@ == spec_join_commas(kept.map_values(|a: ActiveLayout| a.variant@))
                },
            }
        }),
{
    let ghost kept = spec_keep_entries(active@);
    let mut codes: Vec<String> = Vec::new();
    let mut variants: Vec<String> = Vec::new();
    let n = active.len();
    let mut i: usize = 0;
    proof {
        assert(active@.skip(0) =~= active@);
        assert(Seq::<ActiveLayout>::empty() + spec_keep_entries(active@) =~= kept);
    }
    while i < n
        invariant
            n == active@.len(),
            kept == spec_keep_entries(active@),
            0 <= i <= n,
            codes@.len() == variants@.len(),
            codes@.len() <= kept.len(),
            ({
                let done = kept.take(codes@.len() as int);
                &&& kept =~= done + spec_keep_entries(active@.skip(i as int))
                &&& codes@.map_values(|c: String| c@) =~= done.map_values(
                    |a: ActiveLayout| a.code@,
                )
                &&& variants@.map_values(|c: String| c@) =~= done.map_values(
                    |a: ActiveLayout| a.variant@,
                )
            }),
        decreases n - i,
    {
        proof {
            assert(active@.skip(i as int)[0] == active@[i as int]);
            assert(active@.skip(i as int).drop_first() =~= active@.skip(i + 1));
        }
        let t = trim_spaces(active[i].code.as_str());
        if t.unicode_len() > 0 {
            let ghost old_done = kept.take(codes@.len() as int);
            let ghost old_codes = codes@;
            let ghost old_variants = variants@;
            codes.push(active[i].code.clone());
            variants.push(active[i].variant.clone());
            proof {
                assert(spec_keep_entries(active@.skip(i as int)) =~= seq![active@[i as int]]
                    + spec_keep_entries(active@.skip(i + 1)));
                let old_len = old_codes.len() as int;
                assert(old_done.len() == old_len);
                assert(kept == old_done + spec_keep_entries(active@.skip(i as int)));
                assert(kept.len() >= old_len + 1);
                assert(kept[old_len] == active@[i as int]);
                assert(forall|k: int| 0 <= k < old_len ==> #[trigger] kept[k] == old_done[k]);
                let done = kept.take(codes@.len() as int);
                assert(codes@.len() == old_len + 1);
                assert(done =~= old_done.push(active@[i as int]));
                assert(codes@ =~= old_codes.push(codes@.last()));
                assert(variants@ =~= old_variants.push(variants@.last()));
                assert(codes@.last()@ == active@[i as int].code@);
                assert(variants@.last()@ == active@[i as int].variant@);
                assert forall|k: int| 0 <= k < codes@.len() implies (#[trigger] codes@[k])@
                    == done[k].code@ && variants@[k]@ == done[k].variant@ by {
                    if k < old_len {
                        assert(codes@[k] == old_codes[k]);
                        assert(variants@[k] == old_variants[k]);
                        assert(done[k] == old_done[k]);
                        assert(old_codes.map_values(|c: String| c@)[k] == old_codes[k]@);
                        assert(old_variants.map_values(|c: String| c@)[k] == old_variants[k]@);
                        assert(old_done.map_values(|a: ActiveLayout| a.code@)[k]
                            == old_done[k].code@);
                        assert(old_done.map_values(|a: ActiveLayout| a.variant@)[k]
                            == old_done[k].variant@);
                    } else {
                        assert(codes@[k] == codes@.last());
                        assert(variants@[k] == variants@.last());
                        assert(done[k] == active@[i as int]);
                    }
                }
                assert forall|k: int| 0 <= k < variants@.len() implies (#[trigger] variants@[k])@
                    == done[k].variant@ by {
                    if k < old_len {
                        assert(variants@[k] == old_variants[k]);
                        assert(done[k] == old_done[k]);
                        assert(old_variants.map_values(|c: String| c@)[k] == old_variants[k]@);
                        assert(old_done.map_values(|a: ActiveLayout| a.variant@)[k]
                            == old_done[k].variant@);
                    } else {
                        assert(variants@[k] == variants@.last());
                        assert(done[k] == active@[i as int]);
                    }
                }
                assert(codes@.map_values(|c: String| c@) =~= done.map_values(
                    |a: ActiveLayout| a.code@,
                ));
                assert(variants@.map_values(|c: String| c@) =~= done.map_values(
                    |a: ActiveLayout| a.variant@,
                ));
                assert(kept =~= done + spec_keep_entries(active@.skip(i + 1)));
            }
        } else {
            proof {
                assert(spec_keep_entries(active@.skip(i as int)) =~= spec_keep_entries(
                    active@.skip(i + 1),
                ));
            }
        }
        i = i + 1;
    }
    proof {
        assert(spec_keep_entries(active@.skip(n as int)).len() == 0);
        assert(kept =~= kept.take(codes@.len() as int));
        assert(kept.map_values(|a: ActiveLayout| a.code@) =~= kept.take(
            codes@.len() as int,
        ).map_values(|a: ActiveLayout| a.code@));
        assert(kept.map_values(|a: ActiveLayout| a.variant@) =~= kept.take(
            codes@.len() as int,
        ).map_values(|a: ActiveLayout| a.variant@));
    }
    if codes.len() == 0 {
        return None;
    }
    let l = join_commas(&codes);
    let v = join_commas(&variants);
    proof {
        assert(codes@.map_values(|c: String| c@) =~= kept.map_values(|a: ActiveLayout| a.code@));
        assert(variants@.map_values(|c: String| c@) =~= kept.map_values(
            |a: ActiveLayout| a.variant@,
        ));
    }
    Some((l, v))
}

/// What one catalogue line contributes in the given section (`0` outside
/// any known section, `1` layouts, `2` variants): possibly a new section,
/// a stop mark at the option section, and possibly one entry
/// `(code, variant, description)`.
pub open spec fn spec_evdev_line(line: Seq<char>, section: int) -> (
    int,
    bool,
    Option<(Seq<char>, Seq<char>, Seq<char>)>,
) {
    let t = spec_trim(line);
    if t.len() >= 2 && t.take(2) == "! "@ {
        if t == "! layout"@ {
            (1int, false, None)
        } else if t == "! variant"@ {
            (2int, false, None)
        } else if t == "! option"@ {
            (section, true, None)
        } else {
            (0int, false, None)
        }
    } else if t.len() == 0 {
        (section, false, None)
    } else if section == 1 {
        let fs = crate::strutil::spec_first_space(t, 0);
        let code = t.take(fs);
        let desc = if fs < t.len() {
            spec_trim(t.skip(fs + 1))
        } else {
            Seq::empty()
        };
        if code.len() > 0 {
            (section, false, Some((code, Seq::empty(), desc)))
        } else {
            (section, false, None)
        }
    } else if section == 2 {
        let fs = crate::strutil::spec_first_space(t, 0);
        let variant = t.take(fs);
        let rest = if fs < t.len() {
            spec_trim(t.skip(fs + 1))
        } else {
            Seq::empty()
        };
        let e = spec_find_char(rest, 0, ':');
        if e < rest.len() {
            let code = spec_trim(rest.take(e));
            let desc = spec_trim(rest.skip(e + 1));
            if code.len() > 0 && variant.len() > 0 {
                (section, false, Some((code, variant, desc)))
            } else {
                (section, false, None)
            }
        } else {
            (section, false, None)
        }
    } else {
        (section, false, None)
    }
}

/// The `(code, variant, description)` entries a catalogue file's lines
/// yield from line `k` on, in the given section, stopping at the option
/// section.
pub open spec fn spec_evdev_from(lines: Seq<Seq<char>>, k: int, section: int) -> Seq<
    (Seq<char>, Seq<char>, Seq<char>),
>
    decreases lines.len() - k,
{
    if k < 0 || k >= lines.len() {
        Seq::empty()
    } else {
        let step = spec_evdev_line(lines[k], section);
        if step.1 {
            Seq::empty()
        } else {
            match step.2 {
                Some(entry) => seq![entry] + spec_evdev_from(lines, k + 1, step.0),
                None => spec_evdev_from(lines, k + 1, step.0),
            }
        }
    }
}

/// The catalogue entries a rules file's text yields, in file order.
pub open spec fn spec_evdev_entries(content: Seq<char>) -> Seq<(Seq<char>, Seq<char>, Seq<char>)> {
    spec_evdev_from(spec_split_char(content, '\n'), 0, 0)
}

/// Parse an XKB rules catalogue: the layout section gives codes with
/// descriptions, the variant section gives variant/code pairs, and the
/// option section ends the read. Entries come back in file order.
pub fn parse_evdev_catalogue(content: &str) -> (r: Vec<AvailableLayout>)
    ensures
        r@.len() == spec_evdev_entries(content@).len(),
        forall|i: int|
            0 <= i < r@.len() ==> {
                let e = spec_evdev_entries(content@)[i];
                (#[trigger] r@[i]).code@ == e.0 && r@[i].variant@ == e.1 && r@[i].description@
                    == e.2
            },
{
    proof {
        reveal_strlit("! ");
        reveal_strlit("! layout");
        reveal_strlit("! variant");
        reveal_strlit("! option");
    }
    let lines = split_char(content, '\n');
    let ghost lseq = spec_split_char(content@, '\n');
    proof {
        assert(forall|k: int| 0 <= k < lines@.len() ==> (#[trigger] lines@[k])@ == lseq[k]);
    }
    let mut r: Vec<AvailableLayout> = Vec::new();
    let mut section: i32 = 0;
    let n = lines.len();
    let mut i: usize = 0;
    while i < n
        invariant
            n == lines@.len(),
            n == lseq.len(),
            forall|k: int| 0 <= k < lines@.len() ==> (#[trigger] lines@[k])@ == lseq[k],
            0 <= i <= n,
            0 <= section <= 2,
            spec_evdev_entries(content@) == r@.map_values(
                |a: AvailableLayout| (a.code@, a.variant@, a.description@),
            ) + spec_evdev_from(lseq, i as int, section as int),
        ensures
            spec_evdev_entries(content@) == r@.map_values(
                |a: AvailableLayout| (a.code@, a.variant@, a.description@),
            ),
        decreases n - i,
    {
        let ghost sec0: int = section as int;
        let ghost step = spec_evdev_line(lseq[i as int], sec0);
        proof {
            reveal_strlit("! ");
            reveal_strlit("! layout");
            reveal_strlit("! variant");
            reveal_strlit("! option");
        }
        let t = trim_spaces(lines[i].as_str());
        proof {
            assert(t@ == spec_trim(lseq[i as int]));
        }
        let tn = t.unicode_len();
        if starts_with(t.as_str(), "! ") {
            proof {
                assert(t@.subrange(0, 2) =~= t@.take(2));
            }
            if str_eq(t.as_str(), "! layout") {
                section = 1;
            } else if str_eq(t.as_str(), "! variant") {
                section = 2;
            } else if str_eq(t.as_str(), "! option") {
                proof {
                    assert(step.1);
                    assert(spec_evdev_from(lseq, i as int, sec0) =~= Seq::<(
                        Seq<char>,
                        Seq<char>,
                        Seq<char>,
                    )>::empty());
                    assert(r@.map_values(|a: AvailableLayout| (a.code@, a.variant@, a.description@))
                        + Seq::<(Seq<char>, Seq<char>, Seq<char>)>::empty() =~= r@.map_values(
                        |a: AvailableLayout| (a.code@, a.variant@, a.description@),
                    ));
                }
                break ;
            } else {
                section = 0;
            }
        } else if tn == 0 {
            // blank line: nothing changes
        } else if section == 1 {
            let fs = crate::strutil::first_space(t.as_str(), 0);
            let code = substring_owned(t.as_str(), 0, fs);
            proof {
                assert(t@.subrange(0, fs as int) =~= t@.take(fs as int));
            }
            let desc = if fs < tn {
                let raw = substring_owned(t.as_str(), fs + 1, tn);
                proof {
                    assert(t@.subrange(fs + 1, tn as int) =~= t@.skip(fs + 1));
                }
                trim_spaces(raw.as_str())
            } else {
                String::new()
            };
            if code.unicode_len() > 0 {
                let ghost old_r = r@;
                r.push(AvailableLayout { code, variant: String::new(), description: desc });
                proof {
                    assert(r@.map_values(
                        |a: AvailableLayout| (a.code@, a.variant@, a.description@),
                    ) =~= old_r.map_values(
                        |a: AvailableLayout| (a.code@, a.variant@, a.description@),
                    ) + seq![step.2->Some_0]);
                }
            }
        } else if section == 2 {
            let fs = crate::strutil::first_space(t.as_str(), 0);
            let variant = substring_owned(t.as_str(), 0, fs);
            proof {
                assert(t@.subrange(0, fs as int) =~= t@.take(fs as int));
            }
            let rest = if fs < tn {
                let raw = substring_owned(t.as_str(), fs + 1, tn);
                proof {
                    assert(t@.subrange(fs + 1, tn as int) =~= t@.skip(fs + 1));
                }
                trim_spaces(raw.as_str())
            } else {
                String::new()
            };
            let rn = rest.unicode_len();
            let e = find_char(rest.as_str(), 0, ':');
            if e < rn {
                let code_raw = substring_owned(rest.as_str(), 0, e);
                proof {
                    assert(rest@.subrange(0, e as int) =~= rest@.take(e as int));
                }
                let code = trim_spaces(code_raw.as_str());
                let desc_raw = substring_owned(rest.as_str(), e + 1, rn);
                proof {
                    assert(rest@.subrange(e + 1, rn as int) =~= rest@.skip(e + 1));
                }
                let desc = trim_spaces(desc_raw.as_str());
                if code.unicode_len() > 0 && variant.unicode_len() > 0 {
                    let ghost old_r = r@;
                    r.push(AvailableLayout { code, variant, description: desc });
                    proof {
                        assert(r@.map_values(
                            |a: AvailableLayout| (a.code@, a.variant@, a.description@),
                        ) =~= old_r.map_values(
                            |a: AvailableLayout| (a.code@, a.variant@, a.description@),
                        ) + seq![step.2->Some_0]);
                    }
                }
            }
        }
        proof {
            assert(!step.1);
            assert(step.0 == section as int);
            match step.2 {
                Some(entry) => {
                    assert(spec_evdev_from(lseq, i as int, sec0) =~= seq![entry]
                        + spec_evdev_from(lseq, i + 1, step.0));
                },
                None => {
                    assert(spec_evdev_from(lseq, i as int, sec0) =~= spec_evdev_from(
                        lseq,
                        i + 1,
                        step.0,
                    ));
                },
            }
        }
        i = i + 1;
    }
    r
}

} // verus!
