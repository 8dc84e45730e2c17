//! Web-app bookkeeping: the record one saved web app is kept as, reading
//! the launcher flags back out of a desktop entry's command line, and the
//! sanitising pipeline that turns a display name into a slug.

use vstd::prelude::*;
use crate::strutil::{
    find_char, find_sub, first_space, lemma_find_sub_props, push_char, rfind_char, rfind_space,
    spec_find_char, spec_find_sub, spec_first_space, spec_rfind_char, spec_rfind_space, spec_trim,
    spec_trim_char, spec_trim_front, str_eq, starts_with, substring_owned, trim_char_ends,
    trim_spaces, trim_start_spaces,
};

verus! {

/// One saved web app, as read back from its desktop entry.
pub struct WebApp {
    pub name: String,
    pub slug: String,
    pub url: String,
    pub secure: bool,
    pub vpn_iface: String,
    pub vpn_required: bool,
    pub icon: String,
    /// Path of the desktop entry this app was read from.
    pub desktop_file: String,
}

/// The value `parse_exec_flag` owes: after the first occurrence of the
/// flag, leading whitespace dropped, either a quoted value (up to the next
/// quote) or the first whitespace-delimited token with quotes stripped.
pub open spec fn spec_parse_exec_flag(exec: Seq<char>, flag: Seq<char>) -> Option<Seq<char>> {
    let f = spec_find_sub(exec, flag, 0);
    if f < 0 {
        None
    } else {
        let after = spec_trim_front(exec.skip(f + flag.len() as int));
        if after.len() > 0 && after[0] == '"' {
            let inner = after.skip(1);
            let e = spec_find_char(inner, 0, '"');
            if e >= inner.len() {
                None
            } else {
                Some(inner.take(e))
            }
        } else {
            let te = spec_first_space(after, 0);
            let tok = after.take(te);
            if tok.len() == 0 {
                None
            } else {
                Some(spec_trim_char(tok, '"'))
            }
        }
    }
}

/// Read one flag's value from a launcher command line, handling both the
/// quoted and the unquoted form.
pub fn parse_exec_flag(exec: &str, flag: &str) -> (r: Option<String>)
    ensures
        match r {
            Some(v) => spec_parse_exec_flag(exec@, flag@) == Some(v@),
            None => spec_parse_exec_flag(exec@, flag@) is None,
        },
{
    let n = exec.unicode_len();
    let idx = match find_sub(exec, flag) {
        Some(i) => i,
        None => {
            return None;
        },
    };
    proof {
        lemma_find_sub_props(exec@, flag@, 0);
    }
    let fl = flag.unicode_len();
    let start = idx + fl;
    let tail = substring_owned(exec, start, n);
    let after = trim_start_spaces(tail.as_str());
    proof {
        assert(exec@.subrange(start as int, n as int) =~= exec@.skip(start as int));
    }
    let na = after.unicode_len();
    if na > 0 && after.as_str().get_char(0) == '"' {
        let inner = substring_owned(after.as_str(), 1, na);
        proof {
            assert(after@.subrange(1, na as int) =~= after@.skip(1));
        }
        let e = find_char(inner.as_str(), 0, '"');
        if e >= inner.unicode_len() {
            None
        } else {
            let v = substring_owned(inner.as_str(), 0, e);
            proof {
                assert(inner@.subrange(0, e as int) =~= inner@.take(e as int));
            }
            Some(v)
        }
    } else {
        let te = first_space(after.as_str(), 0);
        let tok = substring_owned(after.as_str(), 0, te);
        proof {
            assert(after@.subrange(0, te as int) =~= after@.take(te as int));
        }
        if tok.unicode_len() == 0 {
            None
        } else {
            Some(trim_char_ends(tok.as_str(), '"'))
        }
    }
}

/// The URL `extract_url` owes: the last argument of the command line — a
/// quoted tail if one closes the line, else the last whitespace-delimited
/// token with quotes stripped.
pub open spec fn spec_extract_url(exec: Seq<char>) -> Option<Seq<char>> {
    let t = spec_trim(exec);
    if t.len() > 0 && t.last() == '"' && spec_rfind_char(t.take(t.len() - 1), '"') >= 0 {
        let st = spec_rfind_char(t.take(t.len() - 1), '"');
        Some(t.subrange(st + 1, t.len() - 1))
    } else if t.len() == 0 {
        None
    } else {
        let ls = spec_rfind_space(t);
        Some(spec_trim_char(t.skip(ls + 1), '"'))
    }
}

/// Extract the URL from a launcher command line: its last argument.
pub fn extract_url(exec: &str) -> (r: Option<String>)
    ensures
        match r {
            Some(v) => spec_extract_url(exec@) == Some(v@),
            None => spec_extract_url(exec@) is None,
        },
{
    let t = trim_spaces(exec);
    let n = t.unicode_len();
    if n > 0 && t.as_str().get_char(n - 1) == '"' {
        let head = substring_owned(t.as_str(), 0, n - 1);
        proof {
            assert(t@.subrange(0, n - 1) =~= t@.take(n - 1));
        }
        match rfind_char(head.as_str(), '"') {
            Some(st) => {
                let v = substring_owned(head.as_str(), st + 1, n - 1);
                proof {
                    assert(head@.subrange(st + 1, n - 1) =~= t@.subrange(st + 1, n - 1));
                }
                return Some(v);
            },
            None => {},
        }
    }
    if n == 0 {
        return None;
    }
    let tail = match rfind_space(t.as_str()) {
        Some(ls) => substring_owned(t.as_str(), ls + 1, n),
        None => substring_owned(t.as_str(), 0, n),
    };
    proof {
        let ls = spec_rfind_space(t@);
        assert(t@.subrange(ls + 1, n as int) =~= t@.skip(ls + 1));
    }
    Some(trim_char_ends(tail.as_str(), '"'))
}

/// The value of the first line starting with the given prefix, the prefix
/// removed; `None` when no line carries it.
pub open spec fn spec_first_line_value(lines: Seq<Seq<char>>, p: Seq<char>) -> Option<Seq<char>>
    decreases lines.len(),
{
    if lines.len() == 0 {
        None
    } else if lines[0].len() >= p.len() && lines[0].take(p.len() as int) == p {
        Some(lines[0].skip(p.len() as int))
    } else {
        spec_first_line_value(lines.drop_first(), p)
    }
}

proof fn lemma_first_line_at(lines: Seq<Seq<char>>, p: Seq<char>, i: int)
    requires
        0 <= i < lines.len(),
        lines[i].len() >= p.len() && lines[i].take(p.len() as int) == p,
        forall|k: int|
            0 <= k < i ==> !((#[trigger] lines[k]).len() >= p.len() && lines[k].take(
                p.len() as int,
            ) == p),
    ensures
        spec_first_line_value(lines, p) == Some(lines[i].skip(p.len() as int)),
    decreases i,
{
    if i > 0 {
        assert(lines.drop_first()[i - 1] == lines[i]);
        assert(forall|k: int| 0 <= k < i - 1 ==> lines.drop_first()[k] == lines[k + 1]);
        lemma_first_line_at(lines.drop_first(), p, i - 1);
    }
}

proof fn lemma_first_line_none(lines: Seq<Seq<char>>, p: Seq<char>)
    requires
        forall|k: int|
            0 <= k < lines.len() ==> !((#[trigger] lines[k]).len() >= p.len() && lines[k].take(
                p.len() as int,
            ) == p),
    ensures
        spec_first_line_value(lines, p) is None,
    decreases lines.len(),
{
    if lines.len() > 0 {
        assert(forall|k: int| 0 <= k < lines.drop_first().len() ==> lines.drop_first()[k]
            == lines[k + 1]);
        lemma_first_line_none(lines.drop_first(), p);
    }
}

/// Find the first line starting with the given prefix and return what
/// follows the prefix.
fn first_line_value(lines: &Vec<String>, p: &str) -> (r: Option<String>)
    ensures
        ({
            let lseq = lines@.map_values(|l: String| l@);
            match r {
                Some(v) => spec_first_line_value(lseq, p@) == Some(v@),
                None => spec_first_line_value(lseq, p@) is None,
            }
        }),
{
    let ghost lseq = lines@.map_values(|l: String| l@);
    let n = lines.len();
    let mut i: usize = 0;
    while i < n
        invariant
            n == lines@.len(),
            lseq == lines@.map_values(|l: String| l@),
            0 <= i <= n,
            forall|k: int|
                0 <= k < i ==> !((#[trigger] lseq[k]).len() >= p@.len() && lseq[k].take(
                    p@.len() as int,
                ) == p@),
        decreases n - i,
    {
        let line = &lines[i];
        if starts_with(line.as_str(), p) {
            let pl = p.unicode_len();
            let v = substring_owned(line.as_str(), pl, line.as_str().unicode_len());
            proof {
                assert(line@.subrange(pl as int, line@.len() as int) =~= line@.skip(pl as int));
                lemma_first_line_at(lseq, p@, i as int);
            }
            return Some(v);
        }
        proof {
            assert(line@.subrange(0, p@.len() as int) =~= line@.take(p@.len() as int));
        }
        i = i + 1;
    }
    proof {
        lemma_first_line_none(lseq, p@);
    }
    None
}

/// The command line of a desktop entry: its first `Exec=` line's tail, or
/// empty when there is none.
pub open spec fn spec_desktop_exec_line(content: Seq<char>) -> Seq<char> {
    match spec_first_line_value(
        crate::strutil::spec_split_char(content, '\n'),
        "Exec="@,
    ) {
        Some(e) => e,
        None => Seq::empty(),
    }
}

/// The tail of the first line with the given prefix, or empty.
pub open spec fn spec_line_value_or_empty(content: Seq<char>, p: Seq<char>) -> Seq<char> {
    match spec_first_line_value(crate::strutil::spec_split_char(content, '\n'), p) {
        Some(v) => v,
        None => Seq::empty(),
    }
}

/// Read one saved web app back out of a desktop entry's text. `None` when
/// the entry's command line is not the web-app launcher's.
pub fn webapp_from_desktop_entry(content: &str, fallback_slug: &str, desktop_file: String) -> (r:
    Option<WebApp>)
    ensures
        ({
            let e = spec_desktop_exec_line(content@);
            match r {
                None => !crate::strutil::contains_seq(e, "launch-webapp"@),
                Some(w) => {
                    &&& crate::strutil::contains_seq(e, "launch-webapp"@)
                    &&& w.name@ == spec_line_value_or_empty(content@, "Name="@)
                    &&& w.icon@ == spec_line_value_or_empty(content@, "Icon="@)
                    &&& w.slug@ == (match spec_parse_exec_flag(e, "--name"@) {
                        Some(v) => v,
                        None => fallback_slug@,
                    })
                    &&& w.url@ == (match spec_extract_url(e) {
                        Some(u) => u,
                        None => Seq::<char>::empty(),
                    })
                    &&& w.secure == crate::strutil::contains_seq(e, "--secure"@)
                    &&& w.vpn_iface@ == (match spec_parse_exec_flag(e, "--vpn-interface"@) {
                        Some(v) => v,
                        None => Seq::<char>::empty(),
                    })
                    &&& w.vpn_required == crate::strutil::contains_seq(e, "--vpn-required"@)
                    &&& w.desktop_file@ == desktop_file@
                },
            }
        }),
{
    let lines = crate::strutil::split_char(content, '\n');
    proof {
        assert(lines@.map_values(|l: String| l@) =~= crate::strutil::spec_split_char(
            content@,
            '\n',
        ));
    }
    let exec_line = match first_line_value(&lines, "Exec=") {
        Some(e) => e,
        None => String::new(),
    };
    if !crate::strutil::contains(exec_line.as_str(), "launch-webapp") {
        return None;
    }
    let name = match first_line_value(&lines, "Name=") {
        Some(v) => v,
        None => String::new(),
    };
    let icon = match first_line_value(&lines, "Icon=") {
        Some(v) => v,
        None => String::new(),
    };
    let slug = match parse_exec_flag(exec_line.as_str(), "--name") {
        Some(v) => v,
        None => fallback_slug.to_owned(),
    };
    let url = match extract_url(exec_line.as_str()) {
        Some(u) => u,
        None => String::new(),
    };
    let secure = crate::strutil::contains(exec_line.as_str(), "--secure");
    let vpn_iface = match parse_exec_flag(exec_line.as_str(), "--vpn-interface") {
        Some(v) => v,
        None => String::new(),
    };
    let vpn_required = crate::strutil::contains(exec_line.as_str(), "--vpn-required");
    Some(WebApp { name, slug, url, secure, vpn_iface, vpn_required, icon, desktop_file })
}

/// Listing order: by the lowercased display name, in code-point order.
pub open spec fn webapp_le(a: WebApp, b: WebApp) -> bool {
    crate::strutil::lex_le(crate::notif::lower_of(a.name@), crate::notif::lower_of(b.name@))
}

/// The sequence is sorted for listing.
pub open spec fn webapps_sorted(s: Seq<WebApp>) -> bool {
    forall|i: int, j: int| 0 <= i < j < s.len() ==> webapp_le(#[trigger] s[i], #[trigger] s[j])
}

fn webapp_le_exec(a: &WebApp, b: &WebApp) -> (r: bool)
    ensures
        r == webapp_le(*a, *b),
{
    let la = crate::notif::lowercase(a.name.as_str());
    let lb = crate::notif::lowercase(b.name.as_str());
    crate::strutil::str_le(la.as_str(), lb.as_str())
}

fn insert_sorted_webapp(out: &mut Vec<WebApp>, x: WebApp)
    requires
        webapps_sorted(old(out)@),
    ensures
        webapps_sorted(final(out)@),
        final(out)@.to_multiset() == old(out)@.to_multiset().insert(x),
        final(out)@.len() == old(out)@.len() + 1,
{
    let n = out.len();
    let mut p: usize = 0;
    loop
        invariant
            n == out@.len(),
            out@ == old(out)@,
            0 <= p <= n,
            forall|k: int| 0 <= k < p ==> webapp_le(#[trigger] out@[k], x),
        ensures
            out@ == old(out)@,
            0 <= p <= n,
            forall|k: int| 0 <= k < p ==> webapp_le(#[trigger] out@[k], x),
            p == n || !webapp_le(out@[p as int], x),
        decreases n - p,
    {
        if p >= n {
            break ;
        }
        if !webapp_le_exec(&out[p], &x) {
            break ;
        }
        p = p + 1;
    }
    let ghost before = out@;
    out.insert(p, x);
    proof {
        crate::strutil::lemma_insert_to_multiset(before, p as int, x);
        assert forall|i: int, j: int| 0 <= i < j < out@.len() implies webapp_le(
            #[trigger] out@[i],
            #[trigger] out@[j],
        ) by {
            if i < p {
                assert(out@[i] == before[i]);
            }
            if j < p {
                assert(out@[j] == before[j]);
            }
            if i > p {
                assert(out@[i] == before[i - 1]);
            }
            if j > p {
                assert(out@[j] == before[j - 1]);
            }
            if i == p {
                assert(out@[i] == x);
                assert(p < before.len());
                crate::strutil::lemma_lex_le_total(
                    crate::notif::lower_of(before[p as int].name@),
                    crate::notif::lower_of(x.name@),
                );
                assert(webapp_le(x, before[p as int]));
                if j > p + 1 {
                    assert(webapp_le(before[p as int], before[j - 1]));
                    crate::strutil::lemma_lex_le_trans(
                        crate::notif::lower_of(x.name@),
                        crate::notif::lower_of(before[p as int].name@),
                        crate::notif::lower_of(before[j - 1].name@),
                    );
                }
            }
            if j == p {
                assert(out@[j] == x);
                assert(webapp_le(before[i], x));
            }
        }
    }
}

/// Sort a web-app listing for display: non-decreasing by lowercased name
/// (code-point order on the folded text), keeping exactly the same
/// entries. Insertion keeps equal keys in their arrival order.
pub fn sort_webapps(v: Vec<WebApp>) -> (r: Vec<WebApp>)
    ensures
        r@.to_multiset() == v@.to_multiset(),
        r@.len() == v@.len(),
        webapps_sorted(r@),
{
    let ghost orig = v@;
    let mut rem = v;
    let mut out: Vec<WebApp> = Vec::new();
    proof {
        broadcast use vstd::seq_lib::group_to_multiset_ensures;

        assert(out@.to_multiset().add(rem@.to_multiset()) =~= orig.to_multiset());
    }
    while rem.len() > 0
        invariant
            webapps_sorted(out@),
            out@.to_multiset().add(rem@.to_multiset()) == orig.to_multiset(),
            out@.len() + rem@.len() == orig.len(),
        decreases rem@.len(),
    {
        let ghost rem_before = rem@;
        let ghost out_before = out@;
        let x = rem.remove(0);
        proof {
            broadcast use vstd::seq_lib::group_to_multiset_ensures;

            assert(rem@ == rem_before.remove(0));
            assert(rem@.to_multiset() =~= rem_before.to_multiset().remove(x));
            assert(rem_before.contains(x));
            assert(rem_before.to_multiset().count(x) > 0);
        }
        insert_sorted_webapp(&mut out, x);
        proof {
            assert(out@.to_multiset() == out_before.to_multiset().insert(x));
            assert(out@.to_multiset().add(rem@.to_multiset()) =~= orig.to_multiset());
        }
    }
    proof {
        broadcast use vstd::seq_lib::group_to_multiset_ensures;

        assert(rem@.to_multiset().len() == 0);
        assert(rem@.to_multiset() =~= vstd::multiset::Multiset::<WebApp>::empty());
        assert(out@.to_multiset() =~= orig.to_multiset());
    }
    out
}

/// One character of the ASCII transliteration: ASCII passes through,
/// anything else becomes a dash.
pub open spec fn spec_translit_char(c: char) -> char {
    if (c as u32) <= 0x7f {
        c
    } else {
        '-'
    }
}

/// Strip a name down to ASCII, one dash per non-ASCII character.
pub fn transliterate(s: &str) -> (r: String)
    ensures
        r@ == s@.map_values(|c: char| spec_translit_char(c)),
{
    let n = s.unicode_len();
    let mut r = String::new();
    let mut i: usize = 0;
    while i < n
        invariant
            n == s@.len(),
            0 <= i <= n,
            r@ == s@.take(i as int).map_values(|c: char| spec_translit_char(c)),
        decreases n - i,
    {
        let c = s.get_char(i);
        let u = c as u32;
        if u <= 0x7f {
            push_char(&mut r, c);
        } else {
            push_char(&mut r, '-');
        }
        proof {
            assert(s@.take(i + 1).map_values(|c: char| spec_translit_char(c)) =~= s@.take(
                i as int,
            ).map_values(|c: char| spec_translit_char(c)).push(spec_translit_char(s@[i as int])));
        }
        i = i + 1;
    }
    proof {
        assert(s@.take(n as int) =~= s@);
    }
    r
}

/// One character lowercased, for the ASCII range.
pub open spec fn spec_ascii_lower_char(c: char) -> char {
    if 65 <= (c as u32) <= 90 {
        ((c as u32 + 32) as u8) as char
    } else {
        c
    }
}

/// Lowercase the ASCII letters of a string, leaving the rest alone.
pub fn ascii_lower(s: &str) -> (r: String)
    ensures
        r@ == s@.map_values(|c: char| spec_ascii_lower_char(c)),
{
    let n = s.unicode_len();
    let mut r = String::new();
    let mut i: usize = 0;
    while i < n
        invariant
            n == s@.len(),
            0 <= i <= n,
            r@ == s@.take(i as int).map_values(|c: char| spec_ascii_lower_char(c)),
        decreases n - i,
    {
        let c = s.get_char(i);
        let u = c as u32;
        if 65 <= u && u <= 90 {
            push_char(&mut r, ((u + 32) as u8) as char);
        } else {
            push_char(&mut r, c);
        }
        proof {
            assert(s@.take(i + 1).map_values(|c: char| spec_ascii_lower_char(c)) =~= s@.take(
                i as int,
            ).map_values(|c: char| spec_ascii_lower_char(c)).push(
                spec_ascii_lower_char(s@[i as int]),
            ));
        }
        i = i + 1;
    }
    proof {
        assert(s@.take(n as int) =~= s@);
    }
    r
}

/// One character of the slug alphabet: lowercase ASCII letters and digits
/// pass through, anything else becomes a dash.
pub open spec fn spec_slug_char(c: char) -> char {
    if (97 <= (c as u32) <= 122) || (48 <= (c as u32) <= 57) {
        c
    } else {
        '-'
    }
}

fn map_slug_chars(s: &str) -> (r: String)
    ensures
        r@ == s@.map_values(|c: char| spec_slug_char(c)),
{
    let n = s.unicode_len();
    let mut r = String::new();
    let mut i: usize = 0;
    while i < n
        invariant
            n == s@.len(),
            0 <= i <= n,
            r@ == s@.take(i as int).map_values(|c: char| spec_slug_char(c)),
        decreases n - i,
    {
        let c = s.get_char(i);
        let u = c as u32;
        if (97 <= u && u <= 122) || (48 <= u && u <= 57) {
            push_char(&mut r, c);
        } else {
            push_char(&mut r, '-');
        }
        proof {
            assert(s@.take(i + 1).map_values(|c: char| spec_slug_char(c)) =~= s@.take(
                i as int,
            ).map_values(|c: char| spec_slug_char(c)).push(spec_slug_char(s@[i as int])));
        }
        i = i + 1;
    }
    proof {
        assert(s@.take(n as int) =~= s@);
    }
    r
}

/// Squeeze every run of dashes down to a single dash, front first.
pub open spec fn spec_collapse_from(s: Seq<char>, prev_dash: bool) -> Seq<char>
    decreases s.len(),
{
    if s.len() == 0 {
        Seq::empty()
    } else if s[0] == '-' {
        if prev_dash {
            spec_collapse_from(s.drop_first(), true)
        } else {
            seq!['-'] + spec_collapse_from(s.drop_first(), true)
        }
    } else {
        seq![s[0]] + spec_collapse_from(s.drop_first(), false)
    }
}

/// `s` with every run of dashes squeezed to one dash.
pub open spec fn spec_collapse_dashes(s: Seq<char>) -> Seq<char> {
    spec_collapse_from(s, false)
}

/// Squeeze runs of dashes down to a single dash.
pub fn collapse_dashes(s: &str) -> (r: String)
    ensures
        r@ == spec_collapse_dashes(s@),
{
    let n = s.unicode_len();
    let mut r = String::new();
    let mut prev_dash = false;
    let mut i: usize = 0;
    proof {
        assert(s@.skip(0) =~= s@);
    }
    while i < n
        invariant
            n == s@.len(),
            0 <= i <= n,
            spec_collapse_dashes(s@) == r@ + spec_collapse_from(s@.skip(i as int), prev_dash),
        decreases n - i,
    {
        let c = s.get_char(i);
        proof {
            assert(s@.skip(i as int)[0] == s@[i as int]);
            assert(s@.skip(i as int).drop_first() =~= s@.skip(i + 1));
        }
        if c == '-' {
            if !prev_dash {
                push_char(&mut r, '-');
            }
            prev_dash = true;
        } else {
            push_char(&mut r, c);
            prev_dash = false;
        }
        i = i + 1;
    }
    proof {
        assert(s@.skip(n as int).len() == 0);
        assert(r@ + Seq::<char>::empty() =~= r@);
    }
    r
}

/// The slug a display name sanitises to: transliterated to ASCII,
/// lowercased, narrowed to letters, digits and dashes, outer dashes
/// trimmed, dash runs squeezed. May be empty; the caller then invents a
/// fallback name.
pub open spec fn spec_slug(name: Seq<char>) -> Seq<char> {
    let ascii = name.map_values(|c: char| spec_translit_char(c));
    let lower = ascii.map_values(|c: char| spec_ascii_lower_char(c));
    let mapped = lower.map_values(|c: char| spec_slug_char(c));
    spec_collapse_dashes(spec_trim_char(mapped, '-'))
}

/// Sanitise a display name into a slug.
pub fn slug_from_name(name: &str) -> (r: String)
    ensures
        r@ == spec_slug(name@),
{
    let ascii = transliterate(name);
    let lower = ascii_lower(ascii.as_str());
    let mapped = map_slug_chars(lower.as_str());
    let trimmed = trim_char_ends(mapped.as_str(), '-');
    collapse_dashes(trimmed.as_str())
}

/// What `url::Url::parse` yields for the given text: `None` when the text
/// is no URL, otherwise the scheme and, if the URL has one, the host.
pub uninterp spec fn url_parts_of(s: Seq<char>) -> Option<(Seq<char>, Option<Seq<char>>)>;

/// Relies on url::Url::parse, Url::scheme and Url::host_str: parsing is a
/// function of the text alone; the scheme and host are those of the parsed
/// URL.
#[verifier::external_body]
pub fn parse_url_parts(s: &str) -> (r: Option<(String, Option<String>)>)
    ensures
        match r {
            Some(p) => {
                &&& url_parts_of(s@) is Some
                &&& url_parts_of(s@)->Some_0.0 == p.0@
                &&& match p.1 {
                    Some(h) => url_parts_of(s@)->Some_0.1 == Some(h@),
                    None => url_parts_of(s@)->Some_0.1 is None,
                }
            },
            None => url_parts_of(s@) is None,
        },
{
    match url::Url::parse(s) {
        Ok(u) => {
            let scheme = u.scheme().to_string();
            let host = u.host_str().map(|h| h.to_string());
            Some((scheme, host))
        },
        Err(_) => None,
    }
}

/// Why a web-app save request was rejected.
pub enum WebAppError {
    /// The display name is empty after trimming.
    EmptyName,
    /// The URL is empty after trimming.
    EmptyUrl,
    /// The URL does not parse at all.
    InvalidUrl,
    /// The URL parses but has no usable scheme or host.
    BadSchemeOrHost,
    /// The host is neither a domain, localhost, nor an IP address.
    InvalidHost,
}

impl WebAppError {
    /// The user-facing message for this rejection.
    pub fn message(&self) -> (r: String)
        ensures
            match self {
                WebAppError::EmptyName => r@ == "Name cannot be empty"@,
                WebAppError::EmptyUrl => r@ == "URL cannot be empty"@,
                WebAppError::InvalidUrl => r@
                    == "Invalid URL format. Use a full website URL like https://example.com"@,
                WebAppError::BadSchemeOrHost => r@
                    == "Invalid URL format. Use http:// or https:// and a valid domain"@,
                WebAppError::InvalidHost => r@
                    == "Invalid URL host. Use a real domain (example.com), localhost, or an IP address"@,
            },
    {
        match self {
            WebAppError::EmptyName => String::from_str("Name cannot be empty"),
            WebAppError::EmptyUrl => String::from_str("URL cannot be empty"),
            WebAppError::InvalidUrl => String::from_str(
                "Invalid URL format. Use a full website URL like https://example.com",
            ),
            WebAppError::BadSchemeOrHost => String::from_str(
                "Invalid URL format. Use http:// or https:// and a valid domain",
            ),
            WebAppError::InvalidHost => String::from_str(
                "Invalid URL host. Use a real domain (example.com), localhost, or an IP address",
            ),
        }
    }
}

/// The URL a request is normalised to: prefixed with `https://` unless it
/// already starts with `http`.
pub open spec fn spec_normalized_url(url: Seq<char>) -> Seq<char> {
    if url.len() >= 4 && url.subrange(0, 4) == "http"@ {
        url
    } else {
        "https://"@ + url
    }
}

/// Prefix a bare URL with `https://` unless it already names a scheme.
pub fn normalize_url(url: &str) -> (r: String)
    ensures
        r@ == spec_normalized_url(url@),
{
    proof {
        reveal_strlit("http");
        reveal_strlit("https://");
    }
    if starts_with(url, "http") {
        let r = url.to_owned();
        assert(r@ =~= spec_normalized_url(url@));
        r
    } else {
        let mut r = String::from_str("https://");
        r.append(url);
        assert(r@ =~= spec_normalized_url(url@));
        r
    }
}

/// What validation owes for each request: an error exactly when the name
/// or URL is empty after trimming, the normalised URL does not parse, or
/// it lacks a host or an http(s) scheme; otherwise the normalised URL and
/// its host.
pub open spec fn spec_validate(name: Seq<char>, url: Seq<char>) -> Result<
    (Seq<char>, Seq<char>),
    WebAppError,
> {
    if spec_trim(name).len() == 0 {
        Err(WebAppError::EmptyName)
    } else if spec_trim(url).len() == 0 {
        Err(WebAppError::EmptyUrl)
    } else {
        let nu = spec_normalized_url(url);
        match url_parts_of(nu) {
            None => Err(WebAppError::InvalidUrl),
            Some((scheme, host_opt)) => {
                if !(scheme == "http"@ || scheme == "https"@) {
                    Err(WebAppError::BadSchemeOrHost)
                } else {
                    match host_opt {
                        None => Err(WebAppError::BadSchemeOrHost),
                        Some(h) => Ok((nu, h)),
                    }
                }
            },
        }
    }
}

/// Validate a web-app save request down to its normalised URL and host.
/// Whether the host is a plain domain, localhost or an IP is judged
/// afterwards by `host_ok`, with the caller saying whether the host parses
/// as an IP address.
pub fn validate_webapp_request(name: &str, url: &str) -> (r: Result<(String, String), WebAppError>)
    ensures
        match r {
            Ok(p) => spec_validate(name@, url@) == Ok::<(Seq<char>, Seq<char>), WebAppError>(
                (p.0@, p.1@),
            ),
            Err(e) => spec_validate(name@, url@) == Err::<(Seq<char>, Seq<char>), WebAppError>(e),
        },
{
    let tn = trim_spaces(name);
    if tn.unicode_len() == 0 {
        return Err(WebAppError::EmptyName);
    }
    let tu = trim_spaces(url);
    if tu.unicode_len() == 0 {
        return Err(WebAppError::EmptyUrl);
    }
    let nu = normalize_url(url);
    match parse_url_parts(nu.as_str()) {
        None => Err(WebAppError::InvalidUrl),
        Some((scheme, host_opt)) => {
            if !(str_eq(scheme.as_str(), "http") || str_eq(scheme.as_str(), "https")) {
                return Err(WebAppError::BadSchemeOrHost);
            }
            match host_opt {
                None => Err(WebAppError::BadSchemeOrHost),
                Some(h) => Ok((nu, h)),
            }
        },
    }
}

/// A host is acceptable when it contains a dot, is `localhost` in any
/// ASCII case, or parses as an IP address (which the caller has checked).
pub fn host_ok(host: &str, host_is_ip: bool) -> (r: bool)
    ensures
        r == (spec_find_char(host@, 0, '.') < host@.len() || host@.map_values(
            |c: char| spec_ascii_lower_char(c),
        ) == "localhost"@ || host_is_ip),
{
    let n = host.unicode_len();
    let dot = find_char(host, 0, '.');
    if dot < n {
        return true;
    }
    let lowered = ascii_lower(host);
    if str_eq(lowered.as_str(), "localhost") {
        return true;
    }
    host_is_ip
}

/// `p` begins `s`.
pub open spec fn spec_has_prefix(s: Seq<char>, p: Seq<char>) -> bool {
    p.len() <= s.len() && s.take(p.len() as int) == p
}

/// The interface name a link-listing line reports: the text between the
/// first and second colons, trimmed, cut before any `@`, trimmed again.
pub open spec fn spec_iface_of_line(line: Seq<char>) -> Option<Seq<char>> {
    let c1 = spec_find_char(line, 0, ':');
    if c1 >= line.len() {
        None
    } else {
        let c2 = spec_find_char(line, c1 + 1, ':');
        let piece = spec_trim(line.subrange(c1 + 1, c2));
        let a = spec_find_char(piece, 0, '@');
        Some(spec_trim(piece.take(a)))
    }
}

/// Read the interface name out of one link-listing line.
pub fn iface_from_line(line: &str) -> (r: Option<String>)
    ensures
        match r {
            Some(v) => spec_iface_of_line(line@) == Some(v@),
            None => spec_iface_of_line(line@) is None,
        },
{
    let n = line.unicode_len();
    let c1 = find_char(line, 0, ':');
    if c1 >= n {
        return None;
    }
    let c2 = find_char(line, c1 + 1, ':');
    let raw = substring_owned(line, c1 + 1, c2);
    let piece = trim_spaces(raw.as_str());
    let a = find_char(piece.as_str(), 0, '@');
    let head = substring_owned(piece.as_str(), 0, a);
    proof {
        assert(piece@.subrange(0, a as int) =~= piece@.take(a as int));
    }
    Some(trim_spaces(head.as_str()))
}

/// An interface name that looks like a VPN tunnel.
pub open spec fn spec_is_vpn_name(s: Seq<char>) -> bool {
    ||| spec_has_prefix(s, "tun"@)
    ||| spec_has_prefix(s, "tap"@)
    ||| spec_has_prefix(s, "wg"@)
    ||| spec_has_prefix(s, "ppp"@)
    ||| spec_has_prefix(s, "nordlynx"@)
    ||| spec_has_prefix(s, "tailscale0"@)
    ||| spec_has_prefix(s, "mullvad"@)
    ||| spec_has_prefix(s, "proton"@)
    ||| spec_has_prefix(s, "zt"@)
}

/// Does an interface name look like a VPN tunnel?
pub fn is_vpn_iface(name: &str) -> (r: bool)
    ensures
        r == spec_is_vpn_name(name@),
{
    starts_with(name, "tun") || starts_with(name, "tap") || starts_with(name, "wg")
        || starts_with(name, "ppp") || starts_with(name, "nordlynx") || starts_with(
        name,
        "tailscale0",
    ) || starts_with(name, "mullvad") || starts_with(name, "proton") || starts_with(name, "zt")
}

/// The desktop-entry text a saved web app is written as.
pub open spec fn spec_desktop_entry(
    name: Seq<char>,
    url: Seq<char>,
    exec: Seq<char>,
    icon_name: Seq<char>,
    slug: Seq<char>,
) -> Seq<char> {
    "[Desktop Entry]\nVersion=1.0\nType=Application\nName="@ + name + "\nComment=Web app for "@
        + url + "\nExec="@ + exec + "\nIcon="@ + icon_name + "\nStartupWMClass=brave-"@ + slug
        + "\nTerminal=false\nCategories=Network;WebBrowser;\n"@
}

/// Render the desktop-entry text for a saved web app.
pub fn build_desktop_entry(
    name: &str,
    url: &str,
    exec: &str,
    icon_name: &str,
    slug: &str,
) -> (r: String)
    ensures
        r@ == spec_desktop_entry(name@, url@, exec@, icon_name@, slug@),
{
    let mut r = String::from_str("[Desktop Entry]\nVersion=1.0\nType=Application\nName=");
    r.append(name);
    r.append("\nComment=Web app for ");
    r.append(url);
    r.append("\nExec=");
    r.append(exec);
    r.append("\nIcon=");
    r.append(icon_name);
    r.append("\nStartupWMClass=brave-");
    r.append(slug);
    r.append("\nTerminal=false\nCategories=Network;WebBrowser;\n");
    assert(r@ =~= spec_desktop_entry(name@, url@, exec@, icon_name@, slug@));
    r
}

/// The launcher command line a saved web app is given.
pub open spec fn spec_exec_line(
    secure: bool,
    vpn_iface: Seq<char>,
    vpn_required: bool,
    slug: Seq<char>,
    url: Seq<char>,
) -> Seq<char> {
    let base = "launch-webapp"@;
    let with_secure = if secure {
        base + " \"--secure\""@
    } else {
        base
    };
    let with_vpn = if vpn_iface.len() > 0 {
        let v = with_secure + " \"--vpn-interface\" \""@ + vpn_iface + "\""@;
        if vpn_required {
            v + " \"--vpn-required\""@
        } else {
            v
        }
    } else {
        with_secure
    };
    with_vpn + " \"--name\" \""@ + slug + "\" \""@ + url + "\""@
}

/// Build the launcher command line for a saved web app.
pub fn build_exec_line(
    secure: bool,
    vpn_iface: &str,
    vpn_required: bool,
    slug: &str,
    url: &str,
) -> (r: String)
    ensures
        r@ == spec_exec_line(secure, vpn_iface@, vpn_required, slug@, url@),
{
    let mut r = String::from_str("launch-webapp");
    if secure {
        r.append(" \"--secure\"");
    }
    if vpn_iface.unicode_len() > 0 {
        r.append(" \"--vpn-interface\" \"");
        r.append(vpn_iface);
        r.append("\"");
        if vpn_required {
            r.append(" \"--vpn-required\"");
        }
    }
    r.append(" \"--name\" \"");
    r.append(slug);
    r.append("\" \"");
    r.append(url);
    r.append("\"");
    assert(r@ =~= spec_exec_line(secure, vpn_iface@, vpn_required, slug@, url@));
    r
}

} // verus!
