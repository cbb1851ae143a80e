use vstd::prelude::*;

use crate::strmap::StrMap;
use crate::text::{
    append_chars, chars_of, decimal, decimal_chars, find_char, find_in, lemma_find_char, lines,
    lines_of, slice_of, string_of, trim, trim_bounds, views,
};

verus! {

/// What a (trimmed) line of a Sniper configuration file is.
pub enum LineKind {
    /// Empty line or comment.
    Skip,
    /// `[section]`: the section name.
    Section(Seq<char>),
    /// `key = value`: the key (without a trailing `[]`) and the value (without a trailing comment).
    Entry(Seq<char>, Seq<char>),
    /// Anything else.
    Invalid,
}

/// `key` without a trailing `[]` (the marker of an array key).
pub open spec fn base_key(key: Seq<char>) -> Seq<char> {
    if key.len() >= 2 && key[key.len() - 2] == '[' && key[key.len() - 1] == ']' {
        key.take(key.len() - 2)
    } else {
        key
    }
}

/// `value` up to an inline `#` comment, trimmed.
pub open spec fn strip_comment(value: Seq<char>) -> Seq<char> {
    match find_char(value, '#') {
        Some(c) => trim(value.take(c as int)),
        None => value,
    }
}

/// How the parser reads the trimmed line `t`.
pub open spec fn classify(t: Seq<char>) -> LineKind {
    if t.len() == 0 || t[0] == '#' {
        LineKind::Skip
    } else if t[0] == '[' && find_char(t, ']') is Some {
        LineKind::Section(t.subrange(1, find_char(t, ']').unwrap() as int))
    } else {
        match find_char(t, '=') {
            Some(e) => LineKind::Entry(
                base_key(trim(t.take(e as int))),
                strip_comment(trim(t.skip(e + 1 as int))),
            ),
            None => LineKind::Invalid,
        }
    }
}

/// The key under which an entry of `section` is stored: `section/key`, or `key` outside
/// any section.
pub open spec fn full_key(section: Seq<char>, key: Seq<char>) -> Seq<char> {
    if section.len() == 0 {
        key
    } else {
        section + seq!['/'] + key
    }
}

/// Reads `lines` (the first of which is line number `n + 1`) into `m`, starting in
/// `section`. Gives the resulting map and, when a line is invalid, its index; the lines
/// after an invalid one are not read, and what came before it stays in the map.
pub open spec fn parse_from(
    lines: Seq<Seq<char>>,
    n: nat,
    m: Map<Seq<char>, Seq<char>>,
    section: Seq<char>,
) -> (Map<Seq<char>, Seq<char>>, Option<nat>)
    decreases lines.len(),
{
    if lines.len() == 0 {
        (m, None)
    } else {
        match classify(trim(lines[0])) {
            LineKind::Skip => parse_from(lines.drop_first(), n + 1, m, section),
            LineKind::Section(s) => parse_from(lines.drop_first(), n + 1, m, s),
            LineKind::Entry(k, v) => parse_from(
                lines.drop_first(),
                n + 1,
                m.insert(full_key(section, k), v),
                section,
            ),
            LineKind::Invalid => (m, Some(n)),
        }
    }
}

/// The outcome of reading `text` into `m`.
pub open spec fn parse_config(text: Seq<char>, m: Map<Seq<char>, Seq<char>>) -> (
    Map<Seq<char>, Seq<char>>,
    Option<nat>,
) {
    parse_from(lines(text), 0, m, Seq::empty())
}

/// A line that is neither empty, a comment, a section header nor a `key = value` pair.
#[derive(Debug)]
pub struct SniperConfigError {
    /// The line number, counted from 1.
    pub line: usize,
    /// The line, trimmed.
    pub text: String,
}

impl SniperConfigError {
    /// `Invalid syntax on line <line>: <text>`.
    pub fn message(&self) -> (s: String)
        ensures
            s@ == "Invalid syntax on line "@ + decimal(self.line as nat) + ": "@ + self.text@,
    {
        let mut v = chars_of("Invalid syntax on line ");
        let n = decimal_chars(self.line);
        append_chars(&mut v, &n);
        let sep = chars_of(": ");
        append_chars(&mut v, &sep);
        let t = chars_of(self.text.as_str());
        append_chars(&mut v, &t);
        string_of(&v)
    }
}

/// The settings of a Sniper configuration: full keys (`section/key`) to values.
#[derive(Debug)]
pub struct SniperConfig {
    pub map: StrMap,
}

impl View for SniperConfig {
    type V = Map<Seq<char>, Seq<char>>;

    open spec fn view(&self) -> Map<Seq<char>, Seq<char>> {
        self.map@
    }
}

impl SniperConfig {
    /// A configuration without settings.
    pub fn new() -> (c: Self)
        ensures
            c@ == Map::<Seq<char>, Seq<char>>::empty(),
    {
        SniperConfig { map: StrMap::new() }
    }

    /// Sets `full_key` to `value`, over any earlier value.
    pub fn set_override(&mut self, full_key: &str, value: &str)
        ensures
            final(self)@ == old(self)@.insert(full_key@, value@),
    {
        self.map.insert(full_key.to_owned(), value.to_owned());
    }

    /// Reads the settings in `text` (an INI-like Sniper `.cfg` file) into this configuration.
    /// Settings read before an invalid line are kept; the error names that line.
    pub fn parse_text(&mut self, text: &str) -> (r: Result<(), SniperConfigError>)
        ensures
            final(self)@ == parse_config(text@, old(self)@).0,
            match r {
                Ok(_) => parse_config(text@, old(self)@).1 is None,
                Err(e) => e.line >= 1 && parse_config(text@, old(self)@).1 == Some((e.line - 1) as nat)
                    && e.text@ == trim(lines(text@)[e.line - 1]),
            },
    {
        let chars = chars_of(text);
        let ls = lines_of(&chars);
        let ghost lv = lines(text@);
        let ghost m0 = self@;
        let mut section: Vec<char> = Vec::new();
        let mut i: usize = 0;
        assert(lv.skip(0) == lv);
        while i < ls.len()
            invariant
                views(ls@) == lv,
                lv == lines(text@),
                m0 == old(self)@,
                i <= ls.len(),
                parse_config(text@, m0) == parse_from(lv.skip(i as int), i as nat, self@, section@),
            decreases ls.len() - i,
        {
            let line = &ls[i];
            assert(line@ == lv[i as int]);
            let ghost rest = lv.skip(i as int);
            assert(rest[0] == lv[i as int]);
            assert(rest.drop_first() == lv.skip(i + 1));
            let (lo, hi) = trim_bounds(line, 0, line.len());
            assert(line@.subrange(0, line.len() as int) == line@);
            let t = slice_of(line, lo, hi);
            let ghost tv = t@;
            assert(tv == trim(lv[i as int]));
            if t.len() == 0 || t[0] == '#' {
                // comment or empty line
            } else {
                let close = if t[0] == '[' {
                    find_in(&t, 0, t.len(), ']')
                } else {
                    None
                };
                assert(t@.subrange(0, t.len() as int) == t@);
                if let Some(end) = close {
                    proof {
                        lemma_find_char(tv, ']');
                    }
                    section = slice_of(&t, 1, end);
                } else {
                    proof {
                        if t[0] == '[' {
                            assert(find_char(tv, ']') is None);
                        }
                    }
                    match find_in(&t, 0, t.len(), '=') {
                        Some(eq) => {
                            let (klo, khi) = trim_bounds(&t, 0, eq);
                            let key_full = slice_of(&t, klo, khi);
                            assert(key_full@ == trim(tv.take(eq as int)));
                            let (vlo, vhi) = trim_bounds(&t, eq + 1, t.len());
                            let vpart = slice_of(&t, vlo, vhi);
                            assert(vpart@ == trim(tv.skip(eq + 1)));
                            let value = match find_in(&vpart, 0, vpart.len(), '#') {
                                Some(c) => {
                                    let (clo, chi) = trim_bounds(&vpart, 0, c);
                                    assert(vpart@.subrange(0, vpart.len() as int) == vpart@);
                                    slice_of(&vpart, clo, chi)
                                },
                                None => {
                                    assert(vpart@.subrange(0, vpart.len() as int) == vpart@);
                                    vpart
                                },
                            };
                            assert(value@ == strip_comment(trim(tv.skip(eq + 1))));
                            let kl = key_full.len();
                            let key = if kl >= 2 && key_full[kl - 2] == '[' && key_full[kl - 1] == ']' {
                                slice_of(&key_full, 0, kl - 2)
                            } else {
                                key_full
                            };
                            assert(key@ == base_key(trim(tv.take(eq as int))));
                            let mut full: Vec<char> = Vec::new();
                            if section.len() > 0 {
                                append_chars(&mut full, &section);
                                full.push('/');
                            }
                            append_chars(&mut full, &key);
                            assert(full@ == full_key(section@, key@));
                            self.map.insert(string_of(&full), string_of(&value));
                        },
                        None => {
                            let e = SniperConfigError { line: i + 1, text: string_of(&t) };
                            return Err(e);
                        },
                    }
                }
            }
            i += 1;
        }
        assert(lv.skip(i as int).len() == 0);
        Ok(())
    }
}

/// The section that reading `lines` ends in, starting in `section`: that of the last
/// section header among them, else `section`.
pub open spec fn section_after(lines: Seq<Seq<char>>, section: Seq<char>) -> Seq<char>
    decreases lines.len(),
{
    if lines.len() == 0 {
        section
    } else {
        match classify(trim(lines[0])) {
            LineKind::Section(s) => section_after(lines.drop_first(), s),
            _ => section_after(lines.drop_first(), section),
        }
    }
}

/// Reading lines into a configuration `m` gives `m` overridden by what the lines set on
/// their own: every key the lines set takes the lines' value, every other key keeps its
/// value in `m`; whether and where an invalid line stops the reading does not depend on `m`.
pub proof fn law_read_overrides(lines: Seq<Seq<char>>, n: nat, m: Map<Seq<char>, Seq<char>>, section: Seq<char>)
    ensures
        parse_from(lines, n, m, section).0 == m.union_prefer_right(parse_from(lines, n, Map::empty(), section).0),
        parse_from(lines, n, m, section).1 == parse_from(lines, n, Map::empty(), section).1,
    decreases lines.len(),
{
    if lines.len() > 0 {
        let rest = lines.drop_first();
        match classify(trim(lines[0])) {
            LineKind::Skip => {
                law_read_overrides(rest, n + 1, m, section);
                law_read_overrides(rest, n + 1, Map::empty(), section);
            },
            LineKind::Section(s) => {
                law_read_overrides(rest, n + 1, m, s);
                law_read_overrides(rest, n + 1, Map::empty(), s);
            },
            LineKind::Entry(k, v) => {
                let fk = full_key(section, k);
                let e = Map::<Seq<char>, Seq<char>>::empty();
                law_read_overrides(rest, n + 1, m.insert(fk, v), section);
                law_read_overrides(rest, n + 1, e.insert(fk, v), section);
                law_read_overrides(rest, n + 1, e, section);
                let tail = parse_from(rest, n + 1, e, section).0;
                assert(m.insert(fk, v).union_prefer_right(tail) =~= m.union_prefer_right(
                    e.insert(fk, v).union_prefer_right(tail),
                ));
            },
            LineKind::Invalid => {
                assert(m.union_prefer_right(Map::empty()) =~= m);
            },
        }
    } else {
        assert(m.union_prefer_right(Map::empty()) =~= m);
    }
}

/// Reading lines `a` and then lines `b` is reading `a + b`: when no line of `a` is invalid,
/// the lines of `b` are read into what `a` gave, in the section `a` ended in.
pub proof fn law_read_in_sequence(
    a: Seq<Seq<char>>,
    b: Seq<Seq<char>>,
    n: nat,
    m: Map<Seq<char>, Seq<char>>,
    section: Seq<char>,
)
    requires
        parse_from(a, n, m, section).1 is None,
    ensures
        parse_from(a + b, n, m, section) == parse_from(
            b,
            n + a.len(),
            parse_from(a, n, m, section).0,
            section_after(a, section),
        ),
    decreases a.len(),
{
    if a.len() == 0 {
        assert(a + b =~= b);
    } else {
        assert((a + b).drop_first() =~= a.drop_first() + b);
        assert((a + b)[0] == a[0]);
        match classify(trim(a[0])) {
            LineKind::Skip => law_read_in_sequence(a.drop_first(), b, n + 1, m, section),
            LineKind::Section(s) => law_read_in_sequence(a.drop_first(), b, n + 1, m, s),
            LineKind::Entry(k, v) => law_read_in_sequence(
                a.drop_first(),
                b,
                n + 1,
                m.insert(full_key(section, k), v),
                section,
            ),
            LineKind::Invalid => {},
        }
    }
}

/// A later setting wins: reading lines `a` then lines `b` (no line of `a` invalid) gives
/// what `a` set, overridden by every key that `b` sets, with `b`'s value.
pub proof fn law_later_lines_override(
    a: Seq<Seq<char>>,
    b: Seq<Seq<char>>,
    n: nat,
    m: Map<Seq<char>, Seq<char>>,
    section: Seq<char>,
)
    requires
        parse_from(a, n, m, section).1 is None,
    ensures
        parse_from(a + b, n, m, section).0 == parse_from(a, n, m, section).0.union_prefer_right(
            parse_from(b, n + a.len(), Map::empty(), section_after(a, section)).0,
        ),
{
    law_read_in_sequence(a, b, n, m, section);
    law_read_overrides(b, n + a.len(), parse_from(a, n, m, section).0, section_after(a, section));
}

/// Reading a configuration text into `m` (`parse_text`) gives `m` overridden by the
/// settings of the text alone, so of two texts read in turn the later one's settings win.
pub proof fn law_text_overrides(text: Seq<char>, m: Map<Seq<char>, Seq<char>>)
    ensures
        parse_config(text, m).0 == m.union_prefer_right(parse_config(text, Map::empty()).0),
        parse_config(text, m).1 == parse_config(text, Map::empty()).1,
{
    law_read_overrides(lines(text), 0, m, Seq::empty());
}

} // verus!
