//! The configuration store's text form.
//!
//! A record is persisted as two lines of TOML:
//!
//! ```text
//! repo_url = "<url>"
//! dotfiles = ["<name>", "<name>"]
//! ```
//!
//! Strings are written as basic strings: `"` and `\` are escaped with a
//! backslash, and control characters are written as `\u00XX`. The parser
//! accepts exactly the text the encoder produces, and reading back what was
//! written yields the original record (`lemma_store_round_trip`).

use crate::config::{Config, ConfigError, ConfigView};
use crate::text::{push_chars, str_chars, string_from_chars};
use vstd::prelude::*;

verus! {

/// Whether a character must be written as a `\u00XX` escape: the control
/// characters, which a basic string may not hold raw.
pub open spec fn is_ctl(c: char) -> bool {
    (c as u32) < 0x20 || (c as u32) == 0x7f
}

/// The lower-case hex digit for a value below 16.
pub open spec fn hex_digit(n: int) -> char {
    if n == 0 {
        '0'
    } else if n == 1 {
        '1'
    } else if n == 2 {
        '2'
    } else if n == 3 {
        '3'
    } else if n == 4 {
        '4'
    } else if n == 5 {
        '5'
    } else if n == 6 {
        '6'
    } else if n == 7 {
        '7'
    } else if n == 8 {
        '8'
    } else if n == 9 {
        '9'
    } else if n == 10 {
        'a'
    } else if n == 11 {
        'b'
    } else if n == 12 {
        'c'
    } else if n == 13 {
        'd'
    } else if n == 14 {
        'e'
    } else {
        'f'
    }
}

/// Whether a character is a lower-case hex digit.
pub open spec fn is_hex(c: char) -> bool {
    (('0' as u32) <= (c as u32) && (c as u32) <= ('9' as u32)) || (('a' as u32) <= (c as u32) && (c
        as u32) <= ('f' as u32))
}

/// The value of a lower-case hex digit.
pub open spec fn hex_val(c: char) -> int {
    if ('0' as u32) <= (c as u32) && (c as u32) <= ('9' as u32) {
        (c as u32) - ('0' as u32)
    } else {
        (c as u32) - ('a' as u32) + 10
    }
}

/// How one character is written inside a quoted string.
pub open spec fn esc_char(c: char) -> Seq<char> {
    if c == '"' {
        seq!['\\', '"']
    } else if c == '\\' {
        seq!['\\', '\\']
    } else if is_ctl(c) {
        seq!['\\', 'u', '0', '0', hex_digit((c as u32) as int / 16), hex_digit((c as u32) as int % 16)]
    } else {
        seq![c]
    }
}

/// How a whole string is written inside its quotes.
pub open spec fn escape(t: Seq<char>) -> Seq<char>
    decreases t.len(),
{
    if t.len() == 0 {
        Seq::empty()
    } else {
        esc_char(t[0]) + escape(t.skip(1))
    }
}

/// A string with its quotes.
pub open spec fn quoted(t: Seq<char>) -> Seq<char> {
    seq!['"'] + escape(t) + seq!['"']
}

/// The second and later list items, each preceded by a separator.
pub open spec fn encode_more_items(ds: Seq<Seq<char>>) -> Seq<char>
    decreases ds.len(),
{
    if ds.len() == 0 {
        Seq::empty()
    } else {
        seq![',', ' '] + quoted(ds[0]) + encode_more_items(ds.skip(1))
    }
}

/// The list items between the brackets.
pub open spec fn encode_items(ds: Seq<Seq<char>>) -> Seq<char> {
    if ds.len() == 0 {
        Seq::empty()
    } else {
        quoted(ds[0]) + encode_more_items(ds.skip(1))
    }
}

/// The text before the opening quote of the URL.
pub open spec fn lit_url() -> Seq<char> {
    seq!['r', 'e', 'p', 'o', '_', 'u', 'r', 'l', ' ', '=', ' ']
}

/// The text between the URL's closing quote and the list's opening bracket.
pub open spec fn lit_dotfiles() -> Seq<char> {
    seq!['\n', 'd', 'o', 't', 'f', 'i', 'l', 'e', 's', ' ', '=', ' ', '[']
}

/// The full text the store writes for a record.
pub open spec fn encode_config_text(c: ConfigView) -> Seq<char> {
    lit_url() + quoted(c.repo_url) + lit_dotfiles() + encode_items(c.dotfiles) + seq![']', '\n']
}

/// Reads a quoted string from after its opening quote: the decoded string
/// and the text after the closing quote, or `None` where no well-formed
/// quoted string starts here.
pub open spec fn parse_string_rest(s: Seq<char>) -> Option<(Seq<char>, Seq<char>)>
    decreases s.len(),
{
    if s.len() == 0 {
        None
    } else if s[0] == '"' {
        Some((Seq::empty(), s.skip(1)))
    } else if s[0] == '\\' {
        if s.len() >= 2 && (s[1] == '"' || s[1] == '\\') {
            match parse_string_rest(s.skip(2)) {
                None => None,
                Some((w, r)) => Some((seq![s[1]] + w, r)),
            }
        } else if s.len() >= 6 && s[1] == 'u' && s[2] == '0' && s[3] == '0' && is_hex(s[4])
            && is_hex(s[5]) && is_ctl(((hex_val(s[4]) * 16 + hex_val(s[5])) as u32) as char) {
            match parse_string_rest(s.skip(6)) {
                None => None,
                Some((w, r)) => Some(
                    (seq![((hex_val(s[4]) * 16 + hex_val(s[5])) as u32) as char] + w, r),
                ),
            }
        } else {
            None
        }
    } else if is_ctl(s[0]) {
        None
    } else {
        match parse_string_rest(s.skip(1)) {
            None => None,
            Some((w, r)) => Some((seq![s[0]] + w, r)),
        }
    }
}

/// Reads the list items after the first one: each is `, ` and a quoted
/// string, until the closing bracket.
pub open spec fn parse_more_items(s: Seq<char>) -> Option<(Seq<Seq<char>>, Seq<char>)>
    decreases s.len(),
{
    if s.len() == 0 {
        None
    } else if s[0] == ']' {
        Some((Seq::empty(), s.skip(1)))
    } else if s.len() >= 3 && s[0] == ',' && s[1] == ' ' && s[2] == '"' {
        match parse_string_rest(s.skip(3)) {
            None => None,
            Some((d, r)) => if r.len() < s.len() {
                match parse_more_items(r) {
                    None => None,
                    Some((ds, r2)) => Some((seq![d] + ds, r2)),
                }
            } else {
                None
            },
        }
    } else {
        None
    }
}

/// Reads the whole list from after its opening bracket.
pub open spec fn parse_items(s: Seq<char>) -> Option<(Seq<Seq<char>>, Seq<char>)> {
    if s.len() == 0 {
        None
    } else if s[0] == ']' {
        Some((Seq::empty(), s.skip(1)))
    } else if s[0] == '"' {
        match parse_string_rest(s.skip(1)) {
            None => None,
            Some((d, r)) => match parse_more_items(r) {
                None => None,
                Some((ds, r2)) => Some((seq![d] + ds, r2)),
            },
        }
    } else {
        None
    }
}

/// Reads a whole record from the store's text, or `None` where the text
/// does not fit the schema.
pub open spec fn parse_config_text(s: Seq<char>) -> Option<ConfigView> {
    if s.len() >= 12 && lit_url().is_prefix_of(s) && s[11] == '"' {
        match parse_string_rest(s.skip(12)) {
            None => None,
            Some((url, r)) => if lit_dotfiles().is_prefix_of(r) {
                match parse_items(r.skip(13)) {
                    None => None,
                    Some((ds, r2)) => if r2 == seq!['\n'] {
                        Some(ConfigView { repo_url: url, dotfiles: ds })
                    } else {
                        None
                    },
                }
            } else {
                None
            },
        }
    } else {
        None
    }
}

/// Reading a quoted string always consumes at least its closing quote:
/// what remains afterwards is strictly shorter than what was given.
proof fn lemma_parse_string_rest_shrinks(s: Seq<char>)
    ensures
        parse_string_rest(s) matches Some((w, r)) ==> r.len() < s.len(),
    decreases s.len(),
{
    if s.len() == 0 {
    } else if s[0] == '"' {
    } else if s[0] == '\\' {
        if s.len() >= 2 && (s[1] == '"' || s[1] == '\\') {
            lemma_parse_string_rest_shrinks(s.skip(2));
        } else if s.len() >= 6 {
            lemma_parse_string_rest_shrinks(s.skip(6));
        }
    } else {
        lemma_parse_string_rest_shrinks(s.skip(1));
    }
}

/// A hex digit written by the encoder reads back as its own value.
proof fn lemma_hex_round_trip(n: int)
    requires
        0 <= n < 16,
    ensures
        is_hex(hex_digit(n)),
        hex_val(hex_digit(n)) == n,
{
}

/// Parsing an escaped string finds the original string: whatever follows
/// the closing quote is left untouched.
proof fn lemma_escape_parses(t: Seq<char>, rest: Seq<char>)
    ensures
        parse_string_rest(escape(t) + seq!['"'] + rest) == Some((t, rest)),
    decreases t.len(),
{
    let s = escape(t) + seq!['"'] + rest;
    if t.len() == 0 {
        assert(s =~= seq!['"'] + rest);
        assert(s.skip(1) =~= rest);
    } else {
        let c = t[0];
        let e = esc_char(c);
        let s2 = escape(t.skip(1)) + seq!['"'] + rest;
        assert(s =~= e + s2);
        lemma_escape_parses(t.skip(1), rest);
        if c == '"' || c == '\\' {
            assert(s[0] == '\\' && s[1] == c);
            assert(s.skip(2) =~= s2);
            assert(seq![c] + t.skip(1) =~= t);
        } else if is_ctl(c) {
            let n = c as u32;
            lemma_hex_round_trip(n as int / 16);
            lemma_hex_round_trip(n as int % 16);
            assert(s[0] == '\\' && s[1] == 'u' && s[2] == '0' && s[3] == '0');
            assert(s[4] == hex_digit(n as int / 16) && s[5] == hex_digit(n as int % 16));
            assert(hex_val(s[4]) * 16 + hex_val(s[5]) == n as int);
            vstd::utf8::char_u32_cast(c, n);
            assert(((hex_val(s[4]) * 16 + hex_val(s[5])) as u32) as char == c);
            assert(s.skip(6) =~= s2);
            assert(seq![c] + t.skip(1) =~= t);
        } else {
            assert(s[0] == c);
            assert(s.skip(1) =~= s2);
            assert(seq![c] + t.skip(1) =~= t);
        }
    }
}

/// Parsing the encoded tail of a list finds the remaining items.
proof fn lemma_more_items_parse(ds: Seq<Seq<char>>, rest: Seq<char>)
    ensures
        parse_more_items(encode_more_items(ds) + seq![']'] + rest) == Some((ds, rest)),
    decreases ds.len(),
{
    let s = encode_more_items(ds) + seq![']'] + rest;
    if ds.len() == 0 {
        assert(s =~= seq![']'] + rest);
        assert(s.skip(1) =~= rest);
    } else {
        let tail = encode_more_items(ds.skip(1)) + seq![']'] + rest;
        assert(s =~= seq![',', ' '] + quoted(ds[0]) + tail);
        assert(s[0] == ',' && s[1] == ' ' && s[2] == '"');
        assert(s.skip(3) =~= escape(ds[0]) + seq!['"'] + tail);
        lemma_escape_parses(ds[0], tail);
        assert(parse_string_rest(s.skip(3)) == Some((ds[0], tail)));
        assert(tail.len() < s.len());
        lemma_more_items_parse(ds.skip(1), rest);
        assert(seq![ds[0]] + ds.skip(1) =~= ds);
    }
}

/// Parsing an encoded list finds the items.
proof fn lemma_items_parse(ds: Seq<Seq<char>>, rest: Seq<char>)
    ensures
        parse_items(encode_items(ds) + seq![']'] + rest) == Some((ds, rest)),
{
    let s = encode_items(ds) + seq![']'] + rest;
    if ds.len() == 0 {
        assert(s =~= seq![']'] + rest);
        assert(s.skip(1) =~= rest);
    } else {
        let tail = encode_more_items(ds.skip(1)) + seq![']'] + rest;
        assert(s =~= seq!['"'] + (escape(ds[0]) + seq!['"'] + tail));
        assert(s[0] == '"');
        assert(s.skip(1) =~= escape(ds[0]) + seq!['"'] + tail);
        lemma_escape_parses(ds[0], tail);
        lemma_more_items_parse(ds.skip(1), rest);
        assert(seq![ds[0]] + ds.skip(1) =~= ds);
    }
}

/// Law: the store's text round-trips. Parsing the text the encoder writes
/// for any record yields exactly that record — so reading a config file
/// back after writing it reproduces the record that was written.
pub proof fn lemma_store_round_trip(c: ConfigView)
    ensures
        parse_config_text(encode_config_text(c)) == Some(c),
{
    let s = encode_config_text(c);
    let r1 = lit_dotfiles() + encode_items(c.dotfiles) + seq![']', '\n'];
    assert(s.len() >= 12);
    assert(lit_url() =~= s.subrange(0, 11));
    assert(lit_url().is_prefix_of(s));
    assert(s[11] == '"');
    assert(s.skip(12) =~= escape(c.repo_url) + seq!['"'] + r1);
    lemma_escape_parses(c.repo_url, r1);
    assert(parse_string_rest(s.skip(12)) == Some((c.repo_url, r1)));
    assert(lit_dotfiles() =~= r1.subrange(0, 13));
    assert(lit_dotfiles().is_prefix_of(r1));
    assert(r1.skip(13) =~= encode_items(c.dotfiles) + seq![']'] + seq!['\n']);
    lemma_items_parse(c.dotfiles, seq!['\n']);
    assert(parse_items(r1.skip(13)) == Some((c.dotfiles, seq!['\n'])));
    assert(parse_config_text(s) == Some(ConfigView { repo_url: c.repo_url, dotfiles: c.dotfiles }));
    assert(ConfigView { repo_url: c.repo_url, dotfiles: c.dotfiles } == c);
}

/// The lower-case hex digit for a value below 16, executable.
fn hex_digit_char(n: u8) -> (c: char)
    requires
        n < 16,
    ensures
        c == hex_digit(n as int),
{
    if n == 0 {
        '0'
    } else if n == 1 {
        '1'
    } else if n == 2 {
        '2'
    } else if n == 3 {
        '3'
    } else if n == 4 {
        '4'
    } else if n == 5 {
        '5'
    } else if n == 6 {
        '6'
    } else if n == 7 {
        '7'
    } else if n == 8 {
        '8'
    } else if n == 9 {
        '9'
    } else if n == 10 {
        'a'
    } else if n == 11 {
        'b'
    } else if n == 12 {
        'c'
    } else if n == 13 {
        'd'
    } else if n == 14 {
        'e'
    } else {
        'f'
    }
}

/// Whether a character is a lower-case hex digit, executable.
fn is_hex_char(c: char) -> (r: bool)
    ensures
        r == is_hex(c),
{
    let n = c as u32;
    (('0' as u32) <= n && n <= ('9' as u32)) || (('a' as u32) <= n && n <= ('f' as u32))
}

/// The value of a lower-case hex digit, executable.
fn hex_val_char(c: char) -> (r: u8)
    requires
        is_hex(c),
    ensures
        r as int == hex_val(c),
        r < 16,
{
    let n = c as u32;
    if n <= ('9' as u32) {
        (n - ('0' as u32)) as u8
    } else {
        (n - ('a' as u32) + 10) as u8
    }
}

/// Appends a string in its escaped form.
fn push_escaped(out: &mut Vec<char>, t: &Vec<char>)
    ensures
        final(out)@ == old(out)@ + escape(t@),
{
    let mut i: usize = 0;
    proof {
        assert(t@.skip(0) =~= t@);
        assert(out@ + escape(t@) =~= old(out)@ + escape(t@));
    }
    while i < t.len()
        invariant
            i <= t.len(),
            old(out)@ + escape(t@) == out@ + escape(t@.skip(i as int)),
        decreases t.len() - i,
    {
        let ghost pre = out@;
        let c = t[i];
        proof {
            assert(t@.skip(i as int)[0] == t@[i as int]);
            assert(t@.skip(i as int).skip(1) =~= t@.skip(i + 1));
        }
        let n = c as u32;
        if c == '"' {
            out.push('\\');
            out.push('"');
        } else if c == '\\' {
            out.push('\\');
            out.push('\\');
        } else if n < 0x20 || n == 0x7f {
            out.push('\\');
            out.push('u');
            out.push('0');
            out.push('0');
            out.push(hex_digit_char((n / 16) as u8));
            out.push(hex_digit_char((n % 16) as u8));
        } else {
            out.push(c);
        }
        proof {
            assert(out@ =~= pre + esc_char(t@[i as int]));
            assert(pre + escape(t@.skip(i as int)) =~= out@ + escape(t@.skip(i + 1)));
        }
        i = i + 1;
    }
    proof {
        assert(t@.skip(t@.len() as int) =~= Seq::<char>::empty());
        assert(out@ + Seq::<char>::empty() =~= out@);
    }
}

/// Writes a record as the store's text. The output is fully determined by
/// the record: nothing of any earlier state can appear in it.
pub fn encode_config(c: &Config) -> (s: String)
    ensures
        s@ == encode_config_text(c@),
{
    let mut out: Vec<char> = Vec::new();
    let lit1 = str_chars("repo_url = ");
    proof {
        reveal_strlit("repo_url = ");
        assert(lit1@ =~= lit_url());
    }
    push_chars(&mut out, &lit1);
    out.push('"');
    let url = str_chars(c.repo_url.as_str());
    push_escaped(&mut out, &url);
    out.push('"');
    let lit2 = str_chars("\ndotfiles = [");
    proof {
        reveal_strlit("\ndotfiles = [");
        assert(lit2@ =~= lit_dotfiles());
    }
    push_chars(&mut out, &lit2);
    let ghost base = out@;
    let ghost ds = c@.dotfiles;
    let mut i: usize = 0;
    while i < c.dotfiles.len()
        invariant
            i <= c.dotfiles.len(),
            ds == c@.dotfiles,
            ds.len() == c.dotfiles.len(),
            i == 0 ==> out@ == base,
            i > 0 ==> base + encode_items(ds) == out@ + encode_more_items(ds.skip(i as int)),
        decreases c.dotfiles.len() - i,
    {
        let ghost pre = out@;
        let t = str_chars(c.dotfiles[i].as_str());
        proof {
            assert(t@ == ds[i as int]);
        }
        if i == 0 {
            out.push('"');
            push_escaped(&mut out, &t);
            out.push('"');
            proof {
                assert(out@ =~= base + quoted(ds[0]));
                assert(base + encode_items(ds) =~= out@ + encode_more_items(ds.skip(1)));
            }
        } else {
            out.push(',');
            out.push(' ');
            out.push('"');
            push_escaped(&mut out, &t);
            out.push('"');
            proof {
                assert(ds.skip(i as int)[0] == ds[i as int]);
                assert(ds.skip(i as int).skip(1) =~= ds.skip(i + 1));
                assert(out@ =~= pre + seq![',', ' '] + quoted(ds[i as int]));
                assert(pre + encode_more_items(ds.skip(i as int)) =~= out@ + encode_more_items(
                    ds.skip(i + 1),
                ));
            }
        }
        i = i + 1;
    }
    proof {
        if ds.len() > 0 {
            assert(ds.skip(ds.len() as int) =~= Seq::<Seq<char>>::empty());
            assert(out@ + Seq::<char>::empty() =~= out@);
        }
        assert(out@ =~= base + encode_items(ds));
    }
    out.push(']');
    out.push('\n');
    proof {
        assert(out@ =~= encode_config_text(c@));
    }
    string_from_chars(&out)
}

/// A parse result with characters already decoded put back in front.
spec fn prepend_parsed(a: Seq<char>, r: Option<(Seq<char>, Seq<char>)>) -> Option<
    (Seq<char>, Seq<char>),
> {
    match r {
        None => None,
        Some((w, rem)) => Some((a + w, rem)),
    }
}

/// Reads a quoted string starting after its opening quote at `start`:
/// the decoded string and the position after the closing quote.
fn take_string_rest(v: &Vec<char>, start: usize) -> (r: Option<(Vec<char>, usize)>)
    requires
        start <= v@.len(),
    ensures
        (r is None) == (parse_string_rest(v@.skip(start as int)) is None),
        r matches Some((w, p)) ==> {
            &&& start <= p <= v@.len()
            &&& parse_string_rest(v@.skip(start as int)) == Some((w@, v@.skip(p as int)))
        },
{
    let mut acc: Vec<char> = Vec::new();
    let mut i: usize = start;
    proof {
        assert(acc@ + Seq::<char>::empty() =~= Seq::<char>::empty());
    }
    while i < v.len()
        invariant
            start <= i <= v@.len(),
            prepend_parsed(acc@, parse_string_rest(v@.skip(i as int))) == parse_string_rest(
                v@.skip(start as int),
            ),
        decreases v@.len() - i,
    {
        let ghost s = v@.skip(i as int);
        let ghost pre = acc@;
        let c = v[i];
        proof {
            assert(s[0] == v@[i as int]);
            assert(s.skip(1) =~= v@.skip(i + 1));
        }
        if c == '"' {
            proof {
                assert(pre + Seq::<char>::empty() =~= pre);
            }
            return Some((acc, i + 1));
        } else if c == '\\' {
            if v.len() - i > 1 && (v[i + 1] == '"' || v[i + 1] == '\\') {
                let d = v[i + 1];
                acc.push(d);
                proof {
                    assert(s.skip(2) =~= v@.skip(i + 2));
                    match parse_string_rest(v@.skip(i + 2)) {
                        Some((w, rem)) => {
                            assert(pre + (seq![d] + w) =~= pre.push(d) + w);
                        },
                        None => {},
                    }
                }
                i = i + 2;
            } else if v.len() - i > 5 && v[i + 1] == 'u' && v[i + 2] == '0' && v[i + 3] == '0'
                && is_hex_char(v[i + 4]) && is_hex_char(v[i + 5]) {
                let code: u8 = hex_val_char(v[i + 4]) * 16 + hex_val_char(v[i + 5]);
                let d = code as char;
                proof {
                    vstd::utf8::char_u32_cast(d, code as u32);
                    assert(((hex_val(s[4]) * 16 + hex_val(s[5])) as u32) as char == d);
                }
                if (code as u32) < 0x20 || (code as u32) == 0x7f {
                    acc.push(d);
                    proof {
                        assert(s.skip(6) =~= v@.skip(i + 6));
                        match parse_string_rest(v@.skip(i + 6)) {
                            Some((w, rem)) => {
                                assert(pre + (seq![d] + w) =~= pre.push(d) + w);
                            },
                            None => {},
                        }
                    }
                    i = i + 6;
                } else {
                    return None;
                }
            } else {
                return None;
            }
        } else {
            let n = c as u32;
            if n < 0x20 || n == 0x7f {
                return None;
            }
            acc.push(c);
            proof {
                match parse_string_rest(v@.skip(i + 1)) {
                    Some((w, rem)) => {
                        assert(pre + (seq![c] + w) =~= pre.push(c) + w);
                    },
                    None => {},
                }
            }
            i = i + 1;
        }
    }
    proof {
        assert(v@.skip(v@.len() as int) =~= Seq::<char>::empty());
    }
    None
}

/// Whether the characters at `start` begin with the given text.
fn has_prefix_at(v: &Vec<char>, start: usize, pat: &Vec<char>) -> (r: bool)
    requires
        start <= v@.len(),
    ensures
        r == pat@.is_prefix_of(v@.skip(start as int)),
{
    let ghost s = v@.skip(start as int);
    let n = v.len();
    if n - start < pat.len() {
        return false;
    }
    let mut j: usize = 0;
    while j < pat.len()
        invariant
            j <= pat@.len(),
            start <= n == v@.len(),
            pat@.len() <= n - start,
            s == v@.skip(start as int),
            forall|k: int| 0 <= k < j ==> pat@[k] == s[k],
        decreases pat@.len() - j,
    {
        proof {
            assert(s[j as int] == v@[start + j]);
        }
        if v[start + j] != pat[j] {
            proof {
                if pat@.is_prefix_of(s) {
                    assert(pat@[j as int] == s.subrange(0, pat@.len() as int)[j as int]);
                }
            }
            return false;
        }
        j = j + 1;
    }
    proof {
        assert(pat@ =~= s.subrange(0, pat@.len() as int));
    }
    true
}

/// Reads the bracketed list of quoted strings starting at `start` (just
/// after the opening bracket): the decoded strings and the position after
/// the closing bracket.
#[verifier::rlimit(30)]
fn take_items(v: &Vec<char>, start: usize) -> (r: Option<(Vec<String>, usize)>)
    requires
        start <= v@.len(),
    ensures
        (r is None) == (parse_items(v@.skip(start as int)) is None),
        r matches Some((items, p)) ==> {
            &&& start <= p <= v@.len()
            &&& parse_items(v@.skip(start as int)) == Some(
                (items@.map_values(|t: String| t@), v@.skip(p as int)),
            )
        },
{
    let ghost s = v@;
    let mut items: Vec<String> = Vec::new();
    if start >= v.len() {
        proof {
            assert(s.skip(start as int) =~= Seq::<char>::empty());
        }
        return None;
    }
    proof {
        assert(s.skip(start as int)[0] == s[start as int]);
        assert(s.skip(start as int).skip(1) =~= s.skip(start + 1));
    }
    if v[start] == ']' {
        proof {
            assert(items@.map_values(|t: String| t@) =~= Seq::<Seq<char>>::empty());
        }
        return Some((items, start + 1));
    }
    if v[start] != '"' {
        return None;
    }
    let (first, q0) = match take_string_rest(v, start + 1) {
        None => {
            return None;
        },
        Some(x) => x,
    };
    items.push(string_from_chars(&first));
    let mut q = q0;
    proof {
        assert(items@.map_values(|t: String| t@) =~= seq![first@]);
        match parse_more_items(s.skip(q0 as int)) {
            Some((ds, rem)) => {
                assert(seq![first@] + ds == items@.map_values(|t: String| t@) + ds);
            },
            None => {},
        }
    }
    loop
        invariant_except_break
            start <= q <= v@.len(),
            s == v@,
            (match parse_more_items(s.skip(q as int)) {
                None => parse_items(s.skip(start as int)) is None,
                Some((ds, rem)) => parse_items(s.skip(start as int)) == Some(
                    (items@.map_values(|t: String| t@) + ds, rem),
                ),
            }),
        ensures
            start <= q <= v@.len(),
            parse_items(s.skip(start as int)) == Some(
                (items@.map_values(|t: String| t@), s.skip(q as int)),
            ),
        decreases v@.len() - q,
    {
        let ghost pre = items@;
        if q >= v.len() {
            proof {
                assert(s.skip(q as int) =~= Seq::<char>::empty());
            }
            return None;
        }
        proof {
            assert(s.skip(q as int)[0] == s[q as int]);
            assert(s.skip(q as int).skip(1) =~= s.skip(q + 1));
        }
        if v[q] == ']' {
            proof {
                assert(items@.map_values(|t: String| t@) + Seq::<Seq<char>>::empty()
                    =~= items@.map_values(|t: String| t@));
            }
            q = q + 1;
            break ;
        }
        if v.len() - q > 2 && v[q] == ',' && v[q + 1] == ' ' && v[q + 2] == '"' {
            proof {
                assert(s.skip(q as int)[1] == s[q + 1]);
                assert(s.skip(q as int)[2] == s[q + 2]);
                assert(s.skip(q as int).skip(3) =~= s.skip(q + 3));
            }
            let (d, q2) = match take_string_rest(v, q + 3) {
                None => {
                    return None;
                },
                Some(x) => x,
            };
            items.push(string_from_chars(&d));
            proof {
                lemma_parse_string_rest_shrinks(s.skip(q + 3));
                assert(s.skip(q2 as int).len() < s.skip(q as int).len());
                match parse_more_items(s.skip(q2 as int)) {
                    Some((ds, rem)) => {
                        assert(pre.map_values(|t: String| t@) + (seq![d@] + ds)
                            =~= items@.map_values(|t: String| t@) + ds);
                    },
                    None => {},
                }
            }
            q = q2;
        } else {
            return None;
        }
    }
    Some((items, q))
}

/// Reads a record from the store's text. Exactly the texts the schema
/// admits parse; every other text is a `Parse` error.
#[verifier::rlimit(30)]
pub fn parse_config(text: &str) -> (r: Result<Config, ConfigError>)
    ensures
        r matches Ok(c) ==> parse_config_text(text@) == Some(c@),
        r matches Err(e) ==> parse_config_text(text@) is None && e == ConfigError::Parse,
{
    let v = str_chars(text);
    let ghost s = v@;
    proof {
        assert(s.skip(0) =~= s);
    }
    let lit1 = str_chars("repo_url = \"");
    proof {
        reveal_strlit("repo_url = \"");
        assert(lit1@ =~= lit_url().push('"'));
    }
    if !has_prefix_at(&v, 0, &lit1) {
        proof {
            if s.len() >= 12 && lit_url().is_prefix_of(s) && s[11] == '"' {
                assert(lit1@ =~= s.subrange(0, 12));
            }
        }
        return Err(ConfigError::Parse);
    }
    proof {
        assert(lit1@ =~= s.subrange(0, 12));
        assert(lit_url() =~= s.subrange(0, 11));
        assert(s[11] == '"');
    }
    let (url_chars, p) = match take_string_rest(&v, 12) {
        None => {
            return Err(ConfigError::Parse);
        },
        Some(x) => x,
    };
    let ghost r1 = s.skip(p as int);
    let lit2 = str_chars("\ndotfiles = [");
    proof {
        reveal_strlit("\ndotfiles = [");
        assert(lit2@ =~= lit_dotfiles());
    }
    if !has_prefix_at(&v, p, &lit2) {
        return Err(ConfigError::Parse);
    }
    proof {
        assert(r1.len() >= 13);
    }
    let items_start = p + 13;
    proof {
        assert(r1.skip(13) =~= s.skip(items_start as int));
    }
    let (items, q) = match take_items(&v, items_start) {
        None => {
            return Err(ConfigError::Parse);
        },
        Some(x) => x,
    };
    // After the list only a final newline may follow.
    if v.len() - q == 1 && v[q] == '\n' {
        proof {
            assert(s.skip(q as int) =~= seq!['\n']);
        }
        let url = string_from_chars(&url_chars);
        let c = Config { repo_url: url, dotfiles: items };
        proof {
            assert(parse_config_text(text@) == Some(c@));
        }
        Ok(c)
    } else {
        proof {
            if s.skip(q as int) == seq!['\n'] {
                assert(s.skip(q as int).len() == 1);
                assert(s[q as int] == seq!['\n'][0]);
            }
        }
        Err(ConfigError::Parse)
    }
}


/// Reads a record from what came back from the filesystem: no content means
/// the file was absent or unreadable, an `Io` error; content that does not
/// fit the schema is a `Parse` error; otherwise the record it holds.
pub fn read_config(content: Option<&str>) -> (r: Result<Config, ConfigError>)
    ensures
        content matches Some(text) ==> ((r matches Ok(c) ==> parse_config_text(text@) == Some(c@))
            && (r matches Err(e) ==> parse_config_text(text@) is None && e == ConfigError::Parse)),
        content is None ==> (r matches Err(e) && e == ConfigError::Io),
{
    match content {
        Some(text) => parse_config(text),
        None => Err(ConfigError::Io),
    }
}

/// Law: the persisted text records exactly the URL the record was built
/// from: parsing the text written for a record yields that record's URL,
/// whatever the dotfile names beside it are.
pub proof fn lemma_saved_url_is_input(url: Seq<char>, dotfiles: Seq<Seq<char>>)
    ensures
        parse_config_text(encode_config_text((ConfigView { repo_url: url, dotfiles: dotfiles })))
            matches Some(c) && c.repo_url == url,
{
    lemma_store_round_trip(ConfigView { repo_url: url, dotfiles: dotfiles });
}

/// Law: a later run's record fully replaces an earlier one. The text the
/// store writes is a function of the record alone, so after a second run
/// the file parses to the second record, and where the URLs differ nothing
/// of the first run's URL survives in what is read back.
pub proof fn lemma_rerun_overwrites(first: ConfigView, second: ConfigView)
    ensures
        parse_config_text(encode_config_text(second)) == Some(second),
        first.repo_url != second.repo_url ==> (parse_config_text(encode_config_text(second))
            matches Some(c) && c.repo_url != first.repo_url),
{
    lemma_store_round_trip(second);
}

} // verus!
