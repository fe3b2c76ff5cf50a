//! The replica address book: one line per node, `id hostname ip port
//! [replica-port]`, fields split by a regular expression, `#` starting a
//! comment line.

use crate::strings::{decimal, spec_decimal};
use regex::Regex;
use vstd::prelude::*;

verus! {

#[verifier::external_type_specification]
#[verifier::external_body]
pub struct ExRegex(Regex);

/// Whether `Regex::new` accepts `pattern`.
pub uninterp spec fn regex_compiles(pattern: Seq<char>) -> bool;

/// The texts of the successive non-overlapping matches, in `haystack`, of
/// the expression that `Regex::new` compiles from `pattern` (default
/// options), leftmost first.
pub uninterp spec fn regex_match_texts(pattern: Seq<char>, haystack: Seq<char>) -> Seq<Seq<char>>;

/// `Regex::new`: compiles `pattern` with the default options; the error is
/// dropped. Whether it succeeds depends on the pattern alone.
#[verifier::external_body]
fn compile_regex(pattern: &str) -> (r: Option<Regex>)
    ensures
        r is Some <==> regex_compiles(pattern@),
{
    Regex::new(pattern).ok()
}

/// A regular expression compiled by `Regex::new` from `pattern`, and no other
/// way: the only constructor is `FieldSplitter::new`.
pub struct FieldSplitter {
    re: Regex,
    pattern: Ghost<Seq<char>>,
}

impl FieldSplitter {
    /// The pattern the expression was compiled from.
    pub closed spec fn pattern(&self) -> Seq<char> {
        self.pattern@
    }

    /// The expression of `pattern`; none when `Regex::new` refuses it.
    pub fn new(pattern: &str) -> (r: Option<Self>)
        ensures
            r is Some <==> regex_compiles(pattern@),
            r matches Some(s) ==> s.pattern() == pattern@,
    {
        match compile_regex(pattern) {
            Some(re) => Some(FieldSplitter { re, pattern: Ghost(pattern@) }),
            None => None,
        }
    }
}

/// `Regex::find_iter` on the splitter's expression (built by `Regex::new`
/// from its pattern), each match taken by its text: the successive
/// non-overlapping matches in `haystack`.
#[verifier::external_body]
fn match_texts(splitter: &FieldSplitter, haystack: &str) -> (r: Vec<String>)
    ensures
        r@.map_values(|s: String| s@) == regex_match_texts(splitter.pattern(), haystack@),
{
    splitter.re.find_iter(haystack).map(|m| m.as_str().to_string()).collect()
}

/// The Unicode `White_Space` characters.
pub open spec fn is_white_space(c: char) -> bool {
    let n = c as int;
    (0x9 <= n <= 0xd) || n == 0x20 || n == 0x85 || n == 0xa0 || n == 0x1680 || (0x2000 <= n
        <= 0x200a) || n == 0x2028 || n == 0x2029 || n == 0x202f || n == 0x205f || n == 0x3000
}

/// The text without its leading white space.
pub open spec fn spec_trim_start(s: Seq<char>) -> Seq<char>
    decreases s.len(),
{
    if s.len() > 0 && is_white_space(s[0]) {
        spec_trim_start(s.drop_first())
    } else {
        s
    }
}

/// The text without its trailing white space.
pub open spec fn spec_trim_end(s: Seq<char>) -> Seq<char>
    decreases s.len(),
{
    if s.len() > 0 && is_white_space(s.last()) {
        spec_trim_end(s.drop_last())
    } else {
        s
    }
}

/// The text without leading or trailing white space.
pub open spec fn spec_trim(s: Seq<char>) -> Seq<char> {
    spec_trim_end(spec_trim_start(s))
}

/// `str::trim`: std documents that leading and trailing white space, as the
/// Unicode `White_Space` property defines it, is removed.
#[verifier::external_body]
pub(crate) fn trim<'a>(s: &'a str) -> (r: &'a str)
    ensures
        r@ == spec_trim(s@),
{
    s.trim()
}

/// `str::trim_end`: std documents that trailing white space, as the Unicode
/// `White_Space` property defines it, is removed.
#[verifier::external_body]
pub(crate) fn trim_end<'a>(s: &'a str) -> (r: &'a str)
    ensures
        r@ == spec_trim_end(s@),
{
    s.trim_end()
}

pub open spec fn is_ascii_digit(c: char) -> bool {
    48 <= (c as int) <= 57
}

/// The number written by a string of decimal digits.
pub open spec fn digits_value(s: Seq<char>) -> nat
    decreases s.len(),
{
    if s.len() == 0 {
        0
    } else {
        digits_value(s.drop_last()) * 10 + ((s.last() as int) - 48) as nat
    }
}

/// `FromStr` of an unsigned integer type whose largest value is `max`: an
/// optional `+` followed by at least one decimal digit and nothing else,
/// denoting a value no larger than `max`.
pub open spec fn spec_parse_unsigned(s: Seq<char>, max: nat) -> Option<nat> {
    let d = if s.len() > 0 && s[0] == '+' {
        s.drop_first()
    } else {
        s
    };
    if d.len() > 0 && (forall|i: int| 0 <= i < d.len() ==> is_ascii_digit(#[trigger] d[i]))
        && digits_value(d) <= max {
        Some(digits_value(d))
    } else {
        None
    }
}

/// `str::parse::<u32>`: std documents the accepted form as an optional sign
/// followed by only digits, with a sign other than `+` refused for unsigned
/// types and out-of-range values refused.
#[verifier::external_body]
pub(crate) fn parse_u32(s: &str) -> (r: Option<u32>)
    ensures
        match spec_parse_unsigned(s@, u32::MAX as nat) {
            Some(n) => r == Some(n as u32),
            None => r is None,
        },
{
    s.parse::<u32>().ok()
}

/// `str::parse::<u16>`: as `parse_u32`, for the range of `u16`.
#[verifier::external_body]
pub(crate) fn parse_u16(s: &str) -> (r: Option<u16>)
    ensures
        match spec_parse_unsigned(s@, u16::MAX as nat) {
            Some(n) => r == Some(n as u16),
            None => r is None,
        },
{
    s.parse::<u16>().ok()
}

/// One node of the address book.
pub struct ConfigEntry {
    pub portno: u16,
    pub rep_portno: Option<u16>,
    pub id: u32,
    pub hostname: String,
    pub ipaddr: String,
}

impl View for ConfigEntry {
    type V = (u32, Seq<char>, Seq<char>, u16, Option<u16>);

    open spec fn view(&self) -> (u32, Seq<char>, Seq<char>, u16, Option<u16>) {
        (self.id, self.hostname@, self.ipaddr@, self.portno, self.rep_portno)
    }
}

/// The entry that the fields of a line describe: id, host name, address and
/// port, then an optional replica port; absent when there are fewer than
/// four fields or a number does not parse (trailing white space of a port
/// field is ignored).
pub open spec fn spec_entry_from_fields(t: Seq<Seq<char>>) -> Option<
    (u32, Seq<char>, Seq<char>, u16, Option<u16>),
> {
    if t.len() < 4 {
        None
    } else {
        match (
            spec_parse_unsigned(t[0], u32::MAX as nat),
            spec_parse_unsigned(spec_trim_end(t[3]), u16::MAX as nat),
        ) {
            (Some(id), Some(port)) => if t.len() >= 5 {
                match spec_parse_unsigned(spec_trim_end(t[4]), u16::MAX as nat) {
                    Some(rep) => Some((id as u32, t[1], t[2], port as u16, Some(rep as u16))),
                    None => None,
                }
            } else {
                Some((id as u32, t[1], t[2], port as u16, None))
            },
            _ => None,
        }
    }
}

/// The entry of one address-book line, its fields being the matches of
/// `pattern` in the trimmed line; comment lines give none.
pub open spec fn spec_parse_entry(pattern: Seq<char>, line: Seq<char>) -> Option<
    (u32, Seq<char>, Seq<char>, u16, Option<u16>),
> {
    let l = spec_trim(line);
    if l.len() > 0 && l[0] == '#' {
        None
    } else {
        spec_entry_from_fields(regex_match_texts(pattern, l))
    }
}

/// The entry that the fields of a line describe.
pub fn entry_from_fields(fields: &Vec<String>) -> (r: Option<ConfigEntry>)
    ensures
        match r {
            Some(e) => spec_entry_from_fields(fields@.map_values(|s: String| s@)) == Some(e@),
            None => spec_entry_from_fields(fields@.map_values(|s: String| s@)) is None,
        },
{
    let ghost t = fields@.map_values(|s: String| s@);
    if fields.len() < 4 {
        return None;
    }
    let id = match parse_u32(fields[0].as_str()) {
        Some(n) => n,
        None => return None,
    };
    let hostname = fields[1].clone();
    let ipaddr = fields[2].clone();
    let portno = match parse_u16(trim_end(fields[3].as_str())) {
        Some(p) => p,
        None => {
            assert(t[3] == fields@[3]@);
            return None;
        },
    };
    assert(t[0] == fields@[0]@ && t[1] == fields@[1]@ && t[2] == fields@[2]@ && t[3]
        == fields@[3]@);
    let rep_portno = if fields.len() >= 5 {
        assert(t[4] == fields@[4]@);
        match parse_u16(trim_end(fields[4].as_str())) {
            Some(p) => Some(p),
            None => return None,
        }
    } else {
        None
    };
    Some(ConfigEntry { id, rep_portno, hostname, ipaddr, portno })
}

/// The entry of one address-book line, or none for a comment line or a line
/// that does not describe a node.
pub fn parse_entry(re: &FieldSplitter, line: &str) -> (r: Option<ConfigEntry>)
    ensures
        match r {
            Some(e) => spec_parse_entry(re.pattern(), line@) == Some(e@),
            None => spec_parse_entry(re.pattern(), line@) is None,
        },
{
    let line = trim(line);
    if line.unicode_len() > 0 && line.get_char(0) == '#' {
        return None;
    }
    let fields = match_texts(re, line);
    entry_from_fields(&fields)
}

/// The entries of the address-book lines that describe nodes, in order.
pub open spec fn spec_parse_lines(pattern: Seq<char>, lines: Seq<Seq<char>>) -> Seq<
    (u32, Seq<char>, Seq<char>, u16, Option<u16>),
>
    decreases lines.len(),
{
    if lines.len() == 0 {
        Seq::empty()
    } else {
        let rest = spec_parse_lines(pattern, lines.drop_last());
        match spec_parse_entry(pattern, lines.last()) {
            Some(e) => rest.push(e),
            None => rest,
        }
    }
}

/// The pattern that splits a line into fields: runs of characters other
/// than a space.
pub open spec fn field_pattern() -> Seq<char> {
    "([^ ]+)"@
}

/// The entries of the lines that describe nodes, in order, the fields of a
/// line being the matches of `re`.
pub fn parse_lines(re: &FieldSplitter, lines: &Vec<String>) -> (v: Vec<ConfigEntry>)
    ensures
        v@.map_values(|e: ConfigEntry| e@) == spec_parse_lines(
            re.pattern(),
            lines@.map_values(|s: String| s@),
        ),
{
    let ghost ls = lines@.map_values(|s: String| s@);
    let ghost pattern = re.pattern();
    let mut config: Vec<ConfigEntry> = Vec::new();
    let mut i: usize = 0;
    while i < lines.len()
        invariant
            i <= lines@.len(),
            ls == lines@.map_values(|s: String| s@),
            pattern == re.pattern(),
            config@.map_values(|e: ConfigEntry| e@) == spec_parse_lines(
                pattern,
                ls.subrange(0, i as int),
            ),
        decreases lines@.len() - i,
    {
        assert(ls.subrange(0, i + 1).drop_last() =~= ls.subrange(0, i as int));
        assert(ls.subrange(0, i + 1).last() == lines@[i as int]@);
        match parse_entry(re, lines[i].as_str()) {
            Some(entry) => {
                config.push(entry);
                assert(config@.map_values(|e: ConfigEntry| e@) =~= spec_parse_lines(
                    pattern,
                    ls.subrange(0, i as int),
                ).push(config@.last()@));
            },
            None => {},
        }
        i = i + 1;
    }
    assert(ls.subrange(0, i as int) =~= ls);
    config
}

/// The address book read from its lines; none exactly when `Regex::new`
/// refuses the field pattern.
pub fn parse_config(lines: &Vec<String>) -> (r: Option<Vec<ConfigEntry>>)
    ensures
        r is Some <==> regex_compiles(field_pattern()),
        r matches Some(v) ==> v@.map_values(|e: ConfigEntry| e@) == spec_parse_lines(
            field_pattern(),
            lines@.map_values(|s: String| s@),
        ),
{
    let re = match FieldSplitter::new("([^ ]+)") {
        Some(re) => re,
        None => return None,
    };
    Some(parse_lines(&re, lines))
}

/// Where a node of the address book is reached: its id and host name, its
/// `ip:port` address, and, for a replica, its `ip:replica-port` address.
pub struct PeerAddress {
    pub id: u32,
    pub hostname: String,
    pub address: String,
    pub replica_address: Option<String>,
}

impl View for PeerAddress {
    type V = (u32, Seq<char>, Seq<char>, Option<Seq<char>>);

    open spec fn view(&self) -> (u32, Seq<char>, Seq<char>, Option<Seq<char>>) {
        (
            self.id,
            self.hostname@,
            self.address@,
            match self.replica_address {
                Some(a) => Some(a@),
                None => None,
            },
        )
    }
}

/// The socket address text `ip:port`.
pub open spec fn spec_socket_text(ip: Seq<char>, port: u16) -> Seq<char> {
    ip + ":"@ + spec_decimal(port as nat)
}

/// The addresses of an address-book entry: the client-facing one always,
/// the replica-facing one when `replica` is set.
pub open spec fn spec_peer_address(e: (u32, Seq<char>, Seq<char>, u16, Option<u16>), replica: bool) -> (
    u32,
    Seq<char>,
    Seq<char>,
    Option<Seq<char>>,
) {
    (
        e.0,
        e.1,
        spec_socket_text(e.2, e.3),
        if replica {
            Some(spec_socket_text(e.2, e.4->0))
        } else {
            None
        },
    )
}

fn socket_text(ip: &String, port: u16) -> (r: String)
    ensures
        r@ == spec_socket_text(ip@, port),
{
    let mut text = ip.clone();
    text.append(":");
    let digits = decimal(port as usize);
    text.append(digits.as_str());
    text
}

/// The addresses of the address-book entries, in order; replicas also get
/// their replica-facing address, which each replica entry must give.
pub fn peer_addresses(entries: &Vec<ConfigEntry>, replicas: bool) -> (r: Vec<PeerAddress>)
    requires
        replicas ==> forall|i: int| 0 <= i < entries@.len() ==> (#[trigger] entries@[i]).rep_portno
            is Some,
    ensures
        r@.len() == entries@.len(),
        forall|i: int|
            0 <= i < r@.len() ==> (#[trigger] r@[i])@ == spec_peer_address(entries@[i]@, replicas),
{
    let mut out: Vec<PeerAddress> = Vec::new();
    let mut i: usize = 0;
    while i < entries.len()
        invariant
            i <= entries@.len(),
            replicas ==> forall|j: int| 0 <= j < entries@.len() ==> (#[trigger] entries@[j]).rep_portno
                is Some,
            out@.len() == i,
            forall|j: int|
                0 <= j < i ==> (#[trigger] out@[j])@ == spec_peer_address(entries@[j]@, replicas),
        decreases entries@.len() - i,
    {
        let e = &entries[i];
        let address = socket_text(&e.ipaddr, e.portno);
        let replica_address = if replicas {
            match e.rep_portno {
                Some(p) => Some(socket_text(&e.ipaddr, p)),
                None => None,
            }
        } else {
            None
        };
        let peer = PeerAddress { id: e.id, hostname: e.hostname.clone(), address, replica_address };
        assert(peer@ == spec_peer_address(entries@[i as int]@, replicas));
        out.push(peer);
        i = i + 1;
    }
    out
}

/// Leading white space before a text is dropped by trimming its start.
proof fn lemma_trim_start_concat(s: Seq<char>, t: Seq<char>)
    ensures
        spec_trim_start(s + t) == if spec_trim_start(s).len() > 0 {
            spec_trim_start(s) + t
        } else {
            spec_trim_start(t)
        },
    decreases s.len(),
{
    if s.len() > 0 {
        assert((s + t)[0] == s[0]);
        if is_white_space(s[0]) {
            assert((s + t).drop_first() =~= s.drop_first() + t);
            lemma_trim_start_concat(s.drop_first(), t);
        }
    } else {
        assert(s + t =~= t);
    }
}

/// Trailing white space after a text is dropped by trimming its end.
proof fn lemma_trim_end_concat(s: Seq<char>, t: Seq<char>)
    ensures
        spec_trim_end(s + t) == if spec_trim_end(t).len() > 0 {
            s + spec_trim_end(t)
        } else {
            spec_trim_end(s)
        },
    decreases t.len(),
{
    if t.len() > 0 {
        assert((s + t).last() == t.last());
        if is_white_space(t.last()) {
            assert((s + t).drop_last() =~= s + t.drop_last());
            lemma_trim_end_concat(s, t.drop_last());
        }
    } else {
        assert(s + t =~= s);
    }
}

/// The white space of a trimmed text is gone from both ends.
proof fn lemma_trim_start_idempotent(s: Seq<char>)
    ensures
        spec_trim_start(spec_trim_start(s)) == spec_trim_start(s),
        spec_trim_start(s).len() > 0 ==> !is_white_space(spec_trim_start(s)[0]),
    decreases s.len(),
{
    if s.len() > 0 && is_white_space(s[0]) {
        lemma_trim_start_idempotent(s.drop_first());
    }
}

/// White space around an address-book line does not change what it
/// describes.
pub proof fn lemma_surrounding_space_ignored(
    pattern: Seq<char>,
    line: Seq<char>,
    before: Seq<char>,
    after: Seq<char>,
)
    requires
        forall|i: int| 0 <= i < before.len() ==> is_white_space(#[trigger] before[i]),
        forall|i: int| 0 <= i < after.len() ==> is_white_space(#[trigger] after[i]),
    ensures
        spec_parse_entry(pattern, before + line + after) == spec_parse_entry(pattern, line),
{
    assert(spec_trim(before + line + after) == spec_trim(line)) by {
        lemma_all_space_trims_away_start(before);
        lemma_trim_start_concat(before, line + after);
        assert(before + line + after =~= before + (line + after));
        lemma_all_space_trims_away_end(after);
        lemma_trim_start_concat(line, after);
        if spec_trim_start(line).len() > 0 {
            lemma_trim_end_concat(spec_trim_start(line), after);
        } else {
            lemma_trim_start_idempotent(after);
            lemma_all_space_trims_away_start(after);
            assert(spec_trim_start(line) =~= Seq::<char>::empty());
        }
    }
}

/// A text of white space only trims away entirely from the start.
proof fn lemma_all_space_trims_away_start(s: Seq<char>)
    requires
        forall|i: int| 0 <= i < s.len() ==> is_white_space(#[trigger] s[i]),
    ensures
        spec_trim_start(s).len() == 0,
    decreases s.len(),
{
    if s.len() > 0 {
        assert(is_white_space(s[0]));
        let d = s.drop_first();
        assert forall|i: int| 0 <= i < d.len() implies is_white_space(#[trigger] d[i]) by {
            assert(d[i] == s[i + 1]);
        }
        lemma_all_space_trims_away_start(d);
    }
}

/// A text of white space only trims away entirely from the end.
proof fn lemma_all_space_trims_away_end(s: Seq<char>)
    requires
        forall|i: int| 0 <= i < s.len() ==> is_white_space(#[trigger] s[i]),
    ensures
        spec_trim_end(s).len() == 0,
    decreases s.len(),
{
    if s.len() > 0 {
        assert(is_white_space(s[s.len() - 1]));
        let d = s.drop_last();
        assert forall|i: int| 0 <= i < d.len() implies is_white_space(#[trigger] d[i]) by {
            assert(d[i] == s[i]);
        }
        lemma_all_space_trims_away_end(d);
    }
}

} // verus!
