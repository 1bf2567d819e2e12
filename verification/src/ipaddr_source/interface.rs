use vstd::prelude::*;
use vstd::string::StringSliceAdditionalSpecFns;
use vstd::utf8::{decode_utf8, decode_utf8_encode_utf8, is_char_boundary, valid_utf8};

use crate::ip::{be_value, lemma_be_value_concat, pow256, parse_ip, spec_parse_ip, utf8_error_message, utf8_error_of, utf8_text, IpAddress};
use crate::ipaddr_source::error::address_error_text;
use crate::types::Ddns6Error;
use crate::ipaddr_source::error::AddressDeterminationError;

verus! {

/// An address source that reads the addresses configured on a network interface.
#[derive(Debug, Clone)]
pub struct InterfaceSource {
    pub dev: String,
}

/// `pattern` occurs in `text` starting at byte `i`.
pub open spec fn occurs_at(text: Seq<u8>, pattern: Seq<u8>, i: int) -> bool {
    0 <= i && i + pattern.len() <= text.len() && text.subrange(i, i + pattern.len()) == pattern
}

/// The first byte position at or after `i` where `pattern` occurs in `text`.
pub open spec fn find_from(text: Seq<u8>, pattern: Seq<u8>, i: int) -> Option<int>
    decreases text.len() + 1 - i,
{
    if i < 0 || i + pattern.len() > text.len() {
        None
    } else if occurs_at(text, pattern, i) {
        Some(i)
    } else {
        find_from(text, pattern, i + 1)
    }
}

/// `pattern` occurs somewhere in `text`.
pub open spec fn contains(text: Seq<u8>, pattern: Seq<u8>) -> bool {
    find_from(text, pattern, 0) is Some
}

/// What `find_from` finds is an occurrence, and none comes before it.
pub proof fn lemma_find_from(text: Seq<u8>, pattern: Seq<u8>, i: int)
    requires
        0 <= i,
    ensures
        match find_from(text, pattern, i) {
            Some(j) => i <= j && occurs_at(text, pattern, j) && forall|k: int|
                i <= k < j ==> !occurs_at(text, pattern, k),
            None => forall|k: int| i <= k ==> !occurs_at(text, pattern, k),
        },
    decreases text.len() + 1 - i,
{
    if i + pattern.len() > text.len() {
    } else if occurs_at(text, pattern, i) {
    } else {
        lemma_find_from(text, pattern, i + 1);
    }
}

pub open spec fn opt_int(o: Option<usize>) -> Option<int> {
    match o {
        Some(j) => Some(j as int),
        None => None,
    }
}

pub(crate) fn occurs_at_exec(text: &[u8], pattern: &[u8], i: usize) -> (res: bool)
    requires
        i + pattern@.len() <= text@.len(),
    ensures
        res == occurs_at(text@, pattern@, i as int),
{
    let m = pattern.len();
    let n = text.len();
    let mut j: usize = 0;
    while j < m
        invariant
            j <= m,
            n == text@.len(),
            m == pattern@.len(),
            i + m <= text@.len(),
            forall|k: int| 0 <= k < j ==> text@[i + k] == pattern@[k],
        decreases m - j,
    {
        if text[i + j] != pattern[j] {
            assert(text@.subrange(i as int, i + m)[j as int] != pattern@[j as int]);
            return false;
        }
        j = j + 1;
    }
    assert(text@.subrange(i as int, i + m) =~= pattern@);
    true
}

/// The first byte position at or after `start` where `pattern` occurs in `text`.
fn find_bytes(text: &[u8], pattern: &[u8], start: usize) -> (res: Option<usize>)
    ensures
        opt_int(res) == find_from(text@, pattern@, start as int),
{
    let n = text.len();
    let m = pattern.len();
    if m > n || start > n - m {
        return None;
    }
    if m == 0 {
        assert(text@.subrange(start as int, start as int) =~= pattern@);
        return Some(start);
    }
    let mut i = start;
    while i <= n - m
        invariant
            n == text@.len(),
            m == pattern@.len(),
            1 <= m <= n,
            start <= i <= n - m + 1,
            find_from(text@, pattern@, start as int) == find_from(text@, pattern@, i as int),
        decreases n - m + 1 - i,
    {
        if occurs_at_exec(text, pattern, i) {
            return Some(i);
        }
        i = i + 1;
    }
    None
}

/// The byte position of the first occurrence of `pattern` in `s` at or after
/// byte position `start`.
pub fn index_of(s: &str, pattern: &str, start: usize) -> (res: Option<usize>)
    requires
        is_char_boundary(s.spec_bytes(), start as int),
    ensures
        opt_int(res) == find_from(s.spec_bytes(), pattern.spec_bytes(), start as int),
{
    find_bytes(s.as_bytes(), pattern.as_bytes(), start)
}

/// The bytes of `"\n"`.
pub open spec fn newline() -> Seq<u8> {
    seq![10u8]
}

/// A line without the carriage return that ends it, if one does.
pub open spec fn strip_cr(line: Seq<u8>) -> Seq<u8> {
    if line.len() > 0 && line.last() == 13u8 {
        line.drop_last()
    } else {
        line
    }
}

/// The lines of `text` from byte `pos` on, as std's `str::lines` splits them:
/// at each `"\n"`, dropping a `"\r"` just before it; a last line without
/// `"\n"` is kept as it is, and nothing follows a final `"\n"`.
pub open spec fn lines_from(text: Seq<u8>, pos: int) -> Seq<Seq<u8>>
    decreases text.len() - pos,
{
    if pos < 0 || pos >= text.len() {
        seq![]
    } else {
        match find_from(text, newline(), pos) {
            Some(j) => {
                proof {
                    lemma_find_from(text, newline(), pos);
                }
                seq![strip_cr(text.subrange(pos, j))] + lines_from(text, j + 1)
            },
            None => seq![text.subrange(pos, text.len() as int)],
        }
    }
}

/// The bytes of `"inet "` (for version 4) or `"inet6 "` (otherwise).
pub open spec fn inet_pattern(version: i32) -> Seq<u8> {
    if version == 4 {
        seq![105u8, 110, 101, 116, 32]
    } else {
        seq![105u8, 110, 101, 116, 54, 32]
    }
}

/// The bytes of `"/"`.
pub open spec fn slash() -> Seq<u8> {
    seq![47u8]
}

/// The bytes of `" "`.
pub open spec fn space() -> Seq<u8> {
    seq![32u8]
}

/// The bytes of `"temporary"`.
pub open spec fn temporary_word() -> Seq<u8> {
    seq![116u8, 101, 109, 112, 111, 114, 97, 114, 121]
}

/// The bytes of `"detached"`.
pub open spec fn detached_word() -> Seq<u8> {
    seq![100u8, 101, 116, 97, 99, 104, 101, 100]
}

/// The bytes of `"deprecated"`.
pub open spec fn deprecated_word() -> Seq<u8> {
    seq![100u8, 101, 112, 114, 101, 99, 97, 116, 101, 100]
}

/// A line that marks its address temporary, detached or deprecated.
pub open spec fn marked_unusable(line: Seq<u8>) -> bool {
    contains(line, temporary_word()) || contains(line, detached_word()) || contains(line, deprecated_word())
}

/// Where the address that starts at byte `a` of a line ends: at the first
/// `"/"` after it, else at the first space after it, else at the line's end.
pub open spec fn address_end(line: Seq<u8>, a: int) -> int {
    match find_from(line, slash(), a) {
        Some(j) => j,
        None => match find_from(line, space(), a) {
            Some(j) => j,
            None => line.len() as int,
        },
    }
}

/// The bytes of the address that a line of `ip addr` output offers for the
/// given IP version: what follows the first `"inet "` / `"inet6 "`, unless the
/// line has no such word or marks the address temporary, detached or deprecated.
pub open spec fn line_candidate(version: i32, line: Seq<u8>) -> Option<Seq<u8>> {
    match find_from(line, inet_pattern(version), 0) {
        None => None,
        Some(i) => {
            let a = i + inet_pattern(version).len();
            if marked_unusable(line) {
                None
            } else {
                Some(line.subrange(a, address_end(line, a)))
            }
        },
    }
}

/// The text of a line's candidate address, where its bytes are UTF-8.
pub open spec fn line_candidate_text(version: i32, line: Seq<u8>) -> Option<Seq<char>> {
    match line_candidate(version, line) {
        Some(b) => if valid_utf8(b) {
            Some(decode_utf8(b))
        } else {
            None
        },
        None => None,
    }
}

/// The next candidate address among `lines`, and the lines after the one it
/// came from (none, if there is no candidate).
pub open spec fn next_candidate_of(version: i32, lines: Seq<Seq<u8>>) -> (Option<Seq<char>>, Seq<Seq<u8>>)
    decreases lines.len(),
{
    if lines.len() == 0 {
        (None, lines)
    } else {
        match line_candidate_text(version, lines[0]) {
            Some(t) => (Some(t), lines.drop_first()),
            None => next_candidate_of(version, lines.drop_first()),
        }
    }
}

/// The next candidate comes from the first line that offers one, and reading
/// it consumes exactly the lines up to and including that line; with no such
/// line, every line is consumed.
pub proof fn law_next_candidate_is_first(version: i32, lines: Seq<Seq<u8>>)
    ensures
        next_candidate_of(version, lines).0 matches Some(t) ==> exists|k: int|
            0 <= k < lines.len() && line_candidate_text(version, #[trigger] lines[k]) == Some(t) && (forall|i: int|
                0 <= i < k ==> line_candidate_text(version, #[trigger] lines[i]) is None) && next_candidate_of(
                version,
                lines,
            ).1 == lines.skip(k + 1),
        next_candidate_of(version, lines).0 is None ==> (forall|i: int|
            0 <= i < lines.len() ==> line_candidate_text(version, #[trigger] lines[i]) is None) && next_candidate_of(
            version,
            lines,
        ).1.len() == 0,
    decreases lines.len(),
{
    if lines.len() == 0 {
    } else {
        let rest = lines.drop_first();
        law_next_candidate_is_first(version, rest);
        match line_candidate_text(version, lines[0]) {
            Some(t) => {
                assert(lines.skip(1) =~= rest);
            },
            None => {
                if let Some(t) = next_candidate_of(version, rest).0 {
                    let k = choose|k: int|
                        0 <= k < rest.len() && line_candidate_text(version, #[trigger] rest[k]) == Some(t) && (forall|i: int|
                            0 <= i < k ==> line_candidate_text(version, #[trigger] rest[i]) is None)
                            && next_candidate_of(version, rest).1 == rest.skip(k + 1);
                    assert(lines[k + 1] == rest[k]);
                    assert(lines.skip(k + 2) =~= rest.skip(k + 1));
                    assert forall|i: int| 0 <= i < k + 1 implies line_candidate_text(version, #[trigger] lines[i]) is None by {
                        if i > 0 {
                            assert(lines[i] == rest[i - 1]);
                        }
                    }
                } else {
                    assert forall|i: int| 0 <= i < lines.len() implies line_candidate_text(version, #[trigger] lines[i]) is None by {
                        if i > 0 {
                            assert(lines[i] == rest[i - 1]);
                        }
                    }
                }
            },
        }
    }
}

/// The address that a candidate text gives: its parse, if that succeeds and
/// the address can be reached from elsewhere.
pub open spec fn viable_parse(text: Seq<char>) -> Option<IpAddress> {
    match spec_parse_ip(text) {
        Some(a) => if is_viable(a) {
            Some(a)
        } else {
            None
        },
        None => None,
    }
}

/// The next usable address among `lines`: that of the first line whose
/// candidate parses to a reachable address; and the lines after that line
/// (none, if there is no such line).
pub open spec fn next_viable_of(version: i32, lines: Seq<Seq<u8>>) -> (Option<IpAddress>, Seq<Seq<u8>>)
    decreases lines.len(),
{
    if lines.len() == 0 {
        (None, lines)
    } else {
        match line_candidate_text(version, lines[0]) {
            Some(t) => match viable_parse(t) {
                Some(a) => (Some(a), lines.drop_first()),
                None => next_viable_of(version, lines.drop_first()),
            },
            None => next_viable_of(version, lines.drop_first()),
        }
    }
}

/// The first usable address in the output `out` of `ip addr show`.
pub open spec fn first_viable_in_output(version: i32, out: Seq<u8>) -> Option<IpAddress> {
    next_viable_of(version, lines_from(out, 0)).0
}

/// Going candidate by candidate finds the same address as going line by line.
proof fn lemma_viable_by_candidates(version: i32, lines: Seq<Seq<u8>>)
    ensures
        match next_candidate_of(version, lines) {
            (Some(t), rest) => rest.len() < lines.len() && next_viable_of(version, lines) == (match viable_parse(t) {
                Some(a) => (Some(a), rest),
                None => next_viable_of(version, rest),
            }),
            (None, rest) => rest.len() == 0 && next_viable_of(version, lines) == (None::<IpAddress>, rest),
        },
    decreases lines.len(),
{
    if lines.len() > 0 {
        lemma_viable_by_candidates(version, lines.drop_first());
    }
}

pub open spec fn opt_text(o: Option<String>) -> Option<Seq<char>> {
    match o {
        Some(s) => Some(s@),
        None => None,
    }
}

/// An IPv4 address outside the ranges that cannot be reached from elsewhere:
/// this host, private, shared, loopback and link-local addresses.
pub open spec fn is_viable_v4(o: Seq<u8>) -> bool {
    !(o[0] == 0 || o[0] == 10 || (o[0] == 100 && 64 <= o[1] <= 127) || o[0] == 127 || (o[0] == 172
        && 16 <= o[1] <= 31) || (o[0] == 169 && o[1] == 254) || (o[0] == 192 && o[1] == 168))
}

/// An IPv6 address whose first 16-bit group is not in `0x0000..=0x1fff`,
/// not `0xfe80` and not in `0xfc00..=0xfdff`.
pub open spec fn is_viable_v6(o: Seq<u8>) -> bool {
    let group = o[0] * 256 + o[1];
    !(group <= 0x1fff || group == 0xfe80 || (0xfc00 <= group <= 0xfdff))
}

pub open spec fn is_viable(a: IpAddress) -> bool {
    match a {
        IpAddress::V4(o) => is_viable_v4(o@),
        IpAddress::V6(o) => is_viable_v6(o@),
    }
}

fn copy_range(s: &[u8], lo: usize, hi: usize) -> (res: Vec<u8>)
    requires
        lo <= hi <= s@.len(),
    ensures
        res@ == s@.subrange(lo as int, hi as int),
{
    let mut res: Vec<u8> = Vec::new();
    let mut i = lo;
    while i < hi
        invariant
            lo <= i <= hi,
            hi <= s@.len(),
            res@ == s@.subrange(lo as int, i as int),
        decreases hi - i,
    {
        res.push(s[i]);
        i = i + 1;
        assert(res@ =~= s@.subrange(lo as int, i as int));
    }
    res
}

fn inet_pattern_exec(version: i32) -> (res: Vec<u8>)
    ensures
        res@ == inet_pattern(version),
{
    if version == 4 {
        vec![105u8, 110, 101, 116, 32]
    } else {
        vec![105u8, 110, 101, 116, 54, 32]
    }
}

/// The next line of `text` from byte `pos`, and where the line after it starts.
fn take_line(text: &[u8], pos: usize) -> (res: (Vec<u8>, usize))
    requires
        pos < text@.len(),
    ensures
        pos < res.1 <= text@.len(),
        lines_from(text@, pos as int) == seq![res.0@] + lines_from(text@, res.1 as int),
{
    let n = text.len();
    let nl: Vec<u8> = vec![10u8];
    assert(nl@ == newline());
    let found = find_bytes(text, nl.as_slice(), pos);
    proof {
        lemma_find_from(text@, newline(), pos as int);
    }
    assert(opt_int(found) == find_from(text@, newline(), pos as int));
    match found {
        Some(j) => {
            let mut line = copy_range(text, pos, j);
            let len = line.len();
            if len > 0 && line[len - 1] == 13u8 {
                line.pop();
                assert(line@ =~= text@.subrange(pos as int, j as int).drop_last());
            }
            (line, j + 1)
        },
        None => {
            let line = copy_range(text, pos, n);
            (line, n)
        },
    }
}

/// The candidate address text that a line offers (see `line_candidate_text`).
fn extract_candidate(line: &[u8], version: i32) -> (res: Option<String>)
    ensures
        opt_text(res) == line_candidate_text(version, line@),
{
    let pattern = inet_pattern_exec(version);
    let n = line.len();
    let found = find_bytes(line, pattern.as_slice(), 0);
    proof {
        lemma_find_from(line@, inet_pattern(version), 0);
    }
    assert(opt_int(found) == find_from(line@, inet_pattern(version), 0));
    match found {
        None => None,
        Some(i) => {
            assert(occurs_at(line@, inet_pattern(version), i as int));
            let a = i + pattern.len();
            let temporary: Vec<u8> = vec![116u8, 101, 109, 112, 111, 114, 97, 114, 121];
            let detached: Vec<u8> = vec![100u8, 101, 116, 97, 99, 104, 101, 100];
            let deprecated: Vec<u8> = vec![100u8, 101, 112, 114, 101, 99, 97, 116, 101, 100];
            if find_bytes(line, temporary.as_slice(), 0).is_some() || find_bytes(line, detached.as_slice(), 0).is_some()
                || find_bytes(line, deprecated.as_slice(), 0).is_some() {
                return None;
            }
            let slash_bytes: Vec<u8> = vec![47u8];
            let space_bytes: Vec<u8> = vec![32u8];
            proof {
                lemma_find_from(line@, slash(), a as int);
                lemma_find_from(line@, space(), a as int);
            }
            assert(slash_bytes@ == slash());
            assert(space_bytes@ == space());
            let found_slash = find_bytes(line, slash_bytes.as_slice(), a);
            assert(opt_int(found_slash) == find_from(line@, slash(), a as int));
            let e = match found_slash {
                Some(j) => {
                    assert(occurs_at(line@, slash(), j as int));
                    j
                },
                None => {
                    let found_space = find_bytes(line, space_bytes.as_slice(), a);
                    assert(opt_int(found_space) == find_from(line@, space(), a as int));
                    match found_space {
                        Some(j) => {
                            assert(occurs_at(line@, space(), j as int));
                            j
                        },
                        None => line.len(),
                    }
                },
            };
            assert(e == address_end(line@, a as int));
            let bytes = copy_range(line, a, e);
            match utf8_text(bytes.as_slice()) {
                Ok(t) => Some(t.to_owned()),
                Err(_) => None,
            }
        },
    }
}

/// Reads the addresses out of the output of `ip addr show`, line by line.
pub struct InterfaceAddressIterator<'a> {
    v: i32,
    text: &'a str,
    pos: usize,
}

impl<'a> InterfaceAddressIterator<'a> {
    /// The IP version (4 or 6) whose addresses are read.
    pub closed spec fn version(&self) -> i32 {
        self.v
    }

    /// The lines that are still to be read.
    pub closed spec fn lines(&self) -> Seq<Seq<u8>> {
        lines_from(self.text.spec_bytes(), self.pos as int)
    }

    /// Starts reading the addresses of IP version `ip_version` out of `s`.
    pub fn new(ip_version: i32, s: &'a str) -> (it: InterfaceAddressIterator<'a>)
        ensures
            it.version() == ip_version,
            it.lines() == lines_from(s.spec_bytes(), 0),
    {
        InterfaceAddressIterator { v: ip_version, text: s, pos: 0 }
    }

    /// The next usable address: the first candidate, from the next lines on,
    /// that parses to an address that can be reached from elsewhere. The lines
    /// up to and including its line are consumed; with none, all are. For an IP
    /// version other than 4 and 6 there is none, and nothing is consumed.
    pub fn next(&mut self) -> (res: Option<IpAddress>)
        ensures
            final(self).version() == old(self).version(),
            old(self).version() == 4 || old(self).version() == 6 ==> (res, final(self).lines()) == next_viable_of(
                old(self).version(),
                old(self).lines(),
            ),
            !(old(self).version() == 4 || old(self).version() == 6) ==> res is None && final(self).lines()
                == old(self).lines(),
    {
        if self.v != 4 && self.v != 6 {
            return None;
        }
        let ghost goal = next_viable_of(self.v, self.lines());
        loop
            invariant
                self.v == old(self).v,
                self.v == 4 || self.v == 6,
                goal == next_viable_of(self.v, self.lines()),
                goal == next_viable_of(old(self).version(), old(self).lines()),
            decreases self.lines().len(),
        {
            proof {
                lemma_viable_by_candidates(self.v, self.lines());
            }
            match self.next_candidate() {
                None => {
                    return None;
                },
                Some(text) => {
                    let found = consider(parse_ip(text.as_str()));
                    if found.is_some() {
                        return found;
                    }
                },
            }
        }
    }

    /// The text of the next address candidate: the word after `"inet "` (IPv4)
    /// or `"inet6 "` (IPv6) up to a `"/"` or space, taken from the next line
    /// that has that word and does not mark its address temporary, detached or
    /// deprecated. The lines up to and including that one are consumed. For an
    /// IP version other than 4 and 6 there is none, and nothing is consumed.
    pub fn next_candidate(&mut self) -> (res: Option<String>)
        ensures
            final(self).version() == old(self).version(),
            old(self).version() == 4 || old(self).version() == 6 ==> (opt_text(res), final(self).lines())
                == next_candidate_of(old(self).version(), old(self).lines()),
            !(old(self).version() == 4 || old(self).version() == 6) ==> res is None && final(self).lines()
                == old(self).lines(),
    {
        if self.v != 4 && self.v != 6 {
            return None;
        }
        let text = self.text;
        let bytes = text.as_bytes();
        let n = bytes.len();
        let ghost goal = next_candidate_of(self.v, self.lines());
        while self.pos < n
            invariant
                bytes@ == text.spec_bytes(),
                n == bytes@.len(),
                self.text == text,
                self.v == old(self).v,
                self.v == 4 || self.v == 6,
                goal == next_candidate_of(self.v, self.lines()),
                goal == next_candidate_of(old(self).version(), old(self).lines()),
            decreases n - self.pos,
        {
            let (line, next) = take_line(bytes, self.pos);
            let ghost rest = lines_from(bytes@, next as int);
            assert((seq![line@] + rest).drop_first() =~= rest);
            assert((seq![line@] + rest)[0] == line@);
            self.pos = next;
            let candidate = extract_candidate(line.as_slice(), self.v);
            proof {
                let all = seq![line@] + rest;
                assert(all.len() > 0);
                assert(self.lines() == rest);
                if candidate is Some {
                    assert(next_candidate_of(self.v, all) == (opt_text(candidate), rest));
                } else {
                    assert(next_candidate_of(self.v, all) == next_candidate_of(self.v, rest));
                }
            }
            if candidate.is_some() {
                return candidate;
            }
        }
        None
    }
}

/// Whether an address can be reached from elsewhere (see `is_viable`).
pub fn viable(addr: &IpAddress) -> (res: bool)
    ensures
        res == is_viable(*addr),
{
    match addr {
        IpAddress::V4(o) => !(o[0] == 0 || o[0] == 10 || (o[0] == 100 && 64 <= o[1] && o[1] <= 127) || o[0] == 127
            || (o[0] == 172 && 16 <= o[1] && o[1] <= 31) || (o[0] == 169 && o[1] == 254) || (o[0] == 192 && o[1]
            == 168)),
        IpAddress::V6(o) => {
            let group: u32 = (o[0] as u32) * 256 + (o[1] as u32);
            !(group <= 0x1fff || group == 0xfe80 || (0xfc00 <= group && group <= 0xfdff))
        },
    }
}

/// What a parsed candidate gives: the address, if there is one and it can be
/// reached from elsewhere.
pub fn consider(parsed: Option<IpAddress>) -> (res: Option<IpAddress>)
    ensures
        res == (if parsed is Some && is_viable(parsed->0) {
            parsed
        } else {
            None
        }),
{
    match parsed {
        Some(a) => if viable(&a) {
            Some(a)
        } else {
            None
        },
        None => None,
    }
}

/// The first usable address in `text`, the output of `ip addr show`, for IP version `version`.
pub fn first_viable(version: i32, text: &str) -> (res: Option<IpAddress>)
    ensures
        version == 4 || version == 6 ==> res == first_viable_in_output(version, text.spec_bytes()),
        !(version == 4 || version == 6) ==> res is None,
{
    let mut iter = InterfaceAddressIterator::new(version, text);
    iter.next()
}

impl InterfaceSource {
    /// The IPv4 answer of this interface, given the raw output of
    /// `ip addr show dev <dev>`: the first usable address in it.
    pub fn ipv4_of_output(&self, stdout: &[u8]) -> (res: Result<[u8; 4], Ddns6Error>)
        requires
            valid_utf8(stdout@) ==> !(first_viable_in_output(4, stdout@) matches Some(IpAddress::V6(_))),
        ensures
            !valid_utf8(stdout@) ==> (res matches Err(e) && e.0@ == utf8_error_of(stdout@)),
            valid_utf8(stdout@) ==> match first_viable_in_output(4, stdout@) {
                Some(IpAddress::V4(o)) => res == Ok::<[u8; 4], Ddns6Error>(o),
                _ => res matches Err(e) && e.0@ == address_error_text(
                    "No viable IPv4 addresses configured on interface "@ + self.dev@,
                ),
            },
    {
        match utf8_text(stdout) {
            Err((valid_up_to, error_len)) => Err(Ddns6Error(utf8_error_message(valid_up_to, error_len))),
            Ok(text) => {
                proof {
                    decode_utf8_encode_utf8(stdout@);
                }
                let first = first_viable(4, text);
                match self.ipv4_from_first(first) {
                    Ok(o) => Ok(o),
                    Err(e) => Err(Ddns6Error(e.message())),
                }
            },
        }
    }

    /// The IPv4 answer of this interface from the raw output of
    /// `ip addr show dev <dev>` (see `ipv4_of_output`), or `None` where the
    /// first usable address on an `inet` line is an IPv6 address.
    pub fn ipv4_of_output_checked(&self, stdout: &[u8]) -> (res: Option<Result<[u8; 4], Ddns6Error>>)
        ensures
            res is None <==> valid_utf8(stdout@) && first_viable_in_output(4, stdout@) matches Some(IpAddress::V6(_)),
            !valid_utf8(stdout@) ==> (res matches Some(Err(e)) && e.0@ == utf8_error_of(stdout@)),
            valid_utf8(stdout@) ==> match first_viable_in_output(4, stdout@) {
                Some(IpAddress::V4(o)) => res == Some(Ok::<[u8; 4], Ddns6Error>(o)),
                Some(IpAddress::V6(_)) => res is None,
                None => res matches Some(Err(e)) && e.0@ == address_error_text(
                    "No viable IPv4 addresses configured on interface "@ + self.dev@,
                ),
            },
    {
        if let Ok(text) = utf8_text(stdout) {
            proof {
                decode_utf8_encode_utf8(stdout@);
            }
            if let Some(IpAddress::V6(_)) = first_viable(4, text) {
                return None;
            }
        }
        Some(self.ipv4_of_output(stdout))
    }

    /// The IPv6 answer of this interface, given the raw output of
    /// `ip addr show dev <dev>`: the first usable address in it.
    pub fn ipv6_of_output(&self, stdout: &[u8]) -> (res: Result<[u8; 16], Ddns6Error>)
        requires
            valid_utf8(stdout@) ==> !(first_viable_in_output(6, stdout@) matches Some(IpAddress::V4(_))),
        ensures
            !valid_utf8(stdout@) ==> (res matches Err(e) && e.0@ == utf8_error_of(stdout@)),
            valid_utf8(stdout@) ==> match first_viable_in_output(6, stdout@) {
                Some(IpAddress::V6(o)) => res == Ok::<[u8; 16], Ddns6Error>(o),
                _ => res matches Err(e) && e.0@ == address_error_text(
                    "No viable IPv6 addresses configured on interface "@ + self.dev@,
                ),
            },
    {
        match utf8_text(stdout) {
            Err((valid_up_to, error_len)) => Err(Ddns6Error(utf8_error_message(valid_up_to, error_len))),
            Ok(text) => {
                proof {
                    decode_utf8_encode_utf8(stdout@);
                }
                let first = first_viable(6, text);
                match self.ipv6_from_first(first) {
                    Ok(o) => Ok(o),
                    Err(e) => Err(Ddns6Error(e.message())),
                }
            },
        }
    }

    /// The IPv6 answer of this interface from the raw output of
    /// `ip addr show dev <dev>` (see `ipv6_of_output`), or `None` where the
    /// first usable address on an `inet6` line is an IPv4 address.
    pub fn ipv6_of_output_checked(&self, stdout: &[u8]) -> (res: Option<Result<[u8; 16], Ddns6Error>>)
        ensures
            res is None <==> valid_utf8(stdout@) && first_viable_in_output(6, stdout@) matches Some(IpAddress::V4(_)),
            !valid_utf8(stdout@) ==> (res matches Some(Err(e)) && e.0@ == utf8_error_of(stdout@)),
            valid_utf8(stdout@) ==> match first_viable_in_output(6, stdout@) {
                Some(IpAddress::V6(o)) => res == Some(Ok::<[u8; 16], Ddns6Error>(o)),
                Some(IpAddress::V4(_)) => res is None,
                None => res matches Some(Err(e)) && e.0@ == address_error_text(
                    "No viable IPv6 addresses configured on interface "@ + self.dev@,
                ),
            },
    {
        if let Ok(text) = utf8_text(stdout) {
            proof {
                decode_utf8_encode_utf8(stdout@);
            }
            if let Some(IpAddress::V4(_)) = first_viable(6, text) {
                return None;
            }
        }
        Some(self.ipv6_of_output(stdout))
    }

    /// The IPv4 answer of this interface, given the first address read from its
    /// `ip addr show` output.
    pub fn ipv4_from_first(&self, first: Option<IpAddress>) -> (res: Result<[u8; 4], AddressDeterminationError>)
        requires
            first matches Some(a) ==> a is V4,
        ensures
            match first {
                Some(IpAddress::V4(o)) => res == Ok::<[u8; 4], AddressDeterminationError>(o),
                _ => res matches Err(e) && e.0@ == "No viable IPv4 addresses configured on interface "@ + self.dev@,
            },
    {
        match first {
            Some(IpAddress::V4(o)) => Ok(o),
            _ => {
                let mut msg = String::from_str("No viable IPv4 addresses configured on interface ");
                msg.append(self.dev.as_str());
                Err(AddressDeterminationError(msg))
            },
        }
    }

    /// The IPv6 answer of this interface, given the first address read from its
    /// `ip addr show` output.
    pub fn ipv6_from_first(&self, first: Option<IpAddress>) -> (res: Result<[u8; 16], AddressDeterminationError>)
        requires
            first matches Some(a) ==> a is V6,
        ensures
            match first {
                Some(IpAddress::V6(o)) => res == Ok::<[u8; 16], AddressDeterminationError>(o),
                _ => res matches Err(e) && e.0@ == "No viable IPv6 addresses configured on interface "@ + self.dev@,
            },
    {
        match first {
            Some(IpAddress::V6(o)) => Ok(o),
            _ => {
                let mut msg = String::from_str("No viable IPv6 addresses configured on interface ");
                msg.append(self.dev.as_str());
                Err(AddressDeterminationError(msg))
            },
        }
    }
}


/// An IPv4 address, given as its 32-bit value, in one of the blocks that
/// cannot be reached from elsewhere: `0.0.0.0/8` (this host), `10.0.0.0/8`,
/// `172.16.0.0/12` and `192.168.0.0/16` (private), `100.64.0.0/10` (shared),
/// `127.0.0.0/8` (loopback) and `169.254.0.0/16` (link-local).
pub open spec fn in_unreachable_block_v4(v: nat) -> bool {
    ||| v < 0x0100_0000
    ||| 0x0A00_0000 <= v < 0x0B00_0000
    ||| 0xAC10_0000 <= v < 0xAC20_0000
    ||| 0xC0A8_0000 <= v < 0xC0A9_0000
    ||| 0x6440_0000 <= v < 0x6480_0000
    ||| 0x7F00_0000 <= v < 0x8000_0000
    ||| 0xA9FE_0000 <= v < 0xA9FF_0000
}

/// An IPv6 address, given as its 128-bit value, in one of the blocks that are
/// not taken as reachable: `::/3`, `fc00::/7` (unique local) and `fe80::/16`
/// (link-local).
pub open spec fn in_unreachable_block_v6(v: nat) -> bool {
    ||| v < 0x2000_0000_0000_0000_0000_0000_0000_0000
    ||| 0xfc00_0000_0000_0000_0000_0000_0000_0000 <= v < 0xfe00_0000_0000_0000_0000_0000_0000_0000
    ||| 0xfe80_0000_0000_0000_0000_0000_0000_0000 <= v < 0xfe81_0000_0000_0000_0000_0000_0000_0000
}

/// The value of an address is its first two octets, read as a 16-bit number,
/// shifted left by the rest, plus the value of the rest.
proof fn lemma_leading_pair(o: Seq<u8>)
    requires
        o.len() >= 2,
    ensures
        be_value(o) == (o[0] * 256 + o[1]) * pow256((o.len() - 2) as nat) + be_value(o.skip(2)),
        be_value(o.skip(2)) < pow256((o.len() - 2) as nat),
{
    assert(o.take(2) + o.skip(2) =~= o);
    lemma_be_value_concat(o.take(2), o.skip(2));
    let t = o.take(2);
    assert(t.drop_last() =~= seq![o[0]]);
    assert(seq![o[0]].drop_last() =~= Seq::<u8>::empty());
    let s1 = seq![o[0]];
    assert(s1.drop_last() =~= Seq::<u8>::empty());
    assert(be_value(Seq::<u8>::empty()) == 0);
    assert(s1.last() == o[0]);
    assert(be_value(s1) == o[0] as nat);
    assert(t.last() == o[1]);
    assert(be_value(t) == o[0] * 256 + o[1]);
}

/// A number `g * k + r`, with `r` below `k`, lies in `[c * k, d * k)`
/// exactly when `g` lies in `[c, d)`.
proof fn lemma_scaled_range(g: int, r: int, k: int, c: int, d: int)
    requires
        k > 0,
        0 <= r < k,
    ensures
        (c * k <= g * k + r < d * k) <==> (c <= g < d),
{
    if g < c {
        assert(g * k + r < c * k) by (nonlinear_arith)
            requires g + 1 <= c, k > 0, r < k;
    }
    if g >= d {
        assert(d * k <= g * k + r) by (nonlinear_arith)
            requires d <= g, k > 0, 0 <= r;
    }
    if c <= g < d {
        assert(c * k <= g * k + r) by (nonlinear_arith)
            requires c <= g, k > 0, 0 <= r;
        assert(g * k + r < d * k) by (nonlinear_arith)
            requires g + 1 <= d, k > 0, r < k;
    }
}

/// An IPv4 address is taken as reachable exactly when it lies outside the
/// unreachable blocks.
pub proof fn law_reachable_v4(o: [u8; 4])
    ensures
        is_viable(IpAddress::V4(o)) <==> !in_unreachable_block_v4(be_value(o@)),
{
    lemma_leading_pair(o@);
    assert(pow256(2) == 65536) by {
        reveal_with_fuel(pow256, 3);
    }
    let x = o@[0] as int;
    let y = o@[1] as int;
    let r = be_value(o@.skip(2)) as int;
    let v = be_value(o@) as int;
    assert(v == (x * 256 + y) * 65536 + r);
    assert(0 <= r < 65536);
    assert(0 <= x < 256 && 0 <= y < 256);
    let g = x * 256 + y;
    assert(v == g * 65536 + r);
    assert((x == 0) <==> g < 0x0100);
    assert((x == 10) <==> 0x0A00 <= g < 0x0B00);
    assert((x == 172 && 16 <= y <= 31) <==> 0xAC10 <= g < 0xAC20);
    assert((x == 192 && y == 168) <==> g == 0xC0A8);
    assert((x == 100 && 64 <= y <= 127) <==> 0x6440 <= g < 0x6480);
    assert((x == 127) <==> 0x7F00 <= g < 0x8000);
    assert((x == 169 && y == 254) <==> g == 0xA9FE);
    lemma_scaled_range(g, r, 65536, 0, 0x0100);
    lemma_scaled_range(g, r, 65536, 0x0A00, 0x0B00);
    lemma_scaled_range(g, r, 65536, 0xAC10, 0xAC20);
    lemma_scaled_range(g, r, 65536, 0xC0A8, 0xC0A9);
    lemma_scaled_range(g, r, 65536, 0x6440, 0x6480);
    lemma_scaled_range(g, r, 65536, 0x7F00, 0x8000);
    lemma_scaled_range(g, r, 65536, 0xA9FE, 0xA9FF);
    assert((v < 0x0100_0000) <==> g < 0x0100);
    assert((0x0A00_0000 <= v < 0x0B00_0000) <==> 0x0A00 <= g < 0x0B00);
    assert((0xAC10_0000 <= v < 0xAC20_0000) <==> 0xAC10 <= g < 0xAC20);
    assert((0xC0A8_0000 <= v < 0xC0A9_0000) <==> g == 0xC0A8);
    assert((0x6440_0000 <= v < 0x6480_0000) <==> 0x6440 <= g < 0x6480);
    assert((0x7F00_0000 <= v < 0x8000_0000) <==> 0x7F00 <= g < 0x8000);
    assert((0xA9FE_0000 <= v < 0xA9FF_0000) <==> g == 0xA9FE);
}

/// An IPv6 address is taken as reachable exactly when it lies outside the
/// unreachable blocks.
pub proof fn law_reachable_v6(o: [u8; 16])
    ensures
        is_viable(IpAddress::V6(o)) <==> !in_unreachable_block_v6(be_value(o@)),
{
    lemma_leading_pair(o@);
    assert(pow256(14) == 0x1_0000_0000_0000_0000_0000_0000_0000) by {
        reveal_with_fuel(pow256, 15);
    }
    let g = o[0] * 256 + o[1];
    let r = be_value(o@.skip(2));
    assert(be_value(o@) == g * 0x1_0000_0000_0000_0000_0000_0000_0000 + r);
    assert(0 <= r < 0x1_0000_0000_0000_0000_0000_0000_0000);
}

proof fn lemma_next_viable_is_viable(version: i32, lines: Seq<Seq<u8>>)
    ensures
        next_viable_of(version, lines).0 matches Some(a) ==> is_viable(a),
    decreases lines.len(),
{
    if lines.len() > 0 {
        lemma_next_viable_is_viable(version, lines.drop_first());
    }
}

/// Whatever address an interface answers with lies outside the unreachable
/// blocks of its family.
pub proof fn law_interface_answer_reachable(version: i32, out: Seq<u8>)
    ensures
        first_viable_in_output(version, out) matches Some(a) ==> match a {
            IpAddress::V4(o) => !in_unreachable_block_v4(be_value(o@)),
            IpAddress::V6(o) => !in_unreachable_block_v6(be_value(o@)),
        },
{
    lemma_next_viable_is_viable(version, lines_from(out, 0));
    if let Some(a) = first_viable_in_output(version, out) {
        match a {
            IpAddress::V4(o) => law_reachable_v4(o),
            IpAddress::V6(o) => law_reachable_v6(o),
        }
    }
}

/// The bytes `word` appear somewhere in `line`.
pub open spec fn mentions(line: Seq<u8>, word: Seq<u8>) -> bool {
    exists|k: int| 0 <= k && k + word.len() <= line.len() && #[trigger] line.subrange(k, k + word.len()) == word
}

proof fn lemma_contains_iff_mentions(line: Seq<u8>, word: Seq<u8>)
    ensures
        contains(line, word) <==> mentions(line, word),
{
    lemma_find_from(line, word, 0);
    if mentions(line, word) {
        let k = choose|k: int| 0 <= k && k + word.len() <= line.len() && #[trigger] line.subrange(k, k + word.len()) == word;
        assert(occurs_at(line, word, k));
    }
    if let Some(j) = find_from(line, word, 0) {
        assert(line.subrange(j, j + word.len()) == word);
    }
}

/// A line that mentions `temporary`, `detached` or `deprecated` anywhere
/// offers no address, whatever else it holds.
pub proof fn law_marked_line_offers_nothing(version: i32, line: Seq<u8>)
    requires
        mentions(line, seq![116u8, 101, 109, 112, 111, 114, 97, 114, 121])
            || mentions(line, seq![100u8, 101, 116, 97, 99, 104, 101, 100])
            || mentions(line, seq![100u8, 101, 112, 114, 101, 99, 97, 116, 101, 100]),
    ensures
        line_candidate(version, line) is None,
        line_candidate_text(version, line) is None,
{
    lemma_contains_iff_mentions(line, temporary_word());
    lemma_contains_iff_mentions(line, detached_word());
    lemma_contains_iff_mentions(line, deprecated_word());
}

/// `b` is the address that follows the first mention of `word` in `line`:
/// the bytes right after that mention, holding no `/`, and followed by a `/`,
/// a space or the end of the line.
pub open spec fn address_after_first(line: Seq<u8>, word: Seq<u8>, b: Seq<u8>) -> bool {
    exists|i: int|
        #[trigger] occurs_at(line, word, i) && (forall|k: int| 0 <= k < i ==> !occurs_at(line, word, k)) && {
            let a = i + word.len();
            &&& b == line.subrange(a, a + b.len())
            &&& !mentions(b, seq![47u8])
            &&& (a + b.len() == line.len() || line[a + b.len()] == 47u8 || line[a + b.len()] == 32u8)
        }
}

/// A line that mentions `inet ` (for IPv4) or `inet6 ` (for IPv6) and none
/// of `temporary`, `detached` and `deprecated` offers the address that
/// follows the first such mention.
pub proof fn law_unmarked_line_offers_address(version: i32, line: Seq<u8>)
    requires
        version == 4 ==> mentions(line, seq![105u8, 110, 101, 116, 32]),
        version != 4 ==> mentions(line, seq![105u8, 110, 101, 116, 54, 32]),
        !mentions(line, seq![116u8, 101, 109, 112, 111, 114, 97, 114, 121]),
        !mentions(line, seq![100u8, 101, 116, 97, 99, 104, 101, 100]),
        !mentions(line, seq![100u8, 101, 112, 114, 101, 99, 97, 116, 101, 100]),
    ensures
        line_candidate(version, line) matches Some(b) && address_after_first(
            line,
            if version == 4 {
                seq![105u8, 110, 101, 116, 32]
            } else {
                seq![105u8, 110, 101, 116, 54, 32]
            },
            b,
        ),
{
    lemma_contains_iff_mentions(line, temporary_word());
    lemma_contains_iff_mentions(line, detached_word());
    lemma_contains_iff_mentions(line, deprecated_word());
    let w = inet_pattern(version);
    lemma_contains_iff_mentions(line, w);
    lemma_find_from(line, w, 0);
    let i = find_from(line, w, 0)->0;
    let a = i + w.len();
    lemma_find_from(line, slash(), a);
    lemma_find_from(line, space(), a);
    let e = address_end(line, a);
    let b = line.subrange(a, e);
    assert(b =~= line.subrange(a, a + b.len()));
    assert(a + b.len() == e);
    assert forall|k: int| 0 <= k < b.len() implies b[k] != 47u8 by {
        if b[k] == 47u8 {
            assert(line.subrange(a + k, a + k + 1) =~= slash());
            assert(occurs_at(line, slash(), a + k));
        }
    }
    if mentions(b, seq![47u8]) {
        let k = choose|k: int| 0 <= k && k + 1 <= b.len() && #[trigger] b.subrange(k, k + 1) == seq![47u8];
        assert(b.subrange(k, k + 1)[0] == b[k]);
    }
    if let Some(j) = find_from(line, slash(), a) {
        assert(line.subrange(j, j + 1)[0] == line[j]);
    } else if let Some(j) = find_from(line, space(), a) {
        assert(line.subrange(j, j + 1)[0] == line[j]);
    }
    assert(occurs_at(line, w, i));
}

/// A line that mentions none of `temporary`, `detached` and `deprecated`.
pub open spec fn mentions_no_mark(line: Seq<u8>) -> bool {
    &&& !mentions(line, seq![116u8, 101, 109, 112, 111, 114, 97, 114, 121])
    &&& !mentions(line, seq![100u8, 101, 116, 97, 99, 104, 101, 100])
    &&& !mentions(line, seq![100u8, 101, 112, 114, 101, 99, 97, 116, 101, 100])
}

/// The address text that `line` offers for `version` parses to `a`.
pub open spec fn offers_parsed(version: i32, line: Seq<u8>, a: IpAddress) -> bool {
    line_candidate_text(version, line) matches Some(t) && spec_parse_ip(t) == Some(a)
}

/// An address outside the unreachable blocks of its family.
pub open spec fn outside_unreachable_blocks(a: IpAddress) -> bool {
    match a {
        IpAddress::V4(o) => !in_unreachable_block_v4(be_value(o@)),
        IpAddress::V6(o) => !in_unreachable_block_v6(be_value(o@)),
    }
}

/// The address text that `line` offers for `version` parses to an address
/// outside the unreachable blocks.
pub open spec fn offers_reachable(version: i32, line: Seq<u8>) -> bool {
    line_candidate_text(version, line) matches Some(t) && spec_parse_ip(t) matches Some(b)
        && outside_unreachable_blocks(b)
}

proof fn lemma_viable_iff_outside(a: IpAddress)
    ensures
        is_viable(a) <==> outside_unreachable_blocks(a),
{
    match a {
        IpAddress::V4(o) => law_reachable_v4(o),
        IpAddress::V6(o) => law_reachable_v6(o),
    }
}

proof fn lemma_next_viable_from_unmarked(version: i32, lines: Seq<Seq<u8>>)
    ensures
        next_viable_of(version, lines).0 matches Some(a) ==> exists|k: int|
            0 <= k < lines.len() && mentions_no_mark(#[trigger] lines[k]) && offers_parsed(version, lines[k], a)
                && outside_unreachable_blocks(a) && forall|i: int| 0 <= i < k ==> !offers_reachable(version, #[trigger] lines[i]),
        next_viable_of(version, lines).0 is None ==> forall|i: int|
            0 <= i < lines.len() ==> !offers_reachable(version, #[trigger] lines[i]),
    decreases lines.len(),
{
    if lines.len() > 0 {
        let rest = lines.drop_first();
        lemma_next_viable_from_unmarked(version, rest);
        let first_gives = match line_candidate_text(version, lines[0]) {
            Some(t) => viable_parse(t) is Some,
            None => false,
        };
        if let Some(t) = line_candidate_text(version, lines[0]) {
            if let Some(b) = spec_parse_ip(t) {
                lemma_viable_iff_outside(b);
            }
        }
        if first_gives {
            lemma_contains_iff_mentions(lines[0], temporary_word());
            lemma_contains_iff_mentions(lines[0], detached_word());
            lemma_contains_iff_mentions(lines[0], deprecated_word());
            assert(mentions_no_mark(lines[0]));
        } else {
            assert(!offers_reachable(version, lines[0]));
            if let Some(a) = next_viable_of(version, rest).0 {
                let k = choose|k: int|
                    0 <= k < rest.len() && mentions_no_mark(#[trigger] rest[k]) && offers_parsed(version, rest[k], a)
                        && outside_unreachable_blocks(a) && forall|i: int|
                        0 <= i < k ==> !offers_reachable(version, #[trigger] rest[i]);
                assert(lines[k + 1] == rest[k]);
                assert forall|i: int| 0 <= i < k + 1 implies !offers_reachable(version, #[trigger] lines[i]) by {
                    if i > 0 {
                        assert(lines[i] == rest[i - 1]);
                    }
                }
            } else {
                assert forall|i: int| 0 <= i < lines.len() implies !offers_reachable(version, #[trigger] lines[i]) by {
                    if i > 0 {
                        assert(lines[i] == rest[i - 1]);
                    }
                }
            }
        }
    }
}

/// The address an interface answers with is the parse of the address on a
/// line of the output that mentions none of `temporary`, `detached` and
/// `deprecated`, lies outside the unreachable blocks, and no earlier line
/// offers an address outside them; with no answer, no line offers one.
pub proof fn law_interface_answer_from_unmarked_line(version: i32, out: Seq<u8>)
    ensures
        first_viable_in_output(version, out) matches Some(a) ==> exists|k: int|
            0 <= k < lines_from(out, 0).len() && mentions_no_mark(#[trigger] lines_from(out, 0)[k]) && offers_parsed(
                version,
                lines_from(out, 0)[k],
                a,
            ) && outside_unreachable_blocks(a) && forall|i: int|
                0 <= i < k ==> !offers_reachable(version, #[trigger] lines_from(out, 0)[i]),
        first_viable_in_output(version, out) is None ==> forall|i: int|
            0 <= i < lines_from(out, 0).len() ==> !offers_reachable(version, #[trigger] lines_from(out, 0)[i]),
{
    lemma_next_viable_from_unmarked(version, lines_from(out, 0));
}

} // verus!
