//! Reading the proxy scanner's report: which lines announce a live proxy, the
//! address, response time and location on such a line, and IPv4 address checks.

use crate::text::{
    all_digits, decimal, in_class, unsigned_value, is_digit, lemma_decimal_value, lemma_pieces_len, occurs_at, bounded_value, char_vecs, chars_of, contains_char, find_char, find_seq, first_index,
    first_match, last_index, lemma_first_index, lemma_first_match, lemma_last_index, lines,
    lines_of, parse_unsigned, pieces, rfind_char, split_by, string_of, sub_chars, trim_by,
    trim_back, trim_front, trimmed, words, words_by, CharClass,
};
use crate::trusted::{numeric_char, whitespace_char};
use crate::trusted::char_is_numeric;
use vstd::prelude::*;

verus! {

broadcast use vstd::string::group_string_axioms;

/// A live proxy found in the scanner's report.
#[derive(Debug, Clone)]
pub struct ProxyInfo {
    pub ip: String,
    pub port: u16,
    pub location: String,
    pub response_time: u32,
}

/// The plain values of a `ProxyInfo`.
pub struct ProxyInfoView {
    pub ip: Seq<char>,
    pub port: u16,
    pub location: Seq<char>,
    pub response_time: u32,
}

impl View for ProxyInfo {
    type V = ProxyInfoView;

    open spec fn view(&self) -> ProxyInfoView {
        ProxyInfoView {
            ip: self.ip@,
            port: self.port,
            location: self.location@,
            response_time: self.response_time,
        }
    }
}

/// The port that every proxy of the report is taken to listen on.
pub const DEFAULT_PROXY_PORT: u16 = 443;

/// The check mark that some report lines carry, U+2705.
pub open spec fn check_mark() -> char {
    '\u{2705}'
}

// ---------------------------------------------------------------------------
// IPv4 addresses
// ---------------------------------------------------------------------------

/// Dotted-quad text: exactly four parts between dots, each an unsigned decimal (an
/// optional `+` and digits) of at most 255.
pub open spec fn valid_ip_text(s: Seq<char>) -> bool {
    let parts = pieces(s, CharClass::Dot);
    &&& parts.len() == 4
    &&& forall|i: int| 0 <= i < 4 ==> (#[trigger] bounded_value(parts[i], 255)) is Some
}

/// Checks dotted-quad text given as characters.
pub fn valid_ip_chars(ip: &Vec<char>) -> (r: bool)
    ensures
        r == valid_ip_text(ip@),
{
    let parts = split_by(ip, CharClass::Dot);
    if parts.len() != 4 {
        return false;
    }
    for i in 0..4
        invariant
            parts@.len() == 4,
            char_vecs(parts@) == pieces(ip@, CharClass::Dot),
            forall|j: int| 0 <= j < i ==> (#[trigger] bounded_value(char_vecs(parts@)[j], 255)) is Some,
    {
        assert(char_vecs(parts@)[i as int] == parts@[i as int]@);
        if parse_unsigned(&parts[i], 255).is_none() {
            return false;
        }
    }
    true
}

/// Whether `ip` is an IPv4 address in dotted-quad form.
pub fn validate_ip(ip: &str) -> (r: bool)
    ensures
        r == valid_ip_text(ip@),
{
    let cs = chars_of(ip);
    valid_ip_chars(&cs)
}

// ---------------------------------------------------------------------------
// Numbers in parentheses
// ---------------------------------------------------------------------------

/// The numeric characters of `s`, in order.
pub open spec fn numeric_only(s: Seq<char>) -> Seq<char>
    decreases s.len(),
{
    if s.len() == 0 {
        Seq::empty()
    } else if numeric_char(s.last()) {
        numeric_only(s.drop_last()).push(s.last())
    } else {
        numeric_only(s.drop_last())
    }
}

/// Keeps the numeric characters.
fn keep_numeric(s: &Vec<char>) -> (r: Vec<char>)
    ensures
        r@ == numeric_only(s@),
{
    let mut r: Vec<char> = Vec::new();
    let n = s.len();
    for i in 0..n
        invariant
            n == s@.len(),
            r@ == numeric_only(s@.take(i as int)),
    {
        assert(s@.take(i + 1).drop_last() =~= s@.take(i as int));
        assert(s@.take(i + 1).last() == s@[i as int]);
        if char_is_numeric(s[i]) {
            r.push(s[i]);
        }
    }
    assert(s@.take(n as int) =~= s@);
    r
}

/// The number written between the last `(` before the first `marker` and that marker:
/// the numeric characters there, read as a `u32`.
pub open spec fn number_before(text: Seq<char>, marker: Seq<char>) -> Option<u32> {
    match first_match(text, marker) {
        None => None,
        Some(m) => {
            let before = text.take(m);
            match last_index(before, '(') {
                None => None,
                Some(p) => match bounded_value(numeric_only(before.skip(p + 1)), u32::MAX as nat) {
                    Some(v) => Some(v as u32),
                    None => None,
                },
            }
        },
    }
}

/// `number_before` on character vectors.
fn number_before_chars(text: &Vec<char>, marker: &Vec<char>) -> (r: Option<u32>)
    ensures
        r == number_before(text@, marker@),
{
    match find_seq(text, marker) {
        None => None,
        Some(m) => {
            proof {
                lemma_first_match(text@, marker@);
            }
            let before = sub_chars(text, 0, m);
            assert(before@ =~= text@.take(m as int));
            match rfind_char(&before, '(') {
                None => None,
                Some(p) => {
                    proof {
                        lemma_last_index(before@, '(');
                    }
                    let inside = sub_chars(&before, p + 1, m);
                    assert(inside@ =~= before@.skip(p + 1));
                    let digits = keep_numeric(&inside);
                    parse_unsigned(&digits, u32::MAX)
                },
            }
        },
    }
}

/// Extracts the number in parentheses that stands before `marker` in `text`
/// (for example the response time in `(989 ms)`).
pub fn extract_number_before(text: &str, marker: &str) -> (r: Option<u32>)
    ensures
        r == number_before(text@, marker@),
{
    let t = chars_of(text);
    let m = chars_of(marker);
    number_before_chars(&t, &m)
}

// ---------------------------------------------------------------------------
// Report lines
// ---------------------------------------------------------------------------

/// An address candidate cut from a word: white space, then every non-numeric
/// character other than `.`, trimmed off both ends.
pub open spec fn address_candidate(part: Seq<char>) -> Seq<char> {
    trimmed(trimmed(part, CharClass::Whitespace), CharClass::NotAddress)
}

/// A word that holds the proxy's address: it has a dot, no check mark, and its address
/// candidate is a valid IPv4 address.
pub open spec fn holds_address(part: Seq<char>) -> bool {
    &&& part.contains('.')
    &&& !part.contains(check_mark())
    &&& valid_ip_text(address_candidate(part))
}

/// Index of the first word that holds an address.
pub open spec fn first_address_word(parts: Seq<Seq<char>>) -> Option<int>
    decreases parts.len(),
{
    if parts.len() == 0 {
        None
    } else if holds_address(parts[0]) {
        Some(0)
    } else {
        match first_address_word(parts.drop_first()) {
            Some(i) => Some(i + 1),
            None => None,
        }
    }
}

/// `first_address_word` finds the least index of a word holding an address.
pub proof fn lemma_first_address_word(parts: Seq<Seq<char>>)
    ensures
        match first_address_word(parts) {
            Some(i) => 0 <= i < parts.len() && holds_address(parts[i]) && forall|j: int|
                0 <= j < i ==> !holds_address(#[trigger] parts[j]),
            None => forall|j: int| 0 <= j < parts.len() ==> !holds_address(#[trigger] parts[j]),
        },
    decreases parts.len(),
{
    if parts.len() > 0 && !holds_address(parts[0]) {
        lemma_first_address_word(parts.drop_first());
        assert forall|j: int| 1 <= j < parts.len() implies parts[j] == parts.drop_first()[j
            - 1] by {}
    }
}

/// The location named on a report line: what follows its last `-`, trimmed, or
/// `Unknown` when the line has no `-`.
pub open spec fn location_of(line: Seq<char>) -> Seq<char> {
    match last_index(line, '-') {
        Some(d) => trimmed(line.skip(d + 1), CharClass::Whitespace),
        None => "Unknown"@,
    }
}

/// The response time on a report line: the number before `ms)`, or 0.
pub open spec fn response_time_of(line: Seq<char>) -> u32 {
    match number_before(line, "ms)"@) {
        Some(v) => v,
        None => 0,
    }
}

/// The proxy a report line describes: after the first `:`, the first white-space
/// separated word that holds an address gives the address.
pub open spec fn proxy_from_line(line: Seq<char>) -> Option<ProxyInfoView> {
    match first_index(line, ':') {
        None => None,
        Some(k) => {
            let parts = words(line.skip(k + 1), CharClass::Whitespace);
            match first_address_word(parts) {
                None => None,
                Some(i) => Some(
                    ProxyInfoView {
                        ip: address_candidate(parts[i]),
                        port: DEFAULT_PROXY_PORT,
                        location: location_of(line),
                        response_time: response_time_of(line),
                    },
                ),
            }
        },
    }
}

/// The location of a line given as characters.
fn location_chars(cs: &Vec<char>) -> (r: String)
    ensures
        r@ == location_of(cs@),
{
    match rfind_char(cs, '-') {
        Some(d) => {
            proof {
                lemma_last_index(cs@, '-');
            }
            let n = cs.len();
            assert(d < n);
            let rest = sub_chars(cs, d + 1, n);
            assert(rest@ =~= cs@.skip(d + 1));
            let t = trim_by(&rest, CharClass::Whitespace);
            string_of(&t)
        },
        None => String::from_str("Unknown"),
    }
}

/// `proxy_from_line` on a line given as characters.
pub fn proxy_from_chars(cs: &Vec<char>) -> (r: Option<ProxyInfo>)
    ensures
        match r {
            Some(p) => proxy_from_line(cs@) == Some(p@),
            None => proxy_from_line(cs@) is None,
        },
{
    let k = match find_char(cs, ':') {
        Some(k) => k,
        None => {
            return None;
        },
    };
    proof {
        lemma_first_index(cs@, ':');
    }
    let len = cs.len();
    assert(k < len);
    let after = sub_chars(cs, k + 1, len);
    assert(after@ =~= cs@.skip(k + 1));
    let parts = words_by(&after, CharClass::Whitespace);
    let ghost ps = char_vecs(parts@);
    proof {
        lemma_first_address_word(ps);
    }
    let n = parts.len();
    for i in 0..n
        invariant
            n == parts@.len(),
            ps == char_vecs(parts@),
            ps == words(cs@.skip(k + 1), CharClass::Whitespace),
            first_index(cs@, ':') == Some(k as int),
            forall|j: int| 0 <= j < i ==> !holds_address(#[trigger] ps[j]),
            match first_address_word(ps) {
                Some(i) => 0 <= i < ps.len() && holds_address(ps[i]) && forall|j: int|
                    0 <= j < i ==> !holds_address(#[trigger] ps[j]),
                None => forall|j: int| 0 <= j < ps.len() ==> !holds_address(#[trigger] ps[j]),
            },
    {
        let part = &parts[i];
        assert(ps[i as int] == part@);
        if contains_char(part, '.') && !contains_char(part, '\u{2705}') {
            let inner = trim_by(part, CharClass::Whitespace);
            let candidate = trim_by(&inner, CharClass::NotAddress);
            if valid_ip_chars(&candidate) {
                assert(holds_address(ps[i as int]));
                let ms = chars_of("ms)");
                let response_time = match number_before_chars(cs, &ms) {
                    Some(v) => v,
                    None => 0,
                };
                let location = location_chars(cs);
                let ip = string_of(&candidate);
                let info = ProxyInfo { ip, port: DEFAULT_PROXY_PORT, location, response_time };
                return Some(info);
            }
        }
    }
    None
}

/// Parses one line of the scanner's report, such as
/// `PROXY LIVE ✅: 167.114.67.25 (989 ms) - Beauharnois`.
pub fn parse_proxy_line(line: &str) -> (r: Option<ProxyInfo>)
    ensures
        match r {
            Some(p) => proxy_from_line(line@) == Some(p@),
            None => proxy_from_line(line@) is None,
        },
{
    let cs = chars_of(line);
    proxy_from_chars(&cs)
}

// ---------------------------------------------------------------------------
// Whole reports
// ---------------------------------------------------------------------------

/// A line that announces a live proxy: it mentions `PROXY LIVE` and has a check mark
/// or a `:`.
pub open spec fn announces_live_proxy(line: Seq<char>) -> bool {
    &&& first_match(line, "PROXY LIVE"@) is Some
    &&& (line.contains(check_mark()) || line.contains(':'))
}

/// The proxies that a sequence of report lines yields, in order.
pub open spec fn proxies_in(ls: Seq<Seq<char>>) -> Seq<ProxyInfoView>
    decreases ls.len(),
{
    if ls.len() == 0 {
        Seq::empty()
    } else {
        let r = proxies_in(ls.drop_last());
        if announces_live_proxy(ls.last()) {
            match proxy_from_line(ls.last()) {
                Some(p) => r.push(p),
                None => r,
            }
        } else {
            r
        }
    }
}

/// The plain values of a sequence of proxies.
pub open spec fn proxy_views(v: Seq<ProxyInfo>) -> Seq<ProxyInfoView> {
    v.map_values(|p: ProxyInfo| p@)
}

/// The live proxies listed in the text of a scanner report, in the order of their lines.
pub fn parse_proxy_list(content: &str) -> (r: Vec<ProxyInfo>)
    ensures
        proxy_views(r@) == proxies_in(lines(content@)),
{
    let cs = chars_of(content);
    let ls = lines_of(&cs);
    let ghost all = char_vecs(ls@);
    let live = chars_of("PROXY LIVE");
    let mut r: Vec<ProxyInfo> = Vec::new();
    let n = ls.len();
    for i in 0..n
        invariant
            n == all.len(),
            all == char_vecs(ls@),
            all == lines(content@),
            live@ == "PROXY LIVE"@,
            proxy_views(r@) == proxies_in(all.take(i as int)),
    {
        let line = &ls[i];
        proof {
            assert(all.take(i + 1).drop_last() =~= all.take(i as int));
            assert(all.take(i + 1).last() == line@);
        }
        let ghost before = proxy_views(r@);
        if find_seq(line, &live).is_some() && (contains_char(line, '\u{2705}') || contains_char(
            line,
            ':',
        )) {
            match proxy_from_chars(line) {
                Some(p) => {
                    r.push(p);
                    assert(proxy_views(r@) =~= before.push(p@));
                },
                None => {},
            }
        }
    }
    assert(all.take(n as int) =~= all);
    r
}

// ---------------------------------------------------------------------------
// Laws
// ---------------------------------------------------------------------------

/// Every proxy read from a report line has a valid IPv4 address and the default port.
pub proof fn lemma_parsed_proxy_is_valid(line: Seq<char>)
    ensures
        proxy_from_line(line) matches Some(p) ==> valid_ip_text(p.ip) && p.port
            == DEFAULT_PROXY_PORT,
{
    match first_index(line, ':') {
        None => {},
        Some(k) => {
            lemma_first_address_word(words(line.skip(k + 1), CharClass::Whitespace));
        },
    }
}

/// The proxies of a report come from distinct lines, so there are no more of them than
/// lines, and each has a valid IPv4 address and the default port.
pub proof fn lemma_report_proxies_valid(ls: Seq<Seq<char>>)
    ensures
        proxies_in(ls).len() <= ls.len(),
        forall|i: int|
            0 <= i < proxies_in(ls).len() ==> valid_ip_text(#[trigger] proxies_in(ls)[i].ip)
                && proxies_in(ls)[i].port == DEFAULT_PROXY_PORT,
    decreases ls.len(),
{
    if ls.len() > 0 {
        lemma_report_proxies_valid(ls.drop_last());
        lemma_parsed_proxy_is_valid(ls.last());
    }
}

/// The pieces of `x + y`, when `y` holds no separator: `y` extends the last piece of `x`.
pub proof fn lemma_pieces_append_plain(x: Seq<char>, y: Seq<char>, cls: CharClass)
    requires
        forall|i: int| 0 <= i < y.len() ==> !in_class(cls, #[trigger] y[i]),
    ensures
        pieces(x + y, cls) == pieces(x, cls).update(
            pieces(x, cls).len() - 1,
            pieces(x, cls).last() + y,
        ),
    decreases y.len(),
{
    lemma_pieces_len(x, cls);
    if y.len() == 0 {
        assert(x + y =~= x);
        assert(pieces(x, cls).last() + y =~= pieces(x, cls).last());
        assert(pieces(x, cls).update(pieces(x, cls).len() - 1, pieces(x, cls).last())
            =~= pieces(x, cls));
    } else {
        let y0 = y.drop_last();
        lemma_pieces_append_plain(x, y0, cls);
        assert((x + y).drop_last() =~= x + y0);
        assert((x + y).last() == y.last());
        assert(!in_class(cls, y[y.len() - 1]));
        assert(pieces(x, cls).last() + y0 + seq![y.last()] =~= pieces(x, cls).last() + y);
        assert((pieces(x, cls).last() + y0).push(y.last()) =~= pieces(x, cls).last() + y);
    }
}

/// A separator closes the last piece and opens an empty one.
pub proof fn lemma_pieces_push_separator(x: Seq<char>, c: char, cls: CharClass)
    requires
        in_class(cls, c),
    ensures
        pieces(x.push(c), cls) == pieces(x, cls).push(Seq::empty()),
{
    assert(x.push(c).drop_last() =~= x);
}

/// Decimal digits are never dots.
proof fn lemma_decimal_has_no_dot(n: nat)
    ensures
        forall|i: int| 0 <= i < decimal(n).len() ==> !in_class(CharClass::Dot, #[trigger] decimal(n)[i]),
{
    lemma_decimal_value(n);
    assert forall|i: int| 0 <= i < decimal(n).len() implies !in_class(
        CharClass::Dot,
        #[trigger] decimal(n)[i],
    ) by {
        assert(is_digit(decimal(n)[i]));
    }
}

/// Four numbers written in decimal and joined by dots.
pub open spec fn dotted_quad(a: nat, b: nat, c: nat, d: nat) -> Seq<char> {
    decimal(a).push('.') + decimal(b).push('.') + decimal(c).push('.') + decimal(d)
}

/// The dot-separated parts of four decimal numbers joined by dots are those numbers.
pub proof fn lemma_dotted_quad_pieces(a: nat, b: nat, c: nat, d: nat)
    ensures
        pieces(dotted_quad(a, b, c, d), CharClass::Dot) == seq![
            decimal(a),
            decimal(b),
            decimal(c),
            decimal(d),
        ],
{
    let (da, db, dc, dd) = (decimal(a), decimal(b), decimal(c), decimal(d));
    let e: Seq<char> = Seq::empty();
    lemma_decimal_has_no_dot(a);
    lemma_decimal_has_no_dot(b);
    lemma_decimal_has_no_dot(c);
    lemma_decimal_has_no_dot(d);
    let cls = CharClass::Dot;
    lemma_pieces_append_plain(e, da, cls);
    assert(e + da =~= da);
    assert(pieces(da, cls) =~= seq![da]);
    lemma_pieces_push_separator(da, '.', cls);
    let s1 = da.push('.');
    lemma_pieces_append_plain(s1, db, cls);
    let s2 = s1 + db;
    assert(pieces(s2, cls) =~= seq![da, db]);
    lemma_pieces_push_separator(s2, '.', cls);
    let s3 = s2.push('.');
    lemma_pieces_append_plain(s3, dc, cls);
    let s4 = s3 + dc;
    assert(pieces(s4, cls) =~= seq![da, db, dc]);
    lemma_pieces_push_separator(s4, '.', cls);
    let s5 = s4.push('.');
    lemma_pieces_append_plain(s5, dd, cls);
    let s6 = s5 + dd;
    assert(pieces(s6, cls) =~= seq![da, db, dc, dd]);
    assert(s6 =~= dotted_quad(a, b, c, d));
}

/// Four decimal numbers joined by dots are a valid address exactly when each of them
/// is at most 255: a number above 255 in any of the four places is rejected.
pub proof fn lemma_dotted_quad_valid_iff(a: nat, b: nat, c: nat, d: nat)
    ensures
        valid_ip_text(dotted_quad(a, b, c, d)) <==> (a <= 255 && b <= 255 && c <= 255 && d <= 255),
{
    lemma_dotted_quad_pieces(a, b, c, d);
    lemma_decimal_value(a);
    lemma_decimal_value(b);
    lemma_decimal_value(c);
    lemma_decimal_value(d);
    let parts = pieces(dotted_quad(a, b, c, d), CharClass::Dot);
    assert(parts[0] == decimal(a));
    assert(parts[1] == decimal(b));
    assert(parts[2] == decimal(c));
    assert(parts[3] == decimal(d));
    if a <= 255 && b <= 255 && c <= 255 && d <= 255 {
        assert forall|i: int| 0 <= i < 4 implies (#[trigger] bounded_value(parts[i], 255)) is Some by {}
    } else {
        if a > 255 {
            assert(bounded_value(parts[0], 255) is None);
        } else if b > 255 {
            assert(bounded_value(parts[1], 255) is None);
        } else if c > 255 {
            assert(bounded_value(parts[2], 255) is None);
        } else {
            assert(bounded_value(parts[3], 255) is None);
        }
    }
}

/// `validate_ip` accepts every address written as four decimal octets.
pub proof fn lemma_dotted_quad_is_valid(a: u8, b: u8, c: u8, d: u8)
    ensures
        valid_ip_text(dotted_quad(a as nat, b as nat, c as nat, d as nat)),
{
    lemma_dotted_quad_valid_iff(a as nat, b as nat, c as nat, d as nat);
}

/// A valid address has exactly four dot-separated parts, each an unsigned number of at
/// most 255; a text with a part that reads as a number above 255 is not a valid address.
pub proof fn lemma_valid_ip_parts(s: Seq<char>)
    ensures
        valid_ip_text(s) ==> pieces(s, CharClass::Dot).len() == 4 && forall|i: int|
            0 <= i < 4 ==> (#[trigger] unsigned_value(pieces(s, CharClass::Dot)[i])) is Some
                && unsigned_value(pieces(s, CharClass::Dot)[i])->0 <= 255,
        forall|i: int|
            0 <= i < pieces(s, CharClass::Dot).len() && (#[trigger] unsigned_value(
                pieces(s, CharClass::Dot)[i],
            )) is Some && unsigned_value(pieces(s, CharClass::Dot)[i])->0 > 255
                ==> !valid_ip_text(s),
{
    let parts = pieces(s, CharClass::Dot);
    assert forall|i: int|
        0 <= i < parts.len() && valid_ip_text(s) implies (#[trigger] unsigned_value(parts[i]))
        is Some && unsigned_value(parts[i])->0 <= 255 by {
        assert(bounded_value(parts[i], 255) is Some);
    }
}

/// Digits are numeric and stay when the numeric characters are kept.
proof fn lemma_numeric_only_digits(s: Seq<char>)
    requires
        all_digits(s),
    ensures
        numeric_only(s) == s,
    decreases s.len(),
{
    if s.len() > 0 {
        assert(all_digits(s.drop_last())) by {
            assert forall|i: int| 0 <= i < s.drop_last().len() implies #[trigger] is_digit(
                s.drop_last()[i],
            ) by {
                assert(s.drop_last()[i] == s[i]);
            }
        }
        lemma_numeric_only_digits(s.drop_last());
        assert(is_digit(s[s.len() - 1]));
        assert(s.drop_last().push(s.last()) =~= s);
    }
}

/// A response time written as `(N ms)` reads back as `N`.
pub proof fn lemma_response_time_round_trip(n: u32)
    ensures
        number_before(seq!['('] + decimal(n as nat) + " ms)"@, "ms)"@) == Some(n),
{
    reveal_strlit(" ms)");
    reveal_strlit("ms)");
    let d = decimal(n as nat);
    lemma_decimal_value(n as nat);
    let t = seq!['('] + d + " ms)"@;
    let pat = "ms)"@;
    let k: int = d.len() as int + 2;
    assert(t.len() == d.len() + 5);
    assert forall|j: int| 1 <= j < d.len() + 1 implies #[trigger] t[j] == d[j - 1] by {}
    assert(t[d.len() as int + 1] == ' ');
    assert(occurs_at(t, pat, k)) by {
        assert(t.subrange(k, k + 3) =~= pat);
    }
    assert forall|j: int| 0 <= j < k implies !occurs_at(t, pat, j) by {
        if occurs_at(t, pat, j) {
            assert(t.subrange(j, j + 3)[0] == pat[0]);
            assert(t[j] == 'm');
            if 1 <= j < d.len() + 1 {
                assert(is_digit(d[j - 1]));
            }
        }
    }
    lemma_first_match(t, pat);
    assert(first_match(t, pat) == Some(k)) by {
        match first_match(t, pat) {
            Some(i) => {
                if i > k {
                } else if i < k {
                }
            },
            None => {},
        }
    }
    let before = t.take(k);
    assert(before =~= seq!['('] + d + seq![' ']);
    lemma_last_index(before, '(');
    assert(last_index(before, '(') == Some(0int)) by {
        match last_index(before, '(') {
            Some(p) => {
                if p > 0 {
                    if p < d.len() + 1 {
                        assert(before[p] == d[p - 1]);
                        assert(is_digit(d[p - 1]));
                    }
                }
            },
            None => {
                assert(before[0] == '(');
            },
        }
    }
    let inside = before.skip(1);
    assert(inside =~= d.push(' '));
    assert(inside.drop_last() =~= d);
    lemma_numeric_only_digits(d);
    assert(numeric_only(inside) == numeric_only(d));
    assert(bounded_value(d, u32::MAX as nat) == Some(n as nat));
}

/// A text that is empty or ends in a separator has an empty last piece.
proof fn lemma_pieces_last_empty(s: Seq<char>, cls: CharClass)
    requires
        s.len() == 0 || in_class(cls, s.last()),
    ensures
        pieces(s, cls).len() >= 1,
        pieces(s, cls).last() == Seq::<char>::empty(),
{
    lemma_pieces_len(s, cls);
    if s.len() > 0 {
        lemma_pieces_len(s.drop_last(), cls);
    }
}

/// Appending a line to a text that is empty or ends in a line feed appends that line to
/// its lines: kept whole when it has no line ending of its own, and without a final
/// carriage return when a line feed ends it. An empty text has no lines.
pub proof fn lemma_lines_append(s: Seq<char>, l: Seq<char>)
    requires
        s.len() == 0 || s.last() == '\n',
        forall|i: int| 0 <= i < l.len() ==> l[i] != '\n',
    ensures
        lines(Seq::empty()).len() == 0,
        l.len() > 0 ==> lines(s + l) == lines(s).push(l),
        lines(s + l.push('\n')) == lines(s).push(
            if l.len() > 0 && l.last() == '\r' {
                l.drop_last()
            } else {
                l
            },
        ),
{
    let cls = CharClass::Newline;
    let p = pieces(s, cls);
    lemma_pieces_last_empty(s, cls);
    let n = p.len();
    assert forall|i: int| 0 <= i < l.len() implies !in_class(cls, #[trigger] l[i]) by {}
    lemma_pieces_append_plain(s, l, cls);
    let q = pieces(s + l, cls);
    assert(p.last() + l =~= l);
    assert(q == p.update(n - 1, l));
    if l.len() > 0 {
        assert(lines(s + l) =~= lines(s).push(l));
    }
    lemma_pieces_push_separator(s + l, '\n', cls);
    assert(s + l.push('\n') =~= (s + l).push('\n'));
    let r = pieces(s + l.push('\n'), cls);
    assert(r == q.push(Seq::empty()));
    let last = if l.len() > 0 && l.last() == '\r' {
        l.drop_last()
    } else {
        l
    };
    assert(lines(s + l.push('\n')) =~= lines(s).push(last));
    lemma_pieces_last_empty(Seq::empty(), cls);
    assert(lines(Seq::empty()) =~= Seq::<Seq<char>>::empty());
}

/// The proxies of a report with one more line at its end, after a line feed or alone:
/// those of the report so far, then the proxy of that line when it announces one.
pub proof fn lemma_report_append_line(s: Seq<char>, l: Seq<char>)
    requires
        s.len() == 0 || s.last() == '\n',
        l.len() > 0,
        forall|i: int| 0 <= i < l.len() ==> l[i] != '\n',
    ensures
        proxies_in(lines(s + l)) == proxies_in(lines(s)) + if announces_live_proxy(l)
            && proxy_from_line(l) is Some {
            seq![proxy_from_line(l)->0]
        } else {
            Seq::empty()
        },
{
    lemma_lines_append(s, l);
    let ls = lines(s).push(l);
    assert(ls.drop_last() =~= lines(s));
    assert(proxies_in(lines(s)) + Seq::<ProxyInfoView>::empty() =~= proxies_in(lines(s)));
    if announces_live_proxy(l) && proxy_from_line(l) is Some {
        assert(proxies_in(lines(s)).push(proxy_from_line(l)->0) =~= proxies_in(lines(s)) + seq![
            proxy_from_line(l)->0,
        ]);
    }
}

/// Leading characters of the class are what trimming the front removes.
proof fn lemma_trim_front_prefix(a: Seq<char>, t: Seq<char>, cls: CharClass)
    requires
        forall|i: int| 0 <= i < a.len() ==> in_class(cls, #[trigger] a[i]),
        t.len() > 0,
        !in_class(cls, t[0]),
    ensures
        trim_front(a + t, cls) == t,
    decreases a.len(),
{
    if a.len() == 0 {
        assert(a + t =~= t);
    } else {
        assert((a + t)[0] == a[0]);
        assert((a + t).drop_first() =~= a.drop_first() + t);
        lemma_trim_front_prefix(a.drop_first(), t, cls);
    }
}

/// Trailing characters of the class are what trimming the back removes.
proof fn lemma_trim_back_suffix(t: Seq<char>, b: Seq<char>, cls: CharClass)
    requires
        forall|i: int| 0 <= i < b.len() ==> in_class(cls, #[trigger] b[i]),
        t.len() > 0,
        !in_class(cls, t.last()),
    ensures
        trim_back(t + b, cls) == t,
    decreases b.len(),
{
    if b.len() == 0 {
        assert(t + b =~= t);
    } else {
        assert((t + b).last() == b.last());
        assert((t + b).drop_last() =~= t + b.drop_last());
        lemma_trim_back_suffix(t, b.drop_last(), cls);
    }
}

/// The location on a report line is the whole text after the line's last `-`, with the
/// white space around it removed and the white space inside it kept: for a line
/// `x - w` with white space around `w`, no `-` in `w`, and `w` neither starting nor
/// ending with white space, the location is `w`.
pub proof fn lemma_location_after_last_dash(
    x: Seq<char>,
    a: Seq<char>,
    w: Seq<char>,
    b: Seq<char>,
)
    requires
        forall|i: int| 0 <= i < a.len() ==> whitespace_char(#[trigger] a[i]),
        forall|i: int| 0 <= i < b.len() ==> whitespace_char(#[trigger] b[i]),
        forall|i: int| 0 <= i < w.len() ==> #[trigger] w[i] != '-',
        w.len() > 0,
        !whitespace_char(w[0]),
        !whitespace_char(w.last()),
    ensures
        location_of(x + seq!['-'] + a + w + b) == w,
        proxy_from_line(x + seq!['-'] + a + w + b) matches Some(p) ==> p.location == w,
{
    let cls = CharClass::Whitespace;
    let line = x + seq!['-'] + a + w + b;
    let d = x.len() as int;
    let rest = a + w + b;
    assert(line =~= x + seq!['-'] + rest);
    assert forall|i: int| d < i < line.len() implies line[i] != '-' by {
        assert(line[i] == rest[i - d - 1]);
        let j = i - d - 1;
        if j < a.len() {
            assert(rest[j] == a[j]);
            assert(whitespace_char(a[j]));
        } else if j < a.len() + w.len() {
            assert(rest[j] == w[j - a.len()]);
        } else {
            assert(rest[j] == b[j - a.len() - w.len()]);
            assert(whitespace_char(b[j - a.len() - w.len()]));
        }
    }
    assert(line[d] == '-');
    lemma_last_index(line, '-');
    assert(last_index(line, '-') == Some(d));
    assert(line.skip(d + 1) =~= rest);
    assert forall|i: int| 0 <= i < a.len() implies in_class(cls, #[trigger] a[i]) by {}
    assert forall|i: int| 0 <= i < b.len() implies in_class(cls, #[trigger] b[i]) by {}
    lemma_trim_front_prefix(a, w + b, cls);
    assert(a + (w + b) =~= rest);
    assert((w + b)[0] == w[0]);
    lemma_trim_back_suffix(w, b, cls);
}

} // verus!
