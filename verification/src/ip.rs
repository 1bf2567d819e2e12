use vstd::prelude::*;

use vstd::utf8::{decode_utf8, valid_utf8};

use byteorder::{BigEndian, ByteOrder};

verus! {

/// An IP address of either family, held as its octets in network order,
/// the way `std::net::Ipv4Addr::octets` and `std::net::Ipv6Addr::octets` give them.
#[derive(Debug, Clone, Copy, PartialEq, Eq)]
pub enum IpAddress {
    V4([u8; 4]),
    V6([u8; 16]),
}

/// The number that a byte string denotes when read most significant byte first.
pub open spec fn be_value(bytes: Seq<u8>) -> nat
    decreases bytes.len(),
{
    if bytes.len() == 0 {
        0
    } else {
        be_value(bytes.drop_last()) * 256 + bytes.last() as nat
    }
}

/// `256` to the power `n`.
pub open spec fn pow256(n: nat) -> nat
    decreases n,
{
    if n == 0 {
        1
    } else {
        pow256((n - 1) as nat) * 256
    }
}

/// Reading `a` followed by `b` gives `a`'s value shifted left by `b`'s
/// bytes plus `b`'s value, which is below `256` to the number of its bytes.
pub proof fn lemma_be_value_concat(a: Seq<u8>, b: Seq<u8>)
    ensures
        be_value(a + b) == be_value(a) * pow256(b.len()) + be_value(b),
        be_value(b) < pow256(b.len()),
    decreases b.len(),
{
    if b.len() == 0 {
        assert(a + b =~= a);
        assert(pow256(0) == 1);
        assert(be_value(a) * 1 == be_value(a));
    } else {
        let b2 = b.drop_last();
        lemma_be_value_concat(a, b2);
        assert((a + b).drop_last() =~= a + b2);
        assert((a + b).last() == b.last());
        let x = be_value(a);
        let p = pow256(b2.len());
        let y = be_value(b2);
        let l = b.last() as nat;
        assert(be_value(a + b) == be_value(a + b2) * 256 + l);
        assert(be_value(b) == y * 256 + l);
        assert(pow256(b.len()) == p * 256);
        assert((x * p + y) * 256 + l == x * (p * 256) + (y * 256 + l)) by (nonlinear_arith);
        assert(y < p && l < 256 ==> y * 256 + l < p * 256) by (nonlinear_arith);
        assert(be_value(a + b) == x * pow256(b.len()) + be_value(b));
    }
}

/// Reads four octets as a big-endian `u32` with `byteorder::BigEndian::read_u32`.
/// Trusted: the value is the octets read most significant first
/// (byteorder's source reads them with `u32::from_be_bytes`).
#[verifier::external_body]
pub(crate) fn read_u32_be(octets: &[u8; 4]) -> (res: u32)
    ensures
        res as nat == be_value(octets@),
{
    BigEndian::read_u32(octets)
}

/// Reads sixteen octets as a big-endian `u128` with `byteorder::BigEndian::read_u128`.
/// Trusted: the value is the octets read most significant first
/// (byteorder's source reads them with `u128::from_be_bytes`).
#[verifier::external_body]
pub(crate) fn read_u128_be(octets: &[u8; 16]) -> (res: u128)
    ensures
        res as nat == be_value(octets@),
{
    BigEndian::read_u128(octets)
}

/// The octets of a `u32` in network order, most significant first.
pub(crate) fn u32_to_octets(n: u32) -> (res: [u8; 4])
    ensures
        be_value(res@) == n as nat,
{
    let res: [u8; 4] = [(n >> 24u32) as u8, (n >> 16u32) as u8, (n >> 8u32) as u8, n as u8];
    proof {
        let s = res@;
        assert(s.drop_last().drop_last().drop_last().drop_last() =~= Seq::<u8>::empty());
        reveal_with_fuel(be_value, 5);
        assert(((n >> 24u32) as u8) as u32 == (n >> 24u32) & 0xff && ((n >> 16u32) as u8) as u32 == (n >> 16u32)
            & 0xff && ((n >> 8u32) as u8) as u32 == (n >> 8u32) & 0xff && (n as u8) as u32 == n & 0xff) by (bit_vector);
        assert((((((n >> 24u32) & 0xff) * 256 + ((n >> 16u32) & 0xff)) * 256 + ((n >> 8u32) & 0xff)) * 256 + (n
            & 0xff)) == n) by (bit_vector);
    }
    res
}

/// The octets of a `u128` in network order, most significant first.
pub(crate) fn u128_to_octets(n: u128) -> (res: [u8; 16])
    ensures
        be_value(res@) == n as nat,
{
    let mut res: [u8; 16] = [0u8; 16];
    let mut i: usize = 0;
    while i < 16
        invariant
            0 <= i <= 16,
            res@.len() == 16,
            i == 0 ==> be_value(res@.take(i as int)) == 0,
            0 < i ==> be_value(res@.take(i as int)) == (n >> ((8 * (16 - i)) as u128)) as nat,
        decreases 16 - i,
    {
        let sh: u128 = (8 * (15 - i)) as u128;
        let byte: u8 = (n >> sh) as u8;
        let ghost before = res@.take(i as int);
        res[i] = byte;
        proof {
            assert(res@.take(i + 1).drop_last() =~= before);
            assert(res@.take(i + 1).last() == byte);
            assert(((n >> sh) as u8) as u128 == (n >> sh) & 0xff) by (bit_vector);
            if i == 0 {
                assert(sh == 120 ==> (n >> sh) & 0xff == n >> sh) by (bit_vector);
            } else {
                assert(sh < 120 ==> (n >> (sh + 8)) * 256 + ((n >> sh) & 0xff) == n >> sh) by (bit_vector);
                assert(((8 * (16 - i)) as u128) == sh + 8);
            }
        }
        i = i + 1;
    }
    assert(res@.take(16) =~= res@);
    assert(n >> 0u128 == n) by (bit_vector);
    res
}

/// What `core::net::IpAddr::from_str` makes of a text.
pub uninterp spec fn spec_parse_ip(text: Seq<char>) -> Option<IpAddress>;

/// What `core::net::Ipv4Addr::from_str` makes of a text, as octets.
pub uninterp spec fn spec_parse_ipv4(text: Seq<char>) -> Option<Seq<u8>>;

/// What `core::net::Ipv6Addr::from_str` makes of a text, as octets.
pub uninterp spec fn spec_parse_ipv6(text: Seq<char>) -> Option<Seq<u8>>;

/// Parses an address of either family with `core::net::IpAddr::from_str`.
/// Trusted: the result is `spec_parse_ip` of the text, the octets of the
/// parsed address in the family it was written in.
#[verifier::external_body]
pub(crate) fn parse_ip(text: &str) -> (res: Option<IpAddress>)
    ensures
        res == spec_parse_ip(text@),
{
    match text.parse::<core::net::IpAddr>() {
        Ok(core::net::IpAddr::V4(a)) => Some(IpAddress::V4(a.octets())),
        Ok(core::net::IpAddr::V6(a)) => Some(IpAddress::V6(a.octets())),
        Err(_) => None,
    }
}

/// Parses an IPv4 address with `core::net::Ipv4Addr::from_str`.
/// Trusted: the result is `spec_parse_ipv4` of the text, as octets.
#[verifier::external_body]
pub(crate) fn parse_ipv4(text: &str) -> (res: Option<[u8; 4]>)
    ensures
        res is Some <==> spec_parse_ipv4(text@) is Some,
        res matches Some(o) ==> spec_parse_ipv4(text@) == Some(o@),
{
    match text.parse::<core::net::Ipv4Addr>() {
        Ok(a) => Some(a.octets()),
        Err(_) => None,
    }
}

/// Parses an IPv6 address with `core::net::Ipv6Addr::from_str`.
/// Trusted: the result is `spec_parse_ipv6` of the text, as octets.
#[verifier::external_body]
pub(crate) fn parse_ipv6(text: &str) -> (res: Option<[u8; 16]>)
    ensures
        res is Some <==> spec_parse_ipv6(text@) is Some,
        res matches Some(o) ==> spec_parse_ipv6(text@) == Some(o@),
{
    match text.parse::<core::net::Ipv6Addr>() {
        Ok(a) => Some(a.octets()),
        Err(_) => None,
    }
}

/// The length of the longest prefix of `bytes` that is valid UTF-8.
pub open spec fn valid_prefix_len(bytes: Seq<u8>) -> int {
    choose|i: int|
        0 <= i <= bytes.len() && valid_utf8(bytes.take(i)) && forall|j: int|
            i < j <= bytes.len() ==> !valid_utf8(#[trigger] bytes.take(j))
}

/// What `std::str::Utf8Error::error_len` reports for bytes that are not UTF-8.
pub uninterp spec fn spec_utf8_error_len(bytes: Seq<u8>) -> Option<usize>;

/// Decodes UTF-8 with std's `std::str::from_utf8`; on failure gives the
/// error's `valid_up_to` and `error_len`.
/// Trusted: std documents that decoding succeeds exactly on valid UTF-8 and
/// then gives the text those bytes encode; that `valid_up_to` is the largest
/// index up to which the bytes are valid UTF-8; and that `error_len` is `None`
/// when the input ends 1 to 3 bytes after that index in the middle of a
/// character, else the length of the invalid sequence that starts there.
#[verifier::external_body]
pub(crate) fn utf8_text(bytes: &[u8]) -> (res: Result<&str, (usize, Option<usize>)>)
    ensures
        res is Ok <==> valid_utf8(bytes@),
        res matches Ok(s) ==> s@ == decode_utf8(bytes@),
        res matches Err(e) ==> {
            &&& e.0 == valid_prefix_len(bytes@)
            &&& e.1 == spec_utf8_error_len(bytes@)
            &&& e.1 is None ==> e.0 < bytes@.len() <= e.0 + 3
            &&& e.1 matches Some(k) ==> 1 <= k && e.0 + k <= bytes@.len()
        },
{
    match std::str::from_utf8(bytes) {
        Ok(s) => Ok(s),
        Err(e) => Err((e.valid_up_to(), e.error_len())),
    }
}

/// The character of a decimal digit.
pub open spec fn decimal_digit(d: nat) -> char {
    if d == 0 {
        '0'
    } else if d == 1 {
        '1'
    } else if d == 2 {
        '2'
    } else if d == 3 {
        '3'
    } else if d == 4 {
        '4'
    } else if d == 5 {
        '5'
    } else if d == 6 {
        '6'
    } else if d == 7 {
        '7'
    } else if d == 8 {
        '8'
    } else {
        '9'
    }
}

/// A number written in decimal, without leading zeros.
pub open spec fn decimal(n: nat) -> Seq<char>
    decreases n,
{
    if n < 10 {
        seq![decimal_digit(n)]
    } else {
        decimal(n / 10).push(decimal_digit(n % 10))
    }
}

fn digit_text(d: usize) -> (res: &'static str)
    requires
        d < 10,
    ensures
        res@ == seq![decimal_digit(d as nat)],
{
    if d == 0 {
        proof { reveal_strlit("0"); }
        "0"
    } else if d == 1 {
        proof { reveal_strlit("1"); }
        "1"
    } else if d == 2 {
        proof { reveal_strlit("2"); }
        "2"
    } else if d == 3 {
        proof { reveal_strlit("3"); }
        "3"
    } else if d == 4 {
        proof { reveal_strlit("4"); }
        "4"
    } else if d == 5 {
        proof { reveal_strlit("5"); }
        "5"
    } else if d == 6 {
        proof { reveal_strlit("6"); }
        "6"
    } else if d == 7 {
        proof { reveal_strlit("7"); }
        "7"
    } else if d == 8 {
        proof { reveal_strlit("8"); }
        "8"
    } else {
        proof { reveal_strlit("9"); }
        "9"
    }
}

/// A number written in decimal.
pub fn decimal_text(n: usize) -> (res: String)
    ensures
        res@ == decimal(n as nat),
    decreases n,
{
    if n < 10 {
        String::from_str(digit_text(n))
    } else {
        let mut s = decimal_text(n / 10);
        s.append(digit_text(n % 10));
        s
    }
}

/// The number that a string of decimal digits denotes.
pub open spec fn decimal_value(digits: Seq<char>) -> int
    decreases digits.len(),
{
    if digits.len() == 0 {
        0
    } else {
        decimal_value(digits.drop_last()) * 10 + (digits.last() as int - '0' as int)
    }
}

proof fn lemma_decimal_digit_value(d: nat)
    requires
        d < 10,
    ensures
        decimal_digit(d) as int - '0' as int == d,
        '0' <= decimal_digit(d) <= '9',
{
    assert('0' as int == 48);
    assert('9' as int == 57);
    if d == 0 {
    } else if d == 1 {
        assert('1' as int == 49);
    } else if d == 2 {
        assert('2' as int == 50);
    } else if d == 3 {
        assert('3' as int == 51);
    } else if d == 4 {
        assert('4' as int == 52);
    } else if d == 5 {
        assert('5' as int == 53);
    } else if d == 6 {
        assert('6' as int == 54);
    } else if d == 7 {
        assert('7' as int == 55);
    } else if d == 8 {
        assert('8' as int == 56);
    }
}

/// Writing a number in decimal gives digits `0` to `9` only, with no leading
/// zero (but for the number zero itself), that read back as the number.
pub proof fn law_decimal_reads_back(n: nat)
    ensures
        decimal_value(decimal(n)) == n,
        decimal(n).len() >= 1,
        forall|i: int| 0 <= i < decimal(n).len() ==> '0' <= #[trigger] decimal(n)[i] <= '9',
        decimal(n)[0] == '0' ==> n == 0,
    decreases n,
{
    lemma_decimal_digit_value((n % 10) as nat);
    if n < 10 {
        assert(decimal(n).drop_last() =~= Seq::<char>::empty());
        assert(decimal_value(Seq::<char>::empty()) == 0);
        assert(decimal(n).last() == decimal_digit(n));
    } else {
        law_decimal_reads_back(n / 10);
        let d = decimal(n / 10);
        assert(decimal(n).drop_last() =~= d);
        assert(decimal(n)[0] == d[0]);
        assert forall|i: int| 0 <= i < decimal(n).len() implies '0' <= #[trigger] decimal(n)[i] <= '9' by {
            if i < d.len() {
                assert(decimal(n)[i] == d[i]);
            }
        }
    }
}

/// The text that std's decoding error shows for bytes that are valid UTF-8 up
/// to `valid_up_to` and then have an invalid sequence of `error_len` bytes, or
/// end in the middle of a character (`error_len` is `None`).
pub open spec fn utf8_error_text(valid_up_to: nat, error_len: Option<usize>) -> Seq<char> {
    match error_len {
        Some(k) => "invalid utf-8 sequence of "@ + decimal(k as nat) + " bytes from index "@ + decimal(valid_up_to),
        None => "incomplete utf-8 byte sequence from index "@ + decimal(valid_up_to),
    }
}

/// The text of std's decoding error for `bytes` that are not UTF-8.
pub open spec fn utf8_error_of(bytes: Seq<u8>) -> Seq<char> {
    utf8_error_text(valid_prefix_len(bytes) as nat, spec_utf8_error_len(bytes))
}

/// Writes the text of std's decoding error (see `utf8_error_text`).
pub fn utf8_error_message(valid_up_to: usize, error_len: Option<usize>) -> (res: String)
    ensures
        res@ == utf8_error_text(valid_up_to as nat, error_len),
{
    match error_len {
        Some(k) => {
            let mut s = String::from_str("invalid utf-8 sequence of ");
            let count = decimal_text(k);
            s.append(count.as_str());
            s.append(" bytes from index ");
            let index = decimal_text(valid_up_to);
            s.append(index.as_str());
            s
        },
        None => {
            let mut s = String::from_str("incomplete utf-8 byte sequence from index ");
            let index = decimal_text(valid_up_to);
            s.append(index.as_str());
            s
        },
    }
}

} // verus!
