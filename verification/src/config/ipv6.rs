use vstd::prelude::*;

use crate::config::{lemma_sources_prefix, lemma_sources_take, part_answers, sources_of_list, spec_sources, IPAddressConf, Ipv6Answer};
use crate::ip::{be_value, read_u128_be, u128_to_octets, IpAddress};
use crate::ipaddr_source::error::{address_error_text, AddressDeterminationError};
use crate::types::Ddns6Error;

verus! {

/// The IPv6 mask that a prefix length selects: for `len >= 0` the top `len`
/// bits, for `len < 0` the low `-len` bits. A length of `-128` keeps the whole
/// address and `0` keeps nothing, as the accepted range `[-128, 128]` says.
/// Written as `(1 << -len) - 1`, the mask for `-128` would shift by the full
/// width: that panics where overflow is checked and, where it wraps, gives
/// the empty mask (so `::` for every address). Here it is the full mask.
pub open spec fn prefix_mask_v6(len: int) -> u128 {
    if len == -128 {
        0xffff_ffff_ffff_ffff_ffff_ffff_ffff_ffffu128
    } else if len < 0 {
        ((1u128 << ((-len) as u128)) - 1) as u128
    } else if len == 0 {
        0u128
    } else {
        !(((1u128 << ((128 - len) as u128)) - 1) as u128)
    }
}

/// The message of the address error for a fixed address of the other family.
pub open spec fn not_v6_message() -> Seq<char> {
    "static address is not an IPv6 address"@
}

/// The IPv6 address that a configuration stands for, given the answers of its
/// sources in order: `None` where the configuration cannot be used for IPv6
/// (a mask of the other family, or a prefix length outside `[-128, 128]`, on an
/// address that could be determined), an error message where an address could
/// not be determined. The first part, left to right, that fails decides.
pub open spec fn eval_v6(c: IPAddressConf, ans: Seq<Ipv6Answer>) -> Option<Result<u128, Seq<char>>>
    decreases c,
{
    match c {
        IPAddressConf::Static(a) => match a {
            IpAddress::V6(o) => Some(Ok(be_value(o@) as u128)),
            IpAddress::V4(_) => Some(Err(address_error_text(not_v6_message()))),
        },
        IPAddressConf::AddressWithNetmask { addr, mask } => match eval_v6(*addr, ans) {
            Some(Ok(x)) => match mask {
                IpAddress::V6(m) => Some(Ok(x & (be_value(m@) as u128))),
                IpAddress::V4(_) => None,
            },
            other => other,
        },
        IPAddressConf::AddressWithPrefixLength { addr, len } => match eval_v6(*addr, ans) {
            Some(Ok(x)) => if -128 <= len <= 128 {
                Some(Ok(x & prefix_mask_v6(len as int)))
            } else {
                None
            },
            other => other,
        },
        IPAddressConf::Composite(v) => eval_v6_list(v@, ans),
        IPAddressConf::Interface(_) => answer_v6(ans[0]),
        IPAddressConf::Web(_) => answer_v6(ans[0]),
    }
}

/// The bitwise or of the addresses of a list of configurations.
pub open spec fn eval_v6_list(cs: Seq<IPAddressConf>, ans: Seq<Ipv6Answer>) -> Option<Result<u128, Seq<char>>>
    decreases cs,
{
    if cs.len() == 0 {
        Some(Ok(0u128))
    } else {
        let k = sources_of_list(cs.drop_last()).len() as int;
        match eval_v6_list(cs.drop_last(), ans.take(k)) {
            Some(Ok(acc)) => match eval_v6(cs.last(), ans.skip(k)) {
                Some(Ok(x)) => Some(Ok(acc | x)),
                other => other,
            },
            other => other,
        }
    }
}

/// A source's answer as a value or an error message.
pub open spec fn answer_v6(a: Ipv6Answer) -> Option<Result<u128, Seq<char>>> {
    match a {
        Ok(o) => Some(Ok(be_value(o@) as u128)),
        Err(e) => Some(Err(e.0@)),
    }
}

/// An executable result read as a value or an error message.
pub open spec fn outcome_v6(r: Option<Result<u128, Ddns6Error>>) -> Option<Result<u128, Seq<char>>> {
    match r {
        Some(Ok(x)) => Some(Ok(x)),
        Some(Err(e)) => Some(Err(e.0@)),
        None => None,
    }
}

/// An address result agrees with an evaluation result.
pub open spec fn agrees_v6(r: Result<IpAddress, Ddns6Error>, e: Result<u128, Seq<char>>) -> bool {
    match e {
        Ok(v) => r matches Ok(IpAddress::V6(o)) && be_value(o@) == v as nat,
        Err(m) => r matches Err(err) && err.0@ == m,
    }
}

/// Every address that the evaluation gives is an IPv6 address.
pub proof fn law_success_is_v6(r: Result<IpAddress, Ddns6Error>, e: Result<u128, Seq<char>>)
    requires
        agrees_v6(r, e),
        r is Ok,
    ensures
        r->Ok_0 is V6,
        e is Ok,
{
}

/// Once a leading part of a list fails, the whole list fails the same way.
proof fn lemma_v6_list_failure(cs: Seq<IPAddressConf>, ans: Seq<Ipv6Answer>, j: int)
    requires
        0 <= j <= cs.len(),
        ans.len() == sources_of_list(cs).len(),
        !(eval_v6_list(cs.take(j), ans.take(sources_of_list(cs.take(j)).len() as int)) is Some
            && eval_v6_list(cs.take(j), ans.take(sources_of_list(cs.take(j)).len() as int))->0 is Ok),
    ensures
        eval_v6_list(cs, ans) == eval_v6_list(cs.take(j), ans.take(sources_of_list(cs.take(j)).len() as int)),
    decreases cs.len(),
{
    let kj = sources_of_list(cs.take(j)).len() as int;
    if j == cs.len() {
        assert(cs.take(j) =~= cs);
        assert(ans.take(kj) =~= ans);
    } else {
        let cs2 = cs.drop_last();
        let k2 = sources_of_list(cs2).len() as int;
        assert(cs2.take(j) =~= cs.take(j));
        lemma_sources_prefix(cs2, j);
        assert(ans.take(k2).take(kj) =~= ans.take(kj));
        lemma_v6_list_failure(cs2, ans.take(k2), j);
    }
}

/// The mask of the top `n` bits and the mask of the low `128 - n` bits share
/// no bit and together cover the whole address.
pub proof fn law_prefix_and_suffix_masks_complement_v6(n: int)
    requires
        0 <= n <= 128,
    ensures
        prefix_mask_v6(n) & prefix_mask_v6(n - 128) == 0u128,
        prefix_mask_v6(n) | prefix_mask_v6(n - 128) == 0xffff_ffff_ffff_ffff_ffff_ffff_ffff_ffffu128,
{
    if n == 0 {
        assert(0u128 & 0xffff_ffff_ffff_ffff_ffff_ffff_ffff_ffffu128 == 0u128) by (bit_vector);
        assert(0u128 | 0xffff_ffff_ffff_ffff_ffff_ffff_ffff_ffffu128 == 0xffff_ffff_ffff_ffff_ffff_ffff_ffff_ffffu128) by (bit_vector);
    } else if n == 128 {
        assert(!(((1u128 << 0u128) - 1) as u128) == 0xffff_ffff_ffff_ffff_ffff_ffff_ffff_ffffu128) by (bit_vector);
        assert(0xffff_ffff_ffff_ffff_ffff_ffff_ffff_ffffu128 & 0u128 == 0u128) by (bit_vector);
        assert(0xffff_ffff_ffff_ffff_ffff_ffff_ffff_ffffu128 | 0u128 == 0xffff_ffff_ffff_ffff_ffff_ffff_ffff_ffffu128) by (bit_vector);
    } else {
        let k: u128 = (128 - n) as u128;
        assert(-(n - 128) == k);
        assert(k < 128 ==> (!(((1u128 << k) - 1) as u128)) & (((1u128 << k) - 1) as u128) == 0u128) by (bit_vector);
        assert(k < 128 ==> (!(((1u128 << k) - 1) as u128)) | (((1u128 << k) - 1) as u128) == 0xffff_ffff_ffff_ffff_ffff_ffff_ffff_ffffu128) by (bit_vector);
    }
}

/// Putting together the top `n` bits of one address (a prefix length of `n`)
/// with a second address that has none of those bits set gives an address
/// whose top `n` bits are those of the first and whose other bits are the
/// second address.
pub proof fn law_prefix_suffix_combination_v6(
    v: Vec<IPAddressConf>,
    prefix_part: IPAddressConf,
    n: i32,
    suffix_part: IPAddressConf,
    ans: Seq<Ipv6Answer>,
    x: u128,
    y: u128,
)
    requires
        0 <= n <= 128,
        v@ == seq![IPAddressConf::AddressWithPrefixLength { addr: Box::new(prefix_part), len: n }, suffix_part],
        ans.len() == spec_sources(prefix_part).len() + spec_sources(suffix_part).len(),
        eval_v6(prefix_part, ans.take(spec_sources(prefix_part).len() as int)) == Some(Ok::<u128, Seq<char>>(x)),
        eval_v6(suffix_part, ans.skip(spec_sources(prefix_part).len() as int)) == Some(Ok::<u128, Seq<char>>(y)),
        y & prefix_mask_v6(n as int) == 0u128,
    ensures
        eval_v6(IPAddressConf::Composite(v), ans) matches Some(Ok(r)) && {
            &&& r & prefix_mask_v6(n as int) == x & prefix_mask_v6(n as int)
            &&& r & prefix_mask_v6(n - 128) == y
        },
{
    let p = IPAddressConf::AddressWithPrefixLength { addr: Box::new(prefix_part), len: n };
    let cs = v@;
    let ka = spec_sources(prefix_part).len() as int;
    assert(cs.drop_last() =~= seq![p]);
    assert(seq![p].drop_last() =~= Seq::<IPAddressConf>::empty());
    assert(spec_sources(p) == spec_sources(prefix_part));
    assert(sources_of_list(seq![p]) =~= sources_of_list(seq![p].drop_last()) + spec_sources(p));
    assert(sources_of_list(seq![p]) =~= spec_sources(prefix_part));
    assert(ans.take(ka).take(0) =~= Seq::<Ipv6Answer>::empty());
    assert(ans.take(ka).skip(0) =~= ans.take(ka));
    assert(seq![p].last() == p);
    let m = prefix_mask_v6(n as int);
    let m2 = prefix_mask_v6(n - 128);
    law_prefix_and_suffix_masks_complement_v6(n as int);
    assert(eval_v6(p, ans.take(ka)) == Some(Ok::<u128, Seq<char>>(x & m)));
    assert(eval_v6_list(Seq::<IPAddressConf>::empty(), ans.take(ka).take(0)) == Some(Ok::<u128, Seq<char>>(0u128)));
    assert(eval_v6_list(seq![p], ans.take(ka)) == Some(Ok::<u128, Seq<char>>(0u128 | (x & m))));
    assert(eval_v6_list(cs, ans) == Some(Ok::<u128, Seq<char>>((0u128 | (x & m)) | y)));
    assert(m & m2 == 0u128 && m | m2 == 0xffff_ffff_ffff_ffff_ffff_ffff_ffff_ffffu128 && y & m == 0u128 ==> {
        &&& ((0u128 | (x & m)) | y) & m == x & m
        &&& ((0u128 | (x & m)) | y) & m2 == y
    }) by (bit_vector);
}

/// Bit `i` (counted from the least significant bit) of the mask of a prefix
/// length `len` is set exactly for the top `len` bits when `len >= 0`, and
/// exactly for the low `-len` bits when `len < 0`.
pub proof fn law_prefix_mask_bits_v6(len: int, i: u128)
    requires
        -128 <= len <= 128,
        i < 128,
    ensures
        ((prefix_mask_v6(len) >> i) & 1u128 == 1u128) == ((len >= 0 && i >= 128 - len) || (len < 0 && i < -len)),
{
    if len == -128 {
        assert(i < 128 ==> (0xffff_ffff_ffff_ffff_ffff_ffff_ffff_ffffu128 >> i) & 1u128 == 1u128) by (bit_vector);
    } else if len < 0 {
        let k: u128 = (-len) as u128;
        assert(k < 128 && i < 128 ==> (((((1u128 << k) - 1) as u128) >> i) & 1u128 == 1u128) == (i < k)) by (bit_vector);
    } else if len == 0 {
        assert((0u128 >> i) & 1u128 == 0u128) by (bit_vector);
    } else {
        let k: u128 = (128 - len) as u128;
        assert(k < 128 && i < 128 ==> (((!(((1u128 << k) - 1) as u128)) >> i) & 1u128 == 1u128) == (i >= k)) by (bit_vector);
    }
}

/// A netmask of the same family keeps the bits of the address that the mask
/// has set; a netmask of the other family cannot be used.
pub proof fn law_netmask_v6(addr: IPAddressConf, mask: IpAddress, ans: Seq<Ipv6Answer>, a: u128)
    requires
        eval_v6(addr, ans) == Some(Ok::<u128, Seq<char>>(a)),
    ensures
        eval_v6(IPAddressConf::AddressWithNetmask { addr: Box::new(addr), mask }, ans) == match mask {
            IpAddress::V6(m) => Some(Ok::<u128, Seq<char>>(a & (be_value(m@) as u128))),
            IpAddress::V4(_) => None,
        },
{
}

/// A prefix length in `[-128, 128]` keeps the bits of the address that its mask
/// selects (see `law_prefix_mask_bits_v6`); another length cannot be used.
pub proof fn law_prefix_length_v6(addr: IPAddressConf, len: i32, ans: Seq<Ipv6Answer>, a: u128)
    requires
        eval_v6(addr, ans) == Some(Ok::<u128, Seq<char>>(a)),
    ensures
        eval_v6(IPAddressConf::AddressWithPrefixLength { addr: Box::new(addr), len }, ans) == if -128 <= len
            <= 128 {
            Some(Ok::<u128, Seq<char>>(a & prefix_mask_v6(len as int)))
        } else {
            None
        },
{
}

/// An address that cannot be determined makes the netmask and the prefix
/// length over it fail the same way, whatever the mask or the length.
pub proof fn law_failure_passes_through_v6(addr: IPAddressConf, mask: IpAddress, len: i32, ans: Seq<Ipv6Answer>, e: Seq<char>)
    requires
        eval_v6(addr, ans) == Some(Err::<u128, Seq<char>>(e)),
    ensures
        eval_v6(IPAddressConf::AddressWithNetmask { addr: Box::new(addr), mask }, ans) == Some(Err::<u128, Seq<char>>(e)),
        eval_v6(IPAddressConf::AddressWithPrefixLength { addr: Box::new(addr), len }, ans) == Some(Err::<u128, Seq<char>>(e)),
{
}

/// A source stands for its answer: the address it gave, or its error unchanged.
pub proof fn law_source_answer_v6(c: IPAddressConf, a: Ipv6Answer)
    requires
        c is Interface || c is Web,
    ensures
        eval_v6(c, seq![a]) == match a {
            Ok(o) => Some(Ok::<u128, Seq<char>>(be_value(o@) as u128)),
            Err(e) => Some(Err::<u128, Seq<char>>(e.0@)),
        },
{
}

/// The bitwise or of a list of values (`0` for none).
pub open spec fn or_all_v6(vals: Seq<u128>) -> u128
    decreases vals.len(),
{
    if vals.len() == 0 {
        0u128
    } else {
        or_all_v6(vals.drop_last()) | vals.last()
    }
}

/// Each part of a list evaluates to the corresponding value, on its own answers.
pub open spec fn parts_give_v6(cs: Seq<IPAddressConf>, ans: Seq<Ipv6Answer>, vals: Seq<u128>) -> bool {
    &&& vals.len() == cs.len()
    &&& ans.len() == sources_of_list(cs).len()
    &&& forall|i: int| 0 <= i < cs.len() ==> eval_v6(#[trigger] cs[i], part_answers(cs, ans, i)) == Some(Ok::<u128, Seq<char>>(vals[i]))
}

proof fn lemma_part_answers_prefix_v6(cs: Seq<IPAddressConf>, ans: Seq<Ipv6Answer>, m: int, i: int)
    requires
        0 <= i < m <= cs.len(),
        ans.len() == sources_of_list(cs).len(),
    ensures
        part_answers(cs.take(m), ans.take(sources_of_list(cs.take(m)).len() as int), i) == part_answers(cs, ans, i),
{
    assert(cs.take(m).take(i) =~= cs.take(i));
    assert(cs.take(m).take(i + 1) =~= cs.take(i + 1));
    lemma_sources_take(cs, i);
    lemma_sources_prefix(cs, m);
    lemma_sources_prefix(cs.take(m), i + 1);
    let km = sources_of_list(cs.take(m)).len() as int;
    let lo = sources_of_list(cs.take(i)).len() as int;
    let hi = sources_of_list(cs.take(i + 1)).len() as int;
    assert(ans.take(km).subrange(lo, hi) =~= ans.subrange(lo, hi));
}

/// When every part of a list gives an address, the list gives their bitwise or.
pub proof fn law_composite_of_addresses_v6(cs: Seq<IPAddressConf>, ans: Seq<Ipv6Answer>, vals: Seq<u128>)
    requires
        parts_give_v6(cs, ans, vals),
    ensures
        eval_v6_list(cs, ans) == Some(Ok::<u128, Seq<char>>(or_all_v6(vals))),
    decreases cs.len(),
{
    if cs.len() > 0 {
        let n = cs.len() as int;
        let cs2 = cs.drop_last();
        let k = sources_of_list(cs2).len() as int;
        assert(cs.take(n - 1) =~= cs2);
        assert(cs.take(n) =~= cs);
        lemma_sources_prefix(cs, n - 1);
        assert forall|i: int| 0 <= i < cs2.len() implies eval_v6(#[trigger] cs2[i], part_answers(cs2, ans.take(k), i))
            == Some(Ok::<u128, Seq<char>>(vals.drop_last()[i])) by {
            lemma_part_answers_prefix_v6(cs, ans, n - 1, i);
            assert(cs2[i] == cs[i]);
        }
        law_composite_of_addresses_v6(cs2, ans.take(k), vals.drop_last());
        assert(part_answers(cs, ans, n - 1) =~= ans.skip(k));
        assert(eval_v6(cs[n - 1], part_answers(cs, ans, n - 1)) == Some(Ok::<u128, Seq<char>>(vals[n - 1])));
    }
}

proof fn lemma_or_all_remove_v6(s: Seq<u128>, k: int)
    requires
        0 <= k < s.len(),
    ensures
        or_all_v6(s) == or_all_v6(s.remove(k)) | s[k],
    decreases s.len(),
{
    if k == s.len() - 1 {
        assert(s.remove(k) =~= s.drop_last());
    } else {
        let t = s.drop_last();
        lemma_or_all_remove_v6(t, k);
        assert(s.remove(k).drop_last() =~= t.remove(k));
        assert(s.remove(k).last() == s.last());
        assert(t[k] == s[k]);
        let a = or_all_v6(t.remove(k));
        let b = s[k];
        let c = s.last();
        assert((a | b) | c == (a | c) | b) by (bit_vector);
    }
}

/// The bitwise or of values does not depend on their order.
pub proof fn law_or_all_order_free_v6(s1: Seq<u128>, s2: Seq<u128>)
    requires
        s1.to_multiset() == s2.to_multiset(),
    ensures
        or_all_v6(s1) == or_all_v6(s2),
    decreases s1.len(),
{
    broadcast use vstd::seq_lib::group_to_multiset_ensures;
    broadcast use vstd::multiset::group_multiset_axioms;

    if s1.len() == 0 {
        vstd::seq_lib::to_multiset_len(s1);
        vstd::seq_lib::to_multiset_len(s2);
        assert(s2.len() == 0);
        assert(s1 =~= s2);
    } else {
        let x = s1.last();
        let r1 = s1.drop_last();
        assert(r1.push(x) =~= s1);
        assert(s2.to_multiset().count(x) > 0);
        assert(s2.contains(x));
        let k = choose|k: int| 0 <= k < s2.len() && s2[k] == x;
        lemma_or_all_remove_v6(s2, k);
        assert(s2.remove(k).to_multiset() =~= r1.to_multiset());
        law_or_all_order_free_v6(r1, s2.remove(k));
    }
}

/// Rearranging the parts of a composite configuration does not change the
/// address it gives: lists whose parts give the same values, in any order,
/// give the same address.
pub proof fn law_composite_order_free_v6(
    cs1: Seq<IPAddressConf>,
    ans1: Seq<Ipv6Answer>,
    vals1: Seq<u128>,
    cs2: Seq<IPAddressConf>,
    ans2: Seq<Ipv6Answer>,
    vals2: Seq<u128>,
)
    requires
        parts_give_v6(cs1, ans1, vals1),
        parts_give_v6(cs2, ans2, vals2),
        vals1.to_multiset() == vals2.to_multiset(),
    ensures
        eval_v6_list(cs1, ans1) == eval_v6_list(cs2, ans2),
{
    law_composite_of_addresses_v6(cs1, ans1, vals1);
    law_composite_of_addresses_v6(cs2, ans2, vals2);
    law_or_all_order_free_v6(vals1, vals2);
}

/// A composite configuration fails with the error of its first part that
/// fails, when the parts before it give addresses.
#[verifier::rlimit(60)]
pub proof fn law_composite_first_failure_v6(cs: Seq<IPAddressConf>, ans: Seq<Ipv6Answer>, j: int, vals: Seq<u128>, e: Seq<char>)
    requires
        0 <= j < cs.len(),
        ans.len() == sources_of_list(cs).len(),
        vals.len() == j,
        forall|i: int| 0 <= i < j ==> eval_v6(#[trigger] cs[i], part_answers(cs, ans, i)) == Some(Ok::<u128, Seq<char>>(vals[i])),
        eval_v6(cs[j], part_answers(cs, ans, j)) == Some(Err::<u128, Seq<char>>(e)),
    ensures
        eval_v6_list(cs, ans) == Some(Err::<u128, Seq<char>>(e)),
{
    let cj = cs.take(j);
    let kj = sources_of_list(cj).len() as int;
    let cj1 = cs.take(j + 1);
    let kj1 = sources_of_list(cj1).len() as int;
    lemma_sources_prefix(cs, j);
    lemma_sources_prefix(cs, j + 1);
    lemma_sources_take(cs, j);
    assert(cs.take(j).len() == j);
    assert forall|i: int| 0 <= i < cj.len() implies eval_v6(#[trigger] cj[i], part_answers(cj, ans.take(kj), i))
        == Some(Ok::<u128, Seq<char>>(vals[i])) by {
        lemma_part_answers_prefix_v6(cs, ans, j, i);
        assert(cj[i] == cs[i]);
    }
    law_composite_of_addresses_v6(cj, ans.take(kj), vals);
    assert(cj1.drop_last() =~= cj);
    assert(cj1.last() == cs[j]);
    assert(ans.take(kj1).take(kj) =~= ans.take(kj));
    assert(ans.take(kj1).skip(kj) =~= part_answers(cs, ans, j));
    assert(eval_v6_list(cj1, ans.take(kj1)) == Some(Err::<u128, Seq<char>>(e)));
    lemma_v6_list_failure(cs, ans, j + 1);
}

/// The mask of a prefix length, computed without shifting by the full width.
fn mask_v6(len: i32) -> (m: u128)
    requires
        -128 <= len <= 128,
    ensures
        m == prefix_mask_v6(len as int),
{
    if len == -128 {
        0xffff_ffff_ffff_ffff_ffff_ffff_ffff_ffffu128
    } else if len < 0 {
        let k: u128 = (-len) as u128;
        assert(k < 128 ==> (1u128 << k) >= 1u128) by (bit_vector);
        (1u128 << k) - 1
    } else if len == 0 {
        0u128
    } else {
        let k: u128 = (128 - len) as u128;
        assert(k < 128 ==> (1u128 << k) >= 1u128) by (bit_vector);
        !((1u128 << k) - 1)
    }
}

impl IPAddressConf {
    fn eval_v6_at(&self, answers: &Vec<Ipv6Answer>, start: usize) -> (r: Option<Result<u128, Ddns6Error>>)
        requires
            start + spec_sources(*self).len() <= answers@.len(),
        ensures
            outcome_v6(r) == eval_v6(*self, answers@.subrange(start as int, start + spec_sources(*self).len())),
        decreases self,
    {
        match self {
            IPAddressConf::Static(a) => match a {
                IpAddress::V6(o) => Some(Ok(read_u128_be(o))),
                IpAddress::V4(_) => Some(Err(Ddns6Error(AddressDeterminationError(String::from_str("static address is not an IPv6 address")).message()))),
            },
            IPAddressConf::AddressWithNetmask { addr, mask } => {
                let inner = addr.eval_v6_at(answers, start);
                match inner {
                    Some(Ok(x)) => match mask {
                        IpAddress::V6(m) => Some(Ok(x & read_u128_be(m))),
                        IpAddress::V4(_) => None,
                    },
                    other => other,
                }
            },
            IPAddressConf::AddressWithPrefixLength { addr, len } => {
                let inner = addr.eval_v6_at(answers, start);
                match inner {
                    Some(Ok(x)) => if *len < -128 || *len > 128 {
                        None
                    } else {
                        Some(Ok(x & mask_v6(*len)))
                    },
                    other => other,
                }
            },
            IPAddressConf::Composite(v) => {
                let ghost whole = answers@.subrange(start as int, start + spec_sources(*self).len());
                let n = v.len();
                let alen = answers.len();
                let mut acc: u128 = 0;
                let mut pos: usize = start;
                proof {
                    assert(v@.take(0) =~= Seq::<IPAddressConf>::empty());
                }
                for i in 0..n
                    invariant
                        n == v@.len(),
                        alen == answers@.len(),
                        *self == IPAddressConf::Composite(*v),
                        start + sources_of_list(v@).len() <= answers@.len(),
                        whole == answers@.subrange(start as int, start + sources_of_list(v@).len()),
                        pos == start + sources_of_list(v@.take(i as int)).len(),
                        eval_v6_list(v@.take(i as int), answers@.subrange(start as int, pos as int)) == Some(Ok::<u128, Seq<char>>(acc)),
                {
                    proof {
                        lemma_sources_take(v@, i as int);
                        lemma_sources_prefix(v@, i + 1);
                        assert(decreases_to!(*self => (*self)->Composite_0));
                        assert(decreases_to!(*v => v@));
                        assert(decreases_to!(v@ => v@[i as int]));
                    }
                    let r = v[i].eval_v6_at(answers, pos);
                    let ghost m = spec_sources(v@[i as int]).len();
                    let ghost cs = v@.take(i + 1);
                    proof {
                        assert(cs.drop_last() =~= v@.take(i as int));
                        assert(cs.last() == v@[i as int]);
                        let sub = answers@.subrange(start as int, pos + m);
                        assert(sub.take(pos - start) =~= answers@.subrange(start as int, pos as int));
                        assert(sub.skip(pos - start) =~= answers@.subrange(pos as int, pos + m));
                        assert(sources_of_list(cs).len() == sources_of_list(v@.take(i as int)).len() + m);
                        assert(pos + m <= answers@.len());
                    }
                    match r {
                        Some(Ok(x)) => {
                            acc = acc | x;
                            pos = pos + v[i].sources_len();
                        },
                        other => {
                            proof {
                                let k = sources_of_list(cs).len() as int;
                                assert(whole.take(k) =~= answers@.subrange(start as int, start + k));
                                lemma_v6_list_failure(v@, whole, i + 1);
                            }
                            return other;
                        },
                    }
                }
                proof {
                    assert(v@.take(n as int) =~= v@);
                }
                Some(Ok(acc))
            },
            IPAddressConf::Interface(_) | IPAddressConf::Web(_) => {
                proof {
                    assert(answers@.subrange(start as int, start + 1)[0] == answers@[start as int]);
                }
                match &answers[start] {
                    Ok(o) => Some(Ok(read_u128_be(o))),
                    Err(e) => Some(Err(Ddns6Error(e.0.clone()))),
                }
            },
        }
    }

    /// The IPv6 address that this configuration stands for, given what its
    /// sources (in the order of `sources`) answered; `None` where the
    /// configuration cannot be used for IPv6 (see `eval_v6`).
    pub fn evaluate_ipv6(&self, answers: &Vec<Ipv6Answer>) -> (res: Option<Result<IpAddress, Ddns6Error>>)
        requires
            answers@.len() == spec_sources(*self).len(),
        ensures
            res is None <==> eval_v6(*self, answers@) is None,
            res matches Some(r) ==> agrees_v6(r, eval_v6(*self, answers@)->0),
    {
        let r = self.eval_v6_at(answers, 0);
        proof {
            assert(answers@.subrange(0, answers@.len() as int) =~= answers@);
        }
        match r {
            Some(Ok(x)) => Some(Ok(IpAddress::V6(u128_to_octets(x)))),
            Some(Err(e)) => Some(Err(e)),
            None => None,
        }
    }

    /// The IPv6 address that this configuration stands for, given what its
    /// sources (in the order of `sources`) answered.
    pub fn get_ipv6_address(&self, answers: &Vec<Ipv6Answer>) -> (res: Result<IpAddress, Ddns6Error>)
        requires
            answers@.len() == spec_sources(*self).len(),
            eval_v6(*self, answers@) is Some,
        ensures
            agrees_v6(res, eval_v6(*self, answers@)->0),
    {
        self.evaluate_ipv6(answers).unwrap()
    }
}

} // verus!
