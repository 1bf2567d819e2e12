use vstd::prelude::*;

use crate::config::{lemma_sources_prefix, lemma_sources_take, part_answers, sources_of_list, spec_sources, IPAddressConf, Ipv4Answer};
use crate::ip::{be_value, read_u32_be, u32_to_octets, IpAddress};
use crate::ipaddr_source::error::{address_error_text, AddressDeterminationError};
use crate::types::Ddns6Error;

verus! {

/// The IPv4 mask that a prefix length selects: for `len >= 0` the top `len`
/// bits, for `len < 0` the low `-len` bits. A length of `-32` keeps the whole
/// address and `0` keeps nothing, as the accepted range `[-32, 32]` says.
/// Written as `(1 << -len) - 1`, the mask for `-32` would shift by the full
/// width: that panics where overflow is checked and, where it wraps, gives
/// the empty mask (so `0.0.0.0` for every address). Here it is the full mask.
pub open spec fn prefix_mask_v4(len: int) -> u32 {
    if len == -32 {
        0xffff_ffffu32
    } else if len < 0 {
        ((1u32 << ((-len) as u32)) - 1) as u32
    } else if len == 0 {
        0u32
    } else {
        !(((1u32 << ((32 - len) as u32)) - 1) as u32)
    }
}

/// The message of the address error for a fixed address of the other family.
pub open spec fn not_v4_message() -> Seq<char> {
    "static address is not an IPv4 address"@
}

/// The IPv4 address that a configuration stands for, given the answers of its
/// sources in order: `None` where the configuration cannot be used for IPv4
/// (a mask of the other family, or a prefix length outside `[-32, 32]`, on an
/// address that could be determined), an error message where an address could
/// not be determined. The first part, left to right, that fails decides.
pub open spec fn eval_v4(c: IPAddressConf, ans: Seq<Ipv4Answer>) -> Option<Result<u32, Seq<char>>>
    decreases c,
{
    match c {
        IPAddressConf::Static(a) => match a {
            IpAddress::V4(o) => Some(Ok(be_value(o@) as u32)),
            IpAddress::V6(_) => Some(Err(address_error_text(not_v4_message()))),
        },
        IPAddressConf::AddressWithNetmask { addr, mask } => match eval_v4(*addr, ans) {
            Some(Ok(x)) => match mask {
                IpAddress::V4(m) => Some(Ok(x & (be_value(m@) as u32))),
                IpAddress::V6(_) => None,
            },
            other => other,
        },
        IPAddressConf::AddressWithPrefixLength { addr, len } => match eval_v4(*addr, ans) {
            Some(Ok(x)) => if -32 <= len <= 32 {
                Some(Ok(x & prefix_mask_v4(len as int)))
            } else {
                None
            },
            other => other,
        },
        IPAddressConf::Composite(v) => eval_v4_list(v@, ans),
        IPAddressConf::Interface(_) => answer_v4(ans[0]),
        IPAddressConf::Web(_) => answer_v4(ans[0]),
    }
}

/// The bitwise or of the addresses of a list of configurations.
pub open spec fn eval_v4_list(cs: Seq<IPAddressConf>, ans: Seq<Ipv4Answer>) -> Option<Result<u32, Seq<char>>>
    decreases cs,
{
    if cs.len() == 0 {
        Some(Ok(0u32))
    } else {
        let k = sources_of_list(cs.drop_last()).len() as int;
        match eval_v4_list(cs.drop_last(), ans.take(k)) {
            Some(Ok(acc)) => match eval_v4(cs.last(), ans.skip(k)) {
                Some(Ok(x)) => Some(Ok(acc | x)),
                other => other,
            },
            other => other,
        }
    }
}

/// A source's answer as a value or an error message.
pub open spec fn answer_v4(a: Ipv4Answer) -> Option<Result<u32, Seq<char>>> {
    match a {
        Ok(o) => Some(Ok(be_value(o@) as u32)),
        Err(e) => Some(Err(e.0@)),
    }
}

/// An executable result read as a value or an error message.
pub open spec fn outcome_v4(r: Option<Result<u32, Ddns6Error>>) -> Option<Result<u32, Seq<char>>> {
    match r {
        Some(Ok(x)) => Some(Ok(x)),
        Some(Err(e)) => Some(Err(e.0@)),
        None => None,
    }
}

/// An address result agrees with an evaluation result.
pub open spec fn agrees_v4(r: Result<IpAddress, Ddns6Error>, e: Result<u32, Seq<char>>) -> bool {
    match e {
        Ok(v) => r matches Ok(IpAddress::V4(o)) && be_value(o@) == v as nat,
        Err(m) => r matches Err(err) && err.0@ == m,
    }
}

/// Every address that the evaluation gives is an IPv4 address.
pub proof fn law_success_is_v4(r: Result<IpAddress, Ddns6Error>, e: Result<u32, Seq<char>>)
    requires
        agrees_v4(r, e),
        r is Ok,
    ensures
        r->Ok_0 is V4,
        e is Ok,
{
}

/// Once a leading part of a list fails, the whole list fails the same way.
proof fn lemma_v4_list_failure(cs: Seq<IPAddressConf>, ans: Seq<Ipv4Answer>, j: int)
    requires
        0 <= j <= cs.len(),
        ans.len() == sources_of_list(cs).len(),
        !(eval_v4_list(cs.take(j), ans.take(sources_of_list(cs.take(j)).len() as int)) is Some
            && eval_v4_list(cs.take(j), ans.take(sources_of_list(cs.take(j)).len() as int))->0 is Ok),
    ensures
        eval_v4_list(cs, ans) == eval_v4_list(cs.take(j), ans.take(sources_of_list(cs.take(j)).len() as int)),
    decreases cs.len(),
{
    let kj = sources_of_list(cs.take(j)).len() as int;
    if j == cs.len() {
        assert(cs.take(j) =~= cs);
        assert(ans.take(kj) =~= ans);
    } else {
        let cs2 = cs.drop_last();
        let k2 = sources_of_list(cs2).len() as int;
        assert(cs2.take(j) =~= cs.take(j));
        lemma_sources_prefix(cs2, j);
        assert(ans.take(k2).take(kj) =~= ans.take(kj));
        lemma_v4_list_failure(cs2, ans.take(k2), j);
    }
}

/// The mask of the top `n` bits and the mask of the low `32 - n` bits share
/// no bit and together cover the whole address.
pub proof fn law_prefix_and_suffix_masks_complement_v4(n: int)
    requires
        0 <= n <= 32,
    ensures
        prefix_mask_v4(n) & prefix_mask_v4(n - 32) == 0u32,
        prefix_mask_v4(n) | prefix_mask_v4(n - 32) == 0xffff_ffffu32,
{
    if n == 0 {
        assert(0u32 & 0xffff_ffffu32 == 0u32) by (bit_vector);
        assert(0u32 | 0xffff_ffffu32 == 0xffff_ffffu32) by (bit_vector);
    } else if n == 32 {
        assert(!(((1u32 << 0u32) - 1) as u32) == 0xffff_ffffu32) by (bit_vector);
        assert(0xffff_ffffu32 & 0u32 == 0u32) by (bit_vector);
        assert(0xffff_ffffu32 | 0u32 == 0xffff_ffffu32) by (bit_vector);
    } else {
        let k: u32 = (32 - n) as u32;
        assert(-(n - 32) == k);
        assert(k < 32 ==> (!(((1u32 << k) - 1) as u32)) & (((1u32 << k) - 1) as u32) == 0u32) by (bit_vector);
        assert(k < 32 ==> (!(((1u32 << k) - 1) as u32)) | (((1u32 << k) - 1) as u32) == 0xffff_ffffu32) by (bit_vector);
    }
}

/// Putting together the top `n` bits of one address (a prefix length of `n`)
/// with a second address that has none of those bits set gives an address
/// whose top `n` bits are those of the first and whose other bits are the
/// second address.
pub proof fn law_prefix_suffix_combination_v4(
    v: Vec<IPAddressConf>,
    prefix_part: IPAddressConf,
    n: i32,
    suffix_part: IPAddressConf,
    ans: Seq<Ipv4Answer>,
    x: u32,
    y: u32,
)
    requires
        0 <= n <= 32,
        v@ == seq![IPAddressConf::AddressWithPrefixLength { addr: Box::new(prefix_part), len: n }, suffix_part],
        ans.len() == spec_sources(prefix_part).len() + spec_sources(suffix_part).len(),
        eval_v4(prefix_part, ans.take(spec_sources(prefix_part).len() as int)) == Some(Ok::<u32, Seq<char>>(x)),
        eval_v4(suffix_part, ans.skip(spec_sources(prefix_part).len() as int)) == Some(Ok::<u32, Seq<char>>(y)),
        y & prefix_mask_v4(n as int) == 0u32,
    ensures
        eval_v4(IPAddressConf::Composite(v), ans) matches Some(Ok(r)) && {
            &&& r & prefix_mask_v4(n as int) == x & prefix_mask_v4(n as int)
            &&& r & prefix_mask_v4(n - 32) == y
        },
{
    let p = IPAddressConf::AddressWithPrefixLength { addr: Box::new(prefix_part), len: n };
    let cs = v@;
    let ka = spec_sources(prefix_part).len() as int;
    assert(cs.drop_last() =~= seq![p]);
    assert(seq![p].drop_last() =~= Seq::<IPAddressConf>::empty());
    assert(spec_sources(p) == spec_sources(prefix_part));
    assert(sources_of_list(seq![p]) =~= sources_of_list(seq![p].drop_last()) + spec_sources(p));
    assert(sources_of_list(seq![p]) =~= spec_sources(prefix_part));
    assert(ans.take(ka).take(0) =~= Seq::<Ipv4Answer>::empty());
    assert(ans.take(ka).skip(0) =~= ans.take(ka));
    assert(seq![p].last() == p);
    let m = prefix_mask_v4(n as int);
    let m2 = prefix_mask_v4(n - 32);
    law_prefix_and_suffix_masks_complement_v4(n as int);
    assert(eval_v4(p, ans.take(ka)) == Some(Ok::<u32, Seq<char>>(x & m)));
    assert(eval_v4_list(Seq::<IPAddressConf>::empty(), ans.take(ka).take(0)) == Some(Ok::<u32, Seq<char>>(0u32)));
    assert(eval_v4_list(seq![p], ans.take(ka)) == Some(Ok::<u32, Seq<char>>(0u32 | (x & m))));
    assert(eval_v4_list(cs, ans) == Some(Ok::<u32, Seq<char>>((0u32 | (x & m)) | y)));
    assert(m & m2 == 0u32 && m | m2 == 0xffff_ffffu32 && y & m == 0u32 ==> {
        &&& ((0u32 | (x & m)) | y) & m == x & m
        &&& ((0u32 | (x & m)) | y) & m2 == y
    }) by (bit_vector);
}

/// Bit `i` (counted from the least significant bit) of the mask of a prefix
/// length `len` is set exactly for the top `len` bits when `len >= 0`, and
/// exactly for the low `-len` bits when `len < 0`.
pub proof fn law_prefix_mask_bits_v4(len: int, i: u32)
    requires
        -32 <= len <= 32,
        i < 32,
    ensures
        ((prefix_mask_v4(len) >> i) & 1u32 == 1u32) == ((len >= 0 && i >= 32 - len) || (len < 0 && i < -len)),
{
    if len == -32 {
        assert(i < 32 ==> (0xffff_ffffu32 >> i) & 1u32 == 1u32) by (bit_vector);
    } else if len < 0 {
        let k: u32 = (-len) as u32;
        assert(k < 32 && i < 32 ==> (((((1u32 << k) - 1) as u32) >> i) & 1u32 == 1u32) == (i < k)) by (bit_vector);
    } else if len == 0 {
        assert((0u32 >> i) & 1u32 == 0u32) by (bit_vector);
    } else {
        let k: u32 = (32 - len) as u32;
        assert(k < 32 && i < 32 ==> (((!(((1u32 << k) - 1) as u32)) >> i) & 1u32 == 1u32) == (i >= k)) by (bit_vector);
    }
}

/// A netmask of the same family keeps the bits of the address that the mask
/// has set; a netmask of the other family cannot be used.
pub proof fn law_netmask_v4(addr: IPAddressConf, mask: IpAddress, ans: Seq<Ipv4Answer>, a: u32)
    requires
        eval_v4(addr, ans) == Some(Ok::<u32, Seq<char>>(a)),
    ensures
        eval_v4(IPAddressConf::AddressWithNetmask { addr: Box::new(addr), mask }, ans) == match mask {
            IpAddress::V4(m) => Some(Ok::<u32, Seq<char>>(a & (be_value(m@) as u32))),
            IpAddress::V6(_) => None,
        },
{
}

/// A prefix length in `[-32, 32]` keeps the bits of the address that its mask
/// selects (see `law_prefix_mask_bits_v4`); another length cannot be used.
pub proof fn law_prefix_length_v4(addr: IPAddressConf, len: i32, ans: Seq<Ipv4Answer>, a: u32)
    requires
        eval_v4(addr, ans) == Some(Ok::<u32, Seq<char>>(a)),
    ensures
        eval_v4(IPAddressConf::AddressWithPrefixLength { addr: Box::new(addr), len }, ans) == if -32 <= len
            <= 32 {
            Some(Ok::<u32, Seq<char>>(a & prefix_mask_v4(len as int)))
        } else {
            None
        },
{
}

/// An address that cannot be determined makes the netmask and the prefix
/// length over it fail the same way, whatever the mask or the length.
pub proof fn law_failure_passes_through_v4(addr: IPAddressConf, mask: IpAddress, len: i32, ans: Seq<Ipv4Answer>, e: Seq<char>)
    requires
        eval_v4(addr, ans) == Some(Err::<u32, Seq<char>>(e)),
    ensures
        eval_v4(IPAddressConf::AddressWithNetmask { addr: Box::new(addr), mask }, ans) == Some(Err::<u32, Seq<char>>(e)),
        eval_v4(IPAddressConf::AddressWithPrefixLength { addr: Box::new(addr), len }, ans) == Some(Err::<u32, Seq<char>>(e)),
{
}

/// A source stands for its answer: the address it gave, or its error unchanged.
pub proof fn law_source_answer_v4(c: IPAddressConf, a: Ipv4Answer)
    requires
        c is Interface || c is Web,
    ensures
        eval_v4(c, seq![a]) == match a {
            Ok(o) => Some(Ok::<u32, Seq<char>>(be_value(o@) as u32)),
            Err(e) => Some(Err::<u32, Seq<char>>(e.0@)),
        },
{
}

/// The bitwise or of a list of values (`0` for none).
pub open spec fn or_all_v4(vals: Seq<u32>) -> u32
    decreases vals.len(),
{
    if vals.len() == 0 {
        0u32
    } else {
        or_all_v4(vals.drop_last()) | vals.last()
    }
}

/// Each part of a list evaluates to the corresponding value, on its own answers.
pub open spec fn parts_give_v4(cs: Seq<IPAddressConf>, ans: Seq<Ipv4Answer>, vals: Seq<u32>) -> bool {
    &&& vals.len() == cs.len()
    &&& ans.len() == sources_of_list(cs).len()
    &&& forall|i: int| 0 <= i < cs.len() ==> eval_v4(#[trigger] cs[i], part_answers(cs, ans, i)) == Some(Ok::<u32, Seq<char>>(vals[i]))
}

proof fn lemma_part_answers_prefix_v4(cs: Seq<IPAddressConf>, ans: Seq<Ipv4Answer>, m: int, i: int)
    requires
        0 <= i < m <= cs.len(),
        ans.len() == sources_of_list(cs).len(),
    ensures
        part_answers(cs.take(m), ans.take(sources_of_list(cs.take(m)).len() as int), i) == part_answers(cs, ans, i),
{
    assert(cs.take(m).take(i) =~= cs.take(i));
    assert(cs.take(m).take(i + 1) =~= cs.take(i + 1));
    lemma_sources_take(cs, i);
    lemma_sources_prefix(cs, m);
    lemma_sources_prefix(cs.take(m), i + 1);
    let km = sources_of_list(cs.take(m)).len() as int;
    let lo = sources_of_list(cs.take(i)).len() as int;
    let hi = sources_of_list(cs.take(i + 1)).len() as int;
    assert(ans.take(km).subrange(lo, hi) =~= ans.subrange(lo, hi));
}

/// When every part of a list gives an address, the list gives their bitwise or.
pub proof fn law_composite_of_addresses_v4(cs: Seq<IPAddressConf>, ans: Seq<Ipv4Answer>, vals: Seq<u32>)
    requires
        parts_give_v4(cs, ans, vals),
    ensures
        eval_v4_list(cs, ans) == Some(Ok::<u32, Seq<char>>(or_all_v4(vals))),
    decreases cs.len(),
{
    if cs.len() > 0 {
        let n = cs.len() as int;
        let cs2 = cs.drop_last();
        let k = sources_of_list(cs2).len() as int;
        assert(cs.take(n - 1) =~= cs2);
        assert(cs.take(n) =~= cs);
        lemma_sources_prefix(cs, n - 1);
        assert forall|i: int| 0 <= i < cs2.len() implies eval_v4(#[trigger] cs2[i], part_answers(cs2, ans.take(k), i))
            == Some(Ok::<u32, Seq<char>>(vals.drop_last()[i])) by {
            lemma_part_answers_prefix_v4(cs, ans, n - 1, i);
            assert(cs2[i] == cs[i]);
        }
        law_composite_of_addresses_v4(cs2, ans.take(k), vals.drop_last());
        assert(part_answers(cs, ans, n - 1) =~= ans.skip(k));
        assert(eval_v4(cs[n - 1], part_answers(cs, ans, n - 1)) == Some(Ok::<u32, Seq<char>>(vals[n - 1])));
    }
}

proof fn lemma_or_all_remove_v4(s: Seq<u32>, k: int)
    requires
        0 <= k < s.len(),
    ensures
        or_all_v4(s) == or_all_v4(s.remove(k)) | s[k],
    decreases s.len(),
{
    if k == s.len() - 1 {
        assert(s.remove(k) =~= s.drop_last());
    } else {
        let t = s.drop_last();
        lemma_or_all_remove_v4(t, k);
        assert(s.remove(k).drop_last() =~= t.remove(k));
        assert(s.remove(k).last() == s.last());
        assert(t[k] == s[k]);
        let a = or_all_v4(t.remove(k));
        let b = s[k];
        let c = s.last();
        assert((a | b) | c == (a | c) | b) by (bit_vector);
    }
}

/// The bitwise or of values does not depend on their order.
pub proof fn law_or_all_order_free_v4(s1: Seq<u32>, s2: Seq<u32>)
    requires
        s1.to_multiset() == s2.to_multiset(),
    ensures
        or_all_v4(s1) == or_all_v4(s2),
    decreases s1.len(),
{
    broadcast use vstd::seq_lib::group_to_multiset_ensures;
    broadcast use vstd::multiset::group_multiset_axioms;

    if s1.len() == 0 {
        vstd::seq_lib::to_multiset_len(s1);
        vstd::seq_lib::to_multiset_len(s2);
        assert(s2.len() == 0);
        assert(s1 =~= s2);
    } else {
        let x = s1.last();
        let r1 = s1.drop_last();
        assert(r1.push(x) =~= s1);
        assert(s2.to_multiset().count(x) > 0);
        assert(s2.contains(x));
        let k = choose|k: int| 0 <= k < s2.len() && s2[k] == x;
        lemma_or_all_remove_v4(s2, k);
        assert(s2.remove(k).to_multiset() =~= r1.to_multiset());
        law_or_all_order_free_v4(r1, s2.remove(k));
    }
}

/// Rearranging the parts of a composite configuration does not change the
/// address it gives: lists whose parts give the same values, in any order,
/// give the same address.
pub proof fn law_composite_order_free_v4(
    cs1: Seq<IPAddressConf>,
    ans1: Seq<Ipv4Answer>,
    vals1: Seq<u32>,
    cs2: Seq<IPAddressConf>,
    ans2: Seq<Ipv4Answer>,
    vals2: Seq<u32>,
)
    requires
        parts_give_v4(cs1, ans1, vals1),
        parts_give_v4(cs2, ans2, vals2),
        vals1.to_multiset() == vals2.to_multiset(),
    ensures
        eval_v4_list(cs1, ans1) == eval_v4_list(cs2, ans2),
{
    law_composite_of_addresses_v4(cs1, ans1, vals1);
    law_composite_of_addresses_v4(cs2, ans2, vals2);
    law_or_all_order_free_v4(vals1, vals2);
}

/// A composite configuration fails with the error of its first part that
/// fails, when the parts before it give addresses.
#[verifier::rlimit(60)]
pub proof fn law_composite_first_failure_v4(cs: Seq<IPAddressConf>, ans: Seq<Ipv4Answer>, j: int, vals: Seq<u32>, e: Seq<char>)
    requires
        0 <= j < cs.len(),
        ans.len() == sources_of_list(cs).len(),
        vals.len() == j,
        forall|i: int| 0 <= i < j ==> eval_v4(#[trigger] cs[i], part_answers(cs, ans, i)) == Some(Ok::<u32, Seq<char>>(vals[i])),
        eval_v4(cs[j], part_answers(cs, ans, j)) == Some(Err::<u32, Seq<char>>(e)),
    ensures
        eval_v4_list(cs, ans) == Some(Err::<u32, Seq<char>>(e)),
{
    let cj = cs.take(j);
    let kj = sources_of_list(cj).len() as int;
    let cj1 = cs.take(j + 1);
    let kj1 = sources_of_list(cj1).len() as int;
    lemma_sources_prefix(cs, j);
    lemma_sources_prefix(cs, j + 1);
    lemma_sources_take(cs, j);
    assert(cs.take(j).len() == j);
    assert forall|i: int| 0 <= i < cj.len() implies eval_v4(#[trigger] cj[i], part_answers(cj, ans.take(kj), i))
        == Some(Ok::<u32, Seq<char>>(vals[i])) by {
        lemma_part_answers_prefix_v4(cs, ans, j, i);
        assert(cj[i] == cs[i]);
    }
    law_composite_of_addresses_v4(cj, ans.take(kj), vals);
    assert(cj1.drop_last() =~= cj);
    assert(cj1.last() == cs[j]);
    assert(ans.take(kj1).take(kj) =~= ans.take(kj));
    assert(ans.take(kj1).skip(kj) =~= part_answers(cs, ans, j));
    assert(eval_v4_list(cj1, ans.take(kj1)) == Some(Err::<u32, Seq<char>>(e)));
    lemma_v4_list_failure(cs, ans, j + 1);
}

/// The mask of a prefix length, computed without shifting by the full width.
fn mask_v4(len: i32) -> (m: u32)
    requires
        -32 <= len <= 32,
    ensures
        m == prefix_mask_v4(len as int),
{
    if len == -32 {
        0xffff_ffffu32
    } else if len < 0 {
        let k: u32 = (-len) as u32;
        assert(k < 32 ==> (1u32 << k) >= 1u32) by (bit_vector);
        (1u32 << k) - 1
    } else if len == 0 {
        0u32
    } else {
        let k: u32 = (32 - len) as u32;
        assert(k < 32 ==> (1u32 << k) >= 1u32) by (bit_vector);
        !((1u32 << k) - 1)
    }
}

impl IPAddressConf {
    fn eval_v4_at(&self, answers: &Vec<Ipv4Answer>, start: usize) -> (r: Option<Result<u32, Ddns6Error>>)
        requires
            start + spec_sources(*self).len() <= answers@.len(),
        ensures
            outcome_v4(r) == eval_v4(*self, answers@.subrange(start as int, start + spec_sources(*self).len())),
        decreases self,
    {
        match self {
            IPAddressConf::Static(a) => match a {
                IpAddress::V4(o) => Some(Ok(read_u32_be(o))),
                IpAddress::V6(_) => Some(Err(Ddns6Error(AddressDeterminationError(String::from_str("static address is not an IPv4 address")).message()))),
            },
            IPAddressConf::AddressWithNetmask { addr, mask } => {
                let inner = addr.eval_v4_at(answers, start);
                match inner {
                    Some(Ok(x)) => match mask {
                        IpAddress::V4(m) => Some(Ok(x & read_u32_be(m))),
                        IpAddress::V6(_) => None,
                    },
                    other => other,
                }
            },
            IPAddressConf::AddressWithPrefixLength { addr, len } => {
                let inner = addr.eval_v4_at(answers, start);
                match inner {
                    Some(Ok(x)) => if *len < -32 || *len > 32 {
                        None
                    } else {
                        Some(Ok(x & mask_v4(*len)))
                    },
                    other => other,
                }
            },
            IPAddressConf::Composite(v) => {
                let ghost whole = answers@.subrange(start as int, start + spec_sources(*self).len());
                let n = v.len();
                let alen = answers.len();
                let mut acc: u32 = 0;
                let mut pos: usize = start;
                proof {
                    assert(v@.take(0) =~= Seq::<IPAddressConf>::empty());
                }
                for i in 0..n
                    invariant
                        n == v@.len(),
                        alen == answers@.len(),
                        *self == IPAddressConf::Composite(*v),
                        start + sources_of_list(v@).len() <= answers@.len(),
                        whole == answers@.subrange(start as int, start + sources_of_list(v@).len()),
                        pos == start + sources_of_list(v@.take(i as int)).len(),
                        eval_v4_list(v@.take(i as int), answers@.subrange(start as int, pos as int)) == Some(Ok::<u32, Seq<char>>(acc)),
                {
                    proof {
                        lemma_sources_take(v@, i as int);
                        lemma_sources_prefix(v@, i + 1);
                        assert(decreases_to!(*self => (*self)->Composite_0));
                        assert(decreases_to!(*v => v@));
                        assert(decreases_to!(v@ => v@[i as int]));
                    }
                    let r = v[i].eval_v4_at(answers, pos);
                    let ghost m = spec_sources(v@[i as int]).len();
                    let ghost cs = v@.take(i + 1);
                    proof {
                        assert(cs.drop_last() =~= v@.take(i as int));
                        assert(cs.last() == v@[i as int]);
                        let sub = answers@.subrange(start as int, pos + m);
                        assert(sub.take(pos - start) =~= answers@.subrange(start as int, pos as int));
                        assert(sub.skip(pos - start) =~= answers@.subrange(pos as int, pos + m));
                        assert(sources_of_list(cs).len() == sources_of_list(v@.take(i as int)).len() + m);
                        assert(pos + m <= answers@.len());
                    }
                    match r {
                        Some(Ok(x)) => {
                            acc = acc | x;
                            pos = pos + v[i].sources_len();
                        },
                        other => {
                            proof {
                                let k = sources_of_list(cs).len() as int;
                                assert(whole.take(k) =~= answers@.subrange(start as int, start + k));
                                lemma_v4_list_failure(v@, whole, i + 1);
                            }
                            return other;
                        },
                    }
                }
                proof {
                    assert(v@.take(n as int) =~= v@);
                }
                Some(Ok(acc))
            },
            IPAddressConf::Interface(_) | IPAddressConf::Web(_) => {
                proof {
                    assert(answers@.subrange(start as int, start + 1)[0] == answers@[start as int]);
                }
                match &answers[start] {
                    Ok(o) => Some(Ok(read_u32_be(o))),
                    Err(e) => Some(Err(Ddns6Error(e.0.clone()))),
                }
            },
        }
    }

    /// The IPv4 address that this configuration stands for, given what its
    /// sources (in the order of `sources`) answered; `None` where the
    /// configuration cannot be used for IPv4 (see `eval_v4`).
    pub fn evaluate_ipv4(&self, answers: &Vec<Ipv4Answer>) -> (res: Option<Result<IpAddress, Ddns6Error>>)
        requires
            answers@.len() == spec_sources(*self).len(),
        ensures
            res is None <==> eval_v4(*self, answers@) is None,
            res matches Some(r) ==> agrees_v4(r, eval_v4(*self, answers@)->0),
    {
        let r = self.eval_v4_at(answers, 0);
        proof {
            assert(answers@.subrange(0, answers@.len() as int) =~= answers@);
        }
        match r {
            Some(Ok(x)) => Some(Ok(IpAddress::V4(u32_to_octets(x)))),
            Some(Err(e)) => Some(Err(e)),
            None => None,
        }
    }

    /// The IPv4 address that this configuration stands for, given what its
    /// sources (in the order of `sources`) answered.
    pub fn get_ipv4_address(&self, answers: &Vec<Ipv4Answer>) -> (res: Result<IpAddress, Ddns6Error>)
        requires
            answers@.len() == spec_sources(*self).len(),
            eval_v4(*self, answers@) is Some,
        ensures
            agrees_v4(res, eval_v4(*self, answers@)->0),
    {
        self.evaluate_ipv4(answers).unwrap()
    }
}

} // verus!
