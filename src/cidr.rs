//! Address ranges in CIDR notation and the walk over their addresses.

use vstd::arithmetic::div_mod::lemma_fundamental_div_mod_converse;
use vstd::arithmetic::power2::{lemma2_to64, lemma_pow2_adds, lemma_pow2_pos, pow2};
use vstd::bits::{lemma_u128_shr_is_div, lemma_u32_shr_is_div};
use vstd::prelude::*;
use vstd::string::*;

verus! {

/// An IPv4 address as its 32-bit value or an IPv6 address as its 128-bit value.
#[derive(Debug, Clone, Copy, PartialEq, Eq, PartialOrd, Ord, Hash, Structural)]
pub enum IpAddr {
    V4(u32),
    V6(u128),
}

impl IpAddr {
    /// The number of bits of an address of this family.
    pub open spec fn width(self) -> nat {
        match self {
            IpAddr::V4(_) => 32,
            IpAddr::V6(_) => 128,
        }
    }

    /// The address as an unsigned number.
    pub open spec fn value(self) -> nat {
        match self {
            IpAddr::V4(a) => a as nat,
            IpAddr::V6(a) => a as nat,
        }
    }

    /// Whether this is an IPv4 address.
    pub fn is_ipv4(&self) -> (r: bool)
        ensures
            r == (*self is V4),
    {
        match self {
            IpAddr::V4(_) => true,
            IpAddr::V6(_) => false,
        }
    }
}

/// The address of the same family as `like` whose value is `v`.
pub open spec fn addr_like(like: IpAddr, v: int) -> IpAddr {
    match like {
        IpAddr::V4(_) => IpAddr::V4(v as u32),
        IpAddr::V6(_) => IpAddr::V6(v as u128),
    }
}

/// Whether `prefix` is a valid prefix length for the family of `addr`.
pub open spec fn valid_prefix(addr: IpAddr, prefix: u8) -> bool {
    1 <= prefix <= addr.width()
}

/// The IPv4 network mask with `prefix` leading one bits.
pub open spec fn netmask_v4(prefix: u8) -> u32 {
    u32::MAX << (32 - prefix) as u32
}

/// The IPv6 network mask with `prefix` leading one bits.
pub open spec fn netmask_v6(prefix: u8) -> u128 {
    u128::MAX << (128 - prefix) as u128
}

/// The first address of the range: the address with its host bits cleared.
pub open spec fn first_of(addr: IpAddr, prefix: u8) -> IpAddr {
    match addr {
        IpAddr::V4(a) => IpAddr::V4(a & netmask_v4(prefix)),
        IpAddr::V6(a) => IpAddr::V6(a & netmask_v6(prefix)),
    }
}

/// The last address of the range: the address with its host bits set.
pub open spec fn last_of(addr: IpAddr, prefix: u8) -> IpAddr {
    match addr {
        IpAddr::V4(a) => IpAddr::V4(a | !netmask_v4(prefix)),
        IpAddr::V6(a) => IpAddr::V6(a | !netmask_v6(prefix)),
    }
}

proof fn lemma_host_mask_v4(a: u32, p: u32)
    by (bit_vector)
    requires
        1 <= p <= 32,
    ensures
        p < 32 ==> u32::MAX >> p == !(u32::MAX << (32 - p) as u32),
        p == 32 ==> a | !(u32::MAX << (32 - p) as u32) == a,
        p == 32 ==> !(u32::MAX << (32 - p) as u32) == 0,
        a & (u32::MAX << (32 - p) as u32) <= a <= a | !(u32::MAX << (32 - p) as u32),
        (a & (u32::MAX << (32 - p) as u32)) + !(u32::MAX << (32 - p) as u32) == a | !(u32::MAX
            << (32 - p) as u32),
{
}

proof fn lemma_host_mask_v6(a: u128, p: u128)
    by (bit_vector)
    requires
        1 <= p <= 128,
    ensures
        p < 128 ==> u128::MAX >> p == !(u128::MAX << (128 - p) as u128),
        p == 128 ==> a | !(u128::MAX << (128 - p) as u128) == a,
        p == 128 ==> !(u128::MAX << (128 - p) as u128) == 0,
        a & (u128::MAX << (128 - p) as u128) <= a <= a | !(u128::MAX << (128 - p) as u128),
        (a & (u128::MAX << (128 - p) as u128)) + !(u128::MAX << (128 - p) as u128) == a | !(
        u128::MAX << (128 - p) as u128),
{
}

/// A CIDR block: an address and the number of leading bits that fix the network.
#[derive(Debug, Clone, Copy, PartialEq, Eq, Structural)]
pub struct IpAddrRange {
    addr: IpAddr,
    mask: u8,
}

/// The message of the error for a zero prefix length.
pub open spec fn zero_mask_message() -> Seq<char> {
    "mask cannot be 0"@
}

/// The message of the error for an IPv4 prefix length above 32.
pub open spec fn v4_mask_message() -> Seq<char> {
    "mask cannot be more than 32 for an IPv4 address"@
}

/// The message of the error for an IPv6 prefix length above 128.
pub open spec fn v6_mask_message() -> Seq<char> {
    "mask cannot be more than 128 for an IPv6 address"@
}

impl View for IpAddrRange {
    type V = (IpAddr, u8);

    closed spec fn view(&self) -> (IpAddr, u8) {
        (self.addr, self.mask)
    }
}

impl IpAddrRange {
    /// The range holds a prefix length that is valid for its address family.
    pub open spec fn wf(&self) -> bool {
        valid_prefix(self@.0, self@.1)
    }

    /// The range of `addr` with prefix length `mask`, which must be valid.
    pub fn new(addr: IpAddr, mask: u8) -> (r: IpAddrRange)
        requires
            valid_prefix(addr, mask),
        ensures
            r@ == (addr, mask),
            r.wf(),
    {
        IpAddrRange { addr, mask }
    }

    /// The range of `addr` with prefix length `mask`, or the reason why `mask`
    /// is not valid for the family of `addr`.
    pub fn try_new(addr: IpAddr, mask: u8) -> (r: Result<IpAddrRange, String>)
        ensures
            r is Ok <==> valid_prefix(addr, mask),
            r is Ok ==> r->Ok_0@ == (addr, mask) && r->Ok_0.wf(),
            mask == 0 ==> r is Err && r->Err_0@ == zero_mask_message(),
            mask > 32 && addr is V4 ==> r is Err && r->Err_0@ == v4_mask_message(),
            mask > 128 && addr is V6 ==> r is Err && r->Err_0@ == v6_mask_message(),
    {
        if mask == 0 {
            Err(String::from_str("mask cannot be 0"))
        } else {
            match addr {
                IpAddr::V4(_) => {
                    if mask > 32 {
                        Err(String::from_str("mask cannot be more than 32 for an IPv4 address"))
                    } else {
                        Ok(IpAddrRange { addr, mask })
                    }
                },
                IpAddr::V6(_) => {
                    if mask > 128 {
                        Err(String::from_str("mask cannot be more than 128 for an IPv6 address"))
                    } else {
                        Ok(IpAddrRange { addr, mask })
                    }
                },
            }
        }
    }

    /// The range that holds `addr` alone: the full width as prefix length.
    pub fn from_addr(addr: IpAddr) -> (r: IpAddrRange)
        ensures
            r@ == (addr, addr.width() as u8),
            r.wf(),
    {
        let mask: u8 = match addr {
            IpAddr::V4(_) => 32,
            IpAddr::V6(_) => 128,
        };
        IpAddrRange { addr, mask }
    }

    /// The base address.
    pub fn addr(&self) -> (r: &IpAddr)
        ensures
            *r == self@.0,
    {
        &self.addr
    }

    /// Replaces the base address; the prefix length must suit its family.
    pub fn set_addr(&mut self, addr: IpAddr)
        requires
            valid_prefix(addr, old(self)@.1),
        ensures
            final(self)@ == (addr, old(self)@.1),
            final(self).wf(),
    {
        self.addr = addr;
    }

    /// The prefix length.
    pub fn mask(&self) -> (r: &u8)
        ensures
            *r == self@.1,
    {
        &self.mask
    }

    /// Replaces the prefix length, which must suit the family of the address.
    pub fn set_mask(&mut self, mask: u8)
        requires
            valid_prefix(old(self)@.0, mask),
        ensures
            final(self)@ == (old(self)@.0, mask),
            final(self).wf(),
    {
        self.mask = mask;
    }

    /// The first address of the range.
    pub fn first_addr(&self) -> (r: IpAddr)
        requires
            self.wf(),
        ensures
            r == first_of(self@.0, self@.1),
    {
        match self.addr {
            IpAddr::V4(a) => IpAddr::V4(a & (u32::MAX << (32 - self.mask as u32))),
            IpAddr::V6(a) => IpAddr::V6(a & (u128::MAX << (128 - self.mask as u128))),
        }
    }

    /// The last address of the range. With a full-width prefix it is the base
    /// address itself, so no shift by the full width is made.
    pub fn last_addr(&self) -> (r: IpAddr)
        requires
            self.wf(),
        ensures
            r == last_of(self@.0, self@.1),
    {
        match self.addr {
            IpAddr::V4(a) => {
                proof {
                    lemma_host_mask_v4(a, self.mask as u32);
                }
                if self.mask == 32 {
                    self.addr
                } else {
                    IpAddr::V4(a | (u32::MAX >> self.mask as u32))
                }
            },
            IpAddr::V6(a) => {
                proof {
                    lemma_host_mask_v6(a, self.mask as u128);
                }
                if self.mask == 128 {
                    self.addr
                } else {
                    IpAddr::V6(a | (u128::MAX >> self.mask as u128))
                }
            },
        }
    }

    /// A fresh walk over the addresses of the range, from the first to the last.
    pub fn iter(&self) -> (r: IntoIter)
        requires
            self.wf(),
        ensures
            r.wf(),
            r.remaining() == addr_span(first_of(self@.0, self@.1), last_of(self@.0, self@.1)),
    {
        proof {
            lemma_range_bounds(self.addr, self.mask);
        }
        IntoIter { cur: self.first_addr(), last: self.last_addr(), done: false }
    }
}

/// The addresses from `first` to `last` inclusive, in increasing order.
pub open spec fn addr_span(first: IpAddr, last: IpAddr) -> Seq<IpAddr> {
    Seq::new((last.value() - first.value() + 1) as nat, |i: int| addr_like(first, first.value() + i))
}

/// A walk over the addresses of a range, which stops after the last address
/// without stepping past it.
pub struct IntoIter {
    cur: IpAddr,
    last: IpAddr,
    done: bool,
}

impl IntoIter {
    /// The current and last address share a family and are in order.
    pub closed spec fn wf(&self) -> bool {
        self.cur.width() == self.last.width() && self.cur.value() <= self.last.value()
    }

    /// The addresses that the walk has yet to give.
    pub closed spec fn remaining(&self) -> Seq<IpAddr> {
        if self.done {
            Seq::empty()
        } else {
            addr_span(self.cur, self.last)
        }
    }

    /// The next address of the walk, if any.
    pub fn next(&mut self) -> (r: Option<IpAddr>)
        requires
            old(self).wf(),
        ensures
            final(self).wf(),
            old(self).remaining().len() == 0 ==> r is None && final(self).remaining().len() == 0,
            old(self).remaining().len() > 0 ==> r == Some(old(self).remaining()[0])
                && final(self).remaining() == old(self).remaining().drop_first(),
    {
        if self.done {
            None
        } else if self.cur == self.last {
            self.done = true;
            assert(addr_like(self.cur, self.cur.value() as int) == self.cur);
            Some(self.cur)
        } else {
            let next = self.cur;
            let ghost before = addr_span(self.cur, self.last);
            self.cur = match self.cur {
                IpAddr::V4(a) => IpAddr::V4(a + 1),
                IpAddr::V6(a) => IpAddr::V6(a + 1),
            };
            assert(addr_span(self.cur, self.last) =~= before.drop_first());
            assert(addr_like(next, next.value() as int) == next);
            Some(next)
        }
    }

    /// The last address that the walk would give, if any.
    pub fn last(self) -> (r: Option<IpAddr>)
        requires
            self.wf(),
        ensures
            self.remaining().len() == 0 ==> r is None,
            self.remaining().len() > 0 ==> r == Some(self.remaining().last()),
    {
        if self.done {
            None
        } else {
            assert(addr_like(self.cur, self.cur.value() + (self.last.value() - self.cur.value()))
                == self.last);
            Some(self.last)
        }
    }
}

/// Every address of a valid range lies between its first and last address, and
/// the first and last address share the family of the base address.
pub proof fn lemma_range_bounds(addr: IpAddr, prefix: u8)
    requires
        valid_prefix(addr, prefix),
    ensures
        first_of(addr, prefix).value() <= addr.value() <= last_of(addr, prefix).value(),
        first_of(addr, prefix).width() == addr.width(),
        last_of(addr, prefix).width() == addr.width(),
{
    match addr {
        IpAddr::V4(a) => lemma_host_mask_v4(a, prefix as u32),
        IpAddr::V6(a) => lemma_host_mask_v6(a, prefix as u128),
    }
}

proof fn lemma_low_ones(max: nat, width: nat, p: nat, shifted: nat)
    requires
        1 <= p < width,
        max + 1 == pow2(width),
        shifted == max / pow2(p),
    ensures
        shifted + 1 == pow2((width - p) as nat),
{
    let a = pow2((width - p) as nat);
    let b = pow2(p);
    lemma_pow2_adds((width - p) as nat, p);
    lemma_pow2_pos(p);
    assert((a - 1) * b + (b - 1) == a * b - 1) by (nonlinear_arith);
    lemma_fundamental_div_mod_converse(max as int, b as int, a - 1, b - 1);
}

/// A valid range holds `2^(width - prefix)` addresses; a full-width prefix gives
/// exactly one.
pub proof fn lemma_range_count(addr: IpAddr, prefix: u8)
    requires
        valid_prefix(addr, prefix),
    ensures
        addr_span(first_of(addr, prefix), last_of(addr, prefix)).len() == pow2(
            (addr.width() - prefix) as nat,
        ),
        prefix == addr.width() ==> addr_span(first_of(addr, prefix), last_of(addr, prefix)).len()
            == 1,
{
    lemma_range_bounds(addr, prefix);
    lemma2_to64();
    match addr {
        IpAddr::V4(a) => {
            let p = prefix as u32;
            lemma_host_mask_v4(a, p);
            if p < 32 {
                lemma_u32_shr_is_div(u32::MAX, p);
                lemma_low_ones(u32::MAX as nat, 32, p as nat, (u32::MAX >> p) as nat);
            }
        },
        IpAddr::V6(a) => {
            let p = prefix as u128;
            lemma_host_mask_v6(a, p);
            if p < 128 {
                lemma_pow2_adds(64, 64);
                lemma_u128_shr_is_div(u128::MAX, p);
                lemma_low_ones(u128::MAX as nat, 128, p as nat, (u128::MAX >> p) as nat);
            }
        },
    }
}

/// The value of a decimal digit character.
pub open spec fn digit_value(c: char) -> int {
    c as u32 as int - '0' as u32 as int
}

/// Whether `c` is a decimal digit.
pub open spec fn is_digit(c: char) -> bool {
    '0' <= c <= '9'
}

/// The value of a string of decimal digits.
pub open spec fn digits_value(d: Seq<char>) -> int
    decreases d.len(),
{
    if d.len() == 0 {
        0
    } else {
        digits_value(d.drop_last()) * 10 + digit_value(d.last())
    }
}

/// The byte that a prefix text denotes: an optional `+` followed by one or more
/// decimal digits whose value is below 256; `None` for any other text.
pub open spec fn byte_text_value(t: Seq<char>) -> Option<u8> {
    let d = if t.len() > 0 && t[0] == '+' {
        t.subrange(1, t.len() as int)
    } else {
        t
    };
    if d.len() > 0 && (forall|i: int| 0 <= i < d.len() ==> is_digit(#[trigger] d[i]))
        && digits_value(d) < 256 {
        Some(digits_value(d) as u8)
    } else {
        None
    }
}

/// The decimal digit character for `d` in `0..10`.
pub open spec fn digit_char(d: int) -> char {
    ((d + 48) as u8) as char
}

/// The decimal text of a byte, without leading zeros.
pub open spec fn decimal_text(b: u8) -> Seq<char> {
    let n = b as int;
    if n < 10 {
        seq![digit_char(n)]
    } else if n < 100 {
        seq![digit_char(n / 10), digit_char(n % 10)]
    } else {
        seq![digit_char(n / 100), digit_char(n / 10 % 10), digit_char(n % 10)]
    }
}

/// Relies on `u8::from_str`: an optional `+` and decimal digits whose value fits
/// in a byte are accepted, anything else is refused with the message of the
/// integer-parse error.
#[verifier::external_body]
fn parse_byte(t: &str) -> (r: Result<u8, String>)
    ensures
        r is Ok <==> byte_text_value(t@) is Some,
        r is Ok ==> byte_text_value(t@) == Some(r->Ok_0),
{
    t.parse::<u8>().map_err(|e| e.to_string())
}

/// Relies on `u8`'s `ToString`: the decimal digits of the value, without leading zeros.
#[verifier::external_body]
fn byte_to_decimal(n: u8) -> (r: String)
    ensures
        r@ == decimal_text(n),
{
    n.to_string()
}

/// Whether `t` holds no `/`.
pub open spec fn no_slash(t: Seq<char>) -> bool {
    forall|i: int| 0 <= i < t.len() ==> t[i] != '/'
}

/// `head` and `tail` split `s` at its first `/`: `s` is `head`, `/`, `tail`
/// with `head` free of `/`; or `s` holds no `/`, is `head` and has no tail.
pub open spec fn splits_at_slash(s: Seq<char>, head: Seq<char>, tail: Option<Seq<char>>) -> bool {
    no_slash(head) && match tail {
        Some(t) => s == head + seq!['/'] + t,
        None => s == head,
    }
}

/// What a range text denotes, given the address read from the text before its
/// first `/` and the text after it, if any: the address alone as a host range,
/// or the address with a valid prefix length.
pub open spec fn range_of_parts(addr: IpAddr, prefix: Option<Seq<char>>) -> Option<(IpAddr, u8)> {
    match prefix {
        None => Some((addr, addr.width() as u8)),
        Some(t) => match byte_text_value(t) {
            Some(m) => if valid_prefix(addr, m) {
                Some((addr, m))
            } else {
                None
            },
            None => None,
        },
    }
}

/// Splits a range text at its first `/` into the address text and the prefix
/// text, if there is a `/`.
pub fn split_range_text(s: &str) -> (r: (&str, Option<&str>))
    ensures
        splits_at_slash(
            s@,
            r.0@,
            match r.1 {
                Some(t) => Some(t@),
                None => None,
            },
        ),
{
    let n: usize = s.unicode_len();
    let mut i: usize = 0;
    while i < n
        invariant
            n == s@.len(),
            0 <= i <= n,
            forall|j: int| 0 <= j < i ==> s@[j] != '/',
        decreases n - i,
    {
        if s.get_char(i) == '/' {
            let head = s.substring_char(0, i);
            let tail = s.substring_char(i + 1, n);
            assert(s@ =~= head@ + seq!['/'] + tail@);
            return (head, Some(tail));
        }
        i = i + 1;
    }
    (s, None)
}

impl IpAddrRange {
    /// The range that a text denotes, given the address already read from the
    /// part before the first `/` and the part after it, if any. Without a prefix
    /// it is the host range of the address; a prefix that is no decimal byte is
    /// refused with the integer-parse message, and an invalid prefix length as
    /// `try_new` refuses it.
    pub fn from_parts(addr: IpAddr, prefix: Option<&str>) -> (r: Result<IpAddrRange, String>)
        ensures
            ({
                let spec_prefix = match prefix {
                    Some(t) => Some(t@),
                    None => None,
                };
                &&& r is Ok <==> range_of_parts(addr, spec_prefix) is Some
                &&& r is Ok ==> range_of_parts(addr, spec_prefix) == Some(r->Ok_0@) && r->Ok_0.wf()
            }),
            prefix matches Some(t) && byte_text_value(t@) == Some(0u8) ==> r is Err && r->Err_0@
                == zero_mask_message(),
            prefix matches Some(t) && byte_text_value(t@) matches Some(m) && m > 32 && addr is V4
                ==> r is Err && r->Err_0@ == v4_mask_message(),
            prefix matches Some(t) && byte_text_value(t@) matches Some(m) && m > 128 && addr is V6
                ==> r is Err && r->Err_0@ == v6_mask_message(),
    {
        match prefix {
            None => Ok(IpAddrRange::from_addr(addr)),
            Some(t) => match parse_byte(t) {
                Ok(m) => IpAddrRange::try_new(addr, m),
                Err(e) => Err(e),
            },
        }
    }

    /// The text of the range, `ADDR/PREFIX`, given the text of its address.
    pub fn to_text(&self, addr_text: &str) -> (r: String)
        ensures
            r@ == addr_text@ + seq!['/'] + decimal_text(self@.1),
    {
        let mut r = String::from_str(addr_text);
        proof {
            reveal_strlit("/");
        }
        r.append("/");
        let digits = byte_to_decimal(self.mask);
        r.append(digits.as_str());
        r
    }
}

proof fn lemma_digit_char(d: int)
    requires
        0 <= d < 10,
    ensures
        is_digit(digit_char(d)),
        digit_value(digit_char(d)) == d,
{
}

proof fn lemma_decimal_round_trip(n: u8)
    ensures
        byte_text_value(decimal_text(n)) == Some(n),
{
    let d = decimal_text(n);
    let n = n as int;
    lemma_digit_char(n % 10);
    if n < 10 {
        assert(d.drop_last().len() == 0);
        assert(digits_value(d.drop_last()) == 0);
        assert(d.last() == digit_char(n % 10));
        assert(digits_value(d) == n);
    } else if n < 100 {
        lemma_digit_char(n / 10);
        let d1 = d.drop_last();
        assert(d1 =~= seq![digit_char(n / 10)]);
        assert(d1.drop_last().len() == 0);
        assert(digits_value(d1.drop_last()) == 0);
        assert(d1.last() == digit_char(n / 10));
        assert(digits_value(d1) == n / 10);
        assert(digits_value(d) == n);
    } else {
        lemma_digit_char(n / 100);
        lemma_digit_char(n / 10 % 10);
        let d1 = d.drop_last();
        let d2 = d1.drop_last();
        assert(d1 =~= seq![digit_char(n / 100), digit_char(n / 10 % 10)]);
        assert(d2 =~= seq![digit_char(n / 100)]);
        assert(d2.drop_last().len() == 0);
        assert(digits_value(d2.drop_last()) == 0);
        assert(d2.last() == digit_char(n / 100));
        assert(digits_value(d2) == n / 100);
        assert(digits_value(d1) == n / 10);
        assert(digits_value(d) == n);
    }
    assert(forall|i: int| 0 <= i < d.len() ==> is_digit(#[trigger] d[i]));
    assert(d[0] != '+');
}

/// The text of a valid range reads back as the same range: whatever address
/// text without `/` stands before it, the text splits at the `/` that
/// `to_text` wrote, and the address with the prefix text gives the range again.
pub proof fn lemma_text_round_trip(
    r: (IpAddr, u8),
    addr_text: Seq<char>,
    head: Seq<char>,
    tail: Option<Seq<char>>,
)
    requires
        valid_prefix(r.0, r.1),
        no_slash(addr_text),
        splits_at_slash(addr_text + seq!['/'] + decimal_text(r.1), head, tail),
    ensures
        head == addr_text,
        tail == Some(decimal_text(r.1)),
        range_of_parts(r.0, tail) == Some(r),
{
    let s = addr_text + seq!['/'] + decimal_text(r.1);
    let k = addr_text.len() as int;
    assert(s[k] == '/');
    match tail {
        Some(t) => {
            let h = head.len() as int;
            assert(s[h] == '/');
            if h < k {
                assert(s[h] == addr_text[h]);
            } else if h > k {
                assert(s[k] == head[k]);
            }
            assert(head =~= s.subrange(0, k));
            assert(addr_text =~= s.subrange(0, k));
            assert(t =~= s.subrange(k + 1, s.len() as int));
            assert(decimal_text(r.1) =~= s.subrange(k + 1, s.len() as int));
        },
        None => {
            assert(head[k] == '/');
        },
    }
    lemma_decimal_round_trip(r.1);
}

} // verus!
