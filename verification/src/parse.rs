//! Textual IP-address literals.
//!
//! A host given as literal IPv4 (`"127.0.0.1"`) or IPv6 (`"::1"`) text is
//! recognised here without any name resolution.  The grammar is the usual
//! one: four dot-separated decimal octets without leading zeros for IPv4;
//! colon-separated groups of one to four hex digits for IPv6, with a single
//! `::` standing for one or more zero groups and an optional trailing
//! embedded IPv4 address supplying the last two groups.

use vstd::prelude::*;
use vstd::std_specs::iter::IteratorSpec;

use crate::addr::IpAddress;

verus! {

broadcast use vstd::string::next_postcondition, vstd::string::axiom_spec_iter;

/// The characters of `s`, in order.
pub fn chars_of(s: &str) -> (v: Vec<char>)
    ensures
        v@ == s@,
{
    let mut v: Vec<char> = Vec::new();
    let mut it = s.chars();
    loop
        invariant
            it.obeys_prophetic_iter_laws(),
            v@ + it.remaining() == s@,
        decreases s@.len() - v.len(),
    {
        match it.next() {
            Option::Some(c) => {
                v.push(c);
                proof {
                    assert(v@ + it.remaining() =~= s@);
                }
            },
            Option::None => {
                proof {
                    assert(v@ =~= s@);
                }
                return v;
            },
        }
    }
}

/// A decimal digit.
pub open spec fn is_dec_digit(c: char) -> bool {
    '0' <= c && c <= '9'
}

/// The value of a decimal digit.
pub open spec fn dec_digit_val(c: char) -> int {
    c as int - '0' as int
}

/// A hexadecimal digit, either case.
pub open spec fn is_hex_digit(c: char) -> bool {
    ('0' <= c && c <= '9') || ('a' <= c && c <= 'f') || ('A' <= c && c <= 'F')
}

/// The value of a hexadecimal digit.
pub open spec fn hex_digit_val(c: char) -> int {
    if '0' <= c && c <= '9' {
        c as int - '0' as int
    } else if 'a' <= c && c <= 'f' {
        c as int - 'a' as int + 10
    } else {
        c as int - 'A' as int + 10
    }
}

pub open spec fn all_dec_digits(s: Seq<char>) -> bool {
    forall|i: int| 0 <= i < s.len() ==> is_dec_digit(#[trigger] s[i])
}

pub open spec fn all_hex_digits(s: Seq<char>) -> bool {
    forall|i: int| 0 <= i < s.len() ==> is_hex_digit(#[trigger] s[i])
}

/// The number denoted by a string of decimal digits.
pub open spec fn dec_val(s: Seq<char>) -> int
    decreases s.len(),
{
    if s.len() == 0 {
        0
    } else {
        dec_val(s.drop_last()) * 10 + dec_digit_val(s.last())
    }
}

/// The number denoted by a string of hexadecimal digits.
pub open spec fn hex_val(s: Seq<char>) -> int
    decreases s.len(),
{
    if s.len() == 0 {
        0
    } else {
        hex_val(s.drop_last()) * 16 + hex_digit_val(s.last())
    }
}

/// The text of one IPv4 octet: one to three decimal digits, no leading zero,
/// value at most 255.
pub open spec fn is_octet_text(s: Seq<char>) -> bool {
    &&& 1 <= s.len() <= 3
    &&& all_dec_digits(s)
    &&& (s.len() > 1 ==> s[0] != '0')
    &&& dec_val(s) <= 255
}

/// The text of one IPv6 group: one to four hexadecimal digits.
pub open spec fn is_quad_text(s: Seq<char>) -> bool {
    &&& 1 <= s.len() <= 4
    &&& all_hex_digits(s)
}

/// `s` split on `sep`, empty fields kept: splitting `"a::b"` on `':'` gives
/// `["a", "", "b"]`.
pub open spec fn split_on(s: Seq<char>, sep: char) -> Seq<Seq<char>>
    decreases s.len(),
{
    if s.len() == 0 {
        seq![Seq::<char>::empty()]
    } else if s[0] == sep {
        seq![Seq::<char>::empty()] + split_on(s.subrange(1, s.len() as int), sep)
    } else {
        let rest = split_on(s.subrange(1, s.len() as int), sep);
        seq![seq![s[0]] + rest[0]] + rest.subrange(1, rest.len() as int)
    }
}

pub proof fn lemma_split_on_nonempty(s: Seq<char>, sep: char)
    ensures
        split_on(s, sep).len() >= 1,
    decreases s.len(),
{
    if s.len() != 0 && s[0] != sep {
        lemma_split_on_nonempty(s.subrange(1, s.len() as int), sep);
    }
}

/// A string without the separator splits into itself alone.
pub proof fn lemma_split_on_no_sep(s: Seq<char>, sep: char)
    requires
        forall|i: int| 0 <= i < s.len() ==> s[i] != sep,
    ensures
        split_on(s, sep) =~= seq![s],
    decreases s.len(),
{
    if s.len() == 0 {
        assert(s =~= Seq::<char>::empty());
        assert(split_on(s, sep) =~= seq![s]);
    } else {
        let tail = s.subrange(1, s.len() as int);
        lemma_split_on_no_sep(tail, sep);
        lemma_split_on_nonempty(tail, sep);
        let rest = split_on(tail, sep);
        assert(s[0] != sep);
        assert(rest =~~= seq![tail]);
        assert(rest.subrange(1, rest.len() as int) =~= Seq::<Seq<char>>::empty());
        assert(seq![s[0]] + rest[0] =~= s);
        assert(split_on(s, sep) == seq![seq![s[0]] + rest[0]] + rest.subrange(
            1,
            rest.len() as int,
        ));
        assert(split_on(s, sep) =~= seq![s]);
    }
}

/// The value of a decimal digit character.
fn dec_digit_value(c: char) -> (r: u32)
    requires
        is_dec_digit(c),
    ensures
        r == dec_digit_val(c),
{
    (c as u32) - ('0' as u32)
}

/// The value of a hexadecimal digit character.
fn hex_digit_value(c: char) -> (r: u32)
    requires
        is_hex_digit(c),
    ensures
        r == hex_digit_val(c),
{
    if '0' <= c && c <= '9' {
        (c as u32) - ('0' as u32)
    } else if 'a' <= c && c <= 'f' {
        (c as u32) - ('a' as u32) + 10
    } else {
        (c as u32) - ('A' as u32) + 10
    }
}

/// Unfolds [`dec_val`] for the short digit strings an octet allows.
proof fn lemma_dec_val_unfold(s: Seq<char>)
    ensures
        s.len() == 1 ==> dec_val(s) == dec_digit_val(s[0]),
        s.len() == 2 ==> dec_val(s) == dec_digit_val(s[0]) * 10 + dec_digit_val(s[1]),
        s.len() == 3 ==> dec_val(s) == (dec_digit_val(s[0]) * 10 + dec_digit_val(s[1])) * 10
            + dec_digit_val(s[2]),
{
    reveal_with_fuel(dec_val, 5);
}

/// Unfolds [`hex_val`] for the short digit strings a group allows.
proof fn lemma_hex_val_unfold(s: Seq<char>)
    ensures
        s.len() == 1 ==> hex_val(s) == hex_digit_val(s[0]),
        s.len() == 2 ==> hex_val(s) == hex_digit_val(s[0]) * 16 + hex_digit_val(s[1]),
        s.len() == 3 ==> hex_val(s) == (hex_digit_val(s[0]) * 16 + hex_digit_val(s[1])) * 16
            + hex_digit_val(s[2]),
        s.len() == 4 ==> hex_val(s) == ((hex_digit_val(s[0]) * 16 + hex_digit_val(s[1])) * 16
            + hex_digit_val(s[2])) * 16 + hex_digit_val(s[3]),
{
    reveal_with_fuel(hex_val, 6);
}

/// Parse one IPv4 octet field.
fn parse_octet(f: &Vec<char>) -> (r: Option<u8>)
    ensures
        r is Some <==> is_octet_text(f@),
        is_octet_text(f@) ==> r == Option::Some(dec_val(f@) as u8),
{
    let n = f.len();
    if n == 0 || n > 3 {
        return Option::None;
    }
    let mut i: usize = 0;
    while i < n
        invariant
            n == f.len(),
            i <= n,
            forall|j: int| 0 <= j < i ==> is_dec_digit(#[trigger] f@[j]),
        decreases n - i,
    {
        if !('0' <= f[i] && f[i] <= '9') {
            return Option::None;
        }
        i += 1;
    }
    if n > 1 && f[0] == '0' {
        return Option::None;
    }
    proof {
        lemma_dec_val_unfold(f@);
    }
    let val: u32 = if n == 1 {
        dec_digit_value(f[0])
    } else if n == 2 {
        dec_digit_value(f[0]) * 10 + dec_digit_value(f[1])
    } else {
        (dec_digit_value(f[0]) * 10 + dec_digit_value(f[1])) * 10 + dec_digit_value(f[2])
    };
    if val > 255 {
        Option::None
    } else {
        Option::Some(val as u8)
    }
}

/// Parse one IPv6 group field.
fn parse_quad(f: &Vec<char>) -> (r: Option<u16>)
    ensures
        r is Some <==> is_quad_text(f@),
        is_quad_text(f@) ==> r == Option::Some(hex_val(f@) as u16),
{
    let n = f.len();
    if n == 0 || n > 4 {
        return Option::None;
    }
    let mut i: usize = 0;
    while i < n
        invariant
            n == f.len(),
            i <= n,
            forall|j: int| 0 <= j < i ==> is_hex_digit(#[trigger] f@[j]),
        decreases n - i,
    {
        let c = f[i];
        if !(('0' <= c && c <= '9') || ('a' <= c && c <= 'f') || ('A' <= c && c <= 'F')) {
            return Option::None;
        }
        i += 1;
    }
    proof {
        lemma_hex_val_unfold(f@);
    }
    let val: u32 = if n == 1 {
        hex_digit_value(f[0])
    } else if n == 2 {
        hex_digit_value(f[0]) * 16 + hex_digit_value(f[1])
    } else if n == 3 {
        (hex_digit_value(f[0]) * 16 + hex_digit_value(f[1])) * 16 + hex_digit_value(f[2])
    } else {
        ((hex_digit_value(f[0]) * 16 + hex_digit_value(f[1])) * 16 + hex_digit_value(f[2])) * 16
            + hex_digit_value(f[3])
    };
    Option::Some(val as u16)
}

/// Literal IPv4 text: four dot-separated octets.
pub open spec fn is_ipv4_text(s: Seq<char>) -> bool {
    let f = split_on(s, '.');
    f.len() == 4 && (forall|i: int| 0 <= i < 4 ==> is_octet_text(#[trigger] f[i]))
}

/// The address denoted by literal IPv4 text.
pub open spec fn ipv4_of(s: Seq<char>) -> IpAddress {
    let f = split_on(s, '.');
    IpAddress::V4 {
        o0: dec_val(f[0]) as u8,
        o1: dec_val(f[1]) as u8,
        o2: dec_val(f[2]) as u8,
        o3: dec_val(f[3]) as u8,
    }
}

/// Parse literal IPv4 text.
pub fn parse_ipv4_chars(v: &Vec<char>) -> (r: Option<IpAddress>)
    ensures
        r is Some <==> is_ipv4_text(v@),
        is_ipv4_text(v@) ==> r == Option::Some(ipv4_of(v@)),
{
    proof {
        assert(v@.subrange(0, v@.len() as int) =~= v@);
    }
    let f = split_from(v, 0, '.');
    let ghost fs = split_on(v@, '.');
    if f.len() != 4 {
        return Option::None;
    }
    let o0 = parse_octet(&f[0]);
    let o1 = parse_octet(&f[1]);
    let o2 = parse_octet(&f[2]);
    let o3 = parse_octet(&f[3]);
    proof {
        assert(f@[0]@ == fs[0] && f@[1]@ == fs[1] && f@[2]@ == fs[2] && f@[3]@ == fs[3]);
    }
    match (o0, o1, o2, o3) {
        (Option::Some(a), Option::Some(b), Option::Some(c), Option::Some(d)) => {
            let r = IpAddress::V4 { o0: a, o1: b, o2: c, o3: d };
            proof {
                assert(forall|i: int| 0 <= i < 4 ==> is_octet_text(#[trigger] fs[i])) by {
                    assert(is_octet_text(fs[0]) && is_octet_text(fs[1]) && is_octet_text(fs[2])
                        && is_octet_text(fs[3]));
                }
            }
            Option::Some(r)
        },
        _ => Option::None,
    }
}

/// Every field is an IPv6 group text.
pub open spec fn all_quads(f: Seq<Seq<char>>) -> bool {
    forall|i: int| 0 <= i < f.len() ==> is_quad_text(#[trigger] f[i])
}

/// The group values of a run of quad fields.
pub open spec fn quads_vals(f: Seq<Seq<char>>) -> Seq<u16> {
    f.map_values(|x: Seq<char>| (hex_val(x) as u16))
}

/// The two groups contributed by an embedded IPv4 address.
pub open spec fn v4_groups(s: Seq<char>) -> Seq<u16> {
    match ipv4_of(s) {
        IpAddress::V4 { o0, o1, o2, o3 } => seq![
            ((o0 as int) * 256 + (o1 as int)) as u16,
            ((o2 as int) * 256 + (o3 as int)) as u16,
        ],
        IpAddress::V6 { .. } => Seq::<u16>::empty(),
    }
}

/// The groups denoted by the fields after a compression (or by all fields when
/// there is none): quads, the last optionally an embedded IPv4 address.
pub open spec fn tail_groups(f: Seq<Seq<char>>) -> Option<Seq<u16>> {
    if f.len() > 0 && is_ipv4_text(f.last()) && all_quads(f.drop_last()) {
        Option::Some(quads_vals(f.drop_last()) + v4_groups(f.last()))
    } else if all_quads(f) {
        Option::Some(quads_vals(f))
    } else {
        Option::None
    }
}

/// The first index at or after `i` whose field is empty, or `f.len()`.
pub open spec fn first_empty(f: Seq<Seq<char>>, i: int) -> int
    decreases f.len() - i,
{
    if i < 0 || i >= f.len() {
        f.len() as int
    } else if f[i].len() == 0 {
        i
    } else {
        first_empty(f, i + 1)
    }
}

/// The eight groups denoted by head fields, a `::` compression, and tail
/// fields; the compression must stand for at least one zero group.
pub open spec fn combined_groups(head: Seq<Seq<char>>, tail: Seq<Seq<char>>) -> Option<Seq<u16>> {
    if all_quads(head) {
        match tail_groups(tail) {
            Option::Some(tg) => {
                if head.len() + tg.len() <= 7 {
                    Option::Some(
                        quads_vals(head) + Seq::new((8 - head.len() - tg.len()) as nat, |i: int| 0u16)
                            + tg,
                    )
                } else {
                    Option::None
                }
            },
            Option::None => Option::None,
        }
    } else {
        Option::None
    }
}

/// The eight groups denoted by literal IPv6 text, if the text is one.
pub open spec fn ipv6_groups(s: Seq<char>) -> Option<Seq<u16>> {
    let f = split_on(s, ':');
    let n = f.len() as int;
    let e = first_empty(f, 0);
    if e == n {
        match tail_groups(f) {
            Option::Some(g) => if g.len() == 8 {
                Option::Some(g)
            } else {
                Option::None
            },
            Option::None => Option::None,
        }
    } else if n == 3 && f[0].len() == 0 && f[1].len() == 0 && f[2].len() == 0 {
        Option::Some(Seq::new(8, |i: int| 0u16))
    } else if e == 0 {
        if n >= 3 && f[1].len() == 0 {
            combined_groups(Seq::<Seq<char>>::empty(), f.subrange(2, n))
        } else {
            Option::None
        }
    } else if e == n - 2 && f[n - 1].len() == 0 {
        combined_groups(f.subrange(0, e), Seq::<Seq<char>>::empty())
    } else if e <= n - 2 {
        combined_groups(f.subrange(0, e), f.subrange(e + 1, n))
    } else {
        Option::None
    }
}

/// Literal IPv6 text.
pub open spec fn is_ipv6_text(s: Seq<char>) -> bool {
    ipv6_groups(s) is Some
}

/// The address made of eight groups.
pub open spec fn v6_of_groups(g: Seq<u16>) -> IpAddress {
    IpAddress::V6 {
        s0: g[0],
        s1: g[1],
        s2: g[2],
        s3: g[3],
        s4: g[4],
        s5: g[5],
        s6: g[6],
        s7: g[7],
    }
}

/// The address denoted by literal IPv6 text.
pub open spec fn ipv6_of(s: Seq<char>) -> IpAddress {
    match ipv6_groups(s) {
        Option::Some(g) => v6_of_groups(g),
        Option::None => IpAddress::V4 { o0: 0, o1: 0, o2: 0, o3: 0 },
    }
}

/// IPv4 text contains a dot, so it is never a quad field.
proof fn lemma_v4_not_quad(x: Seq<char>)
    requires
        is_ipv4_text(x),
    ensures
        !is_quad_text(x),
{
    if is_quad_text(x) {
        assert(forall|i: int| 0 <= i < x.len() ==> x[i] != '.') by {
            assert(forall|i: int| 0 <= i < x.len() ==> is_hex_digit(#[trigger] x[i]));
        }
        lemma_split_on_no_sep(x, '.');
        assert(false);
    }
}

proof fn lemma_first_empty_from(f: Seq<Seq<char>>, i: int, e: int)
    requires
        0 <= i <= e <= f.len(),
        forall|j: int| i <= j < e ==> (#[trigger] f[j]).len() != 0,
        e < f.len() ==> f[e].len() == 0,
    ensures
        first_empty(f, i) == e,
    decreases e - i,
{
    if i < e {
        lemma_first_empty_from(f, i + 1, e);
    }
}

/// The first index whose field is empty, or the field count.
fn find_first_empty(f: &Vec<Vec<char>>) -> (e: usize)
    ensures
        e <= f.len(),
        e as int == first_empty(fields_view(f@), 0),
        e < f.len() ==> f@[e as int]@.len() == 0,
        forall|j: int| 0 <= j < e ==> (#[trigger] f@[j]@).len() != 0,
{
    let n = f.len();
    let mut i: usize = 0;
    while i < n
        invariant
            n == f.len(),
            i <= n,
            forall|j: int| 0 <= j < i ==> (#[trigger] f@[j]@).len() != 0,
        decreases n - i,
    {
        if f[i].len() == 0 {
            proof {
                assert(forall|j: int| 0 <= j < i ==> (#[trigger] fields_view(f@)[j]).len() != 0);
                lemma_first_empty_from(fields_view(f@), 0, i as int);
            }
            return i;
        }
        i += 1;
    }
    proof {
        assert(forall|j: int| 0 <= j < n ==> (#[trigger] fields_view(f@)[j]).len() != 0);
        lemma_first_empty_from(fields_view(f@), 0, n as int);
    }
    n
}

/// Parse a run of quad fields.
fn parse_quads(f: &Vec<Vec<char>>, lo: usize, hi: usize) -> (r: Option<Vec<u16>>)
    requires
        lo <= hi <= f.len(),
    ensures
        ({
            let sub = fields_view(f@).subrange(lo as int, hi as int);
            &&& (r is Some <==> all_quads(sub))
            &&& (match r {
                Option::Some(v) => v@ == quads_vals(sub),
                Option::None => true,
            })
        }),
{
    let ghost sub = fields_view(f@).subrange(lo as int, hi as int);
    let mut out: Vec<u16> = Vec::new();
    let mut i: usize = lo;
    while i < hi
        invariant
            lo <= i <= hi <= f.len(),
            sub == fields_view(f@).subrange(lo as int, hi as int),
            out@.len() == i - lo,
            forall|j: int| lo <= j < i ==> is_quad_text(#[trigger] f@[j]@),
            forall|j: int| lo <= j < i ==> out@[j - lo] == (hex_val(f@[j]@) as u16),
        decreases hi - i,
    {
        match parse_quad(&f[i]) {
            Option::Some(q) => {
                out.push(q);
            },
            Option::None => {
                proof {
                    assert(sub[i - lo] == f@[i as int]@);
                    assert(!all_quads(sub));
                }
                return Option::None;
            },
        }
        i += 1;
    }
    proof {
        assert(forall|k: int| 0 <= k < sub.len() ==> #[trigger] sub[k] == f@[lo + k]@);
        assert(all_quads(sub));
        assert(out@ =~= quads_vals(sub)) by {
            assert(forall|k: int|
                0 <= k < sub.len() ==> #[trigger] quads_vals(sub)[k] == (hex_val(sub[k]) as u16));
        }
    }
    Option::Some(out)
}

/// Parse the tail fields: quads, the last optionally an embedded IPv4 address.
fn parse_tail(f: &Vec<Vec<char>>, lo: usize, hi: usize) -> (r: Option<Vec<u16>>)
    requires
        lo <= hi <= f.len(),
    ensures
        ({
            let sub = fields_view(f@).subrange(lo as int, hi as int);
            &&& (r is Some <==> tail_groups(sub) is Some)
            &&& (match r {
                Option::Some(v) => tail_groups(sub) == Option::Some(v@),
                Option::None => true,
            })
        }),
{
    let ghost sub = fields_view(f@).subrange(lo as int, hi as int);
    if hi == lo {
        let out: Vec<u16> = Vec::new();
        proof {
            assert(sub =~= Seq::<Seq<char>>::empty());
            assert(all_quads(sub));
            assert(out@ =~= quads_vals(sub));
        }
        return Option::Some(out);
    }
    proof {
        assert(sub.last() == f@[hi - 1]@);
        assert(sub.drop_last() =~= fields_view(f@).subrange(lo as int, hi - 1));
    }
    match parse_ipv4_chars(&f[hi - 1]) {
        Option::Some(a) => {
            proof {
                lemma_v4_not_quad(sub.last());
            }
            match parse_quads(f, lo, hi - 1) {
                Option::Some(mut out) => {
                    match a {
                        IpAddress::V4 { o0, o1, o2, o3 } => {
                            out.push((o0 as u16) * 256 + (o1 as u16));
                            out.push((o2 as u16) * 256 + (o3 as u16));
                            proof {
                                assert(out@ =~= quads_vals(sub.drop_last()) + v4_groups(
                                    sub.last(),
                                ));
                            }
                            Option::Some(out)
                        },
                        IpAddress::V6 { .. } => {
                            proof {
                                assert(false);
                            }
                            Option::None
                        },
                    }
                },
                Option::None => {
                    proof {
                        assert(!all_quads(sub)) by {
                            assert(!is_quad_text(sub.last()));
                            assert(sub[sub.len() - 1] == sub.last());
                        }
                    }
                    Option::None
                },
            }
        },
        Option::None => {
            match parse_quads(f, lo, hi) {
                Option::Some(out) => {
                    proof {
                        assert(sub.subrange(0, sub.len() as int) =~= sub);
                    }
                    Option::Some(out)
                },
                Option::None => Option::None,
            }
        },
    }
}

/// Parse head fields, a compression, and tail fields, into eight groups.
fn combine_parts(f: &Vec<Vec<char>>, hlo: usize, hhi: usize, tlo: usize, thi: usize) -> (r: Option<
    Vec<u16>,
>)
    requires
        hlo <= hhi <= f.len(),
        tlo <= thi <= f.len(),
    ensures
        ({
            let head = fields_view(f@).subrange(hlo as int, hhi as int);
            let tail = fields_view(f@).subrange(tlo as int, thi as int);
            &&& (r is Some <==> combined_groups(head, tail) is Some)
            &&& (match r {
                Option::Some(g) => combined_groups(head, tail) == Option::Some(g@) && g@.len()
                    == 8,
                Option::None => true,
            })
        }),
{
    let ghost head = fields_view(f@).subrange(hlo as int, hhi as int);
    let ghost tail = fields_view(f@).subrange(tlo as int, thi as int);
    let hq = match parse_quads(f, hlo, hhi) {
        Option::Some(v) => v,
        Option::None => {
            return Option::None;
        },
    };
    let tg = match parse_tail(f, tlo, thi) {
        Option::Some(v) => v,
        Option::None => {
            return Option::None;
        },
    };
    let h = hq.len();
    let t = tg.len();
    proof {
        assert(quads_vals(head).len() == head.len());
    }
    if h > 7 || t > 7 - h {
        return Option::None;
    }
    let zeros: usize = 8 - h - t;
    let mut g = hq;
    let mut z: usize = 0;
    while z < zeros
        invariant
            z <= zeros,
            g@.len() == h + z,
            g@ =~= quads_vals(head) + Seq::new(z as nat, |i: int| 0u16),
            h == head.len(),
            quads_vals(head) == g@.subrange(0, h as int),
        decreases zeros - z,
    {
        g.push(0);
        proof {
            assert(g@ =~= quads_vals(head) + Seq::new((z + 1) as nat, |i: int| 0u16));
        }
        z += 1;
    }
    let mut k: usize = 0;
    while k < t
        invariant
            k <= t,
            t == tg.len(),
            g@.len() == h + zeros + k,
            g@ =~= quads_vals(head) + Seq::new(zeros as nat, |i: int| 0u16) + tg@.subrange(
                0,
                k as int,
            ),
        decreases t - k,
    {
        let x = tg[k];
        g.push(x);
        proof {
            assert(g@ =~= quads_vals(head) + Seq::new(zeros as nat, |i: int| 0u16) + tg@.subrange(
                0,
                k + 1,
            ));
        }
        k += 1;
    }
    proof {
        assert(tg@.subrange(0, t as int) =~= tg@);
        assert(g@ =~= quads_vals(head) + Seq::new(zeros as nat, |i: int| 0u16) + tg@);
    }
    Option::Some(g)
}

/// Parse literal IPv6 text.
pub fn parse_ipv6_chars(v: &Vec<char>) -> (r: Option<IpAddress>)
    ensures
        r is Some <==> is_ipv6_text(v@),
        is_ipv6_text(v@) ==> r == Option::Some(ipv6_of(v@)),
{
    proof {
        assert(v@.subrange(0, v@.len() as int) =~= v@);
    }
    let f = split_from(v, 0, ':');
    let ghost fv = split_on(v@, ':');
    let n = f.len();
    let e = find_first_empty(&f);
    let groups_opt: Option<Vec<u16>>;
    if e == n {
        proof {
            assert(fields_view(f@).subrange(0, n as int) =~= fv);
        }
        groups_opt = match parse_tail(&f, 0, n) {
            Option::Some(g) => {
                if g.len() == 8 {
                    Option::Some(g)
                } else {
                    Option::None
                }
            },
            Option::None => Option::None,
        };
    } else if n == 3 && f[0].len() == 0 && f[1].len() == 0 && f[2].len() == 0 {
        let mut g: Vec<u16> = Vec::new();
        let mut z: usize = 0;
        while z < 8
            invariant
                z <= 8,
                g@.len() == z,
                forall|i: int| 0 <= i < z ==> g@[i] == 0u16,
            decreases 8 - z,
        {
            g.push(0);
            z += 1;
        }
        proof {
            assert(g@ =~= Seq::new(8, |i: int| 0u16));
        }
        groups_opt = Option::Some(g);
    } else if e == 0 {
        if n >= 3 && f[1].len() == 0 {
            proof {
                assert(fields_view(f@).subrange(0, 0) =~= Seq::<Seq<char>>::empty());
            }
            groups_opt = combine_parts(&f, 0, 0, 2, n);
        } else {
            groups_opt = Option::None;
        }
    } else if e == n - 2 && f[n - 1].len() == 0 {
        proof {
            assert(fields_view(f@).subrange(n as int, n as int) =~= Seq::<Seq<char>>::empty());
        }
        groups_opt = combine_parts(&f, 0, e, n, n);
    } else if e <= n - 2 {
        groups_opt = combine_parts(&f, 0, e, e + 1, n);
    } else {
        groups_opt = Option::None;
    }
    match groups_opt {
        Option::Some(g) => {
            let r = IpAddress::V6 {
                s0: g[0],
                s1: g[1],
                s2: g[2],
                s3: g[3],
                s4: g[4],
                s5: g[5],
                s6: g[6],
                s7: g[7],
            };
            Option::Some(r)
        },
        Option::None => Option::None,
    }
}

/// The view of a vector of character vectors, as a sequence of sequences.
pub open spec fn fields_view(f: Seq<Vec<char>>) -> Seq<Seq<char>> {
    f.map_values(|x: Vec<char>| x@)
}

/// Split the characters of `v` from position `i` on, on `sep`.
pub fn split_from(v: &Vec<char>, i: usize, sep: char) -> (r: Vec<Vec<char>>)
    requires
        i <= v.len(),
    ensures
        fields_view(r@) == split_on(v@.subrange(i as int, v@.len() as int), sep),
        r.len() >= 1,
    decreases v.len() - i,
{
    let ghost s = v@.subrange(i as int, v@.len() as int);
    if i == v.len() {
        let mut r: Vec<Vec<char>> = Vec::new();
        r.push(Vec::new());
        proof {
            assert(s =~= Seq::<char>::empty());
            assert(fields_view(r@) =~= split_on(s, sep));
        }
        r
    } else {
        let c = v[i];
        let mut r = split_from(v, i + 1, sep);
        let ghost tail = v@.subrange(i + 1, v@.len() as int);
        proof {
            assert(s.subrange(1, s.len() as int) =~= tail);
            lemma_split_on_nonempty(tail, sep);
        }
        if c == sep {
            r.insert(0, Vec::new());
            proof {
                assert(fields_view(r@) =~= split_on(s, sep));
            }
            r
        } else {
            let mut first = r.remove(0);
            first.insert(0, c);
            r.insert(0, first);
            proof {
                let rest = split_on(tail, sep);
                assert(fields_view(r@)[0] =~= seq![s[0]] + rest[0]);
                assert(fields_view(r@) =~= seq![seq![s[0]] + rest[0]] + rest.subrange(
                    1,
                    rest.len() as int,
                ));
            }
            r
        }
    }
}

} // verus!
