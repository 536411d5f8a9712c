//! Target addresses and the grammar of IP literals.
//!
//! A target is an IPv4 or IPv6 address held as plain integers. The literal
//! grammar is written down as spec functions over byte sequences: an IPv4
//! literal is four decimal octets joined by `.`; an IPv6 literal is eight
//! hexadecimal groups joined by `:`, or a shorter list of groups with one
//! `::` standing for the missing run of zero groups. The executable parser
//! is proved to return exactly what the grammar denotes.

use vstd::prelude::*;

verus! {

/// The byte `'0'`.
pub const DIGIT_ZERO: u8 = 48;

/// The byte `'9'`.
pub const DIGIT_NINE: u8 = 57;

/// The byte `'a'`.
pub const LOWER_A: u8 = 97;

/// The byte `'f'`.
pub const LOWER_F: u8 = 102;

/// The byte `'A'`.
pub const UPPER_A: u8 = 65;

/// The byte `'F'`.
pub const UPPER_F: u8 = 70;

/// The byte `'.'`.
pub const DOT: u8 = 46;

/// The byte `':'`.
pub const COLON: u8 = 58;

/// A resolved network address: the target of every probe. Immutable once
/// resolved and shared read-only by every scheduler tick.
#[derive(Clone, Copy, Debug, PartialEq, Eq, Structural)]
pub enum IpAddress {
    /// An IPv4 address as its four octets.
    V4(u8, u8, u8, u8),
    /// An IPv6 address as its eight 16-bit groups.
    V6(u16, u16, u16, u16, u16, u16, u16, u16),
}

pub open spec fn is_digit(c: u8) -> bool {
    DIGIT_ZERO <= c && c <= DIGIT_NINE
}

pub open spec fn digit_val(c: u8) -> int {
    c - DIGIT_ZERO
}

pub open spec fn is_hex_digit(c: u8) -> bool {
    is_digit(c) || (LOWER_A <= c && c <= LOWER_F) || (UPPER_A <= c && c <= UPPER_F)
}

pub open spec fn hex_digit_val(c: u8) -> int {
    if is_digit(c) {
        c - DIGIT_ZERO
    } else if LOWER_A <= c && c <= LOWER_F {
        c - LOWER_A + 10
    } else {
        c - UPPER_A + 10
    }
}

/// The number a sequence of decimal digits denotes.
pub open spec fn dec_value(s: Seq<u8>) -> int
    decreases s.len(),
{
    if s.len() == 0 {
        0
    } else {
        dec_value(s.drop_last()) * 10 + digit_val(s.last())
    }
}

/// The number a sequence of hexadecimal digits denotes.
pub open spec fn hex_value(s: Seq<u8>) -> int
    decreases s.len(),
{
    if s.len() == 0 {
        0
    } else {
        hex_value(s.drop_last()) * 16 + hex_digit_val(s.last())
    }
}

/// One decimal octet of an IPv4 literal: one to three digits, no leading
/// zero, value at most 255.
pub open spec fn is_dec_octet(s: Seq<u8>) -> bool {
    &&& 1 <= s.len() <= 3
    &&& forall|i: int| 0 <= i < s.len() ==> is_digit(s[i])
    &&& s.len() > 1 ==> s[0] != DIGIT_ZERO
    &&& dec_value(s) <= 255
}

/// One group of an IPv6 literal: one to four hexadecimal digits.
pub open spec fn is_hex_group(s: Seq<u8>) -> bool {
    &&& 1 <= s.len() <= 4
    &&& forall|i: int| 0 <= i < s.len() ==> is_hex_digit(s[i])
}

/// The pieces of `s` between occurrences of `sep`, in order; empty pieces
/// are kept, so the result always has one more piece than `s` has
/// separators.
pub open spec fn split_sep(s: Seq<u8>, sep: u8) -> Seq<Seq<u8>>
    decreases s.len(),
{
    if s.len() == 0 {
        seq![Seq::<u8>::empty()]
    } else if s[0] == sep {
        seq![Seq::<u8>::empty()] + split_sep(s.skip(1), sep)
    } else {
        let rest = split_sep(s.skip(1), sep);
        seq![seq![s[0]] + rest[0]] + rest.skip(1)
    }
}

/// An IPv4 literal denotes the four octet values it lists.
pub open spec fn spec_parse_ipv4(s: Seq<u8>) -> Option<(u8, u8, u8, u8)> {
    let parts = split_sep(s, DOT);
    if parts.len() == 4 && is_dec_octet(parts[0]) && is_dec_octet(parts[1]) && is_dec_octet(
        parts[2],
    ) && is_dec_octet(parts[3]) {
        Some(
            (
                dec_value(parts[0]) as u8,
                dec_value(parts[1]) as u8,
                dec_value(parts[2]) as u8,
                dec_value(parts[3]) as u8,
            ),
        )
    } else {
        None
    }
}

/// The index of the first `::` in `s`, or -1 when there is none.
pub open spec fn first_gap(s: Seq<u8>) -> int
    decreases s.len(),
{
    if s.len() < 2 {
        -1
    } else if s[0] == COLON && s[1] == COLON {
        0
    } else {
        let r = first_gap(s.skip(1));
        if r < 0 {
            -1
        } else {
            r + 1
        }
    }
}

/// The group texts of one side of an IPv6 literal: none when the side is
/// empty, otherwise the pieces between single colons.
pub open spec fn colon_parts(s: Seq<u8>) -> Seq<Seq<u8>> {
    if s.len() == 0 {
        Seq::<Seq<u8>>::empty()
    } else {
        split_sep(s, COLON)
    }
}

pub open spec fn all_hex_groups(parts: Seq<Seq<u8>>) -> bool {
    forall|i: int| 0 <= i < parts.len() ==> is_hex_group(parts[i])
}

/// The values the listed groups denote, in order.
pub open spec fn group_values(parts: Seq<Seq<u8>>) -> Seq<u16> {
    parts.map_values(|p: Seq<u8>| hex_value(p) as u16)
}

/// An IPv6 literal denotes eight group values: either all eight are
/// listed, or one `::` stands for the run of zero groups that the listed
/// head and tail leave out (so at most seven may be listed).
pub open spec fn spec_parse_ipv6(s: Seq<u8>) -> Option<Seq<u16>> {
    let gap = first_gap(s);
    if gap < 0 {
        let parts = split_sep(s, COLON);
        if parts.len() == 8 && all_hex_groups(parts) {
            Some(group_values(parts))
        } else {
            None
        }
    } else {
        let head = colon_parts(s.take(gap));
        let tail = colon_parts(s.skip(gap + 2));
        if all_hex_groups(head) && all_hex_groups(tail) && head.len() + tail.len() <= 7 {
            Some(
                group_values(head) + Seq::new((8 - head.len() - tail.len()) as nat, |i: int| 0u16)
                    + group_values(tail),
            )
        } else {
            None
        }
    }
}

/// What an IP literal denotes: the IPv4 reading where one exists,
/// otherwise the IPv6 reading, otherwise nothing.
pub open spec fn spec_parse_ip(s: Seq<u8>) -> Option<IpAddress> {
    match spec_parse_ipv4(s) {
        Some((a, b, c, d)) => Some(IpAddress::V4(a, b, c, d)),
        None => match spec_parse_ipv6(s) {
            Some(g) => Some(
                IpAddress::V6(g[0], g[1], g[2], g[3], g[4], g[5], g[6], g[7]),
            ),
            None => None,
        },
    }
}

/// The byte sequences the listed vectors hold, in order.
pub open spec fn views_of(parts: Seq<Vec<u8>>) -> Seq<Seq<u8>> {
    parts.map_values(|p: Vec<u8>| p@)
}

fn split_from(s: &Vec<u8>, from: usize, sep: u8) -> (parts: Vec<Vec<u8>>)
    requires
        from <= s@.len(),
    ensures
        views_of(parts@) == split_sep(s@.skip(from as int), sep),
        parts@.len() >= 1,
    decreases s@.len() - from,
{
    if from == s.len() {
        let mut parts: Vec<Vec<u8>> = Vec::new();
        parts.push(Vec::new());
        proof {
            assert(s@.skip(from as int) =~= Seq::<u8>::empty());
            assert(views_of(parts@) =~~= split_sep(s@.skip(from as int), sep));
        }
        parts
    } else if s[from] == sep {
        let mut parts = split_from(s, from + 1, sep);
        parts.insert(0, Vec::new());
        proof {
            assert(s@.skip(from as int)[0] == sep);
            assert(s@.skip(from as int).skip(1) =~= s@.skip(from as int + 1));
            assert(views_of(parts@) =~~= split_sep(s@.skip(from as int), sep));
        }
        parts
    } else {
        let mut parts = split_from(s, from + 1, sep);
        let mut first = parts.remove(0);
        first.insert(0, s[from]);
        parts.insert(0, first);
        proof {
            assert(s@.skip(from as int)[0] == s@[from as int]);
            assert(s@.skip(from as int).skip(1) =~= s@.skip(from as int + 1));
            assert(views_of(parts@) =~~= split_sep(s@.skip(from as int), sep));
        }
        parts
    }
}

proof fn lemma_dec_value_small(s: Seq<u8>)
    requires
        forall|i: int| 0 <= i < s.len() ==> is_digit(s[i]),
        s.len() <= 3,
    ensures
        0 <= dec_value(s),
        s.len() <= 3 ==> dec_value(s) <= 999,
        s.len() <= 2 ==> dec_value(s) <= 99,
        s.len() <= 1 ==> dec_value(s) <= 9,
    decreases s.len(),
{
    if s.len() > 0 {
        assert(forall|i: int| 0 <= i < s.drop_last().len() ==> is_digit(s.drop_last()[i]));
        lemma_dec_value_small(s.drop_last());
    }
}

proof fn lemma_hex_value_small(s: Seq<u8>)
    requires
        forall|i: int| 0 <= i < s.len() ==> is_hex_digit(s[i]),
        s.len() <= 4,
    ensures
        0 <= hex_value(s),
        s.len() <= 4 ==> hex_value(s) <= 65535,
        s.len() <= 3 ==> hex_value(s) <= 4095,
        s.len() <= 2 ==> hex_value(s) <= 255,
        s.len() <= 1 ==> hex_value(s) <= 15,
    decreases s.len(),
{
    if s.len() > 0 {
        assert(forall|i: int| 0 <= i < s.drop_last().len() ==> is_hex_digit(s.drop_last()[i]));
        lemma_hex_value_small(s.drop_last());
    }
}

/// The value of one decimal octet text, or `None` where the text is not a
/// valid octet.
fn octet_value(part: &Vec<u8>) -> (r: Option<u8>)
    ensures
        is_dec_octet(part@) ==> r == Some(dec_value(part@) as u8),
        !is_dec_octet(part@) ==> r is None,
{
    if part.len() < 1 || part.len() > 3 {
        return None;
    }
    if part.len() > 1 && part[0] == DIGIT_ZERO {
        return None;
    }
    let mut val: u16 = 0;
    let mut i: usize = 0;
    while i < part.len()
        invariant
            i <= part@.len(),
            part@.len() <= 3,
            forall|j: int| 0 <= j < i ==> is_digit(part@[j]),
            val == dec_value(part@.take(i as int)),
            0 <= val <= 999,
        decreases part@.len() - i,
    {
        let c = part[i];
        if c < DIGIT_ZERO || c > DIGIT_NINE {
            return None;
        }
        proof {
            assert(part@.take(i as int + 1).drop_last() =~= part@.take(i as int));
            assert(part@.take(i as int + 1).last() == part@[i as int]);
            assert(forall|j: int| 0 <= j < i + 1 ==> is_digit(#[trigger] part@.take(i as int + 1)[j]));
            lemma_dec_value_small(part@.take(i as int + 1));
        }
        val = val * 10 + (c - DIGIT_ZERO) as u16;
        i += 1;
    }
    proof {
        assert(part@.take(part@.len() as int) =~= part@);
    }
    if val > 255 {
        return None;
    }
    Some(val as u8)
}

/// The value of one hexadecimal group text, or `None` where the text is
/// not a valid group.
fn hex_group_value(part: &Vec<u8>) -> (r: Option<u16>)
    ensures
        is_hex_group(part@) ==> r == Some(hex_value(part@) as u16),
        !is_hex_group(part@) ==> r is None,
{
    if part.len() < 1 || part.len() > 4 {
        return None;
    }
    let mut val: u32 = 0;
    let mut i: usize = 0;
    while i < part.len()
        invariant
            i <= part@.len(),
            part@.len() <= 4,
            forall|j: int| 0 <= j < i ==> is_hex_digit(part@[j]),
            val == hex_value(part@.take(i as int)),
            0 <= val <= 65535,
        decreases part@.len() - i,
    {
        let c = part[i];
        let d: u32 = if c >= DIGIT_ZERO && c <= DIGIT_NINE {
            (c - DIGIT_ZERO) as u32
        } else if c >= LOWER_A && c <= LOWER_F {
            (c - LOWER_A) as u32 + 10
        } else if c >= UPPER_A && c <= UPPER_F {
            (c - UPPER_A) as u32 + 10
        } else {
            return None;
        };
        proof {
            assert(part@.take(i as int + 1).drop_last() =~= part@.take(i as int));
            assert(part@.take(i as int + 1).last() == part@[i as int]);
            assert(forall|j: int| 0 <= j < i + 1 ==> is_hex_digit(#[trigger] part@.take(i as int + 1)[j]));
            lemma_hex_value_small(part@.take(i as int + 1));
        }
        val = val * 16 + d;
        i += 1;
    }
    proof {
        assert(part@.take(part@.len() as int) =~= part@);
    }
    Some(val as u16)
}

fn subvec(s: &Vec<u8>, a: usize, b: usize) -> (r: Vec<u8>)
    requires
        a <= b <= s@.len(),
    ensures
        r@ == s@.subrange(a as int, b as int),
{
    let mut r: Vec<u8> = Vec::new();
    let mut i: usize = a;
    while i < b
        invariant
            a <= i <= b <= s@.len(),
            r@ == s@.subrange(a as int, i as int),
        decreases b - i,
    {
        r.push(s[i]);
        proof {
            assert(s@.subrange(a as int, i as int).push(s@[i as int]) =~= s@.subrange(
                a as int,
                i as int + 1,
            ));
        }
        i += 1;
    }
    r
}

/// The values of the listed group texts, or `None` where some text is not
/// a valid group.
fn groups_of_parts(parts: &Vec<Vec<u8>>) -> (r: Option<Vec<u16>>)
    ensures
        match r {
            Some(vals) => all_hex_groups(views_of(parts@)) && vals@ == group_values(
                views_of(parts@),
            ),
            None => !all_hex_groups(views_of(parts@)),
        },
{
    let mut vals: Vec<u16> = Vec::new();
    let mut i: usize = 0;
    while i < parts.len()
        invariant
            i <= parts@.len(),
            forall|j: int| 0 <= j < i ==> is_hex_group(views_of(parts@)[j]),
            vals@ == group_values(views_of(parts@).take(i as int)),
        decreases parts@.len() - i,
    {
        match hex_group_value(&parts[i]) {
            Some(v) => {
                vals.push(v);
                proof {
                    assert(views_of(parts@).take(i as int + 1) =~= views_of(parts@).take(
                        i as int,
                    ).push(parts@[i as int]@));
                    assert(group_values(views_of(parts@).take(i as int + 1)) =~= group_values(
                        views_of(parts@).take(i as int),
                    ).push(hex_value(parts@[i as int]@) as u16));
                }
            },
            None => {
                assert(!is_hex_group(views_of(parts@)[i as int]));
                return None;
            },
        }
        i += 1;
    }
    proof {
        assert(views_of(parts@).take(parts@.len() as int) =~= views_of(parts@));
    }
    Some(vals)
}

proof fn lemma_first_gap_character(s: Seq<u8>)
    ensures
        first_gap(s) >= 0 ==> {
            &&& first_gap(s) + 1 < s.len()
            &&& s[first_gap(s)] == COLON && s[first_gap(s) + 1] == COLON
            &&& forall|j: int|
                0 <= j < first_gap(s) ==> !(#[trigger] s[j] == COLON && s[j + 1] == COLON)
        },
        first_gap(s) < 0 ==> forall|j: int|
            0 <= j && j + 1 < s.len() ==> !(#[trigger] s[j] == COLON && s[j + 1] == COLON),
    decreases s.len(),
{
    if s.len() < 2 {
    } else if s[0] == COLON && s[1] == COLON {
    } else {
        lemma_first_gap_character(s.skip(1));
        let r = first_gap(s.skip(1));
        if r >= 0 {
            assert(s[r + 1] == s.skip(1)[r]);
            assert(s[r + 2] == s.skip(1)[r + 1]);
            assert forall|j: int| 0 <= j < r + 1 implies !(#[trigger] s[j] == COLON && s[j + 1]
                == COLON) by {
                if j > 0 {
                    assert(s.skip(1)[j - 1] == s[j]);
                    assert(s.skip(1)[j] == s[j + 1]);
                    assert(!(s.skip(1)[j - 1] == COLON && s.skip(1)[j] == COLON));
                }
            }
        } else {
            assert forall|j: int| 0 <= j && j + 1 < s.len() implies !(#[trigger] s[j] == COLON
                && s[j + 1] == COLON) by {
                if j > 0 {
                    assert(s.skip(1)[j - 1] == s[j]);
                    assert(s.skip(1)[j] == s[j + 1]);
                    assert(!(s.skip(1)[j - 1] == COLON && s.skip(1)[j] == COLON));
                }
            }
        }
    }
}

/// The position of the first `::`, or `None` when `s` has none.
fn find_gap(s: &Vec<u8>) -> (r: Option<usize>)
    ensures
        match r {
            Some(i) => first_gap(s@) == i,
            None => first_gap(s@) < 0,
        },
{
    proof {
        lemma_first_gap_character(s@);
    }
    if s.len() < 1 {
        return None;
    }
    let mut i: usize = 0;
    while i < s.len() - 1
        invariant
            i <= s@.len(),
            s@.len() >= 1,
            forall|j: int| 0 <= j < i ==> !(#[trigger] s@[j] == COLON && s@[j + 1] == COLON),
        decreases s@.len() - i,
    {
        if s[i] == COLON && s[i + 1] == COLON {
            proof {
                lemma_first_gap_character(s@);
                assert(first_gap(s@) >= 0);
            }
            return Some(i);
        }
        i += 1;
    }
    proof {
        lemma_first_gap_character(s@);
    }
    None
}

fn parse_ipv4(s: &Vec<u8>) -> (r: Option<(u8, u8, u8, u8)>)
    ensures
        r == spec_parse_ipv4(s@),
{
    let parts = split_from(s, 0, DOT);
    proof {
        assert(s@.skip(0) =~= s@);
    }
    if parts.len() != 4 {
        return None;
    }
    let a = octet_value(&parts[0]);
    let b = octet_value(&parts[1]);
    let c = octet_value(&parts[2]);
    let d = octet_value(&parts[3]);
    match (a, b, c, d) {
        (Some(a), Some(b), Some(c), Some(d)) => Some((a, b, c, d)),
        _ => None,
    }
}

fn parse_ipv6(s: &Vec<u8>) -> (r: Option<IpAddress>)
    ensures
        r == match spec_parse_ipv6(s@) {
            Some(g) => Some(IpAddress::V6(g[0], g[1], g[2], g[3], g[4], g[5], g[6], g[7])),
            None => None::<IpAddress>,
        },
{
    match find_gap(s) {
        None => {
            let parts = split_from(s, 0, COLON);
            proof {
                assert(s@.skip(0) =~= s@);
            }
            if parts.len() != 8 {
                return None;
            }
            match groups_of_parts(&parts) {
                Some(vals) => Some(
                    IpAddress::V6(
                        vals[0],
                        vals[1],
                        vals[2],
                        vals[3],
                        vals[4],
                        vals[5],
                        vals[6],
                        vals[7],
                    ),
                ),
                None => None,
            }
        },
        Some(gap) => {
            proof {
                lemma_first_gap_character(s@);
            }
            let n = s.len();
            proof {
                assert(gap + 2 <= n);
            }
            let left = subvec(s, 0, gap);
            let right = subvec(s, gap + 2, n);
            proof {
                assert(left@ =~= s@.take(gap as int));
                assert(right@ =~= s@.skip(gap as int + 2));
            }
            let head: Vec<Vec<u8>> = if left.len() == 0 {
                Vec::new()
            } else {
                split_from(&left, 0, COLON)
            };
            let tail: Vec<Vec<u8>> = if right.len() == 0 {
                Vec::new()
            } else {
                split_from(&right, 0, COLON)
            };
            proof {
                if left@.len() > 0 {
                    assert(left@.skip(0) =~= left@);
                }
                if right@.len() > 0 {
                    assert(right@.skip(0) =~= right@);
                }
                assert(views_of(head@) == colon_parts(s@.take(gap as int)));
                assert(views_of(tail@) == colon_parts(s@.skip(gap as int + 2)));
            }
            let head_vals = match groups_of_parts(&head) {
                Some(v) => v,
                None => {
                    return None;
                },
            };
            let tail_vals = match groups_of_parts(&tail) {
                Some(v) => v,
                None => {
                    return None;
                },
            };
            if head_vals.len() > 7 || tail_vals.len() > 7 - head_vals.len() {
                return None;
            }
            let mid: usize = 8 - head_vals.len() - tail_vals.len();
            let mut groups: Vec<u16> = head_vals;
            let mut k: usize = 0;
            while k < mid
                invariant
                    k <= mid,
                    groups@ == group_values(colon_parts(s@.take(first_gap(s@)))) + Seq::new(
                        k as nat,
                        |i: int| 0u16,
                    ),
                decreases mid - k,
            {
                groups.push(0);
                proof {
                    assert(groups@ =~= group_values(colon_parts(s@.take(first_gap(s@))))
                        + Seq::new(k as nat + 1, |i: int| 0u16));
                }
                k += 1;
            }
            let mut t: usize = 0;
            let tail_len = tail_vals.len();
            while t < tail_len
                invariant
                    t <= tail_len,
                    tail_len == tail_vals@.len(),
                    tail_vals@ == group_values(colon_parts(s@.skip(first_gap(s@) + 2))),
                    groups@ == group_values(colon_parts(s@.take(first_gap(s@)))) + Seq::new(
                        (8 - group_values(colon_parts(s@.take(first_gap(s@)))).len()
                            - tail_len) as nat,
                        |i: int| 0u16,
                    ) + tail_vals@.take(t as int),
                decreases tail_len - t,
            {
                groups.push(tail_vals[t]);
                proof {
                    assert(tail_vals@.take(t as int).push(tail_vals@[t as int]) =~= tail_vals@
                        .take(t as int + 1));
                    assert(groups@ =~= group_values(colon_parts(s@.take(first_gap(s@))))
                        + Seq::new(
                        (8 - group_values(colon_parts(s@.take(first_gap(s@)))).len()
                            - tail_len) as nat,
                        |i: int| 0u16,
                    ) + tail_vals@.take(t as int + 1));
                }
                t += 1;
            }
            proof {
                assert(tail_vals@.take(tail_len as int) =~= tail_vals@);
                assert(groups@ =~= spec_parse_ipv6(s@)->Some_0);
            }
            Some(
                IpAddress::V6(
                    groups[0],
                    groups[1],
                    groups[2],
                    groups[3],
                    groups[4],
                    groups[5],
                    groups[6],
                    groups[7],
                ),
            )
        },
    }
}

/// The canonical text of a decimal octet: no leading zeros.
pub open spec fn dec_text(n: u8) -> Seq<u8> {
    if n < 10 {
        seq![(DIGIT_ZERO + n) as u8]
    } else if n < 100 {
        seq![(DIGIT_ZERO + n / 10) as u8, (DIGIT_ZERO + n % 10) as u8]
    } else {
        seq![
            (DIGIT_ZERO + n / 100) as u8,
            (DIGIT_ZERO + (n / 10) % 10) as u8,
            (DIGIT_ZERO + n % 10) as u8,
        ]
    }
}

/// The canonical text of an IPv4 address: its four octets joined by dots.
pub open spec fn ipv4_text(a: u8, b: u8, c: u8, d: u8) -> Seq<u8> {
    dec_text(a) + seq![DOT] + dec_text(b) + seq![DOT] + dec_text(c) + seq![DOT] + dec_text(d)
}

proof fn lemma_dec_text_is_octet(n: u8)
    ensures
        is_dec_octet(dec_text(n)),
        dec_value(dec_text(n)) == n,
        forall|i: int| 0 <= i < dec_text(n).len() ==> dec_text(n)[i] != DOT,
{
    reveal_with_fuel(dec_value, 4);
    let t = dec_text(n);
    if n < 10 {
        assert(t.drop_last() =~= Seq::<u8>::empty());
    } else if n < 100 {
        assert(t.drop_last() =~= seq![t[0]]);
        assert(seq![t[0]].drop_last() =~= Seq::<u8>::empty());
        assert(dec_value(seq![t[0]]) == digit_val(t[0]));
        assert(dec_value(t) == digit_val(t[0]) * 10 + digit_val(t[1]));
        assert(n / 10 * 10 + n % 10 == n) by (nonlinear_arith);
    } else {
        assert(t.drop_last() =~= seq![t[0], t[1]]);
        assert(seq![t[0], t[1]].drop_last() =~= seq![t[0]]);
        assert(seq![t[0]].drop_last() =~= Seq::<u8>::empty());
        assert(dec_value(seq![t[0]]) == digit_val(t[0]));
        assert(dec_value(seq![t[0], t[1]]) == digit_val(t[0]) * 10 + digit_val(t[1]));
        assert(dec_value(t) == (digit_val(t[0]) * 10 + digit_val(t[1])) * 10 + digit_val(t[2]));
        assert(n / 100 * 100 + (n / 10) % 10 * 10 + n % 10 == n) by (nonlinear_arith);
    }
}

proof fn lemma_split_sep_whole(part: Seq<u8>, sep: u8)
    requires
        forall|i: int| 0 <= i < part.len() ==> part[i] != sep,
    ensures
        split_sep(part, sep) == seq![part],
    decreases part.len(),
{
    if part.len() == 0 {
        assert(split_sep(part, sep) =~~= seq![part]);
    } else {
        lemma_split_sep_whole(part.skip(1), sep);
        assert(split_sep(part, sep) =~~= seq![part]);
    }
}

proof fn lemma_split_sep_prepend(part: Seq<u8>, rest: Seq<u8>, sep: u8)
    requires
        forall|i: int| 0 <= i < part.len() ==> part[i] != sep,
    ensures
        split_sep(part + seq![sep] + rest, sep) == seq![part] + split_sep(rest, sep),
    decreases part.len(),
{
    let s = part + seq![sep] + rest;
    if part.len() == 0 {
        assert(s[0] == sep);
        assert(s.skip(1) =~= rest);
        assert(split_sep(s, sep) =~~= seq![part] + split_sep(rest, sep));
    } else {
        assert(s[0] == part[0]);
        assert(s[0] != sep);
        assert(s.skip(1) =~= part.skip(1) + seq![sep] + rest);
        lemma_split_sep_prepend(part.skip(1), rest, sep);
        let inner = split_sep(s.skip(1), sep);
        assert(inner == seq![part.skip(1)] + split_sep(rest, sep));
        assert(inner[0] == part.skip(1));
        assert(seq![s[0]] + inner[0] =~= part);
        assert(inner.skip(1) =~= split_sep(rest, sep));
        assert(split_sep(s, sep) =~~= seq![part] + split_sep(rest, sep));
    }
}

proof fn lemma_ipv4_text_parses(a: u8, b: u8, c: u8, d: u8)
    ensures
        spec_parse_ipv4(ipv4_text(a, b, c, d)) == Some((a, b, c, d)),
{
    let ta = dec_text(a);
    let tb = dec_text(b);
    let tc = dec_text(c);
    let td = dec_text(d);
    lemma_dec_text_is_octet(a);
    lemma_dec_text_is_octet(b);
    lemma_dec_text_is_octet(c);
    lemma_dec_text_is_octet(d);
    let s = ipv4_text(a, b, c, d);
    assert(s =~= ta + seq![DOT] + (tb + seq![DOT] + (tc + seq![DOT] + td)));
    lemma_split_sep_prepend(ta, tb + seq![DOT] + (tc + seq![DOT] + td), DOT);
    lemma_split_sep_prepend(tb, tc + seq![DOT] + td, DOT);
    lemma_split_sep_prepend(tc, td, DOT);
    lemma_split_sep_whole(td, DOT);
    assert(split_sep(s, DOT) =~~= seq![ta, tb, tc, td]);
    assert(split_sep(s, DOT)[0] == ta);
    assert(split_sep(s, DOT)[1] == tb);
    assert(split_sep(s, DOT)[2] == tc);
    assert(split_sep(s, DOT)[3] == td);
}

/// The byte of one hexadecimal digit, lower case.
pub open spec fn hex_digit_text(d: int) -> u8 {
    if d < 10 {
        (DIGIT_ZERO + d) as u8
    } else {
        (LOWER_A + d - 10) as u8
    }
}

/// The canonical text of one IPv6 group: lower-case hex, no leading
/// zeros.
pub open spec fn hex_text(n: u16) -> Seq<u8> {
    if n < 16 {
        seq![hex_digit_text(n as int)]
    } else if n < 256 {
        seq![hex_digit_text(n as int / 16), hex_digit_text(n as int % 16)]
    } else if n < 4096 {
        seq![
            hex_digit_text(n as int / 256),
            hex_digit_text((n as int / 16) % 16),
            hex_digit_text(n as int % 16),
        ]
    } else {
        seq![
            hex_digit_text(n as int / 4096),
            hex_digit_text((n as int / 256) % 16),
            hex_digit_text((n as int / 16) % 16),
            hex_digit_text(n as int % 16),
        ]
    }
}

proof fn lemma_hex_text_is_group(n: u16)
    ensures
        is_hex_group(hex_text(n)),
        hex_value(hex_text(n)) == n,
    decreases n,
{
    reveal_with_fuel(hex_value, 5);
    let t = hex_text(n);
    if n < 16 {
        assert(t.drop_last() =~= Seq::<u8>::empty());
    } else if n < 256 {
        assert(t.drop_last() =~= seq![t[0]]);
        assert(seq![t[0]].drop_last() =~= Seq::<u8>::empty());
        assert(hex_value(t) == hex_digit_val(t[0]) * 16 + hex_digit_val(t[1]));
        assert(n as int / 16 * 16 + n as int % 16 == n) by (nonlinear_arith);
    } else if n < 4096 {
        assert(t.drop_last() =~= seq![t[0], t[1]]);
        assert(seq![t[0], t[1]].drop_last() =~= seq![t[0]]);
        assert(seq![t[0]].drop_last() =~= Seq::<u8>::empty());
        assert(hex_value(t) == (hex_digit_val(t[0]) * 16 + hex_digit_val(t[1])) * 16
            + hex_digit_val(t[2]));
        assert((n as int / 256 * 16 + (n as int / 16) % 16) * 16 + n as int % 16 == n)
            by (nonlinear_arith);
    } else {
        assert(t.drop_last() =~= seq![t[0], t[1], t[2]]);
        assert(seq![t[0], t[1], t[2]].drop_last() =~= seq![t[0], t[1]]);
        assert(seq![t[0], t[1]].drop_last() =~= seq![t[0]]);
        assert(seq![t[0]].drop_last() =~= Seq::<u8>::empty());
        assert(hex_value(t) == ((hex_digit_val(t[0]) * 16 + hex_digit_val(t[1])) * 16
            + hex_digit_val(t[2])) * 16 + hex_digit_val(t[3]));
        assert(((n as int / 4096 * 16 + (n as int / 256) % 16) * 16 + (n as int / 16) % 16) * 16
            + n as int % 16 == n) by (nonlinear_arith);
    }
}

/// The group texts joined by single colons.
pub open spec fn joined(parts: Seq<Seq<u8>>) -> Seq<u8>
    decreases parts.len(),
{
    if parts.len() == 0 {
        Seq::<u8>::empty()
    } else if parts.len() == 1 {
        parts[0]
    } else {
        parts[0] + seq![COLON] + joined(parts.skip(1))
    }
}

#[verifier::rlimit(60)]
proof fn lemma_joined_props(parts: Seq<Seq<u8>>)
    requires
        parts.len() >= 1,
        all_hex_groups(parts),
    ensures
        split_sep(joined(parts), COLON) == parts,
        joined(parts).len() >= 1,
        forall|j: int|
            0 <= j && j + 1 < joined(parts).len() ==> !(#[trigger] joined(parts)[j] == COLON
                && joined(parts)[j + 1] == COLON),
        forall|j: int| 0 <= j < joined(parts).len() ==> #[trigger] joined(parts)[j] != DOT,
        joined(parts)[0] != COLON,
    decreases parts.len(),
{
    let s = joined(parts);
    let p = parts[0];
    assert(is_hex_group(p));
    if parts.len() == 1 {
        lemma_split_sep_whole(p, COLON);
        assert(split_sep(s, COLON) =~~= parts);
    } else {
        let rest = parts.skip(1);
        assert(all_hex_groups(rest)) by {
            assert(forall|i: int| 0 <= i < rest.len() ==> rest[i] == parts[i + 1]);
        }
        lemma_joined_props(rest);
        let jr = joined(rest);
        assert(s == p + seq![COLON] + jr);
        lemma_split_sep_prepend(p, jr, COLON);
        assert(split_sep(s, COLON) =~~= parts);
        assert(jr[0] == rest[0][0]) by {
            if rest.len() == 1 {
            } else {
                assert(jr == rest[0] + seq![COLON] + joined(rest.skip(1)));
            }
        }
        assert(is_hex_group(rest[0]));
        assert(jr[0] != COLON);
        let plen = p.len() as int;
        assert forall|j: int| 0 <= j && j + 1 < s.len() implies !(#[trigger] s[j] == COLON && s[j
            + 1] == COLON) by {
            if j + 1 < plen {
                assert(s[j] == p[j]);
            } else if j + 1 == plen {
                assert(s[j] == p[j]);
                assert(is_hex_digit(p[j]));
            } else if j == plen {
                assert(s[j + 1] == jr[0]);
            } else {
                assert(s[j] == jr[j - plen - 1]);
                assert(s[j + 1] == jr[j - plen]);
            }
        }
        assert forall|j: int| 0 <= j < s.len() implies #[trigger] s[j] != DOT by {
            if j < plen {
                assert(s[j] == p[j]);
                assert(is_hex_digit(p[j]));
            } else if j == plen {
                assert(s[j] == COLON);
            } else {
                assert(s[j] == jr[j - plen - 1]);
            }
        }
        assert(s[0] == p[0]);
        assert(is_hex_digit(p[0]));
    }
}

/// The canonical text of an IPv6 address: all eight groups, joined by
/// single colons, without compression.
pub open spec fn ipv6_text(
    g0: u16,
    g1: u16,
    g2: u16,
    g3: u16,
    g4: u16,
    g5: u16,
    g6: u16,
    g7: u16,
) -> Seq<u8> {
    joined(
        seq![
            hex_text(g0),
            hex_text(g1),
            hex_text(g2),
            hex_text(g3),
            hex_text(g4),
            hex_text(g5),
            hex_text(g6),
            hex_text(g7),
        ],
    )
}

/// Round trip for IPv6: the canonical literal of any address denotes
/// exactly that address, and nothing reads it as IPv4.
pub proof fn lemma_ipv6_round_trip(
    g0: u16,
    g1: u16,
    g2: u16,
    g3: u16,
    g4: u16,
    g5: u16,
    g6: u16,
    g7: u16,
)
    ensures
        spec_parse_ip(ipv6_text(g0, g1, g2, g3, g4, g5, g6, g7)) == Some(
            IpAddress::V6(g0, g1, g2, g3, g4, g5, g6, g7),
        ),
{
    let parts = seq![
        hex_text(g0),
        hex_text(g1),
        hex_text(g2),
        hex_text(g3),
        hex_text(g4),
        hex_text(g5),
        hex_text(g6),
        hex_text(g7),
    ];
    lemma_hex_text_is_group(g0);
    lemma_hex_text_is_group(g1);
    lemma_hex_text_is_group(g2);
    lemma_hex_text_is_group(g3);
    lemma_hex_text_is_group(g4);
    lemma_hex_text_is_group(g5);
    lemma_hex_text_is_group(g6);
    lemma_hex_text_is_group(g7);
    assert(all_hex_groups(parts)) by {
        assert forall|i: int| 0 <= i < parts.len() implies is_hex_group(#[trigger] parts[i]) by {
            if i == 0 {
            } else if i == 1 {
            } else if i == 2 {
            } else if i == 3 {
            } else if i == 4 {
            } else if i == 5 {
            } else if i == 6 {
            } else {
                assert(i == 7);
            }
        }
    }
    lemma_joined_props(parts);
    let s = joined(parts);
    lemma_first_gap_character(s);
    assert(first_gap(s) < 0);
    assert(group_values(parts) =~= seq![g0, g1, g2, g3, g4, g5, g6, g7]);
    assert(spec_parse_ipv6(s) == Some(seq![g0, g1, g2, g3, g4, g5, g6, g7]));
    lemma_split_sep_whole(s, DOT);
    assert(split_sep(s, DOT).len() == 1);
    assert(spec_parse_ipv4(s) is None);
}

/// Round trip for IPv4: the canonical literal of any address denotes
/// exactly that address — the grammar assigns every address its text and
/// the parse gives it back.
pub proof fn lemma_ipv4_round_trip(a: u8, b: u8, c: u8, d: u8)
    ensures
        spec_parse_ip(ipv4_text(a, b, c, d)) == Some(IpAddress::V4(a, b, c, d)),
{
    lemma_ipv4_text_parses(a, b, c, d);
}

/// Parse an IP literal: the address the literal grammar assigns to `s`,
/// or `None` where `s` is no IP literal at all. Performs no I/O.
pub fn parse_ip(s: &Vec<u8>) -> (r: Option<IpAddress>)
    ensures
        r == spec_parse_ip(s@),
{
    match parse_ipv4(s) {
        Some((a, b, c, d)) => Some(IpAddress::V4(a, b, c, d)),
        None => parse_ipv6(s),
    }
}

} // verus!
