//! Network addresses held as plain values, with verified canonical text
//! rendering: dotted decimal for IPv4; lowercase hex groups for IPv6 with
//! the longest (leftmost on ties) run of two or more zero groups compressed
//! to `::`, and the IPv4-mapped form `::ffff:a.b.c.d` special-cased.

use vstd::prelude::*;

use crate::text::{dec_str, hex_str, push_dec_u16, push_hex_u16};

verus! {

/// An IP address: four octets, or eight 16-bit groups.
pub enum IpAddress {
    V4(u8, u8, u8, u8),
    V6(Vec<u16>),
}

/// Mathematical model of an address.
pub enum AddrModel {
    V4(u8, u8, u8, u8),
    V6(Seq<u16>),
}

impl View for IpAddress {
    type V = AddrModel;

    open spec fn view(&self) -> AddrModel {
        match self {
            IpAddress::V4(a, b, c, d) => AddrModel::V4(*a, *b, *c, *d),
            IpAddress::V6(groups) => AddrModel::V6(groups@),
        }
    }
}

impl IpAddress {
    /// A well-formed IPv6 address carries exactly eight groups.
    pub open spec fn wf(&self) -> bool {
        self@.wf()
    }
}

impl AddrModel {
    pub open spec fn wf(self) -> bool {
        match self {
            AddrModel::V4(_, _, _, _) => true,
            AddrModel::V6(groups) => groups.len() == 8,
        }
    }
}

/// Dotted-decimal text of four octets.
pub open spec fn v4_str(a: nat, b: nat, c: nat, d: nat) -> Seq<char> {
    dec_str(a) + seq!['.'] + dec_str(b) + seq!['.'] + dec_str(c) + seq!['.'] + dec_str(d)
}

/// Length of the run of zero groups starting at index `i`.
pub open spec fn zero_run(groups: Seq<u16>, i: int) -> int
    decreases groups.len() - i,
    when 0 <= i <= groups.len()
{
    if i >= groups.len() || groups[i] != 0 {
        0
    } else {
        1 + zero_run(groups, i + 1)
    }
}

/// Start of the longest (leftmost on ties) run of zero groups in
/// `groups[i..]`; `groups.len()` when the suffix has no zero group.
pub open spec fn best_zero_run(groups: Seq<u16>, i: int) -> int
    decreases groups.len() - i,
    when 0 <= i <= groups.len()
{
    if i >= groups.len() {
        i
    } else {
        let rest = best_zero_run(groups, i + 1);
        if zero_run(groups, i) >= zero_run(groups, rest) {
            i
        } else {
            rest
        }
    }
}

/// Hexadecimal groups joined with `':'`.
pub open spec fn hex_groups(groups: Seq<u16>) -> Seq<char>
    decreases groups.len(),
{
    if groups.len() == 0 {
        Seq::<char>::empty()
    } else if groups.len() == 1 {
        hex_str(groups[0] as nat)
    } else {
        hex_str(groups[0] as nat) + seq![':'] + hex_groups(groups.drop_first())
    }
}

/// Canonical text of eight 16-bit groups.
pub open spec fn v6_str(groups: Seq<u16>) -> Seq<char> {
    if groups[0] == 0 && groups[1] == 0 && groups[2] == 0 && groups[3] == 0 && groups[4] == 0
        && groups[5] == 0xffff {
        seq![':', ':', 'f', 'f', 'f', 'f', ':'] + v4_str(
            groups[6] as nat / 256,
            groups[6] as nat % 256,
            groups[7] as nat / 256,
            groups[7] as nat % 256,
        )
    } else {
        let start = best_zero_run(groups, 0);
        let run = zero_run(groups, start);
        if run > 1 {
            hex_groups(groups.subrange(0, start)) + seq![':', ':'] + hex_groups(
                groups.subrange(start + run, groups.len() as int),
            )
        } else {
            hex_groups(groups)
        }
    }
}

/// Canonical text of an address.
pub open spec fn addr_str(a: AddrModel) -> Seq<char> {
    match a {
        AddrModel::V4(x, y, z, w) => v4_str(x as nat, y as nat, z as nat, w as nat),
        AddrModel::V6(groups) => v6_str(groups),
    }
}

/// Appends the dotted-decimal text of four octets.
fn push_v4(s: &mut String, a: u8, b: u8, c: u8, d: u8)
    ensures
        final(s)@ == old(s)@ + v4_str(a as nat, b as nat, c as nat, d as nat),
{
    proof {
        reveal_strlit(".");
    }
    push_dec_u16(s, a as u16);
    s.append(".");
    push_dec_u16(s, b as u16);
    s.append(".");
    push_dec_u16(s, c as u16);
    s.append(".");
    push_dec_u16(s, d as u16);
    proof {
        assert(final(s)@ =~= old(s)@ + v4_str(a as nat, b as nat, c as nat, d as nat));
    }
}

/// Length of the zero-group run starting at `i`.
fn zero_run_at(groups: &Vec<u16>, i: usize) -> (r: usize)
    requires
        i <= groups@.len(),
    ensures
        r as int == zero_run(groups@, i as int),
        i + r <= groups@.len(),
    decreases groups@.len() - i,
{
    if i >= groups.len() || groups[i] != 0 {
        0
    } else {
        1 + zero_run_at(groups, i + 1)
    }
}

/// Start of the longest (leftmost on ties) zero-group run in `groups[i..]`.
fn best_zero_run_from(groups: &Vec<u16>, i: usize) -> (r: usize)
    requires
        i <= groups@.len(),
    ensures
        r as int == best_zero_run(groups@, i as int),
        i <= r <= groups@.len(),
    decreases groups@.len() - i,
{
    if i >= groups.len() {
        i
    } else {
        let rest = best_zero_run_from(groups, i + 1);
        let here = zero_run_at(groups, i);
        let there = zero_run_at(groups, rest);
        if here >= there {
            i
        } else {
            rest
        }
    }
}

/// Appends the hex groups `groups[from..to]` joined with `':'`.
fn push_hex_groups(s: &mut String, groups: &Vec<u16>, from: usize, to: usize)
    requires
        from <= to <= groups@.len(),
    ensures
        final(s)@ == old(s)@ + hex_groups(groups@.subrange(from as int, to as int)),
    decreases to - from,
{
    if from == to {
        proof {
            assert(final(s)@ =~= old(s)@ + hex_groups(groups@.subrange(from as int, to as int)));
        }
    } else if from + 1 == to {
        push_hex_u16(s, groups[from]);
        proof {
            assert(groups@.subrange(from as int, to as int) =~= seq![groups@[from as int]]);
        }
    } else {
        push_hex_u16(s, groups[from]);
        proof {
            reveal_strlit(":");
        }
        s.append(":");
        push_hex_groups(s, groups, from + 1, to);
        proof {
            assert(groups@.subrange(from as int, to as int).drop_first() =~= groups@.subrange(
                from as int + 1,
                to as int,
            ));
            assert(groups@.subrange(from as int, to as int)[0] == groups@[from as int]);
            assert(final(s)@ =~= old(s)@ + hex_groups(groups@.subrange(from as int, to as int)));
        }
    }
}

/// Appends the canonical text of `addr`.
pub fn push_address(s: &mut String, addr: &IpAddress)
    requires
        addr.wf(),
    ensures
        final(s)@ == old(s)@ + addr_str(addr@),
{
    match addr {
        IpAddress::V4(a, b, c, d) => {
            push_v4(s, *a, *b, *c, *d);
        },
        IpAddress::V6(groups) => {
            if groups[0] == 0 && groups[1] == 0 && groups[2] == 0 && groups[3] == 0 && groups[4]
                == 0 && groups[5] == 0xffff {
                proof {
                    reveal_strlit("::ffff:");
                }
                s.append("::ffff:");
                push_v4(
                    s,
                    (groups[6] / 256) as u8,
                    (groups[6] % 256) as u8,
                    (groups[7] / 256) as u8,
                    (groups[7] % 256) as u8,
                );
                proof {
                    assert("::ffff:"@ =~= seq![':', ':', 'f', 'f', 'f', 'f', ':']);
                    assert(final(s)@ =~= old(s)@ + addr_str(addr@));
                }
            } else {
                let start = best_zero_run_from(groups, 0);
                let run = zero_run_at(groups, start);
                if run > 1 {
                    push_hex_groups(s, groups, 0, start);
                    proof {
                        reveal_strlit("::");
                    }
                    s.append("::");
                    push_hex_groups(s, groups, start + run, groups.len());
                    proof {
                        assert("::"@ =~= seq![':', ':']);
                        assert(final(s)@ =~= old(s)@ + addr_str(addr@));
                    }
                } else {
                    push_hex_groups(s, groups, 0, groups.len());
                    proof {
                        assert(groups@.subrange(0, groups@.len() as int) =~= groups@);
                        assert(final(s)@ =~= old(s)@ + addr_str(addr@));
                    }
                }
            }
        },
    }
}

} // verus!
