use vstd::prelude::*;
use vstd::slice::slice_subrange;

verus! {

/// The lowercase digit for `d < 16`.
pub open spec fn digit_char(d: nat) -> char {
    if d < 10 {
        ((48 + d) as u8) as char
    } else {
        ((87 + d) as u8) as char
    }
}

/// Decimal text of `n`, without leading zeros.
pub open spec fn decimal(n: nat) -> Seq<char>
    decreases n,
{
    if n < 10 {
        seq![digit_char(n)]
    } else {
        decimal(n / 10).push(digit_char(n % 10))
    }
}

/// Lowercase hexadecimal text of `n`, without leading zeros.
pub open spec fn hex(n: nat) -> Seq<char>
    decreases n,
{
    if n < 16 {
        seq![digit_char(n)]
    } else {
        hex(n / 16).push(digit_char(n % 16))
    }
}

/// Relies on `String::push`: appends one character.
#[verifier::external_body]
pub(crate) fn push_char(s: &mut String, c: char)
    ensures
        final(s)@ == old(s)@.push(c),
{
    s.push(c)
}

fn digit(d: u32) -> (c: char)
    requires
        d < 16,
    ensures
        c == digit_char(d as nat),
{
    let b: u8 = if d < 10 {
        48 + d as u8
    } else {
        87 + d as u8
    };
    b as char
}

pub(crate) fn push_decimal(s: &mut String, n: u32)
    ensures
        final(s)@ == old(s)@ + decimal(n as nat),
    decreases n,
{
    if n >= 10 {
        push_decimal(s, n / 10);
    }
    let c = digit(n % 10);
    push_char(s, c);
    proof {
        if n >= 10 {
            assert(old(s)@ + decimal(n as nat) =~= old(s)@ + decimal((n / 10) as nat) + seq![c]);
        } else {
            assert(old(s)@ + decimal(n as nat) =~= old(s)@.push(c));
        }
    }
}

pub(crate) fn push_hex(s: &mut String, n: u32)
    ensures
        final(s)@ == old(s)@ + hex(n as nat),
    decreases n,
{
    if n >= 16 {
        push_hex(s, n / 16);
    }
    let c = digit(n % 16);
    push_char(s, c);
    proof {
        if n >= 16 {
            assert(old(s)@ + hex(n as nat) =~= old(s)@ + hex((n / 16) as nat) + seq![c]);
        } else {
            assert(old(s)@ + hex(n as nat) =~= old(s)@.push(c));
        }
    }
}

/// Dotted-quad text of four bytes.
pub open spec fn ipv4_text(b: Seq<u8>) -> Seq<char> {
    decimal(b[0] as nat) + seq!['.'] + decimal(b[1] as nat) + seq!['.'] + decimal(b[2] as nat)
        + seq!['.'] + decimal(b[3] as nat)
}

pub(crate) fn push_ipv4(s: &mut String, b: &[u8])
    requires
        b@.len() == 4,
    ensures
        final(s)@ == old(s)@ + ipv4_text(b@),
{
    push_decimal(s, b[0] as u32);
    push_char(s, '.');
    push_decimal(s, b[1] as u32);
    push_char(s, '.');
    push_decimal(s, b[2] as u32);
    push_char(s, '.');
    push_decimal(s, b[3] as u32);
    assert(s@ =~= old(s)@ + ipv4_text(b@));
}

/// The eight 16-bit groups of an IPv6 address, most significant byte first.
pub open spec fn segments(b: Seq<u8>) -> Seq<u16> {
    Seq::new(8, |i: int| (b[2 * i] as int * 256 + b[2 * i + 1] as int) as u16)
}

/// Length of the run of zero groups that starts at `i`.
pub open spec fn zero_run(g: Seq<u16>, i: int) -> int
    decreases g.len() - i,
{
    if i < 0 || i >= g.len() || g[i] != 0 {
        0
    } else {
        1 + zero_run(g, i + 1)
    }
}

/// Start of the longest run of zero groups at or after `i`; the earliest on a tie.
pub open spec fn longest_zero_run(g: Seq<u16>, i: int) -> int
    decreases g.len() - i,
{
    if i < 0 || i >= g.len() {
        g.len() as int
    } else if zero_run(g, i) >= zero_run(g, longest_zero_run(g, i + 1)) {
        i
    } else {
        longest_zero_run(g, i + 1)
    }
}

/// Groups in hexadecimal, separated by colons.
pub open spec fn join_groups(g: Seq<u16>) -> Seq<char>
    decreases g.len(),
{
    if g.len() == 0 {
        Seq::empty()
    } else if g.len() == 1 {
        hex(g[0] as nat)
    } else {
        join_groups(g.drop_last()) + seq![':'] + hex(g.last() as nat)
    }
}

/// An IPv4-mapped IPv6 address, `::ffff:a.b.c.d`.
pub open spec fn is_ipv4_mapped(b: Seq<u8>) -> bool {
    &&& forall|i: int| 0 <= i < 10 ==> b[i] == 0
    &&& b[10] == 0xff
    &&& b[11] == 0xff
}

/// Canonical text of an IPv6 address: lowercase groups without leading zeros,
/// the longest run of two or more zero groups (the first of equals) written as
/// `::`, and IPv4-mapped addresses written with a dotted quad.
pub open spec fn ipv6_text(b: Seq<u8>) -> Seq<char> {
    let g = segments(b);
    let start = longest_zero_run(g, 0);
    let len = zero_run(g, start);
    if is_ipv4_mapped(b) {
        seq![':', ':', 'f', 'f', 'f', 'f', ':'] + ipv4_text(b.subrange(12, 16))
    } else if len > 1 {
        join_groups(g.subrange(0, start)) + seq![':', ':'] + join_groups(g.subrange(start + len, 8))
    } else {
        join_groups(g)
    }
}

fn push_groups(s: &mut String, g: &Vec<u16>, from: usize, to: usize)
    requires
        from <= to <= g@.len(),
    ensures
        final(s)@ == old(s)@ + join_groups(g@.subrange(from as int, to as int)),
{
    assert(g@.subrange(from as int, from as int) =~= Seq::<u16>::empty());
    let mut k = from;
    while k < to
        invariant
            from <= k <= to <= g@.len(),
            s@ == old(s)@ + join_groups(g@.subrange(from as int, k as int)),
        decreases to - k,
    {
        let ghost before = s@;
        if k > from {
            push_char(s, ':');
        }
        push_hex(s, g[k] as u32);
        proof {
            let sub = g@.subrange(from as int, k as int + 1);
            assert(sub.drop_last() =~= g@.subrange(from as int, k as int));
            if k > from {
                assert(s@ =~= before + seq![':'] + hex(g@[k as int] as nat));
            } else {
                assert(s@ =~= before + hex(g@[k as int] as nat));
            }
            assert(s@ =~= old(s)@ + join_groups(sub));
        }
        k += 1;
    }
}

pub(crate) fn push_ipv6(s: &mut String, b: &[u8])
    requires
        b@.len() == 16,
    ensures
        final(s)@ == old(s)@ + ipv6_text(b@),
{
    let mut mapped = b[10] == 0xff && b[11] == 0xff;
    let mut i: usize = 0;
    while i < 10
        invariant
            b@.len() == 16,
            i <= 10,
            mapped <==> (b[10] == 0xff && b[11] == 0xff && forall|j: int| 0 <= j < i ==> b@[j] == 0),
        decreases 10 - i,
    {
        if b[i] != 0 {
            mapped = false;
        }
        i += 1;
    }
    assert(mapped <==> is_ipv4_mapped(b@));
    if mapped {
        push_char(s, ':');
        push_char(s, ':');
        push_char(s, 'f');
        push_char(s, 'f');
        push_char(s, 'f');
        push_char(s, 'f');
        push_char(s, ':');
        let tail = slice_subrange(b, 12, 16);
        push_ipv4(s, tail);
        assert(s@ =~= old(s)@ + ipv6_text(b@));
        return;
    }

    let ghost g = segments(b@);
    let mut groups: Vec<u16> = Vec::new();
    let mut i: usize = 0;
    while i < 8
        invariant
            b@.len() == 16,
            g == segments(b@),
            i <= 8,
            groups@ == g.subrange(0, i as int),
        decreases 8 - i,
    {
        let v = (b[2 * i] as u16) * 256 + b[2 * i + 1] as u16;
        groups.push(v);
        assert(groups@ =~= g.subrange(0, i as int + 1));
        i += 1;
    }
    assert(groups@ =~= g);

    let mut best: usize = 8;
    let mut best_len: usize = 0;
    let mut run: usize = 0;
    let mut k: usize = 8;
    while k > 0
        invariant
            groups@ == g,
            g == segments(b@),
            !mapped,
            mapped <==> is_ipv4_mapped(b@),
            g.len() == 8,
            k <= 8,
            run as int == zero_run(g, k as int),
            best as int == longest_zero_run(g, k as int),
            best_len as int == zero_run(g, best as int),
            run <= 8 - k,
        decreases k,
    {
        let i = k - 1;
        if groups[i] == 0 {
            run = run + 1;
        } else {
            run = 0;
        }
        if run >= best_len {
            best = i;
            best_len = run;
        }
        k = i;
    }
    proof {
        zero_run_bound(g, best as int);
    }

    if best_len > 1 {
        push_groups(s, &groups, 0, best);
        push_char(s, ':');
        push_char(s, ':');
        push_groups(s, &groups, best + best_len, 8);
        assert(s@ =~= old(s)@ + ipv6_text(b@));
    } else {
        push_groups(s, &groups, 0, 8);
        assert(g.subrange(0, 8) =~= g);
    }
}

proof fn zero_run_bound(g: Seq<u16>, i: int)
    requires
        0 <= i,
    ensures
        zero_run(g, i) <= if i <= g.len() { g.len() - i } else { 0 },
        zero_run(g, i) >= 0,
    decreases g.len() - i,
{
    if i < g.len() && g[i] == 0 {
        zero_run_bound(g, i + 1);
    }
}

} // verus!
