//! Numbers and addresses as text.

use vstd::prelude::*;

use crate::tracker::announce::be_bytes;

verus! {

/// The sixteen digits, in order.
pub open spec fn digits() -> Seq<char> {
    seq!['0', '1', '2', '3', '4', '5', '6', '7', '8', '9', 'a', 'b', 'c', 'd', 'e', 'f']
}

/// `n` in decimal: its digits, most significant first, without leading
/// zeros; a single `0` for zero.
pub open spec fn decimal(n: nat) -> Seq<char>
    decreases n,
{
    if n < 10 {
        seq![digits()[n as int]]
    } else {
        decimal(n / 10).push(digits()[(n % 10) as int])
    }
}

/// `n` in lower-case hexadecimal, without leading zeros; a single `0`
/// for zero.
pub open spec fn hex(n: nat) -> Seq<char>
    decreases n,
{
    if n < 16 {
        seq![digits()[n as int]]
    } else {
        hex(n / 16).push(digits()[(n % 16) as int])
    }
}

/// The digit `d` as a string.
fn digit_str(d: u64) -> (s: &'static str)
    requires
        d < 16,
    ensures
        s@ == seq![digits()[d as int]],
{
    proof {
        reveal_strlit("0");
        reveal_strlit("1");
        reveal_strlit("2");
        reveal_strlit("3");
        reveal_strlit("4");
        reveal_strlit("5");
        reveal_strlit("6");
        reveal_strlit("7");
        reveal_strlit("8");
        reveal_strlit("9");
        reveal_strlit("a");
        reveal_strlit("b");
        reveal_strlit("c");
        reveal_strlit("d");
        reveal_strlit("e");
        reveal_strlit("f");
    }
    let s = if d == 0 {
        "0"
    } else if d == 1 {
        "1"
    } else if d == 2 {
        "2"
    } else if d == 3 {
        "3"
    } else if d == 4 {
        "4"
    } else if d == 5 {
        "5"
    } else if d == 6 {
        "6"
    } else if d == 7 {
        "7"
    } else if d == 8 {
        "8"
    } else if d == 9 {
        "9"
    } else if d == 10 {
        "a"
    } else if d == 11 {
        "b"
    } else if d == 12 {
        "c"
    } else if d == 13 {
        "d"
    } else if d == 14 {
        "e"
    } else {
        "f"
    };
    assert(s@ =~= seq![digits()[d as int]]);
    s
}

/// Writes `n` in decimal at the end of `out`.
pub fn push_decimal(out: &mut String, n: u64)
    ensures
        final(out)@ == old(out)@ + decimal(n as nat),
    decreases n,
{
    if n >= 10 {
        push_decimal(out, n / 10);
        out.append(digit_str(n % 10));
        assert(out@ =~= old(out)@ + decimal(n as nat));
    } else {
        out.append(digit_str(n));
    }
}

/// Writes `n` in lower-case hexadecimal at the end of `out`.
pub fn push_hex(out: &mut String, n: u64)
    ensures
        final(out)@ == old(out)@ + hex(n as nat),
    decreases n,
{
    if n >= 16 {
        push_hex(out, n / 16);
        out.append(digit_str(n % 16));
        assert(out@ =~= old(out)@ + hex(n as nat));
    } else {
        out.append(digit_str(n));
    }
}

/// `n` in decimal.
pub fn decimal_string(n: u64) -> (s: String)
    ensures
        s@ == decimal(n as nat),
{
    let mut s = String::new();
    push_decimal(&mut s, n);
    assert(s@ =~= decimal(n as nat));
    s
}

/// An IPv4 address in dotted decimal.
pub open spec fn dotted(ip: Seq<u8>) -> Seq<char>
    recommends
        ip.len() == 4,
{
    decimal(ip[0] as nat) + "."@ + decimal(ip[1] as nat) + "."@ + decimal(ip[2] as nat) + "."@
        + decimal(ip[3] as nat)
}

/// Writes an IPv4 address in dotted decimal at the end of `out`.
pub fn push_dotted(out: &mut String, ip: &[u8; 4])
    ensures
        final(out)@ == old(out)@ + dotted(ip@),
{
    push_decimal(out, ip[0] as u64);
    out.append(".");
    push_decimal(out, ip[1] as u64);
    out.append(".");
    push_decimal(out, ip[2] as u64);
    out.append(".");
    push_decimal(out, ip[3] as u64);
    assert(out@ =~= old(out)@ + dotted(ip@));
}

/// The segments in hexadecimal, with a colon between one and the next.
pub open spec fn groups(segments: Seq<u16>) -> Seq<char>
    decreases segments.len(),
{
    if segments.len() == 0 {
        Seq::empty()
    } else if segments.len() == 1 {
        hex(segments[0] as nat)
    } else {
        groups(segments.drop_last()) + ":"@ + hex(segments.last() as nat)
    }
}

/// The `len` segments from `start` on are all zero.
pub open spec fn zeros(segments: Seq<u16>, start: int, len: int) -> bool {
    &&& 0 <= start
    &&& 0 <= len
    &&& start + len <= segments.len()
    &&& forall|i: int| start <= i < start + len ==> segments[i] == 0
}

/// The run of `len` zero segments from `start` on is the longest there
/// is, and the first of those that are as long.
pub open spec fn longest_zeros(segments: Seq<u16>, start: int, len: int) -> bool {
    &&& zeros(segments, start, len)
    &&& forall|s: int, l: int| #[trigger]
        zeros(segments, s, l) ==> l < len || (l == len && start <= s)
}

/// Whether `gap`, a start and a length, is the longest run of zero
/// segments, and the first of several.
pub open spec fn is_gap(segments: Seq<u16>, gap: (int, int)) -> bool {
    longest_zeros(segments, gap.0, gap.1)
}

/// The longest run of zero segments, the first of several: where it
/// starts and how long it is.
pub open spec fn gap(segments: Seq<u16>) -> (int, int) {
    choose|gap: (int, int)| is_gap(segments, gap)
}

/// Whether the address is an IPv4 address mapped into IPv6.
pub open spec fn is_mapped(ip: Seq<u16>) -> bool
    recommends
        ip.len() == 8,
{
    ip[0] == 0 && ip[1] == 0 && ip[2] == 0 && ip[3] == 0 && ip[4] == 0 && ip[5] == 0xffff
}

/// An IPv6 address as text. A mapped IPv4 address is `::ffff:` and that
/// address in dotted decimal. Any other is its segments in hexadecimal
/// with colons between them, where the longest run of two or more zero
/// segments, the first of several, is left out and marked by `::`.
pub open spec fn colon_hex(ip: Seq<u16>) -> Seq<char>
    recommends
        ip.len() == 8,
{
    if is_mapped(ip) {
        "::ffff:"@ + dotted(be_bytes(ip[6]) + be_bytes(ip[7]))
    } else if gap(ip).1 > 1 {
        groups(ip.take(gap(ip).0)) + "::"@ + groups(ip.skip(gap(ip).0 + gap(ip).1))
    } else {
        groups(ip)
    }
}

/// There is one longest, first run of zeros.
pub proof fn lemma_gap(segments: Seq<u16>, start: int, len: int)
    requires
        longest_zeros(segments, start, len),
    ensures
        gap(segments) == (start, len),
{
    assert(is_gap(segments, (start, len)));
    let found = gap(segments);
    assert(is_gap(segments, found));
    assert(zeros(segments, found.0, found.1));
    assert(zeros(segments, start, len));
}

/// Finds the longest run of zero segments, the first of several.
pub fn find_gap(ip: &[u16; 8]) -> (gap: (usize, usize))
    ensures
        (gap.0 as int, gap.1 as int) == self::gap(ip@),
        gap.0 + gap.1 <= 8,
{
    let mut best_start: usize = 0;
    let mut best_len: usize = 0;
    let mut run_len: usize = 0;
    let mut i: usize = 0;
    while i < 8
        invariant
            i <= 8,
            run_len <= i,
            zeros(ip@, i - run_len, run_len as int),
            run_len < i ==> ip@[i - run_len - 1] != 0,
            zeros(ip@, best_start as int, best_len as int),
            best_start + best_len <= i,
            run_len <= best_len,
            forall|s: int, l: int| #[trigger]
                zeros(ip@, s, l) && s + l <= i ==> l < best_len || (l == best_len && best_start
                    <= s),
        decreases 8 - i,
    {
        let ghost old_best_start = best_start;
        let ghost old_best_len = best_len;
        let ghost old_run = run_len;
        if ip[i] == 0 {
            run_len += 1;
            if run_len > best_len {
                best_start = i + 1 - run_len;
                best_len = run_len;
            }
        } else {
            run_len = 0;
        }
        i += 1;
        proof {
            assert forall|s: int, l: int| #[trigger]
                zeros(ip@, s, l) && s + l <= i implies l < best_len || (l == best_len
                && best_start <= s) by {
                if s + l <= i - 1 {
                    assert(zeros(ip@, s, l));
                } else if l > 0 {
                    // The run ends at the segment just read, so it lies
                    // within the current run.
                    assert(ip@[i - 1] == 0);
                    if l > run_len {
                        assert(s <= i - 1 - old_run - 1 + 1);
                        assert(ip@[i - 1 - old_run - 1] == 0);
                    }
                    if l == best_len && s < best_start {
                        assert(zeros(ip@, s, l - 1));
                    }
                } else {
                    assert(zeros(ip@, s, 0));
                    assert(zeros(ip@, 0, 0));
                }
            }
        }
    }
    proof {
        assert forall|s: int, l: int| #[trigger] zeros(ip@, s, l) implies l < best_len || (l
            == best_len && best_start <= s) by {}
        lemma_gap(ip@, best_start as int, best_len as int);
    }
    (best_start, best_len)
}

/// Writes the segments from index `from` up to `to` in hexadecimal, with
/// colons between them, at the end of `out`.
fn push_groups(out: &mut String, ip: &[u16; 8], from: usize, to: usize)
    requires
        from <= to <= 8,
    ensures
        final(out)@ == old(out)@ + groups(ip@.subrange(from as int, to as int)),
{
    let mut i: usize = from;
    assert(out@ =~= old(out)@ + groups(ip@.subrange(from as int, from as int)));
    while i < to
        invariant
            from <= i <= to <= 8,
            out@ == old(out)@ + groups(ip@.subrange(from as int, i as int)),
        decreases to - i,
    {
        let ghost written = out@;
        if i > from {
            out.append(":");
        }
        push_hex(out, ip[i] as u64);
        proof {
            let next = ip@.subrange(from as int, i + 1);
            assert(next.drop_last() =~= ip@.subrange(from as int, i as int));
            assert(next.last() == ip@[i as int]);
            if i == from {
                assert(groups(ip@.subrange(from as int, i as int)) =~= Seq::empty());
            }
            assert(out@ =~= old(out)@ + groups(next));
        }
        i += 1;
    }
}

/// An IPv6 address as text.
pub fn colon_hex_string(ip: &[u16; 8]) -> (s: String)
    ensures
        s@ == colon_hex(ip@),
{
    let mut s = String::new();
    if ip[0] == 0 && ip[1] == 0 && ip[2] == 0 && ip[3] == 0 && ip[4] == 0 && ip[5] == 0xffff {
        s.append("::ffff:");
        let low: [u8; 4] = [
            (ip[6] / 256) as u8,
            (ip[6] % 256) as u8,
            (ip[7] / 256) as u8,
            (ip[7] % 256) as u8,
        ];
        assert(low@ =~= be_bytes(ip@[6]) + be_bytes(ip@[7]));
        push_dotted(&mut s, &low);
        assert(s@ =~= colon_hex(ip@));
    } else {
        let (start, len) = find_gap(ip);
        if len > 1 {
            push_groups(&mut s, ip, 0, start);
            s.append("::");
            push_groups(&mut s, ip, start + len, 8);
            proof {
                assert(ip@.subrange(0, start as int) =~= ip@.take(start as int));
                assert(ip@.subrange(start + len, 8) =~= ip@.skip(start + len));
                assert(s@ =~= colon_hex(ip@));
            }
        } else {
            push_groups(&mut s, ip, 0, 8);
            proof {
                assert(ip@.subrange(0, 8) =~= ip@);
                assert(s@ =~= colon_hex(ip@));
            }
        }
    }
    s
}

/// An IPv4 address in dotted decimal.
pub fn dotted_string(ip: &[u8; 4]) -> (s: String)
    ensures
        s@ == dotted(ip@),
{
    let mut s = String::new();
    push_dotted(&mut s, ip);
    assert(s@ =~= dotted(ip@));
    s
}

} // verus!
