use vstd::arithmetic::power2::lemma2_to64;
use vstd::arithmetic::power2::lemma_pow2_adds;
use vstd::arithmetic::power2::lemma_pow2_strictly_increases;
use vstd::arithmetic::power2::lemma_pow2_unfold;
use vstd::arithmetic::power2::pow2;
use vstd::prelude::*;
use vstd::string::*;

use crate::chars::hex_val;
use crate::chars::push_char;
use crate::chars::spec_hex_val;
use crate::chars::spec_is_hex_digit;
use crate::chars::views;
use crate::expand::spec_wf_groups;

verus! {

// ---------------------------------------------------------------------------
// From hexadecimal groups to a 128-character binary stream.
// ---------------------------------------------------------------------------

/// The four binary digit characters of a nibble value, most significant first.
pub open spec fn spec_nibble_bits(v: u32) -> Seq<char> {
    seq![
        if (v / 8) % 2 == 1 { '1' } else { '0' },
        if (v / 4) % 2 == 1 { '1' } else { '0' },
        if (v / 2) % 2 == 1 { '1' } else { '0' },
        if v % 2 == 1 { '1' } else { '0' },
    ]
}

/// The binary digits of one group, four per hexadecimal character.
pub open spec fn spec_group_bits(g: Seq<char>) -> Seq<char>
    decreases g.len(),
{
    if g.len() == 0 {
        Seq::<char>::empty()
    } else {
        spec_group_bits(g.drop_last()) + spec_nibble_bits(spec_hex_val(g.last()))
    }
}

/// The 128 binary digits of an expanded address, groups in order.
pub open spec fn spec_addr_bits(gs: Seq<Seq<char>>) -> Seq<char>
    decreases gs.len(),
{
    if gs.len() == 0 {
        Seq::<char>::empty()
    } else {
        spec_addr_bits(gs.drop_last()) + spec_group_bits(gs.last())
    }
}

proof fn lemma_group_bits_len(g: Seq<char>)
    ensures
        spec_group_bits(g).len() == 4 * g.len(),
    decreases g.len(),
{
    if g.len() > 0 {
        lemma_group_bits_len(g.drop_last());
    }
}

proof fn lemma_addr_bits_len(gs: Seq<Seq<char>>)
    requires
        spec_wf_groups(gs),
    ensures
        spec_addr_bits(gs).len() == 128,
{
    lemma_addr_bits_len_rec(gs, gs.len() as int);
    assert(gs.take(gs.len() as int) =~= gs);
}

proof fn lemma_addr_bits_len_rec(gs: Seq<Seq<char>>, n: int)
    requires
        0 <= n <= gs.len(),
        forall|i: int| 0 <= i < n ==> (#[trigger] gs[i]).len() == 4,
    ensures
        spec_addr_bits(gs.take(n)).len() == 16 * n,
    decreases n,
{
    if n > 0 {
        lemma_addr_bits_len_rec(gs, n - 1);
        assert(gs.take(n).drop_last() =~= gs.take(n - 1));
        assert(gs.take(n).last() == gs[n - 1]);
        assert(gs[n - 1].len() == 4);
        lemma_group_bits_len(gs.take(n).last());
    } else {
        assert(gs.take(0) =~= Seq::<Seq<char>>::empty());
    }
}

/// Every character of the binary stream is `'0'` or `'1'`.
proof fn lemma_group_bits_binary(g: Seq<char>)
    ensures
        forall|i: int|
            0 <= i < spec_group_bits(g).len() ==> (#[trigger] spec_group_bits(g)[i] == '0'
                || spec_group_bits(g)[i] == '1'),
    decreases g.len(),
{
    if g.len() > 0 {
        lemma_group_bits_binary(g.drop_last());
        let pre = spec_group_bits(g.drop_last());
        let nib = spec_nibble_bits(spec_hex_val(g.last()));
        assert forall|i: int| 0 <= i < spec_group_bits(g).len() implies (
        #[trigger] spec_group_bits(g)[i] == '0' || spec_group_bits(g)[i] == '1') by {
            if i < pre.len() {
                assert(spec_group_bits(g)[i] == pre[i]);
            } else {
                assert(spec_group_bits(g)[i] == nib[i - pre.len()]);
            }
        }
    }
}

proof fn lemma_addr_bits_binary(gs: Seq<Seq<char>>)
    ensures
        forall|i: int|
            0 <= i < spec_addr_bits(gs).len() ==> (#[trigger] spec_addr_bits(gs)[i] == '0'
                || spec_addr_bits(gs)[i] == '1'),
    decreases gs.len(),
{
    if gs.len() > 0 {
        lemma_addr_bits_binary(gs.drop_last());
        lemma_group_bits_binary(gs.last());
        let pre = spec_addr_bits(gs.drop_last());
        let gb = spec_group_bits(gs.last());
        assert forall|i: int| 0 <= i < spec_addr_bits(gs).len() implies (
        #[trigger] spec_addr_bits(gs)[i] == '0' || spec_addr_bits(gs)[i] == '1') by {
            if i < pre.len() {
                assert(spec_addr_bits(gs)[i] == pre[i]);
            } else {
                assert(spec_addr_bits(gs)[i] == gb[i - pre.len()]);
            }
        }
    }
}

// ---------------------------------------------------------------------------
// Dotted rendering of a bit range.
// ---------------------------------------------------------------------------

/// A constant stream of 128 copies of `c`, standing for the netmask digits.
pub open spec fn spec_fill(c: char) -> Seq<char> {
    Seq::new(128, |i: int| c)
}

/// The characters of `bits` with index in `[lo, hi)`, with a `'.'` separator
/// inserted after every character whose absolute position ends a 16-bit
/// group, counted from the start of the whole 128-bit stream.
pub open spec fn spec_dotted(bits: Seq<char>, lo: int, hi: int) -> Seq<char>
    decreases hi - lo,
{
    if hi <= lo {
        Seq::<char>::empty()
    } else {
        let pre = spec_dotted(bits, lo, hi - 1).push(bits[hi - 1]);
        if hi % 16 == 0 {
            pre.push('.')
        } else {
            pre
        }
    }
}

/// A dotted string without its trailing character; the host segment drops
/// its final separator this way.
pub open spec fn spec_trim(s: Seq<char>) -> Seq<char> {
    if s.len() > 0 {
        s.take(s.len() - 1)
    } else {
        s
    }
}

/// The first bit of the host region: the prefix length, but never inside the
/// fixed 48-bit network region.
pub open spec fn spec_host_start(m: int) -> int {
    if m >= 48 {
        m
    } else {
        48
    }
}

// ---------------------------------------------------------------------------
// Executable construction.
// ---------------------------------------------------------------------------

/// Appends the four binary digit characters of a nibble value.
fn push_nibble_vec(out: &mut Vec<char>, v: u32)
    requires
        v < 16,
    ensures
        final(out)@ == old(out)@ + spec_nibble_bits(v),
{
    out.push(if (v / 8) % 2 == 1 { '1' } else { '0' });
    out.push(if (v / 4) % 2 == 1 { '1' } else { '0' });
    out.push(if (v / 2) % 2 == 1 { '1' } else { '0' });
    out.push(if v % 2 == 1 { '1' } else { '0' });
    proof {
        assert(out@ =~= old(out)@ + spec_nibble_bits(v));
    }
}

/// Appends the four binary digit characters of a nibble value.
fn push_nibble_str(out: &mut String, v: u32)
    requires
        v < 16,
    ensures
        final(out)@ == old(out)@ + spec_nibble_bits(v),
{
    push_char(out, if (v / 8) % 2 == 1 { '1' } else { '0' });
    push_char(out, if (v / 4) % 2 == 1 { '1' } else { '0' });
    push_char(out, if (v / 2) % 2 == 1 { '1' } else { '0' });
    push_char(out, if v % 2 == 1 { '1' } else { '0' });
    proof {
        assert(out@ =~= old(out)@ + spec_nibble_bits(v));
    }
}

/// The four-character binary form of one hexadecimal digit, e.g. `a` to
/// `1010`, always at fixed width four.
pub fn hex_to_bin(hexa: char) -> (r: String)
    requires
        spec_is_hex_digit(hexa),
    ensures
        r@ == spec_nibble_bits(spec_hex_val(hexa)),
{
    let v = hex_val(hexa);
    let mut r = String::new();
    push_nibble_str(&mut r, v);
    proof {
        assert(r@ =~= spec_nibble_bits(spec_hex_val(hexa)));
    }
    r
}

/// The 128 binary digit characters of the expanded address, in order.
fn addr_bits_of(groups: &Vec<String>) -> (r: Vec<char>)
    requires
        spec_wf_groups(views(groups@)),
    ensures
        r@ == spec_addr_bits(views(groups@)),
        r@.len() == 128,
{
    let ghost gs = views(groups@);
    let mut bits: Vec<char> = Vec::new();
    let mut i: usize = 0;
    proof {
        assert(gs.take(0) =~= Seq::<Seq<char>>::empty());
        assert(bits@ =~= spec_addr_bits(gs.take(0)));
    }
    while i < 8
        invariant
            0 <= i <= 8,
            gs == views(groups@),
            spec_wf_groups(gs),
            groups@.len() == 8,
            bits@ == spec_addr_bits(gs.take(i as int)),
        decreases 8 - i,
    {
        let g = &groups[i];
        proof {
            assert(gs[i as int] == groups@[i as int]@);
        }
        let mut j: usize = 0;
        while j < 4
            invariant
                0 <= j <= 4,
                0 <= i < 8,
                gs == views(groups@),
                spec_wf_groups(gs),
                groups@.len() == 8,
                g@ == gs[i as int],
                g@.len() == 4,
                forall|t: int| 0 <= t < 4 ==> spec_is_hex_digit(#[trigger] g@[t]),
                bits@ == spec_addr_bits(gs.take(i as int)) + spec_group_bits(g@.take(j as int)),
            decreases 4 - j,
        {
            let c = g.as_str().get_char(j);
            let v = hex_val(c);
            push_nibble_vec(&mut bits, v);
            proof {
                assert(g@.take(j + 1).drop_last() =~= g@.take(j as int));
                assert(g@.take(j + 1).last() == g@[j as int]);
                assert(bits@ =~= spec_addr_bits(gs.take(i as int)) + spec_group_bits(
                    g@.take(j + 1),
                ));
            }
            j += 1;
        }
        proof {
            assert(g@.take(4) =~= g@);
            assert(gs.take(i + 1).drop_last() =~= gs.take(i as int));
            assert(gs.take(i + 1).last() == gs[i as int]);
            assert(bits@ =~= spec_addr_bits(gs.take(i + 1)));
        }
        i += 1;
    }
    proof {
        assert(gs.take(8) =~= gs);
        lemma_addr_bits_len(gs);
    }
    bits
}

/// The canonical colon-joined text of the expanded groups.
pub open spec fn spec_joined(gs: Seq<Seq<char>>) -> Seq<char>
    decreases gs.len(),
{
    if gs.len() == 0 {
        Seq::<char>::empty()
    } else if gs.len() == 1 {
        gs[0]
    } else {
        spec_joined(gs.drop_last()) + seq![':'] + gs.last()
    }
}

/// Joins the expanded groups with `:` for display.
fn joined_of(groups: &Vec<String>) -> (r: String)
    ensures
        r@ == spec_joined(views(groups@)),
{
    let ghost gs = views(groups@);
    let mut r = String::new();
    let mut i: usize = 0;
    proof {
        assert(gs.take(0) =~= Seq::<Seq<char>>::empty());
        assert(r@ =~= spec_joined(gs.take(0)));
    }
    while i < groups.len()
        invariant
            0 <= i <= groups@.len(),
            gs == views(groups@),
            r@ == spec_joined(gs.take(i as int)),
        decreases groups@.len() - i,
    {
        if i > 0 {
            push_char(&mut r, ':');
        }
        r.append(groups[i].as_str());
        proof {
            assert(gs[i as int] == groups@[i as int]@);
            if i == 0 {
                assert(r@ =~= spec_joined(gs.take(1)));
            } else {
                assert(gs.take(i + 1).drop_last() =~= gs.take(i as int));
                assert(gs.take(i + 1).last() == gs[i as int]);
                assert(r@ =~= spec_joined(gs.take(i + 1)));
            }
        }
        i += 1;
    }
    proof {
        assert(gs.take(gs.len() as int) =~= gs);
    }
    r
}

/// The dotted rendering of the bit range `[lo, hi)` of the address stream.
fn dotted_range(bits: &Vec<char>, lo: usize, hi: usize) -> (r: String)
    requires
        lo <= hi <= bits@.len(),
    ensures
        r@ == spec_dotted(bits@, lo as int, hi as int),
{
    let mut r = String::new();
    let mut j: usize = lo;
    proof {
        assert(r@ =~= spec_dotted(bits@, lo as int, lo as int));
    }
    while j < hi
        invariant
            lo <= j <= hi <= bits@.len(),
            r@ == spec_dotted(bits@, lo as int, j as int),
        decreases hi - j,
    {
        push_char(&mut r, bits[j]);
        if (j + 1) % 16 == 0 {
            push_char(&mut r, '.');
        }
        j += 1;
    }
    r
}

/// The dotted rendering of `[lo, 128)` with the trailing separator dropped.
fn dotted_range_trimmed(bits: &Vec<char>, lo: usize) -> (r: String)
    requires
        lo <= 128,
        bits@.len() == 128,
    ensures
        r@ == spec_trim(spec_dotted(bits@, lo as int, 128)),
{
    let mut r = String::new();
    let mut j: usize = lo;
    proof {
        assert(r@ =~= spec_dotted(bits@, lo as int, lo as int));
    }
    while j < 128
        invariant
            lo <= j <= 128,
            bits@.len() == 128,
            j < 128 ==> r@ == spec_dotted(bits@, lo as int, j as int),
            j == 128 ==> r@ == spec_trim(spec_dotted(bits@, lo as int, 128)),
        decreases 128 - j,
    {
        push_char(&mut r, bits[j]);
        if (j + 1) % 16 == 0 && j + 1 != 128 {
            push_char(&mut r, '.');
        }
        proof {
            if j + 1 == 128 {
                assert(spec_dotted(bits@, lo as int, 128) == spec_dotted(
                    bits@,
                    lo as int,
                    127,
                ).push(bits@[127]).push('.'));
                assert(r@ =~= spec_trim(spec_dotted(bits@, lo as int, 128)));
            }
        }
        j += 1;
    }
    proof {
        if lo == 128 {
            assert(r@ =~= spec_trim(spec_dotted(bits@, lo as int, 128)));
        }
    }
    r
}

/// The dotted rendering of `[lo, hi)` of a constant stream of `c`.
fn dotted_fill(c: char, lo: usize, hi: usize) -> (r: String)
    requires
        lo <= hi <= 128,
    ensures
        r@ == spec_dotted(spec_fill(c), lo as int, hi as int),
{
    let mut r = String::new();
    let mut j: usize = lo;
    proof {
        assert(r@ =~= spec_dotted(spec_fill(c), lo as int, lo as int));
    }
    while j < hi
        invariant
            lo <= j <= hi <= 128,
            r@ == spec_dotted(spec_fill(c), lo as int, j as int),
        decreases hi - j,
    {
        push_char(&mut r, c);
        if (j + 1) % 16 == 0 {
            push_char(&mut r, '.');
        }
        j += 1;
    }
    r
}

/// The dotted rendering of `[lo, 128)` of a constant stream, trimmed.
fn dotted_fill_trimmed(c: char, lo: usize) -> (r: String)
    requires
        lo <= 128,
    ensures
        r@ == spec_trim(spec_dotted(spec_fill(c), lo as int, 128)),
{
    let mut r = String::new();
    let mut j: usize = lo;
    proof {
        assert(r@ =~= spec_dotted(spec_fill(c), lo as int, lo as int));
    }
    while j < 128
        invariant
            lo <= j <= 128,
            j < 128 ==> r@ == spec_dotted(spec_fill(c), lo as int, j as int),
            j == 128 ==> r@ == spec_trim(spec_dotted(spec_fill(c), lo as int, 128)),
        decreases 128 - j,
    {
        push_char(&mut r, c);
        if (j + 1) % 16 == 0 && j + 1 != 128 {
            push_char(&mut r, '.');
        }
        proof {
            if j + 1 == 128 {
                assert(spec_dotted(spec_fill(c), lo as int, 128) == spec_dotted(
                    spec_fill(c),
                    lo as int,
                    127,
                ).push(spec_fill(c)[127]).push('.'));
                assert(r@ =~= spec_trim(spec_dotted(spec_fill(c), lo as int, 128)));
            }
        }
        j += 1;
    }
    proof {
        if lo == 128 {
            assert(r@ =~= spec_trim(spec_dotted(spec_fill(c), lo as int, 128)));
        }
    }
    r
}

/// Two to the power `e`, exactly, for host counts up to `2^80`.
fn pow2_u128(e: usize) -> (r: u128)
    requires
        e <= 80,
    ensures
        r == pow2(e as nat),
{
    proof {
        lemma2_to64();
        lemma_pow2_adds(64, 16);
    }
    let mut r: u128 = 1;
    let mut j: usize = 0;
    while j < e
        invariant
            0 <= j <= e <= 80,
            r == pow2(j as nat),
        decreases e - j,
    {
        proof {
            lemma2_to64();
            lemma_pow2_adds(64, 16);
            lemma_pow2_unfold((j + 1) as nat);
            if j + 1 < 80 {
                lemma_pow2_strictly_increases((j + 1) as nat, 80);
            }
            assert(2 * pow2(j as nat) <= pow2(80));
        }
        r = r * 2;
        j += 1;
    }
    r
}

// ---------------------------------------------------------------------------
// The rendered report.
// ---------------------------------------------------------------------------

/// The display artifacts derived from an expanded address and its prefix:
/// the three binary segments of the address and of the netmask, the
/// host-count statistic, and the building blocks of the HostMin and HostMax
/// lines. HostMin is the network and subnet bits followed by
/// `netmask_binary_client` (every host bit zero); HostMax is the same bits
/// followed by `host_max_client` (every host bit one).
pub struct RenderedOutput {
    /// The expanded groups joined with `:`.
    pub addr: String,
    /// Address bits 0 to 47, dotted every 16 bits.
    pub addr_binary_network: String,
    /// Netmask bits of the network region: all ones, dotted alike.
    pub netmask_binary_network: String,
    /// Address bits from 48 up to the prefix length.
    pub addr_binary_subnet: String,
    /// Netmask bits of the subnet region: all ones.
    pub netmask_binary_subnet: String,
    /// Address bits of the host region, trailing separator dropped.
    pub addr_binary_client: String,
    /// Netmask bits of the host region: all zeros.
    pub netmask_binary_client: String,
    /// The host region with every bit set: the tail of HostMax.
    pub host_max_client: String,
    /// The number of host addresses: 2 to the power of the host bit count.
    pub num_of_host: u128,
}

/// The exact relation between an expanded address, a prefix length and the
/// rendered artifacts.
pub open spec fn spec_renders(gs: Seq<Seq<char>>, m: int, o: RenderedOutput) -> bool {
    let bits = spec_addr_bits(gs);
    let hs = spec_host_start(m);
    &&& o.addr@ == spec_joined(gs)
    &&& o.addr_binary_network@ == spec_dotted(bits, 0, 48)
    &&& o.netmask_binary_network@ == spec_dotted(spec_fill('1'), 0, 48)
    &&& o.addr_binary_subnet@ == spec_dotted(bits, 48, hs)
    &&& o.netmask_binary_subnet@ == spec_dotted(spec_fill('1'), 48, hs)
    &&& o.addr_binary_client@ == spec_trim(spec_dotted(bits, hs, 128))
    &&& o.netmask_binary_client@ == spec_trim(spec_dotted(spec_fill('0'), hs, 128))
    &&& o.host_max_client@ == spec_trim(spec_dotted(spec_fill('1'), hs, 128))
    &&& o.num_of_host == pow2((128 - hs) as nat)
}

/// Walks the 128 bits of the expanded address and partitions them into the
/// network, subnet and host regions set by the prefix length and the fixed
/// 48-bit network boundary, producing every display artifact of one run.
pub fn render_address(groups: &Vec<String>, int_mask: i16) -> (r: RenderedOutput)
    requires
        spec_wf_groups(views(groups@)),
        7 <= int_mask <= 128,
    ensures
        spec_renders(views(groups@), int_mask as int, r),
{
    let bits = addr_bits_of(groups);
    let host_start: usize = if int_mask >= 48 {
        int_mask as usize
    } else {
        48
    };
    let addr = joined_of(groups);
    let addr_binary_network = dotted_range(&bits, 0, 48);
    let netmask_binary_network = dotted_fill('1', 0, 48);
    let addr_binary_subnet = dotted_range(&bits, 48, host_start);
    let netmask_binary_subnet = dotted_fill('1', 48, host_start);
    let addr_binary_client = dotted_range_trimmed(&bits, host_start);
    let netmask_binary_client = dotted_fill_trimmed('0', host_start);
    let host_max_client = dotted_fill_trimmed('1', host_start);
    let num_of_host = pow2_u128(128 - host_start);
    RenderedOutput {
        addr,
        addr_binary_network,
        netmask_binary_network,
        addr_binary_subnet,
        netmask_binary_subnet,
        addr_binary_client,
        netmask_binary_client,
        host_max_client,
        num_of_host,
    }
}

// ---------------------------------------------------------------------------
// Laws of the rendered artifacts.
// ---------------------------------------------------------------------------

/// The number of binary digit characters in a rendered segment, separators
/// not counted.
pub open spec fn spec_bit_count(s: Seq<char>) -> int
    decreases s.len(),
{
    if s.len() == 0 {
        0
    } else {
        spec_bit_count(s.drop_last()) + if s.last() == '.' {
            0int
        } else {
            1int
        }
    }
}

proof fn lemma_bit_count_push(s: Seq<char>, c: char)
    ensures
        spec_bit_count(s.push(c)) == spec_bit_count(s) + if c == '.' {
            0int
        } else {
            1int
        },
{
    assert(s.push(c).drop_last() =~= s);
    assert(s.push(c).last() == c);
}

proof fn lemma_dotted_bit_count(bits: Seq<char>, lo: int, hi: int)
    requires
        0 <= lo <= hi,
        forall|i: int| lo <= i < hi ==> #[trigger] bits[i] != '.',
    ensures
        spec_bit_count(spec_dotted(bits, lo, hi)) == hi - lo,
    decreases hi - lo,
{
    if hi > lo {
        lemma_dotted_bit_count(bits, lo, hi - 1);
        let pre = spec_dotted(bits, lo, hi - 1);
        lemma_bit_count_push(pre, bits[hi - 1]);
        if hi % 16 == 0 {
            lemma_bit_count_push(pre.push(bits[hi - 1]), '.');
        }
    }
}

/// Segment length law: the network segment always carries 48 bits, the
/// subnet segment `p - 48` bits and the host segment `128 - p` bits, and the
/// three lengths sum to 128. It is stated for the prefixes at or beyond the
/// network boundary; below 48 the network region keeps its fixed 48 bits and
/// the host region starts there instead of at the prefix.
pub proof fn lemma_segment_lengths(gs: Seq<Seq<char>>, m: int, o: RenderedOutput)
    requires
        spec_wf_groups(gs),
        48 <= m <= 128,
        spec_renders(gs, m, o),
    ensures
        spec_bit_count(o.addr_binary_network@) == 48,
        spec_bit_count(o.addr_binary_subnet@) == m - 48,
        spec_bit_count(o.addr_binary_client@) == 128 - m,
        spec_bit_count(o.addr_binary_network@) + spec_bit_count(o.addr_binary_subnet@)
            + spec_bit_count(o.addr_binary_client@) == 128,
{
    let bits = spec_addr_bits(gs);
    lemma_addr_bits_binary(gs);
    lemma_addr_bits_len(gs);
    lemma_dotted_bit_count(bits, 0, 48);
    lemma_dotted_bit_count(bits, 48, m);
    lemma_dotted_bit_count(bits, m, 128);
    let full = spec_dotted(bits, m, 128);
    if m < 128 {
        assert(full == spec_dotted(bits, m, 127).push(bits[127]).push('.'));
        assert(spec_trim(full) =~= full.drop_last());
        lemma_bit_count_push(full.drop_last(), full.last());
    } else {
        assert(spec_trim(full) =~= full);
    }
}

/// Host-count law: for a prefix at or beyond the network boundary the host
/// count is exactly two to the power of `128 - p`.
pub proof fn lemma_host_count(gs: Seq<Seq<char>>, m: int, o: RenderedOutput)
    requires
        48 <= m <= 128,
        spec_renders(gs, m, o),
    ensures
        o.num_of_host == pow2((128 - m) as nat),
{
}

proof fn lemma_fill_parallel(a: char, b: char, lo: int, hi: int)
    requires
        0 <= lo <= hi <= 128,
    ensures
        spec_dotted(spec_fill(a), lo, hi).len() == spec_dotted(spec_fill(b), lo, hi).len(),
        forall|i: int|
            0 <= i < spec_dotted(spec_fill(a), lo, hi).len() ==> ((#[trigger] spec_dotted(
                spec_fill(a),
                lo,
                hi,
            )[i] == '.' && spec_dotted(spec_fill(b), lo, hi)[i] == '.') || (spec_dotted(
                spec_fill(a),
                lo,
                hi,
            )[i] == a && spec_dotted(spec_fill(b), lo, hi)[i] == b)),
    decreases hi - lo,
{
    if hi > lo {
        lemma_fill_parallel(a, b, lo, hi - 1);
    }
}

/// HostMin/HostMax bit law: the two rendered host segments have the same
/// length, their separators stand at the same positions, and at every other
/// position HostMin carries `'0'` where HostMax carries `'1'`. Both lines
/// share the rendered network and subnet bits unchanged, since they are
/// displayed with the same `addr_binary_network` and `addr_binary_subnet`
/// fields of the output.
pub proof fn lemma_host_min_max(gs: Seq<Seq<char>>, m: int, o: RenderedOutput)
    requires
        m <= 128,
        spec_renders(gs, m, o),
    ensures
        o.netmask_binary_client@.len() == o.host_max_client@.len(),
        forall|i: int|
            0 <= i < o.netmask_binary_client@.len() ==> ((#[trigger] o.netmask_binary_client@[i]
                == '.' && o.host_max_client@[i] == '.') || (o.netmask_binary_client@[i] == '0'
                && o.host_max_client@[i] == '1')),
{
    let hs = spec_host_start(m);
    lemma_fill_parallel('0', '1', hs, 128);
}

proof fn lemma_split_joined(gs: Seq<Seq<char>>)
    requires
        gs.len() >= 1,
        forall|i: int, j: int|
            0 <= i < gs.len() && 0 <= j < gs[i].len() ==> #[trigger] gs[i][j] != ':',
    ensures
        crate::expand::spec_split_colon(spec_joined(gs)) == gs,
    decreases gs.len(),
{
    if gs.len() == 1 {
        crate::expand::lemma_split_colon_free(gs[0]);
        assert(seq![gs[0]] =~= gs);
    } else {
        lemma_split_joined(gs.drop_last());
        crate::expand::lemma_split_colon_concat(spec_joined(gs.drop_last()), gs.last());
        crate::expand::lemma_split_colon_free(gs.last());
        assert(gs.drop_last() + seq![gs.last()] =~= gs);
    }
}

/// Expansion is invariant in the position and use of the elision marker: a
/// valid literal and the fully written canonical form of its expansion
/// expand to the identical eight-group sequence.
pub proof fn lemma_expand_roundtrip(s: Seq<char>)
    requires
        crate::expand::spec_valid_literal(s),
    ensures
        crate::expand::spec_valid_literal(spec_joined(crate::expand::spec_expand(s))),
        crate::expand::spec_expand(spec_joined(crate::expand::spec_expand(s)))
            == crate::expand::spec_expand(s),
{
    let gs = crate::expand::spec_expand(s);
    crate::expand::lemma_expansion_shape(s);
    assert forall|i: int, j: int| 0 <= i < gs.len() && 0 <= j < gs[i].len() implies (
    #[trigger] gs[i][j]) != ':' by {
        assert(spec_is_hex_digit(gs[i][j]));
    }
    lemma_split_joined(gs);
    let ps = crate::expand::spec_split_colon(spec_joined(gs));
    assert(ps == gs);
    assert(crate::expand::spec_shape_full(ps)) by {
        assert forall|i: int| 0 <= i < 8 implies crate::expand::spec_is_group(
            #[trigger] ps[i],
        ) by {
            assert(ps[i].len() == 4);
        }
    }
    assert(!crate::expand::spec_shape_double_colon(ps));
    assert(!crate::expand::spec_shape_leading(ps));
    assert(!crate::expand::spec_shape_trailing(ps));
    assert(!crate::expand::spec_shape_inner(ps)) by {
        if crate::expand::spec_shape_inner(ps) {
            assert(crate::expand::spec_is_group(ps[ps.len() - 1]));
        }
    }
    assert(crate::expand::spec_expand(spec_joined(gs)) =~~= crate::expand::spec_pad_all(gs));
    assert(crate::expand::spec_pad_all(gs) =~~= gs);
}

/// Rendering is deterministic: two outputs rendered from the same expanded
/// address and the same prefix agree in every field, so repeating a run
/// reproduces its output byte for byte.
pub proof fn lemma_render_deterministic(
    gs: Seq<Seq<char>>,
    m: int,
    o1: RenderedOutput,
    o2: RenderedOutput,
)
    requires
        spec_renders(gs, m, o1),
        spec_renders(gs, m, o2),
    ensures
        o1.addr@ == o2.addr@,
        o1.addr_binary_network@ == o2.addr_binary_network@,
        o1.netmask_binary_network@ == o2.netmask_binary_network@,
        o1.addr_binary_subnet@ == o2.addr_binary_subnet@,
        o1.netmask_binary_subnet@ == o2.netmask_binary_subnet@,
        o1.addr_binary_client@ == o2.addr_binary_client@,
        o1.netmask_binary_client@ == o2.netmask_binary_client@,
        o1.host_max_client@ == o2.host_max_client@,
        o1.num_of_host == o2.num_of_host,
{
}

} // verus!
