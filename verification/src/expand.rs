use vstd::prelude::*;
use vstd::string::*;

use crate::chars::chars_of;
use crate::chars::push_char;
use crate::chars::spec_is_hex_digit;
use crate::chars::views;
use crate::errors::CalcError;

verus! {

// ---------------------------------------------------------------------------
// Splitting a literal on single colons.
//
// A compressed literal is understood through the pieces between its colons:
// an elision marker `::` shows up as an empty piece (two empty pieces when it
// stands at either end of the literal).
// ---------------------------------------------------------------------------

/// The pieces of `s` between `:` separators, in order. Always at least one
/// piece; adjacent, leading and trailing separators yield empty pieces.
pub open spec fn spec_split_colon(s: Seq<char>) -> Seq<Seq<char>>
    decreases s.len(),
{
    if s.len() == 0 {
        seq![Seq::<char>::empty()]
    } else if s[0] == ':' {
        seq![Seq::<char>::empty()] + spec_split_colon(s.skip(1))
    } else {
        let rest = spec_split_colon(s.skip(1));
        seq![seq![s[0]] + rest[0]] + rest.skip(1)
    }
}

proof fn lemma_split_colon_len(s: Seq<char>)
    ensures
        spec_split_colon(s).len() >= 1,
    decreases s.len(),
{
    if s.len() == 0 {
    } else {
        lemma_split_colon_len(s.skip(1));
    }
}

/// Appending one character extends the split: a colon opens a fresh empty
/// piece, any other character grows the last piece.
proof fn lemma_split_colon_push(s: Seq<char>, c: char)
    ensures
        c == ':' ==> spec_split_colon(s.push(c)) == spec_split_colon(s).push(
            Seq::<char>::empty(),
        ),
        c != ':' ==> spec_split_colon(s.push(c)) == spec_split_colon(s).update(
            spec_split_colon(s).len() - 1,
            spec_split_colon(s).last().push(c),
        ),
    decreases s.len(),
{
    lemma_split_colon_len(s);
    if s.len() == 0 {
        assert(s.push(c).len() == 1);
        assert(s.push(c)[0] == c);
        assert(s.push(c).skip(1) =~= Seq::<char>::empty());
        assert(spec_split_colon(Seq::<char>::empty()) == seq![Seq::<char>::empty()]);
        if c == ':' {
            assert(spec_split_colon(s.push(c)) == seq![Seq::<char>::empty()] + spec_split_colon(
                Seq::<char>::empty(),
            ));
            assert(spec_split_colon(s.push(c)) =~~= spec_split_colon(s).push(
                Seq::<char>::empty(),
            ));
        } else {
            assert(seq![s.push(c)[0]] + spec_split_colon(s.push(c).skip(1))[0] =~= seq![c]);
            assert(spec_split_colon(s.push(c)) =~~= spec_split_colon(s).update(
                0,
                spec_split_colon(s).last().push(c),
            ));
        }
    } else {
        lemma_split_colon_push(s.skip(1), c);
        lemma_split_colon_len(s.skip(1));
        assert(s.push(c).skip(1) =~= s.skip(1).push(c));
        let base = spec_split_colon(s);
        let rest = spec_split_colon(s.skip(1));
        let rest2 = spec_split_colon(s.skip(1).push(c));
        if s[0] == ':' {
            assert(base == seq![Seq::<char>::empty()] + rest);
            if c == ':' {
                assert(spec_split_colon(s.push(c)) =~~= base.push(Seq::<char>::empty()));
            } else {
                assert(rest2 == rest.update(rest.len() - 1, rest.last().push(c)));
                assert(spec_split_colon(s.push(c)) =~~= base.update(
                    base.len() - 1,
                    base.last().push(c),
                ));
            }
        } else {
            if c == ':' {
                assert(rest2 == rest.push(Seq::<char>::empty()));
                assert(rest2[0] =~= rest[0]);
                assert(rest2.skip(1) =~= rest.skip(1).push(Seq::<char>::empty()));
                assert(spec_split_colon(s.push(c)) =~~= base.push(Seq::<char>::empty()));
            } else {
                assert(rest2 == rest.update(rest.len() - 1, rest.last().push(c)));
                if rest.len() == 1 {
                    assert(rest2[0] =~= rest[0].push(c));
                    assert(rest2.skip(1) =~= rest.skip(1));
                    assert(base.len() == 1);
                    assert(base.last() =~= seq![s[0]] + rest[0]);
                    assert(spec_split_colon(s.push(c)) =~~= base.update(
                        base.len() - 1,
                        base.last().push(c),
                    ));
                } else {
                    assert(rest2[0] =~= rest[0]);
                    assert(rest2.skip(1) =~= rest.skip(1).update(
                        rest.len() - 2,
                        rest.last().push(c),
                    ));
                    assert(spec_split_colon(s.push(c)) =~~= base.update(
                        base.len() - 1,
                        base.last().push(c),
                    ));
                }
            }
        }
    }
}

/// Splitting distributes over an explicit colon: the pieces of
/// `x + ":" + y` are the pieces of `x` followed by the pieces of `y`.
pub(crate) proof fn lemma_split_colon_concat(x: Seq<char>, y: Seq<char>)
    ensures
        spec_split_colon(x + seq![':'] + y) == spec_split_colon(x) + spec_split_colon(y),
    decreases x.len(),
{
    lemma_split_colon_len(x);
    lemma_split_colon_len(y);
    let s = x + seq![':'] + y;
    assert(s.len() == x.len() + 1 + y.len());
    if x.len() == 0 {
        assert(s[0] == ':');
        assert(s.skip(1) =~= y);
        assert(spec_split_colon(s) =~~= spec_split_colon(x) + spec_split_colon(y));
    } else {
        lemma_split_colon_concat(x.skip(1), y);
        assert(s[0] == x[0]);
        assert(s.skip(1) =~= x.skip(1) + seq![':'] + y);
        let rest = spec_split_colon(x.skip(1) + seq![':'] + y);
        let restx = spec_split_colon(x.skip(1));
        assert(rest == restx + spec_split_colon(y));
        if x[0] == ':' {
            assert(spec_split_colon(s) =~~= spec_split_colon(x) + spec_split_colon(y));
        } else {
            assert(rest[0] == restx[0]);
            assert(rest.skip(1) =~= restx.skip(1) + spec_split_colon(y));
            assert(spec_split_colon(s) =~~= spec_split_colon(x) + spec_split_colon(y));
        }
    }
}

/// A string without a colon splits into itself as the single piece.
pub(crate) proof fn lemma_split_colon_free(g: Seq<char>)
    requires
        forall|i: int| 0 <= i < g.len() ==> #[trigger] g[i] != ':',
    ensures
        spec_split_colon(g) == seq![g],
    decreases g.len(),
{
    if g.len() == 0 {
        assert(spec_split_colon(g) =~~= seq![g]);
    } else {
        lemma_split_colon_free(g.skip(1));
        assert(spec_split_colon(g) =~~= seq![g]);
    }
}

// ---------------------------------------------------------------------------
// Groups and padding.
// ---------------------------------------------------------------------------

/// A syntactically valid group: one to four hexadecimal digits.
pub open spec fn spec_is_group(g: Seq<char>) -> bool {
    &&& 1 <= g.len() <= 4
    &&& forall|i: int| 0 <= i < g.len() ==> spec_is_hex_digit(#[trigger] g[i])
}

/// All pieces with index in `[from, to)` are valid groups.
pub open spec fn spec_all_groups(ps: Seq<Seq<char>>, from: int, to: int) -> bool {
    forall|i: int| from <= i < to ==> spec_is_group(#[trigger] ps[i])
}

/// A group left-padded with `'0'` to width four; longer input is untouched.
pub open spec fn spec_pad4(g: Seq<char>) -> Seq<char> {
    if g.len() >= 4 {
        g
    } else {
        Seq::new((4 - g.len()) as nat, |i: int| '0') + g
    }
}

pub open spec fn spec_zero_group() -> Seq<char> {
    seq!['0', '0', '0', '0']
}

/// `n` all-zero groups.
pub open spec fn spec_zero_groups(n: nat) -> Seq<Seq<char>> {
    Seq::new(n, |i: int| spec_zero_group())
}

/// Every piece padded to width four.
pub open spec fn spec_pad_all(ps: Seq<Seq<char>>) -> Seq<Seq<char>> {
    ps.map_values(|g: Seq<char>| spec_pad4(g))
}

/// The index of the first empty piece, or `ps.len()` when none is empty.
pub open spec fn spec_first_empty(ps: Seq<Seq<char>>) -> int
    decreases ps.len(),
{
    if ps.len() == 0 {
        0
    } else if ps[0].len() == 0 {
        0
    } else {
        1 + spec_first_empty(ps.skip(1))
    }
}

proof fn lemma_first_empty_at(ps: Seq<Seq<char>>, i: int)
    requires
        0 <= i < ps.len(),
        ps[i].len() == 0,
        forall|j: int| 0 <= j < i ==> (#[trigger] ps[j]).len() > 0,
    ensures
        spec_first_empty(ps) == i,
    decreases i,
{
    if i > 0 {
        lemma_first_empty_at(ps.skip(1), i - 1);
    }
}

proof fn lemma_first_empty_none(ps: Seq<Seq<char>>)
    requires
        forall|j: int| 0 <= j < ps.len() ==> (#[trigger] ps[j]).len() > 0,
    ensures
        spec_first_empty(ps) == ps.len(),
    decreases ps.len(),
{
    if ps.len() > 0 {
        lemma_first_empty_none(ps.skip(1));
    }
}

// ---------------------------------------------------------------------------
// The shapes a valid literal can take, over its colon pieces.
// ---------------------------------------------------------------------------

/// No elision: exactly eight explicit groups.
pub open spec fn spec_shape_full(ps: Seq<Seq<char>>) -> bool {
    ps.len() == 8 && spec_all_groups(ps, 0, 8)
}

/// The bare literal `::`, standing for eight zero groups.
pub open spec fn spec_shape_double_colon(ps: Seq<Seq<char>>) -> bool {
    ps.len() == 3 && ps[0].len() == 0 && ps[1].len() == 0 && ps[2].len() == 0
}

/// A literal starting with `::` followed by one or more groups.
pub open spec fn spec_shape_leading(ps: Seq<Seq<char>>) -> bool {
    &&& ps.len() >= 3
    &&& ps[0].len() == 0
    &&& ps[1].len() == 0
    &&& spec_all_groups(ps, 2, ps.len() as int)
    &&& ps.len() - 2 <= 8
}

/// A literal ending with `::` preceded by one or more groups.
pub open spec fn spec_shape_trailing(ps: Seq<Seq<char>>) -> bool {
    &&& ps.len() >= 3
    &&& ps[ps.len() - 1].len() == 0
    &&& ps[ps.len() - 2].len() == 0
    &&& spec_all_groups(ps, 0, ps.len() - 2)
    &&& ps.len() - 2 <= 8
}

/// A literal with `::` between two non-empty runs of groups.
pub open spec fn spec_shape_inner(ps: Seq<Seq<char>>) -> bool {
    let k = spec_first_empty(ps);
    &&& ps.len() >= 3
    &&& 1 <= k <= ps.len() - 2
    &&& ps[k].len() == 0
    &&& spec_all_groups(ps, 0, k)
    &&& spec_all_groups(ps, k + 1, ps.len() as int)
    &&& ps.len() - 1 <= 8
}

/// A syntactically valid compressed or fully written IPv6 literal: eight
/// explicit groups, or at most one elision marker whose implied zero groups
/// (possibly none) restore the count to eight.
pub open spec fn spec_valid_literal(s: Seq<char>) -> bool {
    let ps = spec_split_colon(s);
    ||| spec_shape_full(ps)
    ||| spec_shape_double_colon(ps)
    ||| spec_shape_leading(ps)
    ||| spec_shape_trailing(ps)
    ||| spec_shape_inner(ps)
}

/// The canonical eight-group expansion of a valid literal: every explicit
/// group padded to four digits, the elision replaced by zero groups.
pub open spec fn spec_expand(s: Seq<char>) -> Seq<Seq<char>> {
    let ps = spec_split_colon(s);
    let n = ps.len() as int;
    if spec_shape_double_colon(ps) {
        spec_zero_groups(8)
    } else if spec_shape_leading(ps) {
        spec_zero_groups((8 - (n - 2)) as nat) + spec_pad_all(ps.skip(2))
    } else if spec_shape_trailing(ps) {
        spec_pad_all(ps.take(n - 2)) + spec_zero_groups((8 - (n - 2)) as nat)
    } else if spec_shape_inner(ps) {
        let k = spec_first_empty(ps);
        spec_pad_all(ps.take(k)) + spec_zero_groups((8 - (n - 1)) as nat) + spec_pad_all(
            ps.skip(k + 1),
        )
    } else {
        spec_pad_all(ps)
    }
}

/// An expansion in canonical form: exactly eight groups of four hexadecimal
/// digits each.
pub open spec fn spec_wf_groups(gs: Seq<Seq<char>>) -> bool {
    &&& gs.len() == 8
    &&& forall|i: int|
        0 <= i < 8 ==> (#[trigger] gs[i]).len() == 4 && (forall|j: int|
            0 <= j < 4 ==> spec_is_hex_digit(#[trigger] gs[i][j]))
}

/// Expansion is total and length-preserving: every valid literal expands to
/// exactly eight groups of four hexadecimal characters each.
pub proof fn lemma_expansion_shape(s: Seq<char>)
    requires
        spec_valid_literal(s),
    ensures
        spec_wf_groups(spec_expand(s)),
{
    let ps = spec_split_colon(s);
    let n = ps.len() as int;
    assert forall|g: Seq<char>| spec_is_group(g) implies spec_pad4(g).len() == 4 && (forall|j: int|
        0 <= j < 4 ==> spec_is_hex_digit(#[trigger] spec_pad4(g)[j])) by {
        assert forall|j: int| 0 <= j < 4 implies spec_is_hex_digit(#[trigger] spec_pad4(g)[j]) by {
            if g.len() < 4 && j >= 4 - g.len() {
                assert(spec_pad4(g)[j] == g[j - (4 - g.len())]);
            }
        }
    }
    assert(spec_is_hex_digit('0'));
    if spec_shape_double_colon(ps) {
    } else if spec_shape_leading(ps) {
        assert(spec_expand(s).len() == 8);
    } else if spec_shape_trailing(ps) {
        assert(spec_expand(s).len() == 8);
    } else if spec_shape_inner(ps) {
        let k = spec_first_empty(ps);
        assert(spec_expand(s).len() == k + (8 - (n - 1)) + (n - k - 1));
    } else {
        assert(spec_shape_full(ps));
    }
}

// ---------------------------------------------------------------------------
// Executable expansion.
// ---------------------------------------------------------------------------

/// Left-pads a group with `'0'` characters to a width of four; a longer
/// value is returned unchanged, never truncated.
pub fn pad_section(value: &str) -> (r: String)
    ensures
        r@ == spec_pad4(value@),
{
    let n: usize = value.unicode_len();
    let mut r: String = String::new();
    let mut cnt: usize = 0;
    while cnt + n < 4
        invariant
            n == value@.len(),
            n < 4 ==> cnt + n <= 4,
            n >= 4 ==> cnt == 0,
            r@ == Seq::new(cnt as nat, |i: int| '0'),
        decreases 4 - cnt - n,
    {
        push_char(&mut r, '0');
        proof {
            assert(r@ =~= Seq::new((cnt + 1) as nat, |i: int| '0'));
        }
        cnt += 1;
    }
    r.append(value);
    proof {
        assert(r@ =~= spec_pad4(value@));
    }
    r
}

/// Whether the string is a valid group of one to four hexadecimal digits.
fn is_group_str(s: &String) -> (b: bool)
    ensures
        b == spec_is_group(s@),
{
    let n: usize = s.as_str().unicode_len();
    if n < 1 || n > 4 {
        return false;
    }
    let mut i: usize = 0;
    while i < n
        invariant
            0 <= i <= n,
            n == s@.len(),
            1 <= n <= 4,
            forall|j: int| 0 <= j < i ==> spec_is_hex_digit(#[trigger] s@[j]),
        decreases n - i,
    {
        if !crate::chars::is_hex_digit(s.as_str().get_char(i)) {
            return false;
        }
        i += 1;
    }
    true
}

proof fn lemma_views_push(ss: Seq<String>, s: String)
    ensures
        views(ss.push(s)) == views(ss).push(s@),
{
    assert(views(ss.push(s)) =~~= views(ss).push(s@));
}

/// Whether the pieces with index in `[from, to)` are all valid groups.
fn all_groups_range(pieces: &Vec<String>, from: usize, to: usize) -> (b: bool)
    requires
        from <= to <= pieces@.len(),
    ensures
        b == spec_all_groups(views(pieces@), from as int, to as int),
{
    let mut i: usize = from;
    while i < to
        invariant
            from <= i <= to <= pieces@.len(),
            forall|j: int| from <= j < i ==> spec_is_group(#[trigger] views(pieces@)[j]),
        decreases to - i,
    {
        if !is_group_str(&pieces[i]) {
            proof {
                assert(views(pieces@)[i as int] == pieces@[i as int]@);
            }
            return false;
        }
        i += 1;
    }
    true
}

/// Splits the literal's characters on every single `:` into its pieces.
fn split_pieces(lit: &Vec<char>) -> (r: Vec<String>)
    ensures
        views(r@) == spec_split_colon(lit@),
        r@.len() >= 1,
{
    let mut done: Vec<String> = Vec::new();
    let mut cur: String = String::new();
    let mut i: usize = 0;
    proof {
        assert(views(done@).push(cur@) =~~= spec_split_colon(lit@.take(0)));
    }
    while i < lit.len()
        invariant
            0 <= i <= lit@.len(),
            views(done@).push(cur@) == spec_split_colon(lit@.take(i as int)),
        decreases lit@.len() - i,
    {
        let c = lit[i];
        proof {
            lemma_split_colon_push(lit@.take(i as int), c);
            assert(lit@.take(i as int).push(c) =~= lit@.take(i + 1));
        }
        let ghost base = spec_split_colon(lit@.take(i as int));
        if c == ':' {
            let ghost prev_cur = cur@;
            done.push(cur);
            cur = String::new();
            proof {
                assert(views(done@).push(cur@) =~~= base.push(Seq::<char>::empty()));
            }
        } else {
            let ghost prev_cur = cur@;
            push_char(&mut cur, c);
            proof {
                assert(base.last() == prev_cur);
                assert(views(done@).push(cur@) =~~= base.update(base.len() - 1, base.last().push(c)));
            }
        }
        i += 1;
    }
    proof {
        assert(lit@.take(lit@.len() as int) =~= lit@);
    }
    done.push(cur);
    proof {
        assert(views(done@) =~~= spec_split_colon(lit@));
    }
    done
}

/// Appends `cnt` all-zero groups.
fn push_zero_groups(out: &mut Vec<String>, cnt: usize)
    ensures
        views(final(out)@) == views(old(out)@) + spec_zero_groups(cnt as nat),
{
    let ghost orig = out@;
    let mut i: usize = 0;
    while i < cnt
        invariant
            0 <= i <= cnt,
            views(out@) == views(orig) + spec_zero_groups(i as nat),
        decreases cnt - i,
    {
        let ghost prev = out@;
        let z = String::from_str("0000");
        out.push(z);
        proof {
            reveal_strlit("0000");
            assert(("0000")@ =~= spec_zero_group());
            lemma_views_push(prev, z);
            assert(views(out@) =~~= views(orig) + spec_zero_groups((i + 1) as nat));
        }
        i += 1;
    }
}

/// Appends the pieces with index in `[from, to)`, each padded to four digits.
fn push_padded(out: &mut Vec<String>, pieces: &Vec<String>, from: usize, to: usize)
    requires
        from <= to <= pieces@.len(),
    ensures
        views(final(out)@) == views(old(out)@) + spec_pad_all(
            views(pieces@).subrange(from as int, to as int),
        ),
{
    let ghost orig = out@;
    proof {
        assert(views(out@) =~~= views(orig) + spec_pad_all(
            views(pieces@).subrange(from as int, from as int),
        ));
    }
    let mut i: usize = from;
    while i < to
        invariant
            from <= i <= to <= pieces@.len(),
            views(out@) == views(orig) + spec_pad_all(
                views(pieces@).subrange(from as int, i as int),
            ),
        decreases to - i,
    {
        let ghost prev = out@;
        let p = pad_section(pieces[i].as_str());
        out.push(p);
        proof {
            lemma_views_push(prev, p);
            assert(views(pieces@)[i as int] == pieces@[i as int]@);
            assert(views(pieces@).subrange(from as int, i + 1) =~= views(pieces@).subrange(
                from as int,
                i as int,
            ).push(views(pieces@)[i as int]));
            assert(views(out@) =~~= views(orig) + spec_pad_all(
                views(pieces@).subrange(from as int, i + 1),
            ));
        }
        i += 1;
    }
}

/// Expands a compressed IPv6 literal into its canonical eight groups of four
/// hexadecimal digits, restoring the groups elided by a `::` marker. Fails
/// exactly on literals that are not syntactically valid.
pub fn expand_address(ipv6: &str) -> (r: Result<Vec<String>, CalcError>)
    ensures
        match r {
            Ok(groups) => {
                &&& spec_valid_literal(ipv6@)
                &&& views(groups@) == spec_expand(ipv6@)
                &&& spec_wf_groups(views(groups@))
            },
            Err(e) => {
                &&& !spec_valid_literal(ipv6@)
                &&& e == CalcError::MalformedAddress
            },
        },
{
    let lit = chars_of(ipv6);
    let pieces = split_pieces(&lit);
    let n = pieces.len();
    let ghost ps = spec_split_colon(ipv6@);
    proof {
        assert(views(pieces@) == ps);
    }
    if n == 3 && pieces[0].as_str().is_empty() && pieces[1].as_str().is_empty()
        && pieces[2].as_str().is_empty() {
        // the bare literal `::`
        let mut out: Vec<String> = Vec::new();
        push_zero_groups(&mut out, 8);
        proof {
            assert(spec_shape_double_colon(ps));
            assert(views(out@) =~~= spec_expand(ipv6@));
            lemma_expansion_shape(ipv6@);
        }
        Ok(out)
    } else if n >= 3 && pieces[0].as_str().is_empty() && pieces[1].as_str().is_empty() {
        // elision at the start, e.g. `::1`
        if n - 2 <= 8 && all_groups_range(&pieces, 2, n) {
            let mut out: Vec<String> = Vec::new();
            push_zero_groups(&mut out, 8 - (n - 2));
            push_padded(&mut out, &pieces, 2, n);
            proof {
                assert(spec_shape_leading(ps));
                assert(!spec_shape_double_colon(ps));
                assert(views(pieces@).subrange(2, n as int) =~= ps.skip(2));
                assert(views(out@) =~~= spec_expand(ipv6@));
                lemma_expansion_shape(ipv6@);
            }
            Ok(out)
        } else {
            proof {
                assert(!spec_shape_leading(ps));
                assert(!spec_shape_full(ps)) by {
                    if spec_shape_full(ps) {
                        assert(spec_is_group(ps[0]));
                    }
                }
                assert(!spec_shape_double_colon(ps));
                assert(!spec_shape_trailing(ps)) by {
                    if spec_shape_trailing(ps) {
                        assert(spec_is_group(ps[0]));
                    }
                }
                assert(!spec_shape_inner(ps)) by {
                    if spec_shape_inner(ps) {
                        assert(spec_is_group(ps[0]));
                    }
                }
            }
            Err(CalcError::MalformedAddress)
        }
    } else if n >= 3 && pieces[n - 1].as_str().is_empty() && pieces[n - 2].as_str().is_empty() {
        // elision at the end, e.g. `2a01:e34::`
        if n - 2 <= 8 && all_groups_range(&pieces, 0, n - 2) {
            let mut out: Vec<String> = Vec::new();
            push_padded(&mut out, &pieces, 0, n - 2);
            push_zero_groups(&mut out, 8 - (n - 2));
            proof {
                assert(spec_shape_trailing(ps));
                assert(!spec_shape_double_colon(ps));
                assert(!spec_shape_leading(ps));
                assert(views(pieces@).subrange(0, n - 2) =~= ps.take(n - 2));
                assert(views(out@) =~~= spec_expand(ipv6@));
                lemma_expansion_shape(ipv6@);
            }
            Ok(out)
        } else {
            proof {
                assert(!spec_shape_trailing(ps));
                assert(!spec_shape_full(ps)) by {
                    if spec_shape_full(ps) {
                        assert(spec_is_group(ps[ps.len() - 1]));
                    }
                }
                assert(!spec_shape_double_colon(ps));
                assert(!spec_shape_leading(ps)) by {
                    if spec_shape_leading(ps) {
                        assert(spec_is_group(ps[ps.len() - 1]));
                    }
                }
                assert(!spec_shape_inner(ps)) by {
                    if spec_shape_inner(ps) {
                        assert(spec_is_group(ps[ps.len() - 1]));
                    }
                }
            }
            Err(CalcError::MalformedAddress)
        }
    } else {
        // no elision at either end: look for one empty piece in the middle
        let mut k: usize = 0;
        while k < n && !pieces[k].as_str().is_empty()
            invariant
                0 <= k <= n,
                n == ps.len(),
                views(pieces@) == ps,
                forall|j: int| 0 <= j < k ==> (#[trigger] ps[j]).len() > 0,
            decreases n - k,
        {
            k += 1;
        }
        if k == n {
            // no elision anywhere: exactly eight explicit groups are required
            proof {
                lemma_first_empty_none(ps);
            }
            if n == 8 && all_groups_range(&pieces, 0, 8) {
                let mut out: Vec<String> = Vec::new();
                push_padded(&mut out, &pieces, 0, 8);
                proof {
                    assert(spec_shape_full(ps));
                    assert(!spec_shape_double_colon(ps));
                    assert(!spec_shape_leading(ps));
                    assert(!spec_shape_trailing(ps));
                    assert(!spec_shape_inner(ps));
                    assert(views(pieces@).subrange(0, 8) =~= ps);
                    assert(views(out@) =~~= spec_expand(ipv6@));
                    lemma_expansion_shape(ipv6@);
                }
                Ok(out)
            } else {
                proof {
                    assert(!spec_shape_full(ps));
                    assert(!spec_shape_double_colon(ps));
                    assert(!spec_shape_leading(ps));
                    assert(!spec_shape_trailing(ps));
                    assert(!spec_shape_inner(ps));
                }
                Err(CalcError::MalformedAddress)
            }
        } else {
            // an empty piece at k: a `::` marker inside the literal
            proof {
                lemma_first_empty_at(ps, k as int);
            }
            if k >= 1 && k <= n - 2 && n - 1 <= 8 && all_groups_range(&pieces, 0, k)
                && all_groups_range(&pieces, k + 1, n) {
                let mut out: Vec<String> = Vec::new();
                push_padded(&mut out, &pieces, 0, k);
                push_zero_groups(&mut out, 8 - (n - 1));
                push_padded(&mut out, &pieces, k + 1, n);
                proof {
                    assert(spec_shape_inner(ps));
                    assert(!spec_shape_double_colon(ps));
                    assert(!spec_shape_leading(ps));
                    assert(!spec_shape_trailing(ps));
                    assert(views(pieces@).subrange(0, k as int) =~= ps.take(k as int));
                    assert(views(pieces@).subrange(k + 1, n as int) =~= ps.skip(k + 1));
                    assert(views(out@) =~~= spec_expand(ipv6@));
                    lemma_expansion_shape(ipv6@);
                }
                Ok(out)
            } else {
                proof {
                    assert(!spec_shape_inner(ps));
                    assert(!spec_shape_full(ps));
                    assert(!spec_shape_double_colon(ps));
                    assert(!spec_shape_leading(ps));
                    assert(!spec_shape_trailing(ps));
                }
                Err(CalcError::MalformedAddress)
            }
        }
    }
}

} // verus!
