//! Version-filename grammar and parsing.
//!
//! A version filename has the shape `v<major>[.<minor>[.<patch>]]`: the
//! literal character `v` followed by one to three non-empty decimal segments
//! separated by `.`, each representable in 32 bits. Missing trailing segments
//! default to zero, so `v1` and `v1.0.0` denote the same version value.

use vstd::prelude::*;

verus! {

/// A parsed version: the (major, minor, patch) triple.
pub type Version = (u32, u32, u32);

/// A decimal digit.
pub open spec fn is_digit(c: char) -> bool {
    '0' <= c && c <= '9'
}

/// The numeric value of one decimal digit.
pub open spec fn digit_value(c: char) -> int {
    c as int - '0' as int
}

/// The value of a digit sequence read as a base-10 numeral
/// (most significant digit first).
pub open spec fn seg_value(s: Seq<char>) -> int
    decreases s.len(),
{
    if s.len() == 0 {
        0
    } else {
        seg_value(s.drop_last()) * 10 + digit_value(s.last())
    }
}

/// A well-formed numeric segment: non-empty and all digits.
pub open spec fn is_numeric_segment(s: Seq<char>) -> bool {
    s.len() > 0 && (forall|i: int| 0 <= i < s.len() ==> is_digit(s[i]))
}

/// What one segment parses to: its numeric value, provided the segment is
/// non-empty, all digits, and the value fits in 32 bits.
pub open spec fn segment_u32(s: Seq<char>) -> Option<u32> {
    if is_numeric_segment(s) && seg_value(s) <= u32::MAX as int {
        Some(seg_value(s) as u32)
    } else {
        None
    }
}

/// Splitting a character sequence at every `.`, as `split('.')` does:
/// the result always has one more element than the input has dots, and
/// an empty input yields one empty segment.
pub open spec fn split_dots(s: Seq<char>) -> Seq<Seq<char>>
    decreases s.len(),
{
    if s.len() == 0 {
        seq![s]
    } else if s[0] == '.' {
        seq![Seq::<char>::empty()] + split_dots(s.subrange(1, s.len() as int))
    } else {
        let rest = split_dots(s.subrange(1, s.len() as int));
        seq![seq![s[0]] + rest[0]] + rest.subrange(1, rest.len() as int)
    }
}

/// The version-filename grammar: a leading `v`, then one to three numeric
/// segments separated by `.`; absent minor and patch segments default to 0.
/// Anything else is not a version filename.
pub open spec fn parse_version_spec(s: Seq<char>) -> Option<Version> {
    if s.len() == 0 || s[0] != 'v' {
        None
    } else {
        let segs = split_dots(s.subrange(1, s.len() as int));
        if segs.len() == 1 {
            match segment_u32(segs[0]) {
                Some(a) => Some((a, 0u32, 0u32)),
                None => None,
            }
        } else if segs.len() == 2 {
            match (segment_u32(segs[0]), segment_u32(segs[1])) {
                (Some(a), Some(b)) => Some((a, b, 0u32)),
                _ => None,
            }
        } else if segs.len() == 3 {
            match (segment_u32(segs[0]), segment_u32(segs[1]), segment_u32(segs[2])) {
                (Some(a), Some(b), Some(c)) => Some((a, b, c)),
                _ => None,
            }
        } else {
            None
        }
    }
}

/// A split has at least one segment.
pub proof fn lemma_split_dots_len(s: Seq<char>)
    ensures
        split_dots(s).len() >= 1,
    decreases s.len(),
{
    if s.len() == 0 {
    } else if s[0] == '.' {
        lemma_split_dots_len(s.subrange(1, s.len() as int));
    } else {
        lemma_split_dots_len(s.subrange(1, s.len() as int));
    }
}

/// A dot-free sequence splits into itself alone.
pub proof fn lemma_split_dots_no_dot(s: Seq<char>)
    requires
        forall|i: int| 0 <= i < s.len() ==> s[i] != '.',
    ensures
        split_dots(s) == seq![s],
    decreases s.len(),
{
    if s.len() == 0 {
        assert(split_dots(s) == seq![s]);
    } else {
        let tail = s.subrange(1, s.len() as int);
        lemma_split_dots_no_dot(tail);
        lemma_split_dots_len(tail);
        assert(seq![s[0]] + tail =~= s);
        assert(split_dots(s) =~= seq![seq![s[0]] + tail]);
        assert(split_dots(s) == seq![s]);
    }
}

/// Splitting at the first dot: if `x` is dot-free, the split of
/// `x + "." + y` is `x` followed by the split of `y`.
pub proof fn lemma_split_dots_first_dot(x: Seq<char>, y: Seq<char>)
    requires
        forall|i: int| 0 <= i < x.len() ==> x[i] != '.',
    ensures
        split_dots(x + seq!['.'] + y) == seq![x] + split_dots(y),
    decreases x.len(),
{
    let s = x + seq!['.'] + y;
    if x.len() == 0 {
        assert(s[0] == '.');
        assert(s.subrange(1, s.len() as int) =~= y);
        assert(x =~= Seq::<char>::empty());
        assert(split_dots(s) =~= seq![x] + split_dots(y));
    } else {
        let x1 = x.subrange(1, x.len() as int);
        assert(s[0] == x[0]);
        assert(s.subrange(1, s.len() as int) =~= x1 + seq!['.'] + y);
        lemma_split_dots_first_dot(x1, y);
        let rest = split_dots(x1 + seq!['.'] + y);
        lemma_split_dots_len(y);
        assert(rest == seq![x1] + split_dots(y));
        assert(rest[0] == x1);
        assert(seq![s[0]] + rest[0] =~= x);
        assert(rest.subrange(1, rest.len() as int) =~= split_dots(y));
        assert(split_dots(s) =~= seq![x] + split_dots(y));
    }
}

/// A digit sequence has a non-negative value.
pub proof fn lemma_seg_value_nonneg(s: Seq<char>)
    requires
        forall|i: int| 0 <= i < s.len() ==> is_digit(s[i]),
    ensures
        seg_value(s) >= 0,
    decreases s.len(),
{
    if s.len() > 0 {
        lemma_seg_value_nonneg(s.drop_last());
    }
}

/// Reading more digits never shrinks the value: every prefix of a digit
/// sequence is worth at most the whole.
pub proof fn lemma_seg_value_prefix_le(s: Seq<char>, i: int)
    requires
        0 <= i <= s.len(),
        forall|j: int| 0 <= j < s.len() ==> is_digit(s[j]),
    ensures
        seg_value(s.subrange(0, i)) <= seg_value(s),
    decreases s.len() - i,
{
    if i == s.len() {
        assert(s.subrange(0, i) =~= s);
    } else {
        let p = s.subrange(0, i);
        let q = s.subrange(0, i + 1);
        assert(q.drop_last() =~= p);
        lemma_seg_value_nonneg(p);
        lemma_seg_value_prefix_le(s, i + 1);
    }
}

/// Parses the characters of `s` in the index range `[from, to)` as one
/// numeric segment, exactly as the grammar reads it.
fn parse_u32_range(s: &str, from: usize, to: usize) -> (r: Option<u32>)
    requires
        from <= to <= s@.len(),
    ensures
        r == segment_u32(s@.subrange(from as int, to as int)),
{
    let ghost seg = s@.subrange(from as int, to as int);
    if from == to {
        return None;
    }
    let mut acc: u64 = 0;
    let mut i: usize = from;
    while i < to
        invariant
            from <= i <= to <= s@.len(),
            seg == s@.subrange(from as int, to as int),
            forall|j: int| 0 <= j < i - from ==> is_digit(seg[j]),
            acc == seg_value(seg.subrange(0, i - from)),
            acc <= u32::MAX as u64,
        decreases to - i,
    {
        let c = s.get_char(i);
        let cv = c as u32;
        proof {
            assert(seg[i - from] == s@[i as int]);
        }
        if cv < '0' as u32 || cv > '9' as u32 {
            proof {
                assert(!is_digit(seg[i - from]));
                assert(!is_numeric_segment(seg));
            }
            return None;
        }
        let d: u64 = (cv - '0' as u32) as u64;
        proof {
            assert(seg.subrange(0, i + 1 - from).drop_last() =~= seg.subrange(0, i - from));
            assert(seg.subrange(0, i + 1 - from).last() == seg[i - from]);
        }
        acc = acc * 10 + d;
        i = i + 1;
        if acc > u32::MAX as u64 {
            proof {
                if is_numeric_segment(seg) {
                    lemma_seg_value_prefix_le(seg, i - from);
                }
            }
            return None;
        }
    }
    proof {
        assert(seg.subrange(0, to - from) =~= seg);
        assert(is_numeric_segment(seg));
    }
    Some(acc as u32)
}

/// Parses a filename as a version: a leading `v`, then one to three numeric
/// dot-separated segments, each fitting in 32 bits; missing minor and patch
/// default to 0. Returns the triple, or nothing when the name does not match
/// the grammar.
pub fn parse_version(filename: &str) -> (r: Option<Version>)
    ensures
        r == parse_version_spec(filename@),
{
    let n = filename.unicode_len();
    if n == 0 {
        return None;
    }
    if filename.get_char(0) != 'v' {
        return None;
    }
    let ghost rem = filename@.subrange(1, n as int);
    let mut first_dot: Option<usize> = None;
    let mut second_dot: Option<usize> = None;
    let mut i: usize = 1;
    while i < n
        invariant
            1 <= i <= n,
            n == filename@.len(),
            rem == filename@.subrange(1, n as int),
            match (first_dot, second_dot) {
                (Option::None, Option::None) => forall|j: int|
                    1 <= j < i ==> filename@[j] != '.',
                (Option::Some(p), Option::None) => 1 <= p < i && filename@[p as int] == '.'
                    && forall|j: int| 1 <= j < i && j != p ==> filename@[j] != '.',
                (Option::Some(p), Option::Some(q)) => 1 <= p < q < i && filename@[p as int] == '.'
                    && filename@[q as int] == '.'
                    && forall|j: int| 1 <= j < i && j != p && j != q ==> filename@[j] != '.',
                (Option::None, Option::Some(_)) => false,
            },
        decreases n - i,
    {
        let c = filename.get_char(i);
        if c == '.' {
            match (first_dot, second_dot) {
                (Option::None, _) => {
                    first_dot = Some(i);
                },
                (Option::Some(_), Option::None) => {
                    second_dot = Some(i);
                },
                (Option::Some(p), Option::Some(q)) => {
                    proof {
                        let x1 = filename@.subrange(1, p as int);
                        let x2 = filename@.subrange(p as int + 1, q as int);
                        let x3 = filename@.subrange(q as int + 1, i as int);
                        let tail1 = filename@.subrange(p as int + 1, n as int);
                        let tail2 = filename@.subrange(q as int + 1, n as int);
                        let tail3 = filename@.subrange(i as int + 1, n as int);
                        assert(rem =~= x1 + seq!['.'] + tail1);
                        lemma_split_dots_first_dot(x1, tail1);
                        assert(tail1 =~= x2 + seq!['.'] + tail2);
                        lemma_split_dots_first_dot(x2, tail2);
                        assert(tail2 =~= x3 + seq!['.'] + tail3);
                        lemma_split_dots_first_dot(x3, tail3);
                        lemma_split_dots_len(tail3);
                        assert(split_dots(rem).len() >= 4);
                    }
                    return None;
                },
            }
        }
        i = i + 1;
    }
    match (first_dot, second_dot) {
        (Option::None, Option::None) => {
            proof {
                assert(forall|k: int| 0 <= k < rem.len() ==> rem[k] == filename@[1 + k]);
                lemma_split_dots_no_dot(rem);
            }
            match parse_u32_range(filename, 1, n) {
                Some(a) => Some((a, 0u32, 0u32)),
                None => None,
            }
        },
        (Option::Some(p), Option::None) => {
            let ghost x1 = filename@.subrange(1, p as int);
            let ghost x2 = filename@.subrange(p as int + 1, n as int);
            proof {
                assert(rem =~= x1 + seq!['.'] + x2);
                lemma_split_dots_first_dot(x1, x2);
                lemma_split_dots_no_dot(x2);
            }
            let a = parse_u32_range(filename, 1, p);
            let b = parse_u32_range(filename, p + 1, n);
            match (a, b) {
                (Option::Some(a), Option::Some(b)) => Some((a, b, 0u32)),
                _ => None,
            }
        },
        (Option::Some(p), Option::Some(q)) => {
            let ghost x1 = filename@.subrange(1, p as int);
            let ghost x2 = filename@.subrange(p as int + 1, q as int);
            let ghost x3 = filename@.subrange(q as int + 1, n as int);
            let ghost tail1 = filename@.subrange(p as int + 1, n as int);
            proof {
                assert(rem =~= x1 + seq!['.'] + tail1);
                lemma_split_dots_first_dot(x1, tail1);
                assert(tail1 =~= x2 + seq!['.'] + x3);
                lemma_split_dots_first_dot(x2, x3);
                lemma_split_dots_no_dot(x3);
            }
            let a = parse_u32_range(filename, 1, p);
            let b = parse_u32_range(filename, p + 1, q);
            let c = parse_u32_range(filename, q + 1, n);
            match (a, b, c) {
                (Option::Some(a), Option::Some(b), Option::Some(c)) => Some((a, b, c)),
                _ => None,
            }
        },
        (Option::None, Option::Some(_)) => {
            proof {
                assert(false);
            }
            None
        },
    }
}

/// Strict ordering of versions: lexicographic on (major, minor, patch),
/// each component compared numerically.
pub open spec fn version_lt(a: Version, b: Version) -> bool {
    a.0 < b.0 || (a.0 == b.0 && (a.1 < b.1 || (a.1 == b.1 && a.2 < b.2)))
}

/// Decides whether version `a` precedes version `b`.
pub fn version_less(a: &Version, b: &Version) -> (r: bool)
    ensures
        r == version_lt(*a, *b),
{
    if a.0 != b.0 {
        a.0 < b.0
    } else if a.1 != b.1 {
        a.1 < b.1
    } else {
        a.2 < b.2
    }
}

/// Version ordering is a strict total order: irreflexive, asymmetric,
/// transitive, and any two distinct versions are comparable.
pub proof fn lemma_version_order_strict_total(a: Version, b: Version, c: Version)
    ensures
        !version_lt(a, a),
        version_lt(a, b) ==> !version_lt(b, a),
        version_lt(a, b) && version_lt(b, c) ==> version_lt(a, c),
        a != b ==> version_lt(a, b) || version_lt(b, a),
{
}

/// Every well-formed version filename parses, and absent segments default
/// to zero: `v<a>` yields (a, 0, 0), `v<a>.<b>` yields (a, b, 0), and
/// `v<a>.<b>.<c>` yields (a, b, c), for any digit segments whose values
/// fit in 32 bits.
pub proof fn lemma_parser_accepts_versions(sa: Seq<char>, sb: Seq<char>, sc: Seq<char>)
    requires
        is_numeric_segment(sa) && seg_value(sa) <= u32::MAX as int,
        is_numeric_segment(sb) && seg_value(sb) <= u32::MAX as int,
        is_numeric_segment(sc) && seg_value(sc) <= u32::MAX as int,
    ensures
        parse_version_spec(seq!['v'] + sa) == Some((seg_value(sa) as u32, 0u32, 0u32)),
        parse_version_spec(seq!['v'] + sa + seq!['.'] + sb) == Some(
            (seg_value(sa) as u32, seg_value(sb) as u32, 0u32),
        ),
        parse_version_spec(seq!['v'] + sa + seq!['.'] + sb + seq!['.'] + sc) == Some(
            (seg_value(sa) as u32, seg_value(sb) as u32, seg_value(sc) as u32),
        ),
{
    let s1 = seq!['v'] + sa;
    assert(s1.subrange(1, s1.len() as int) =~= sa);
    lemma_split_dots_no_dot(sa);

    let s2 = seq!['v'] + sa + seq!['.'] + sb;
    assert(s2[0] == 'v');
    assert(s2.subrange(1, s2.len() as int) =~= sa + seq!['.'] + sb);
    lemma_split_dots_first_dot(sa, sb);
    lemma_split_dots_no_dot(sb);

    let s3 = seq!['v'] + sa + seq!['.'] + sb + seq!['.'] + sc;
    let tail = sb + seq!['.'] + sc;
    assert(s3[0] == 'v');
    assert(s3.subrange(1, s3.len() as int) =~= sa + seq!['.'] + tail);
    lemma_split_dots_first_dot(sa, tail);
    lemma_split_dots_first_dot(sb, sc);
    lemma_split_dots_no_dot(sc);
}

/// Every string outside the grammar is rejected: a missing `v` prefix,
/// more than three dot-segments, or any segment that is empty, non-numeric
/// or too large for 32 bits yields no version.
pub proof fn lemma_parser_rejects(s: Seq<char>)
    ensures
        s.len() == 0 ==> parse_version_spec(s) is None,
        s.len() > 0 && s[0] != 'v' ==> parse_version_spec(s) is None,
        s.len() > 0 && split_dots(s.subrange(1, s.len() as int)).len() > 3
            ==> parse_version_spec(s) is None,
        s.len() > 0 && (exists|k: int|
            0 <= k < split_dots(s.subrange(1, s.len() as int)).len() && #[trigger] segment_u32(
                split_dots(s.subrange(1, s.len() as int))[k],
            ) is None) ==> parse_version_spec(s) is None,
{
}

} // verus!
